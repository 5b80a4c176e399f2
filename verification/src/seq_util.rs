//! Small sequence lemmas shared by the table-scanning loops.

use vstd::prelude::*;

verus! {

/// How one loop step extends a filtered prefix: taking one more element
/// either appends it to the filtered sequence or leaves it unchanged,
/// according to the predicate.
pub proof fn lemma_filter_take_step<A>(s: Seq<A>, pred: spec_fn(A) -> bool, i: int)
    requires
        0 <= i < s.len(),
    ensures
        pred(s[i]) ==> s.take(i + 1).filter(pred) == s.take(i).filter(pred).push(s[i]),
        !pred(s[i]) ==> s.take(i + 1).filter(pred) == s.take(i).filter(pred),
{
    reveal(Seq::filter);
    assert(s.take(i + 1).drop_last() =~= s.take(i));
    assert(s.take(i + 1).last() == s[i]);
}

/// Every element of a filtered sequence comes from the original, and any
/// two positions come from two positions in the original order.  This is
/// what lets table invariants (row order, uniqueness) survive a deletion.
pub proof fn lemma_filter_witnesses<A>(s: Seq<A>, pred: spec_fn(A) -> bool)
    ensures
        forall|k: int|
            0 <= k < s.filter(pred).len() ==> exists|m: int|
                0 <= m < s.len() && #[trigger] s.filter(pred)[k] == s[m],
        forall|k1: int, k2: int|
            0 <= k1 < k2 < s.filter(pred).len() ==> exists|m1: int, m2: int|
                0 <= m1 < m2 < s.len() && #[trigger] s.filter(pred)[k1] == s[m1]
                    && #[trigger] s.filter(pred)[k2] == s[m2],
    decreases s.len(),
{
    reveal(Seq::filter);
    if s.len() > 0 {
        let t = s.drop_last();
        lemma_filter_witnesses(t, pred);
        let f = s.filter(pred);
        let ft = t.filter(pred);
        assert forall|k: int| 0 <= k < f.len() implies exists|m: int|
            0 <= m < s.len() && #[trigger] f[k] == s[m] by {
            if k < ft.len() {
                let m = choose|m: int| 0 <= m < t.len() && ft[k] == t[m];
                assert(f[k] == s[m]);
            } else {
                assert(f[k] == s[s.len() - 1]);
            }
        };
        assert forall|k1: int, k2: int| 0 <= k1 < k2 < f.len() implies exists|m1: int, m2: int|
            0 <= m1 < m2 < s.len() && #[trigger] f[k1] == s[m1] && #[trigger] f[k2]
                == s[m2] by {
            if k2 < ft.len() {
                let (m1, m2) = choose|m1: int, m2: int|
                    0 <= m1 < m2 < t.len() && ft[k1] == t[m1] && ft[k2] == t[m2];
                assert(f[k1] == s[m1] && f[k2] == s[m2]);
            } else {
                let m1 = choose|m: int| 0 <= m < t.len() && ft[k1] == t[m];
                assert(f[k1] == s[m1] && f[k2] == s[s.len() - 1]);
            }
        };
    }
}

/// Taking the whole sequence changes nothing.
pub proof fn lemma_take_all<A>(s: Seq<A>)
    ensures
        s.take(s.len() as int) == s,
{
    assert(s.take(s.len() as int) =~= s);
}

} // verus!
