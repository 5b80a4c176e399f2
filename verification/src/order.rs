//! Ordering by name: a code-point lexicographic order on character
//! sequences, a verified string comparison, and a verified merge sort for
//! the response shapes that are returned ordered by name.

use vstd::prelude::*;
use vstd::seq_lib::lemma_multiset_commutative;
use vstd::string::StrSliceExecFns;
use crate::models::category::CategoryWithProductsResponse;
use crate::models::product::CategoryBrief;

verus! {

/// Code-point lexicographic order: `a` comes before `b` (or equals it).
pub open spec fn lex_le(a: Seq<char>, b: Seq<char>) -> bool
    decreases a.len(),
{
    if a.len() == 0 {
        true
    } else if b.len() == 0 {
        false
    } else if (a[0] as u32) < (b[0] as u32) {
        true
    } else if (b[0] as u32) < (a[0] as u32) {
        false
    } else {
        lex_le(a.drop_first(), b.drop_first())
    }
}

/// Any two character sequences are comparable.
pub proof fn lemma_lex_le_total(a: Seq<char>, b: Seq<char>)
    ensures
        lex_le(a, b) || lex_le(b, a),
    decreases a.len(),
{
    if a.len() == 0 {
    } else if b.len() == 0 {
    } else if (a[0] as u32) == (b[0] as u32) {
        lemma_lex_le_total(a.drop_first(), b.drop_first());
    }
}

/// The order is reflexive.
pub proof fn lemma_lex_le_refl(a: Seq<char>)
    ensures
        lex_le(a, a),
    decreases a.len(),
{
    if a.len() > 0 {
        lemma_lex_le_refl(a.drop_first());
    }
}

/// The order is transitive.
pub proof fn lemma_lex_le_trans(a: Seq<char>, b: Seq<char>, c: Seq<char>)
    requires
        lex_le(a, b),
        lex_le(b, c),
    ensures
        lex_le(a, c),
    decreases a.len(),
{
    if a.len() == 0 {
    } else {
        if (a[0] as u32) == (b[0] as u32) && (b[0] as u32) == (c[0] as u32) {
            lemma_lex_le_trans(a.drop_first(), b.drop_first(), c.drop_first());
        }
    }
}

/// Compares two strings in the code-point lexicographic order.
pub fn str_lex_le(a: &str, b: &str) -> (r: bool)
    ensures
        r == lex_le(a@, b@),
{
    let la = a.unicode_len();
    let lb = b.unicode_len();
    let mut i: usize = 0;
    proof {
        assert(a@.skip(0) =~= a@);
        assert(b@.skip(0) =~= b@);
    }
    while i < la && i < lb
        invariant
            i <= la,
            i <= lb,
            la == a@.len(),
            lb == b@.len(),
            lex_le(a@, b@) == lex_le(a@.skip(i as int), b@.skip(i as int)),
        decreases la - i,
    {
        let ca = a.get_char(i);
        let cb = b.get_char(i);
        proof {
            assert(a@.skip(i as int)[0] == a@[i as int]);
            assert(b@.skip(i as int)[0] == b@[i as int]);
        }
        if (ca as u32) < (cb as u32) {
            return true;
        }
        if (cb as u32) < (ca as u32) {
            return false;
        }
        proof {
            assert(a@.skip(i as int).drop_first() =~= a@.skip(i as int + 1));
            assert(b@.skip(i as int).drop_first() =~= b@.skip(i as int + 1));
        }
        i = i + 1;
    }
    proof {
        assert(a@.skip(i as int).len() == la - i);
        assert(b@.skip(i as int).len() == lb - i);
    }
    i == la
}

/// Items that carry a name to sort by.
pub trait NameOrdered: Sized {
    /// The characters of the item's name.
    spec fn key(&self) -> Seq<char>;

    /// Compares two items by name.
    fn le(&self, other: &Self) -> (r: bool)
        ensures
            r == lex_le(self.key(), other.key()),
    ;

    /// Copies the item, preserving its value.
    fn copy_item(&self) -> (r: Self)
        ensures
            r == *self,
    ;
}

impl NameOrdered for CategoryBrief {
    open spec fn key(&self) -> Seq<char> {
        self.name@
    }

    fn le(&self, other: &Self) -> (r: bool) {
        str_lex_le(self.name.as_str(), other.name.as_str())
    }

    fn copy_item(&self) -> (r: Self) {
        self.clone()
    }
}

impl NameOrdered for CategoryWithProductsResponse {
    open spec fn key(&self) -> Seq<char> {
        self.name@
    }

    fn le(&self, other: &Self) -> (r: bool) {
        str_lex_le(self.name.as_str(), other.name.as_str())
    }

    fn copy_item(&self) -> (r: Self) {
        self.clone()
    }
}

/// The items stand in name order, smallest first.
pub open spec fn sorted_by_key<T: NameOrdered>(s: Seq<T>) -> bool {
    forall|i: int, j: int|
        0 <= i < j < s.len() ==> lex_le(#[trigger] s[i].key(), #[trigger] s[j].key())
}

/// Copies every item of the vector.
pub fn copy_all<T: NameOrdered>(v: &Vec<T>) -> (r: Vec<T>)
    ensures
        r@ == v@,
{
    let mut r: Vec<T> = Vec::new();
    let mut i: usize = 0;
    while i < v.len()
        invariant
            i <= v.len(),
            r@ == v@.take(i as int),
        decreases v.len() - i,
    {
        r.push(v[i].copy_item());
        proof {
            assert(v@.take(i as int + 1) =~= v@.take(i as int).push(v@[i as int]));
        }
        i = i + 1;
    }
    proof {
        assert(v@.take(v@.len() as int) =~= v@);
    }
    r
}

fn extend_from_idx<T: NameOrdered>(r: &mut Vec<T>, v: &Vec<T>, start: usize)
    requires
        start <= v.len(),
    ensures
        final(r)@ == old(r)@ + v@.subrange(start as int, v.len() as int),
{
    let mut i: usize = start;
    while i < v.len()
        invariant
            start <= i <= v.len(),
            r@ == old(r)@ + v@.subrange(start as int, i as int),
        decreases v.len() - i,
    {
        r.push(v[i].copy_item());
        proof {
            assert(v@.subrange(start as int, i as int + 1) =~= v@.subrange(
                start as int,
                i as int,
            ).push(v@[i as int]));
        }
        i = i + 1;
    }
    proof {
        assert(r@ =~= old(r)@ + v@.subrange(start as int, v.len() as int));
    }
}

proof fn lemma_subrange_push<T>(s: Seq<T>, start: int, end: int)
    requires
        0 <= start <= end < s.len(),
    ensures
        s.subrange(start, end).push(s[end]) =~= s.subrange(start, end + 1),
{
}

/// Merges two name-sorted vectors into one name-sorted vector holding
/// exactly the items of both.
fn merge_by_key<T: NameOrdered>(v1: &Vec<T>, v2: &Vec<T>) -> (r: Vec<T>)
    requires
        sorted_by_key(v1@),
        sorted_by_key(v2@),
    ensures
        r@.to_multiset() == (v1@ + v2@).to_multiset(),
        sorted_by_key(r@),
{
    broadcast use lemma_multiset_commutative;

    let mut r: Vec<T> = Vec::new();
    let mut i1: usize = 0;
    let mut i2: usize = 0;
    proof {
        assert(v1@.subrange(0, 0) =~= Seq::<T>::empty());
        assert(v2@.subrange(0, 0) =~= Seq::<T>::empty());
    }
    while i1 < v1.len() && i2 < v2.len()
        invariant
            i1 <= v1.len(),
            i2 <= v2.len(),
            sorted_by_key(v1@),
            sorted_by_key(v2@),
            forall|i: int|
                i1 < v1@.len() && 0 <= i < r@.len() ==> lex_le(
                    #[trigger] r@[i].key(),
                    v1@[i1 as int].key(),
                ),
            forall|i: int|
                i2 < v2@.len() && 0 <= i < r@.len() ==> lex_le(
                    #[trigger] r@[i].key(),
                    v2@[i2 as int].key(),
                ),
            r@.to_multiset() =~= (v1@.subrange(0, i1 as int) + v2@.subrange(
                0,
                i2 as int,
            )).to_multiset(),
            sorted_by_key(r@),
        decreases v1.len() + v2.len() - i1 - i2,
    {
        proof {
            r@.to_multiset_ensures();
        }
        let take_first = v1[i1].le(&v2[i2]);
        if take_first {
            let ghost old_r = r@;
            r.push(v1[i1].copy_item());
            proof {
                v1@.subrange(0, i1 as int).to_multiset_ensures();
                lemma_subrange_push(v1@, 0, i1 as int);
                lemma_multiset_commutative(
                    v1@.subrange(0, i1 as int),
                    v2@.subrange(0, i2 as int),
                );
                lemma_multiset_commutative(
                    v1@.subrange(0, i1 as int + 1),
                    v2@.subrange(0, i2 as int),
                );
                assert(r@ == old_r.push(v1@[i1 as int]));
                assert(r@.to_multiset() =~= (v1@.subrange(0, i1 as int + 1) + v2@.subrange(
                    0,
                    i2 as int,
                )).to_multiset());
                assert(sorted_by_key(r@)) by {
                    assert(forall|i: int|
                        0 <= i < old_r.len() ==> lex_le(
                            #[trigger] old_r[i].key(),
                            v1@[i1 as int].key(),
                        ));
                };
                assert forall|i: int|
                    i1 + 1 < v1@.len() && 0 <= i < r@.len() implies lex_le(
                    #[trigger] r@[i].key(),
                    v1@[i1 + 1].key(),
                ) by {
                    assert(lex_le(v1@[i1 as int].key(), v1@[i1 + 1].key()));
                    if i < old_r.len() {
                        lemma_lex_le_trans(
                            r@[i].key(),
                            v1@[i1 as int].key(),
                            v1@[i1 + 1].key(),
                        );
                    }
                };
            }
            i1 = i1 + 1;
        } else {
            let ghost old_r = r@;
            proof {
                lemma_lex_le_total(v1@[i1 as int].key(), v2@[i2 as int].key());
            }
            r.push(v2[i2].copy_item());
            proof {
                v2@.subrange(0, i2 as int).to_multiset_ensures();
                lemma_subrange_push(v2@, 0, i2 as int);
                lemma_multiset_commutative(
                    v1@.subrange(0, i1 as int),
                    v2@.subrange(0, i2 as int),
                );
                lemma_multiset_commutative(
                    v1@.subrange(0, i1 as int),
                    v2@.subrange(0, i2 as int + 1),
                );
                assert(r@ == old_r.push(v2@[i2 as int]));
                assert(r@.to_multiset() =~= (v1@.subrange(0, i1 as int) + v2@.subrange(
                    0,
                    i2 as int + 1,
                )).to_multiset());
                assert(sorted_by_key(r@)) by {
                    assert(forall|i: int|
                        0 <= i < old_r.len() ==> lex_le(
                            #[trigger] old_r[i].key(),
                            v2@[i2 as int].key(),
                        ));
                };
                assert forall|i: int|
                    i2 + 1 < v2@.len() && 0 <= i < r@.len() implies lex_le(
                    #[trigger] r@[i].key(),
                    v2@[i2 + 1].key(),
                ) by {
                    assert(lex_le(v2@[i2 as int].key(), v2@[i2 + 1].key()));
                    if i < old_r.len() {
                        lemma_lex_le_trans(
                            r@[i].key(),
                            v2@[i2 as int].key(),
                            v2@[i2 + 1].key(),
                        );
                    }
                };
            }
            i2 = i2 + 1;
        }
    }
    proof {
        assert(v1@.subrange(0, v1.len() as int) =~= v1@);
        assert(v2@.subrange(0, v2.len() as int) =~= v2@);
    }
    if i1 < v1.len() {
        let ghost old_r = r@;
        extend_from_idx(&mut r, v1, i1);
        proof {
            assert(v1@.subrange(0, i1 as int) + v1@.subrange(i1 as int, v1.len() as int) =~= v1@);
            assert((old_r + v1@.subrange(i1 as int, v1.len() as int)).to_multiset() =~= (v1@
                + v2@).to_multiset());
            assert forall|i: int, j: int| 0 <= i < j < r@.len() implies lex_le(
                #[trigger] r@[i].key(),
                #[trigger] r@[j].key(),
            ) by {
                let ol = old_r.len() as int;
                if j < ol {
                    assert(lex_le(old_r[i].key(), old_r[j].key()));
                } else if i >= ol {
                    let ki = i1 + (i - ol);
                    let kj = i1 + (j - ol);
                    assert(r@[i] == v1@[ki]);
                    assert(r@[j] == v1@[kj]);
                    assert(lex_le(v1@[ki].key(), v1@[kj].key()));
                } else {
                    let kj = i1 + (j - ol);
                    assert(r@[j] == v1@[kj]);
                    assert(lex_le(r@[i].key(), v1@[i1 as int].key()));
                    if kj > i1 {
                        assert(lex_le(v1@[i1 as int].key(), v1@[kj].key()));
                        lemma_lex_le_trans(
                            r@[i].key(),
                            v1@[i1 as int].key(),
                            v1@[kj].key(),
                        );
                    }
                }
            };
        }
    } else if i2 < v2.len() {
        let ghost old_r = r@;
        extend_from_idx(&mut r, v2, i2);
        proof {
            assert(v2@.subrange(0, i2 as int) + v2@.subrange(i2 as int, v2.len() as int) =~= v2@);
            assert((old_r + v2@.subrange(i2 as int, v2.len() as int)).to_multiset() =~= (v1@
                + v2@).to_multiset());
            assert forall|i: int, j: int| 0 <= i < j < r@.len() implies lex_le(
                #[trigger] r@[i].key(),
                #[trigger] r@[j].key(),
            ) by {
                let ol = old_r.len() as int;
                if j < ol {
                    assert(lex_le(old_r[i].key(), old_r[j].key()));
                } else if i >= ol {
                    let ki = i2 + (i - ol);
                    let kj = i2 + (j - ol);
                    assert(r@[i] == v2@[ki]);
                    assert(r@[j] == v2@[kj]);
                    assert(lex_le(v2@[ki].key(), v2@[kj].key()));
                } else {
                    let kj = i2 + (j - ol);
                    assert(r@[j] == v2@[kj]);
                    assert(lex_le(r@[i].key(), v2@[i2 as int].key()));
                    if kj > i2 {
                        assert(lex_le(v2@[i2 as int].key(), v2@[kj].key()));
                        lemma_lex_le_trans(
                            r@[i].key(),
                            v2@[i2 as int].key(),
                            v2@[kj].key(),
                        );
                    }
                }
            };
        }
    }
    r
}

/// Sorts the items by name; the result holds exactly the input items.
pub fn sort_by_name<T: NameOrdered>(v: &Vec<T>) -> (r: Vec<T>)
    ensures
        r@.to_multiset() == v@.to_multiset(),
        sorted_by_key(r@),
    decreases v@.len(),
{
    broadcast use lemma_multiset_commutative;

    let n = v.len();
    let mut v1 = copy_all(v);
    if n <= 1 {
        v1
    } else {
        let v2 = v1.split_off(n / 2);
        proof {
            assert(v1@ + v2@ =~= v@);
        }
        let r1 = sort_by_name(&v1);
        let r2 = sort_by_name(&v2);
        let r = merge_by_key(&r1, &r2);
        proof {
            assert((r1@ + r2@).to_multiset() == r1@.to_multiset().add(r2@.to_multiset()));
            assert((v1@ + v2@).to_multiset() == v1@.to_multiset().add(v2@.to_multiset()));
        }
        r
    }
}

} // verus!
