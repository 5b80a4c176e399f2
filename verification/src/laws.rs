//! The consistency laws of the store, stated and proved over the same spec
//! functions that the operations' contracts use.

use vstd::prelude::*;
use vstd::arithmetic::div_mod::{lemma_fundamental_div_mod, lemma_mod_bound};
use crate::catalog::Catalog;
use crate::models::product::ProductCategory;
use crate::repository::category::{assoc_without_category, keep_other_categories, new_category_record};
use crate::repository::product::{
    add_assocs, assoc_without_product, has_pair, keep_other_products, page_end, page_start,
};
use crate::models::category::CreateCategoryRequest;
use crate::seq_util::lemma_filter_witnesses;

verus! {

/// Deleting a category removes every association row referencing it and no
/// other, removes the category row itself, and leaves every product in
/// place.  The hypotheses are exactly what `delete_category` ensures on
/// success.
pub proof fn lemma_delete_category_cascades(pre: Catalog, post: Catalog, id: i32)
    requires
        pre.wf(),
        post.cats() == pre.cats().filter(keep_other_categories(id)),
        post.assocs() == pre.assocs().filter(assoc_without_category(id)),
        post.prods() == pre.prods(),
    ensures
        forall|k: int|
            0 <= k < post.assocs().len() ==> (#[trigger] post.assocs()[k]).category_id != id,
        !post.has_category(id),
        forall|pid: i32| #[trigger] post.has_product(pid) <==> pre.has_product(pid),
{
    broadcast use vstd::seq_lib::group_filter_ensures;

    assert forall|k: int|
        0 <= k < post.assocs().len() implies (#[trigger] post.assocs()[k]).category_id != id by {
        assert(pre.assocs().filter(assoc_without_category(id))[k] == post.assocs()[k]);
        assert(assoc_without_category(id)(pre.assocs().filter(assoc_without_category(id))[k]));
    };
    assert(!post.has_category(id)) by {
        if post.has_category(id) {
            let k = choose|k: int|
                0 <= k < post.cats().len() && (#[trigger] post.cats()[k]).id == id;
            assert(pre.cats().filter(keep_other_categories(id))[k] == post.cats()[k]);
            assert(keep_other_categories(id)(pre.cats().filter(keep_other_categories(id))[k]));
        }
    };
}

/// Deleting a product removes every association row referencing it and no
/// other, removes the product row itself, and leaves every category in
/// place.  The hypotheses are exactly what `delete_product` ensures on
/// success.
pub proof fn lemma_delete_product_cascades(pre: Catalog, post: Catalog, id: i32)
    requires
        pre.wf(),
        post.prods() == pre.prods().filter(keep_other_products(id)),
        post.assocs() == pre.assocs().filter(assoc_without_product(id)),
        post.cats() == pre.cats(),
    ensures
        forall|k: int|
            0 <= k < post.assocs().len() ==> (#[trigger] post.assocs()[k]).product_id != id,
        !post.has_product(id),
        forall|cid: i32| #[trigger] post.has_category(cid) <==> pre.has_category(cid),
{
    broadcast use vstd::seq_lib::group_filter_ensures;

    assert forall|k: int|
        0 <= k < post.assocs().len() implies (#[trigger] post.assocs()[k]).product_id != id by {
        assert(pre.assocs().filter(assoc_without_product(id))[k] == post.assocs()[k]);
        assert(assoc_without_product(id)(pre.assocs().filter(assoc_without_product(id))[k]));
    };
    assert(!post.has_product(id)) by {
        if post.has_product(id) {
            let k = choose|k: int|
                0 <= k < post.prods().len() && (#[trigger] post.prods()[k]).id == id;
            assert(pre.prods().filter(keep_other_products(id))[k] == post.prods()[k]);
            assert(keep_other_products(id)(pre.prods().filter(keep_other_products(id))[k]));
        }
    };
}

/// Replacing a product's association set with the ids `ids` — what
/// `update_product` ensures when a category list is supplied — leaves the
/// product associated with exactly the listed categories, and every other
/// product's associations untouched.
pub proof fn lemma_update_replaces_associations(
    pre_assocs: Seq<ProductCategory>,
    pid: i32,
    ids: Seq<i32>,
    now: i64,
)
    ensures
        forall|cid: i32|
            #[trigger] has_pair(
                add_assocs(pre_assocs.filter(assoc_without_product(pid)), pid, ids, now),
                pid,
                cid,
            ) <==> ids.contains(cid),
        forall|p2: i32, c2: i32|
            p2 != pid ==> (#[trigger] has_pair(
                add_assocs(pre_assocs.filter(assoc_without_product(pid)), pid, ids, now),
                p2,
                c2,
            ) <==> has_pair(pre_assocs, p2, c2)),
{
    broadcast use vstd::seq_lib::group_filter_ensures;

    let base = pre_assocs.filter(assoc_without_product(pid));
    crate::repository::product::lemma_add_assocs_props(base, pid, ids, now);
    assert forall|cid: i32| !(#[trigger] has_pair(base, pid, cid)) by {
        if has_pair(base, pid, cid) {
            let k = choose|k: int|
                0 <= k < base.len() && (#[trigger] base[k]).product_id == pid
                    && base[k].category_id == cid;
            assert(assoc_without_product(pid)(base[k]));
        }
    };
    lemma_filter_witnesses(pre_assocs, assoc_without_product(pid));
    assert forall|p2: i32, c2: i32|
        p2 != pid implies (#[trigger] has_pair(base, p2, c2) <==> has_pair(
        pre_assocs,
        p2,
        c2,
    )) by {
        if has_pair(base, p2, c2) {
            let k = choose|k: int|
                0 <= k < base.len() && (#[trigger] base[k]).product_id == p2 && base[k].category_id
                    == c2;
            let m = choose|m: int| 0 <= m < pre_assocs.len() && base[k] == pre_assocs[m];
            assert(pre_assocs[m].product_id == p2 && pre_assocs[m].category_id == c2);
        }
        if has_pair(pre_assocs, p2, c2) {
            let k = choose|k: int|
                0 <= k < pre_assocs.len() && (#[trigger] pre_assocs[k]).product_id == p2
                    && pre_assocs[k].category_id == c2;
            assert(assoc_without_product(pid)(pre_assocs[k]));
            assert(base.contains(pre_assocs[k]));
            let w = choose|w: int| 0 <= w < base.len() && #[trigger] base[w] == pre_assocs[k];
            assert(base[w].product_id == p2 && base[w].category_id == c2);
        }
    };
}

/// A freshly created product — one whose id no association row could have
/// referenced before — ends up associated with exactly the categories
/// listed in the create request, and no other product's associations move.
pub proof fn lemma_create_associates_exactly(pre: Catalog, pid: i32, ids: Seq<i32>, now: i64)
    requires
        pre.wf(),
        !pre.has_product(pid),
    ensures
        forall|cid: i32|
            #[trigger] has_pair(add_assocs(pre.assocs(), pid, ids, now), pid, cid)
                <==> ids.contains(cid),
        forall|p2: i32, c2: i32|
            p2 != pid ==> (#[trigger] has_pair(add_assocs(pre.assocs(), pid, ids, now), p2, c2)
                <==> has_pair(pre.assocs(), p2, c2)),
{
    crate::repository::product::lemma_add_assocs_props(pre.assocs(), pid, ids, now);
    assert forall|cid: i32| !(#[trigger] has_pair(pre.assocs(), pid, cid)) by {
        if has_pair(pre.assocs(), pid, cid) {
            let k = choose|k: int|
                0 <= k < pre.assocs().len() && (#[trigger] pre.assocs()[k]).product_id == pid
                    && pre.assocs()[k].category_id == cid;
            assert(pre.has_product(pre.assocs()[k].product_id));
        }
    };
}

/// A well-formed store carries at most one category with any given name,
/// so once a create succeeds, a second create of the same name is owed a
/// `Conflict`, and the count of categories with that name stays one.
pub proof fn lemma_name_unique(cat: Catalog, name: Seq<char>)
    requires
        cat.wf(),
    ensures
        forall|i: int, j: int|
            0 <= i < cat.cats().len() && 0 <= j < cat.cats().len()
                && (#[trigger] cat.cats()[i]).name@ == name
                && (#[trigger] cat.cats()[j]).name@ == name ==> i == j,
{
}

/// A successful create leaves the requested name taken: this is what makes
/// two creates of one name resolve to one success and one `Conflict`,
/// whichever order the storage backend serializes them in.
pub proof fn lemma_created_name_taken(
    pre: Catalog,
    post: Catalog,
    req: CreateCategoryRequest,
    now: i64,
)
    requires
        post.cats() == pre.cats().push(new_category_record(pre.next_category_id, req, now)),
    ensures
        post.name_taken(req.name@),
{
    assert(post.cats()[pre.cats().len() as int].name@ == req.name@);
}

/// Every product in a category listing really has an association row with
/// that category.
pub proof fn lemma_listed_products_are_associated(cat: Catalog, cid: i32)
    ensures
        forall|k: int|
            0 <= k < cat.products_in_category(cid).len() ==> cat.has_assoc(
                (#[trigger] cat.products_in_category(cid)[k]).id,
                cid,
            ),
{
    broadcast use vstd::seq_lib::group_filter_ensures;

    assert forall|k: int|
        0 <= k < cat.products_in_category(cid).len() implies cat.has_assoc(
        (#[trigger] cat.products_in_category(cid)[k]).id,
        cid,
    ) by {
        assert(cat.prods().filter(cat.in_category(cid))[k] == cat.products_in_category(cid)[k]);
        assert(cat.in_category(cid)(cat.prods().filter(cat.in_category(cid))[k]));
    };
}

/// How many pages a listing has: the least number of pages of `size` rows
/// that cover `total` rows.
pub open spec fn pages_of(total: int, size: int) -> int {
    (total + size - 1) / size
}

/// Pagination is exact: page 1 starts at the first row, consecutive pages
/// neither overlap nor skip rows, every page before the last holds exactly
/// `size` rows, the last page holds the remainder (at least one row, at
/// most `size`), pages past the last are empty, and the last page ends at
/// the total.
pub proof fn lemma_pagination(total: int, size: int)
    requires
        0 <= total,
        1 <= size,
    ensures
        page_start(total, 1, size) == 0,
        forall|p: int|
            1 <= p ==> page_start(total, p + 1, size) == #[trigger] page_end(total, p, size),
        forall|p: int|
            1 <= p < pages_of(total, size) ==> #[trigger] page_end(total, p, size) - page_start(
                total,
                p,
                size,
            ) == size,
        total > 0 ==> page_end(total, pages_of(total, size), size) - page_start(
            total,
            pages_of(total, size),
            size,
        ) == total - (pages_of(total, size) - 1) * size,
        total > 0 ==> 1 <= total - (pages_of(total, size) - 1) * size <= size,
        forall|p: int|
            p > pages_of(total, size) && p >= 1 ==> #[trigger] page_end(total, p, size)
                - page_start(total, p, size) == 0,
        total > 0 ==> page_end(total, pages_of(total, size), size) == total,
{
    let q = pages_of(total, size);
    assert((1 - 1) * size == 0) by (nonlinear_arith);
    lemma_fundamental_div_mod(total + size - 1, size);
    lemma_mod_bound(total + size - 1, size);
    let r = (total + size - 1) % size;
    assert(total + size - 1 == size * q + r);
    assert(0 <= r < size);
    assert(total == size * q + r - size + 1);
    assert((q - 1) * size == size * q - size) by (nonlinear_arith);
    assert(q * size == size * q) by (nonlinear_arith);
    // the ceiling bounds: the last page's first row is below the total,
    // and the last page's end covers it
    assert((q - 1) * size == total - r - 1);
    assert(q * size >= total);
    if total > 0 {
        assert(q >= 1) by (nonlinear_arith)
            requires
                size * q >= total - r + size - 1,
                total > 0,
                r < size,
                size >= 1,
        ;
    }
    assert forall|p: int| 1 <= p implies page_start(total, p + 1, size) == #[trigger] page_end(
        total,
        p,
        size,
    ) by {
        assert((p + 1 - 1) * size == p * size) by (nonlinear_arith);
        assert(p * size == (p - 1) * size + size) by (nonlinear_arith);
    };
    assert forall|p: int| 1 <= p < q implies #[trigger] page_end(total, p, size) - page_start(
        total,
        p,
        size,
    ) == size by {
        assert(p * size == (p - 1) * size + size) by (nonlinear_arith);
        assert(p * size <= (q - 1) * size) by (nonlinear_arith)
            requires
                p <= q - 1,
                size >= 1,
        ;
    };
    if total > 0 {
        assert(q * size == (q - 1) * size + size) by (nonlinear_arith);
        assert(page_end(total, q, size) == total);
    }
    assert forall|p: int| p > q && p >= 1 implies #[trigger] page_end(total, p, size) - page_start(
        total,
        p,
        size,
    ) == 0 by {
        assert((p - 1) * size >= q * size) by (nonlinear_arith)
            requires
                p - 1 >= q,
                size >= 1,
        ;
    };
}

} // verus!
