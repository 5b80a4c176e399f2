//! The product service: create, get, list (with pagination and category
//! filter), update and delete products, maintaining the many-to-many
//! association with categories.
//!
//! Every mutating operation is atomic: on any error the store is unchanged.

use vstd::prelude::*;
use crate::catalog::Catalog;
use crate::error::ApiError;
use crate::models::product::{
    CreateProductRequest, Product, ProductCategory, ProductListResponse, ProductQueryParams,
    ProductResponse, UpdateProductRequest,
};
use crate::models::category::clone_opt_string;
use crate::seq_util::{lemma_filter_take_step, lemma_filter_witnesses, lemma_take_all};
use crate::validation::{
    valid_create_product, valid_update_product, validate_create_product, validate_update_product,
};

verus! {

/// The row a successful create inserts: the generated id, the requested
/// fields, and both timestamps set to the time of the call.
pub open spec fn new_product_record(id: i32, req: CreateProductRequest, now: i64) -> Product {
    Product {
        id: id,
        name: req.name,
        description: req.description,
        price: req.price,
        sku: req.sku,
        created_at: now,
        updated_at: now,
    }
}

/// The row a successful update leaves behind: supplied fields overwrite,
/// omitted fields keep their prior values, and `updated_at` is refreshed.
pub open spec fn apply_product_update(p: Product, req: UpdateProductRequest, now: i64) -> Product {
    Product {
        id: p.id,
        name: match req.name {
            Some(n) => n,
            None => p.name,
        },
        description: match req.description {
            Some(d) => Some(d),
            None => p.description,
        },
        price: match req.price {
            Some(x) => x,
            None => p.price,
        },
        sku: match req.sku {
            Some(s) => Some(s),
            None => p.sku,
        },
        created_at: p.created_at,
        updated_at: now,
    }
}

/// Keeps every product row but the one with the given id.
pub open spec fn keep_other_products(id: i32) -> spec_fn(Product) -> bool {
    |p: Product| p.id != id
}

/// Keeps every association row not referencing the given product.
pub open spec fn assoc_without_product(id: i32) -> spec_fn(ProductCategory) -> bool {
    |a: ProductCategory| a.product_id != id
}

/// An association row with this (product, category) pair is present.
pub open spec fn has_pair(s: Seq<ProductCategory>, pid: i32, cid: i32) -> bool {
    exists|i: int|
        0 <= i < s.len() && (#[trigger] s[i]).product_id == pid && s[i].category_id == cid
}

/// No (product, category) pair appears twice.
pub open spec fn pairs_unique(s: Seq<ProductCategory>) -> bool {
    forall|i: int, j: int|
        0 <= i < j < s.len() ==> !((#[trigger] s[i]).product_id == (#[trigger] s[j]).product_id
            && s[i].category_id == s[j].category_id)
}

/// Every id in the list names an existing category.
pub open spec fn all_categories_exist(cat: Catalog, ids: Seq<i32>) -> bool {
    forall|k: int| 0 <= k < ids.len() ==> cat.has_category(#[trigger] ids[k])
}

/// When a supplied category list must be checked: absent means nothing to
/// check.
pub open spec fn update_categories_exist(cat: Catalog, req: UpdateProductRequest) -> bool {
    match req.category_ids {
        Some(ids) => all_categories_exist(cat, ids@),
        None => true,
    }
}

/// Inserts one association row per listed category, left to right, skipping
/// ids whose pair is already present (so each combination appears at most
/// once).
pub open spec fn add_assocs(s: Seq<ProductCategory>, pid: i32, ids: Seq<i32>, now: i64) -> Seq<
    ProductCategory,
>
    decreases ids.len(),
{
    if ids.len() == 0 {
        s
    } else {
        let step = if has_pair(s, pid, ids[0]) {
            s
        } else {
            s.push(ProductCategory { product_id: pid, category_id: ids[0], created_at: now })
        };
        add_assocs(step, pid, ids.drop_first(), now)
    }
}

/// How a pushed row changes pair membership.
proof fn lemma_has_pair_push(s: Seq<ProductCategory>, row: ProductCategory, pid: i32, cid: i32)
    ensures
        has_pair(s.push(row), pid, cid) <==> (has_pair(s, pid, cid) || (row.product_id == pid
            && row.category_id == cid)),
{
    if has_pair(s, pid, cid) {
        let i = choose|i: int|
            0 <= i < s.len() && (#[trigger] s[i]).product_id == pid && s[i].category_id == cid;
        assert(s.push(row)[i] == s[i]);
    }
    if row.product_id == pid && row.category_id == cid {
        assert(s.push(row)[s.len() as int] == row);
    }
    if has_pair(s.push(row), pid, cid) {
        let i = choose|i: int|
            0 <= i < s.push(row).len() && (#[trigger] s.push(row)[i]).product_id == pid
                && s.push(row)[i].category_id == cid;
        if i < s.len() {
            assert(s[i] == s.push(row)[i]);
        }
    }
}

/// Processing one more id at the right end of the list applies one more
/// step to the already-built sequence.
proof fn lemma_add_assocs_snoc(s: Seq<ProductCategory>, pid: i32, ids: Seq<i32>, x: i32, now: i64)
    ensures
        add_assocs(s, pid, ids.push(x), now) == {
            let b = add_assocs(s, pid, ids, now);
            if has_pair(b, pid, x) {
                b
            } else {
                b.push(ProductCategory { product_id: pid, category_id: x, created_at: now })
            }
        },
    decreases ids.len(),
{
    if ids.len() == 0 {
        assert(ids.push(x)[0] == x);
        assert(ids.push(x).drop_first() =~= Seq::<i32>::empty());
        let step0 = if has_pair(s, pid, x) {
            s
        } else {
            s.push(ProductCategory { product_id: pid, category_id: x, created_at: now })
        };
        assert(add_assocs(s, pid, ids.push(x), now) == add_assocs(
            step0,
            pid,
            ids.push(x).drop_first(),
            now,
        ));
        assert(add_assocs(step0, pid, Seq::<i32>::empty(), now) == step0);
        assert(add_assocs(s, pid, ids, now) == s);
    } else {
        assert(ids.push(x)[0] == ids[0]);
        assert(ids.push(x).drop_first() =~= ids.drop_first().push(x));
        let step = if has_pair(s, pid, ids[0]) {
            s
        } else {
            s.push(ProductCategory { product_id: pid, category_id: ids[0], created_at: now })
        };
        assert(add_assocs(s, pid, ids.push(x), now) == add_assocs(
            step,
            pid,
            ids.push(x).drop_first(),
            now,
        ));
        assert(add_assocs(s, pid, ids, now) == add_assocs(step, pid, ids.drop_first(), now));
        lemma_add_assocs_snoc(step, pid, ids.drop_first(), x, now);
    }
}

/// What inserting association rows does: existing rows are kept in place,
/// every added row links the given product to a listed category with the
/// given timestamp, pair membership grows by exactly the listed ids, rows
/// of other products are untouched, and pair uniqueness is preserved.
pub proof fn lemma_add_assocs_props(s: Seq<ProductCategory>, pid: i32, ids: Seq<i32>, now: i64)
    ensures
        s.len() <= add_assocs(s, pid, ids, now).len(),
        forall|k: int| 0 <= k < s.len() ==> add_assocs(s, pid, ids, now)[k] == s[k],
        forall|k: int|
            s.len() <= k < add_assocs(s, pid, ids, now).len() ==> (#[trigger] add_assocs(
                s,
                pid,
                ids,
                now,
            )[k]).product_id == pid && add_assocs(s, pid, ids, now)[k].created_at == now
                && ids.contains(add_assocs(s, pid, ids, now)[k].category_id),
        forall|cid: i32|
            #[trigger] has_pair(add_assocs(s, pid, ids, now), pid, cid) <==> (has_pair(s, pid, cid)
                || ids.contains(cid)),
        forall|p2: i32, c2: i32|
            p2 != pid ==> (#[trigger] has_pair(add_assocs(s, pid, ids, now), p2, c2)
                <==> has_pair(s, p2, c2)),
        pairs_unique(s) ==> pairs_unique(add_assocs(s, pid, ids, now)),
    decreases ids.len(),
{
    if ids.len() == 0 {
    } else {
        let row = ProductCategory { product_id: pid, category_id: ids[0], created_at: now };
        let step = if has_pair(s, pid, ids[0]) {
            s
        } else {
            s.push(row)
        };
        assert forall|p2: i32, c2: i32| #[trigger] has_pair(step, p2, c2) <==> (has_pair(s, p2, c2)
            || (!has_pair(s, pid, ids[0]) && p2 == pid && c2 == ids[0])) by {
            if !has_pair(s, pid, ids[0]) {
                lemma_has_pair_push(s, row, p2, c2);
            }
        };
        assert(pairs_unique(s) ==> pairs_unique(step)) by {
            if pairs_unique(s) && !has_pair(s, pid, ids[0]) {
                assert forall|i: int, j: int| 0 <= i < j < step.len() implies !((
                #[trigger] step[i]).product_id == (#[trigger] step[j]).product_id
                    && step[i].category_id == step[j].category_id) by {
                    if j == s.len() as int {
                        assert(step[j] == row);
                        if step[i].product_id == pid && step[i].category_id == ids[0] {
                            assert(s[i] == step[i]);
                            assert(has_pair(s, pid, ids[0]));
                        }
                    }
                };
            }
        };
        lemma_add_assocs_props(step, pid, ids.drop_first(), now);
        assert(add_assocs(s, pid, ids, now) == add_assocs(step, pid, ids.drop_first(), now));
        assert forall|k: int| 0 <= k < s.len() implies add_assocs(s, pid, ids, now)[k]
            == s[k] by {
            assert(add_assocs(step, pid, ids.drop_first(), now)[k] == step[k]);
            assert(step[k] == s[k]);
        };
        assert forall|cid: i32|
            #[trigger] has_pair(add_assocs(s, pid, ids, now), pid, cid) <==> (has_pair(s, pid, cid)
                || ids.contains(cid)) by {
            assert(has_pair(add_assocs(step, pid, ids.drop_first(), now), pid, cid) <==> (
            has_pair(step, pid, cid) || ids.drop_first().contains(cid)));
            if ids.contains(cid) {
                let k = choose|k: int| 0 <= k < ids.len() && ids[k] == cid;
                if k > 0 {
                    assert(ids.drop_first()[k - 1] == cid);
                }
            }
            if ids.drop_first().contains(cid) {
                let k = choose|k: int|
                    0 <= k < ids.drop_first().len() && ids.drop_first()[k] == cid;
                assert(ids[k + 1] == cid);
            }
        };
        assert forall|k: int|
            s.len() <= k < add_assocs(s, pid, ids, now).len() implies (#[trigger] add_assocs(
            s,
            pid,
            ids,
            now,
        )[k]).product_id == pid && add_assocs(s, pid, ids, now)[k].created_at == now
            && ids.contains(add_assocs(s, pid, ids, now)[k].category_id) by {
            let res = add_assocs(s, pid, ids, now);
            if k >= step.len() {
                assert(ids.drop_first().contains(res[k].category_id));
                let m = choose|m: int|
                    0 <= m < ids.drop_first().len() && ids.drop_first()[m] == res[k].category_id;
                assert(ids[m + 1] == res[k].category_id);
            } else {
                assert(res[k] == step[k]);
                assert(step[k] == row);
                assert(ids[0] == row.category_id);
            }
        };
    }
}

/// Where the requested page begins in the matching rows: the rows before
/// it, clipped to the total.
pub open spec fn page_start(total: int, page: int, size: int) -> int {
    if (page - 1) * size > total {
        total
    } else {
        (page - 1) * size
    }
}

/// Where the requested page ends: one past its last row.
pub open spec fn page_end(total: int, page: int, size: int) -> int {
    if page_start(total, page, size) + size > total {
        total
    } else {
        page_start(total, page, size) + size
    }
}

/// The matching rows among the first `i` products.
pub open spec fn matching_prefix(cat: Catalog, filt: Option<i32>, i: int) -> Seq<Product> {
    match filt {
        Some(cid) => cat.prods().take(i).filter(cat.in_category(cid)),
        None => cat.prods().take(i),
    }
}

impl Catalog {
    /// Returns the product with the given id and its category briefs, or
    /// `NotFound`.
    pub fn get_product(&self, id: i32) -> (r: Result<ProductResponse, ApiError>)
        requires
            self.wf(),
        ensures
            r is Ok <==> self.has_product(id),
            r matches Err(e) ==> e is NotFound,
            r matches Ok(resp) ==> self.is_product_response(self.product_at(id), resp),
    {
        match self.find_product_index(id) {
            None => Err(ApiError::not_found_simple("Product not found")),
            Some(i) => {
                proof {
                    self.lemma_product_index_unique(id, i as int);
                }
                Ok(self.product_response(&self.products[i]))
            },
        }
    }

    /// Deletes a product and every association row referencing it,
    /// atomically.  The categories it was tied to are left untouched.
    /// Fails with `NotFound` on an unknown id, leaving the store unchanged.
    pub fn delete_product(&mut self, id: i32) -> (r: Result<(), ApiError>)
        requires
            old(self).wf(),
        ensures
            final(self).wf(),
            r is Ok <==> old(self).has_product(id),
            r matches Err(e) ==> e is NotFound && *final(self) == *old(self),
            r is Ok ==> {
                &&& final(self).prods() == old(self).prods().filter(keep_other_products(id))
                &&& final(self).assocs() == old(self).assocs().filter(assoc_without_product(id))
                &&& final(self).cats() == old(self).cats()
                &&& final(self).next_category_id == old(self).next_category_id
                &&& final(self).next_product_id == old(self).next_product_id
            },
    {
        match self.find_product_index(id) {
            None => {
                return Err(ApiError::not_found_simple("Product not found"));
            },
            Some(_) => {},
        }
        let mut kept_assocs: Vec<ProductCategory> = Vec::new();
        let mut i: usize = 0;
        proof {
            assert(kept_assocs@ =~= self.assocs().take(0).filter(assoc_without_product(id)));
        }
        while i < self.associations.len()
            invariant
                i <= self.assocs().len(),
                kept_assocs@ == self.assocs().take(i as int).filter(assoc_without_product(id)),
            decreases self.assocs().len() - i,
        {
            proof {
                lemma_filter_take_step(self.assocs(), assoc_without_product(id), i as int);
            }
            if self.associations[i].product_id != id {
                kept_assocs.push(self.associations[i]);
            }
            i = i + 1;
        }
        proof {
            lemma_take_all(self.assocs());
        }

        let mut kept_prods: Vec<Product> = Vec::new();
        let mut j: usize = 0;
        proof {
            assert(kept_prods@ =~= self.prods().take(0).filter(keep_other_products(id)));
        }
        while j < self.products.len()
            invariant
                j <= self.prods().len(),
                kept_prods@ == self.prods().take(j as int).filter(keep_other_products(id)),
            decreases self.prods().len() - j,
        {
            proof {
                lemma_filter_take_step(self.prods(), keep_other_products(id), j as int);
            }
            if self.products[j].id != id {
                kept_prods.push(self.products[j].clone());
            }
            j = j + 1;
        }
        proof {
            lemma_take_all(self.prods());
        }

        self.associations = kept_assocs;
        self.products = kept_prods;
        proof {
            broadcast use vstd::seq_lib::group_filter_ensures;

            let oldst = *old(self);
            let oldp = oldst.prods();
            let olda = oldst.assocs();
            let fp = oldp.filter(keep_other_products(id));
            let fa = olda.filter(assoc_without_product(id));
            lemma_filter_witnesses(oldp, keep_other_products(id));
            lemma_filter_witnesses(olda, assoc_without_product(id));
            assert(self.prods() == fp);
            assert(self.assocs() == fa);

            assert forall|i: int, j: int| 0 <= i < j < self.prods().len() implies
                (#[trigger] self.prods()[i]).id < (#[trigger] self.prods()[j]).id by {
                assert(fp[i] == self.prods()[i] && fp[j] == self.prods()[j]);
                let (m1, m2) = choose|m1: int, m2: int|
                    0 <= m1 < m2 < oldp.len() && fp[i] == oldp[m1] && fp[j] == oldp[m2];
                assert(oldp[m1].id < oldp[m2].id);
            };
            assert forall|i: int|
                0 <= i < self.prods().len() implies 1 <= (#[trigger] self.prods()[i]).id
                < self.next_product_id && crate::validation::valid_product_name(
                self.prods()[i].name@,
            ) && self.prods()[i].price > 0 && crate::validation::valid_sku(
                self.prods()[i].sku,
            ) by {
                assert(fp[i] == self.prods()[i]);
                let m = choose|m: int| 0 <= m < oldp.len() && fp[i] == oldp[m];
                assert(1 <= oldp[m].id < oldst.next_product_id);
                assert(crate::validation::valid_product_name(oldp[m].name@));
            };
            assert forall|i: int, j: int| 0 <= i < j < self.assocs().len() implies !(
                (#[trigger] self.assocs()[i]).product_id == (#[trigger] self.assocs()[j]).product_id
                    && self.assocs()[i].category_id == self.assocs()[j].category_id) by {
                assert(fa[i] == self.assocs()[i] && fa[j] == self.assocs()[j]);
                let (m1, m2) = choose|m1: int, m2: int|
                    0 <= m1 < m2 < olda.len() && fa[i] == olda[m1] && fa[j] == olda[m2];
                assert(!(olda[m1].product_id == olda[m2].product_id && olda[m1].category_id
                    == olda[m2].category_id));
            };
            assert forall|i: int|
                0 <= i < self.assocs().len() implies self.has_product(
                (#[trigger] self.assocs()[i]).product_id,
            ) && self.has_category(self.assocs()[i].category_id) by {
                assert(fa[i] == self.assocs()[i]);
                let m = choose|m: int| 0 <= m < olda.len() && fa[i] == olda[m];
                let a = olda[m];
                assert(oldst.has_product(a.product_id));
                assert(oldst.has_category(a.category_id));
                let kc = choose|k: int|
                    0 <= k < oldst.cats().len() && (#[trigger] oldst.cats()[k]).id
                        == a.category_id;
                assert(self.cats()[kc].id == a.category_id);
                // the referenced product survives the deletion: it is not
                // the deleted one, so the filter keeps it
                let kp = choose|k: int|
                    0 <= k < oldp.len() && (#[trigger] oldp[k]).id == a.product_id;
                assert(a.product_id != id);
                assert(keep_other_products(id)(oldp[kp]));
                assert(fp.contains(oldp[kp]));
                let w = choose|w: int| 0 <= w < fp.len() && #[trigger] fp[w] == oldp[kp];
                assert(self.prods()[w].id == a.product_id);
            };
        }
        Ok(())
    }

    /// Creates a product with its initial associations, atomically: the
    /// product row and one association row per listed category are inserted
    /// together, or nothing is.  Fails with `Validation` when a field is
    /// out of bounds, the price is not strictly positive, the category list
    /// is empty, or a listed category does not exist.
    pub fn create_product(&mut self, req: CreateProductRequest, now: i64) -> (r: Result<
        ProductResponse,
        ApiError,
    >)
        requires
            old(self).wf(),
            old(self).can_assign_product_id(),
        ensures
            final(self).wf(),
            r is Ok <==> valid_create_product(req) && all_categories_exist(
                *old(self),
                req.category_ids@,
            ),
            r matches Err(e) ==> e is Validation && *final(self) == *old(self),
            r matches Ok(resp) ==> {
                &&& final(self).prods() == old(self).prods().push(
                    new_product_record(old(self).next_product_id, req, now),
                )
                &&& final(self).cats() == old(self).cats()
                &&& final(self).assocs() == add_assocs(
                    old(self).assocs(),
                    old(self).next_product_id,
                    req.category_ids@,
                    now,
                )
                &&& final(self).next_product_id == old(self).next_product_id + 1
                &&& final(self).next_category_id == old(self).next_category_id
                &&& final(self).is_product_response(
                    new_product_record(old(self).next_product_id, req, now),
                    resp,
                )
            },
    {
        match validate_create_product(&req) {
            Err(e) => {
                return Err(e);
            },
            Ok(()) => {},
        }
        let mut k: usize = 0;
        while k < req.category_ids.len()
            invariant
                *self == *old(self),
                self.wf(),
                k <= req.category_ids@.len(),
                forall|j: int|
                    0 <= j < k ==> self.has_category(#[trigger] req.category_ids@[j]),
            decreases req.category_ids@.len() - k,
        {
            match self.find_category_index(req.category_ids[k]) {
                None => {
                    return Err(ApiError::Validation(
                        "One or more categories do not exist".to_owned(),
                    ));
                },
                Some(_) => {},
            }
            k = k + 1;
        }
        let CreateProductRequest { name, description, price, sku, category_ids } = req;
        let pid = self.next_product_id;
        let rec = Product {
            id: pid,
            name: name,
            description: description,
            price: price,
            sku: sku,
            created_at: now,
            updated_at: now,
        };
        let rec_copy = rec.clone();
        proof {
            assert(rec == new_product_record(old(self).next_product_id, req, now));
        }
        self.products.push(rec);
        self.next_product_id = pid + 1;
        let ghost mid = *self;
        let mut k2: usize = 0;
        proof {
            assert(category_ids@.take(0) =~= Seq::<i32>::empty());
            assert(add_assocs(mid.assocs(), pid, category_ids@.take(0), now) == mid.assocs());
        }
        while k2 < category_ids.len()
            invariant
                self.categories@ == mid.categories@,
                self.products@ == mid.products@,
                self.next_product_id == mid.next_product_id,
                self.next_category_id == mid.next_category_id,
                k2 <= category_ids@.len(),
                self.associations@ == add_assocs(
                    mid.associations@,
                    pid,
                    category_ids@.take(k2 as int),
                    now,
                ),
            decreases category_ids@.len() - k2,
        {
            let cid = category_ids[k2];
            proof {
                assert(category_ids@.take(k2 as int + 1) =~= category_ids@.take(
                    k2 as int,
                ).push(cid));
                lemma_add_assocs_snoc(
                    mid.associations@,
                    pid,
                    category_ids@.take(k2 as int),
                    cid,
                    now,
                );
            }
            let present = self.has_association(pid, cid);
            proof {
                if present {
                    let w = choose|i: int|
                        0 <= i < self.assocs().len() && (#[trigger] self.assocs()[i]).product_id
                            == pid && self.assocs()[i].category_id == cid;
                    assert(0 <= w < self.associations@.len() && self.associations@[w].product_id
                        == pid && self.associations@[w].category_id == cid);
                    assert(has_pair(self.associations@, pid, cid));
                } else if has_pair(self.associations@, pid, cid) {
                    let w = choose|i: int|
                        0 <= i < self.associations@.len()
                            && (#[trigger] self.associations@[i]).product_id == pid
                            && self.associations@[i].category_id == cid;
                    assert(self.assocs()[w].product_id == pid && self.assocs()[w].category_id
                        == cid);
                    assert(false);
                }
            }
            if !present {
                self.associations.push(
                    ProductCategory { product_id: pid, category_id: cid, created_at: now },
                );
            }
            k2 = k2 + 1;
        }
        proof {
            assert(category_ids@.take(category_ids@.len() as int) =~= category_ids@);
            let oldst = *old(self);
            lemma_add_assocs_props(oldst.assocs(), pid, category_ids@, now);
            assert(self.assocs() == add_assocs(oldst.assocs(), pid, category_ids@, now));

            assert forall|i: int, j: int| 0 <= i < j < self.prods().len() implies
                (#[trigger] self.prods()[i]).id < (#[trigger] self.prods()[j]).id by {
                if j < oldst.prods().len() {
                    assert(oldst.prods()[i].id < oldst.prods()[j].id);
                }
            };
            assert forall|i: int|
                0 <= i < self.assocs().len() implies self.has_product(
                (#[trigger] self.assocs()[i]).product_id,
            ) && self.has_category(self.assocs()[i].category_id) by {
                let res = add_assocs(oldst.assocs(), pid, category_ids@, now);
                assert(res[i] == self.assocs()[i]);
                if i < oldst.assocs().len() {
                    let a = oldst.assocs()[i];
                    assert(res[i] == a);
                    assert(oldst.has_product(a.product_id));
                    assert(oldst.has_category(a.category_id));
                    let kp = choose|m: int|
                        0 <= m < oldst.prods().len() && (#[trigger] oldst.prods()[m]).id
                            == a.product_id;
                    assert(self.prods()[kp].id == a.product_id);
                    let kc = choose|m: int|
                        0 <= m < oldst.cats().len() && (#[trigger] oldst.cats()[m]).id
                            == a.category_id;
                    assert(self.cats()[kc].id == a.category_id);
                } else {
                    assert(res[i].product_id == pid);
                    assert(self.prods()[oldst.prods().len() as int].id == pid);
                    assert(category_ids@.contains(res[i].category_id));
                    let m = choose|m: int|
                        0 <= m < category_ids@.len() && category_ids@[m]
                            == res[i].category_id;
                    assert(req.category_ids@[m] == res[i].category_id);
                    assert(oldst.has_category(req.category_ids@[m]));
                    let kc = choose|w: int|
                        0 <= w < oldst.cats().len() && (#[trigger] oldst.cats()[w]).id
                            == res[i].category_id;
                    assert(self.cats()[kc].id == res[i].category_id);
                }
            };
        }
        let resp = self.product_response(&rec_copy);
        Ok(resp)
    }
}

impl Catalog {
    /// Updates a product: supplied scalar fields overwrite, omitted fields
    /// keep their prior values, and `updated_at` is refreshed.  A supplied
    /// `category_ids` list replaces the whole association set of the
    /// product, atomically with the scalar update; an omitted list leaves
    /// the associations untouched.  Fails with `Validation` on an
    /// out-of-bounds field or a listed category that does not exist, and
    /// with `NotFound` on an unknown product id; on failure the store is
    /// unchanged.
    pub fn update_product(&mut self, id: i32, req: UpdateProductRequest, now: i64) -> (r: Result<
        ProductResponse,
        ApiError,
    >)
        requires
            old(self).wf(),
        ensures
            final(self).wf(),
            r is Ok <==> valid_update_product(req) && old(self).has_product(id)
                && update_categories_exist(*old(self), req),
            !valid_update_product(req) ==> (r matches Err(e) && e is Validation),
            valid_update_product(req) && !old(self).has_product(id) ==> (r matches Err(e)
                && e is NotFound),
            valid_update_product(req) && old(self).has_product(id) && !update_categories_exist(
                *old(self),
                req,
            ) ==> (r matches Err(e) && e is Validation),
            r is Err ==> *final(self) == *old(self),
            r matches Ok(resp) ==> {
                &&& final(self).prods() == old(self).prods().update(
                    old(self).product_index(id),
                    apply_product_update(old(self).product_at(id), req, now),
                )
                &&& final(self).cats() == old(self).cats()
                &&& match req.category_ids {
                    Some(ids) => final(self).assocs() == add_assocs(
                        old(self).assocs().filter(assoc_without_product(id)),
                        id,
                        ids@,
                        now,
                    ),
                    None => final(self).assocs() == old(self).assocs(),
                }
                &&& final(self).next_category_id == old(self).next_category_id
                &&& final(self).next_product_id == old(self).next_product_id
                &&& final(self).is_product_response(
                    apply_product_update(old(self).product_at(id), req, now),
                    resp,
                )
            },
    {
        match validate_update_product(&req) {
            Err(e) => {
                return Err(e);
            },
            Ok(()) => {},
        }
        let idx = match self.find_product_index(id) {
            None => {
                return Err(ApiError::not_found_simple("Product not found"));
            },
            Some(i) => i,
        };
        proof {
            self.lemma_product_index_unique(id, idx as int);
        }
        if let Some(ids) = &req.category_ids {
            let mut k: usize = 0;
            while k < ids.len()
                invariant
                    *self == *old(self),
                    self.wf(),
                    req.category_ids == Some(*ids),
                    old(self).has_product(id),
                    k <= ids@.len(),
                    forall|j: int| 0 <= j < k ==> self.has_category(#[trigger] ids@[j]),
                decreases ids@.len() - k,
            {
                match self.find_category_index(ids[k]) {
                    None => {
                        return Err(ApiError::Validation(
                            "One or more categories do not exist".to_owned(),
                        ));
                    },
                    Some(_) => {},
                }
                k = k + 1;
            }
        }
        proof {
            assert(update_categories_exist(*old(self), req));
        }
        let cur = self.products[idx].clone();
        let UpdateProductRequest { name, description, price, sku, category_ids } = req;
        let updated = Product {
            id: cur.id,
            name: match name {
                Some(n) => n,
                None => cur.name.clone(),
            },
            description: match description {
                Some(d) => Some(d),
                None => clone_opt_string(&cur.description),
            },
            price: match price {
                Some(x) => x,
                None => cur.price,
            },
            sku: match sku {
                Some(v) => Some(v),
                None => clone_opt_string(&cur.sku),
            },
            created_at: cur.created_at,
            updated_at: now,
        };
        proof {
            assert(updated == apply_product_update(old(self).product_at(id), req, now));
        }
        self.products[idx] = updated;
        proof {
            let oldst = *old(self);
            assert forall|i: int, j: int| 0 <= i < j < self.prods().len() implies
                (#[trigger] self.prods()[i]).id < (#[trigger] self.prods()[j]).id by {
                assert(oldst.prods()[i].id < oldst.prods()[j].id);
                assert(self.prods()[i].id == oldst.prods()[i].id);
                assert(self.prods()[j].id == oldst.prods()[j].id);
            };
        }
        if let Some(ids2) = category_ids {
            let mut kept: Vec<ProductCategory> = Vec::new();
            let mut i: usize = 0;
            proof {
                assert(kept@ =~= self.assocs().take(0).filter(assoc_without_product(id)));
            }
            while i < self.associations.len()
                invariant
                    i <= self.assocs().len(),
                    kept@ == self.assocs().take(i as int).filter(assoc_without_product(id)),
                decreases self.assocs().len() - i,
            {
                proof {
                    lemma_filter_take_step(self.assocs(), assoc_without_product(id), i as int);
                }
                if self.associations[i].product_id != id {
                    kept.push(self.associations[i]);
                }
                i = i + 1;
            }
            proof {
                lemma_take_all(self.assocs());
            }
            self.associations = kept;
            let ghost mid = *self;
            let mut k2: usize = 0;
            proof {
                assert(ids2@.take(0) =~= Seq::<i32>::empty());
                assert(add_assocs(mid.assocs(), id, ids2@.take(0), now) == mid.assocs());
            }
            while k2 < ids2.len()
                invariant
                    self.categories@ == mid.categories@,
                    self.products@ == mid.products@,
                    self.next_product_id == mid.next_product_id,
                    self.next_category_id == mid.next_category_id,
                    k2 <= ids2@.len(),
                    self.associations@ == add_assocs(
                        mid.associations@,
                        id,
                        ids2@.take(k2 as int),
                        now,
                    ),
                decreases ids2@.len() - k2,
            {
                let cid = ids2[k2];
                proof {
                    assert(ids2@.take(k2 as int + 1) =~= ids2@.take(k2 as int).push(cid));
                    lemma_add_assocs_snoc(mid.associations@, id, ids2@.take(k2 as int), cid, now);
                }
                let present = self.has_association(id, cid);
                proof {
                    if present {
                        let w = choose|i: int|
                            0 <= i < self.assocs().len()
                                && (#[trigger] self.assocs()[i]).product_id == id
                                && self.assocs()[i].category_id == cid;
                        assert(0 <= w < self.associations@.len()
                            && self.associations@[w].product_id == id
                            && self.associations@[w].category_id == cid);
                        assert(has_pair(self.associations@, id, cid));
                    } else if has_pair(self.associations@, id, cid) {
                        let w = choose|i: int|
                            0 <= i < self.associations@.len()
                                && (#[trigger] self.associations@[i]).product_id == id
                                && self.associations@[i].category_id == cid;
                        assert(self.assocs()[w].product_id == id && self.assocs()[w].category_id
                            == cid);
                        assert(false);
                    }
                }
                if !present {
                    self.associations.push(
                        ProductCategory { product_id: id, category_id: cid, created_at: now },
                    );
                }
                k2 = k2 + 1;
            }
            proof {
                broadcast use vstd::seq_lib::group_filter_ensures;

                assert(ids2@.take(ids2@.len() as int) =~= ids2@);
                let oldst = *old(self);
                let olda = oldst.assocs();
                let fa = olda.filter(assoc_without_product(id));
                lemma_filter_witnesses(olda, assoc_without_product(id));
                lemma_add_assocs_props(fa, id, ids2@, now);
                assert(self.assocs() == add_assocs(fa, id, ids2@, now));
                let res = add_assocs(fa, id, ids2@, now);

                assert(pairs_unique(fa)) by {
                    assert forall|i: int, j: int| 0 <= i < j < fa.len() implies !(
                        (#[trigger] fa[i]).product_id == (#[trigger] fa[j]).product_id
                            && fa[i].category_id == fa[j].category_id) by {
                        let (m1, m2) = choose|m1: int, m2: int|
                            0 <= m1 < m2 < olda.len() && fa[i] == olda[m1] && fa[j] == olda[m2];
                        assert(!(olda[m1].product_id == olda[m2].product_id
                            && olda[m1].category_id == olda[m2].category_id));
                    };
                };
                assert forall|i: int, j: int| 0 <= i < j < self.assocs().len() implies !(
                    (#[trigger] self.assocs()[i]).product_id
                        == (#[trigger] self.assocs()[j]).product_id
                        && self.assocs()[i].category_id == self.assocs()[j].category_id) by {
                    assert(pairs_unique(res));
                    assert(res[i] == self.assocs()[i] && res[j] == self.assocs()[j]);
                };
                assert forall|i: int|
                    0 <= i < self.assocs().len() implies self.has_product(
                    (#[trigger] self.assocs()[i]).product_id,
                ) && self.has_category(self.assocs()[i].category_id) by {
                    assert(res[i] == self.assocs()[i]);
                    if i < fa.len() {
                        assert(res[i] == fa[i]);
                        let m = choose|m: int| 0 <= m < olda.len() && fa[i] == olda[m];
                        let a = olda[m];
                        assert(oldst.has_product(a.product_id));
                        assert(oldst.has_category(a.category_id));
                        let kp = choose|w: int|
                            0 <= w < oldst.prods().len() && (#[trigger] oldst.prods()[w]).id
                                == a.product_id;
                        assert(self.prods()[kp].id == a.product_id);
                        let kc = choose|w: int|
                            0 <= w < oldst.cats().len() && (#[trigger] oldst.cats()[w]).id
                                == a.category_id;
                        assert(self.cats()[kc].id == a.category_id);
                    } else {
                        assert(res[i].product_id == id);
                        assert(self.prods()[idx as int].id == id);
                        assert(ids2@.contains(res[i].category_id));
                        let m = choose|m: int|
                            0 <= m < ids2@.len() && ids2@[m] == res[i].category_id;
                        assert(oldst.has_category(ids2@[m]));
                        let kc = choose|w: int|
                            0 <= w < oldst.cats().len() && (#[trigger] oldst.cats()[w]).id
                                == res[i].category_id;
                        assert(self.cats()[kc].id == res[i].category_id);
                    }
                };
            }
        } else {
            proof {
                let oldst = *old(self);
                assert forall|i: int|
                    0 <= i < self.assocs().len() implies self.has_product(
                    (#[trigger] self.assocs()[i]).product_id,
                ) && self.has_category(self.assocs()[i].category_id) by {
                    let a = oldst.assocs()[i];
                    assert(self.assocs()[i] == a);
                    assert(oldst.has_product(a.product_id));
                    assert(oldst.has_category(a.category_id));
                    let kp = choose|w: int|
                        0 <= w < oldst.prods().len() && (#[trigger] oldst.prods()[w]).id
                            == a.product_id;
                    assert(self.prods()[kp].id == a.product_id);
                    let kc = choose|w: int|
                        0 <= w < oldst.cats().len() && (#[trigger] oldst.cats()[w]).id
                            == a.category_id;
                    assert(self.cats()[kc].id == a.category_id);
                };
            }
        }
        let resp = self.product_response(&self.products[idx]);
        Ok(resp)
    }

    /// Lists products, 1-indexed and ordered by product id ascending.
    /// `page` defaults to 1 and is floored at 1; `page_size` defaults to
    /// 10, is floored at 1 and capped at 100.  With a category filter both
    /// the page and the total are restricted to products associated with
    /// that category.  `total` counts all matching rows, not only this
    /// page.
    pub fn list_products(&self, params: ProductQueryParams) -> (r: ProductListResponse)
        requires
            self.wf(),
        ensures
            r.total == self.matching_products(params.category_id).len(),
            r.page == params.spec_page(),
            r.page_size == params.spec_page_size(),
            r.products@.len() == page_end(
                self.matching_products(params.category_id).len() as int,
                params.spec_page(),
                params.spec_page_size(),
            ) - page_start(
                self.matching_products(params.category_id).len() as int,
                params.spec_page(),
                params.spec_page_size(),
            ),
            forall|k: int|
                0 <= k < r.products@.len() ==> self.is_product_response(
                    self.matching_products(params.category_id)[page_start(
                        self.matching_products(params.category_id).len() as int,
                        params.spec_page(),
                        params.spec_page_size(),
                    ) + k],
                    #[trigger] r.products@[k],
                ),
    {
        let p = params.page();
        let sz = params.page_size();
        let mut matching: Vec<Product> = Vec::new();
        let mut i: usize = 0;
        proof {
            assert(self.prods().take(0) =~= Seq::<Product>::empty());
            match params.category_id {
                Some(cid) => {
                    assert(self.prods().take(0).filter(self.in_category(cid)) =~= Seq::<
                        Product,
                    >::empty());
                },
                None => {},
            }
        }
        while i < self.products.len()
            invariant
                self.wf(),
                i <= self.prods().len(),
                matching@ == matching_prefix(*self, params.category_id, i as int),
            decreases self.prods().len() - i,
        {
            let keep = match params.category_id {
                Some(cid) => self.has_association(self.products[i].id, cid),
                None => true,
            };
            proof {
                match params.category_id {
                    Some(cid) => {
                        lemma_filter_take_step(self.prods(), self.in_category(cid), i as int);
                    },
                    None => {
                        assert(self.prods().take(i as int + 1) =~= self.prods().take(
                            i as int,
                        ).push(self.prods()[i as int]));
                    },
                }
            }
            if keep {
                matching.push(self.products[i].clone());
            }
            i = i + 1;
        }
        proof {
            lemma_take_all(self.prods());
            match params.category_id {
                Some(cid) => {
                    self.prods().lemma_filter_len(self.in_category(cid));
                },
                None => {},
            }
            assert(matching@ == self.matching_products(params.category_id));
            assert(matching@.len() < 0x8000_0000);
        }
        let total_n = matching.len();
        let ghost big_n = matching@.len() as int;
        proof {
            let ghost a: int = (p - 1) as int;
            let ghost b: int = sz as int;
            assert(a * b <= 0x7fff_ffff_ffff_ffff * 100) by (nonlinear_arith)
                requires
                    0 <= a <= 0x7fff_ffff_ffff_ffff,
                    0 <= b <= 100,
            ;
        }
        let start128: u128 = ((p - 1) as u128) * (sz as u128);
        let start: usize = if start128 >= (total_n as u128) {
            total_n
        } else {
            start128 as usize
        };
        let end: usize = if total_n - start < (sz as usize) {
            total_n
        } else {
            start + (sz as usize)
        };
        proof {
            assert(start == page_start(big_n, params.spec_page(), params.spec_page_size()));
            assert(end == page_end(big_n, params.spec_page(), params.spec_page_size()));
        }
        let mut out: Vec<ProductResponse> = Vec::new();
        let mut k: usize = start;
        while k < end
            invariant
                self.wf(),
                start <= k <= end,
                end <= matching@.len(),
                matching@ == self.matching_products(params.category_id),
                out@.len() == k - start,
                forall|j: int|
                    0 <= j < out@.len() ==> self.is_product_response(
                        matching@[start as int + j],
                        #[trigger] out@[j],
                    ),
            decreases end - k,
        {
            let resp = self.product_response(&matching[k]);
            out.push(resp);
            k = k + 1;
        }
        ProductListResponse { products: out, total: total_n as i64, page: p, page_size: sz }
    }
}

} // verus!
