//! The category service: create, get, list, update and delete categories,
//! and list the products of a category.
//!
//! Every mutating operation is atomic: on any error the store is unchanged.

use vstd::prelude::*;
use crate::catalog::Catalog;
use crate::error::ApiError;
use crate::models::category::{
    Category, CategoryListResponse, CategoryQueryParams, CategoryResponse,
    CategoryWithProductsResponse, CreateCategoryRequest, UpdateCategoryRequest,
    clone_opt_string,
};
use crate::models::product::{ProductCategory, ProductResponse};
use crate::order::{sort_by_name, sorted_by_key};
use crate::seq_util::{lemma_filter_take_step, lemma_filter_witnesses, lemma_take_all};
use crate::validation::{
    valid_create_category, valid_update_category, validate_create_category,
    validate_update_category,
};

verus! {

/// The row a successful create inserts: the generated id, the requested
/// fields, and both timestamps set to the time of the call.
pub open spec fn new_category_record(id: i32, req: CreateCategoryRequest, now: i64) -> Category {
    Category {
        id: id,
        name: req.name,
        description: req.description,
        created_at: now,
        updated_at: now,
    }
}

/// The row a successful update leaves behind: supplied fields overwrite,
/// omitted fields keep their prior values, and `updated_at` is refreshed.
pub open spec fn apply_category_update(c: Category, req: UpdateCategoryRequest, now: i64) -> Category {
    Category {
        id: c.id,
        name: match req.name {
            Some(n) => n,
            None => c.name,
        },
        description: match req.description {
            Some(d) => Some(d),
            None => c.description,
        },
        created_at: c.created_at,
        updated_at: now,
    }
}

/// Keeps every category row but the one with the given id.
pub open spec fn keep_other_categories(id: i32) -> spec_fn(Category) -> bool {
    |c: Category| c.id != id
}

/// Keeps every association row not referencing the given category.
pub open spec fn assoc_without_category(id: i32) -> spec_fn(ProductCategory) -> bool {
    |a: ProductCategory| a.category_id != id
}

/// The requested new name collides with a different existing category.
pub open spec fn update_name_conflict(cat: Catalog, id: i32, req: UpdateCategoryRequest) -> bool {
    match req.name {
        Some(n) => exists|i: int|
            0 <= i < cat.cats().len() && (#[trigger] cat.cats()[i]).name@ == n@
                && cat.cats()[i].id != id,
        None => false,
    }
}

/// The presentation of one category row in the listing, with or without
/// its product count.
pub open spec fn with_count(cat: Catalog, want_counts: bool) -> spec_fn(Category) -> CategoryWithProductsResponse {
    |c: Category| CategoryWithProductsResponse {
        id: c.id,
        name: c.name,
        description: c.description,
        product_count: if want_counts {
            Some(cat.product_count_in(c.id) as i64)
        } else {
            None
        },
        created_at: c.created_at,
        updated_at: c.updated_at,
    }
}

impl Catalog {
    /// Creates a category.  Fails with `Validation` when the name is out of
    /// bounds, with `Conflict` when the name is already taken (case-sensitive
    /// exact match); on failure the store is unchanged.  On success the new
    /// row carries the generated id and both timestamps set to `now`.
    pub fn create_category(&mut self, req: CreateCategoryRequest, now: i64) -> (r: Result<
        CategoryResponse,
        ApiError,
    >)
        requires
            old(self).wf(),
            old(self).can_assign_category_id(),
        ensures
            final(self).wf(),
            r is Ok <==> valid_create_category(req) && !old(self).name_taken(req.name@),
            !valid_create_category(req) ==> (r matches Err(e) && e is Validation),
            valid_create_category(req) && old(self).name_taken(req.name@) ==> (r matches Err(e)
                && e is Conflict),
            r is Err ==> *final(self) == *old(self),
            r matches Ok(resp) ==> {
                &&& final(self).cats() == old(self).cats().push(
                    new_category_record(old(self).next_category_id, req, now),
                )
                &&& final(self).prods() == old(self).prods()
                &&& final(self).assocs() == old(self).assocs()
                &&& final(self).next_category_id == old(self).next_category_id + 1
                &&& final(self).next_product_id == old(self).next_product_id
                &&& Catalog::is_category_response(
                    new_category_record(old(self).next_category_id, req, now),
                    resp,
                )
            },
    {
        match validate_create_category(&req) {
            Err(e) => {
                return Err(e);
            },
            Ok(()) => {},
        }
        match self.find_category_by_name(&req.name) {
            Some(_) => {
                return Err(ApiError::Conflict("Category name already exists".to_owned()));
            },
            None => {},
        }
        let id = self.next_category_id;
        let rec = Category {
            id: id,
            name: req.name,
            description: req.description,
            created_at: now,
            updated_at: now,
        };
        let resp = Catalog::category_response(&rec);
        self.categories.push(rec);
        self.next_category_id = id + 1;
        proof {
            let oldc = old(self).cats();
            assert forall|i: int, j: int| 0 <= i < j < self.cats().len() implies
                (#[trigger] self.cats()[i]).id < (#[trigger] self.cats()[j]).id by {
                if j < oldc.len() {
                    assert(oldc[i].id < oldc[j].id);
                } else {
                    assert(self.cats()[j].id == id);
                    assert(oldc[i].id < self.next_category_id - 1);
                }
            };
            assert forall|i: int, j: int| 0 <= i < j < self.cats().len() implies
                (#[trigger] self.cats()[i]).name@ != (#[trigger] self.cats()[j]).name@ by {
                if j == oldc.len() {
                    assert(oldc[i].name@ != req.name@);
                }
            };
            assert forall|i: int|
                0 <= i < self.assocs().len() implies self.has_product(
                (#[trigger] self.assocs()[i]).product_id,
            ) && self.has_category(self.assocs()[i].category_id) by {
                let a = old(self).assocs()[i];
                assert(self.assocs()[i] == a);
                assert(old(self).has_product(a.product_id));
                assert(old(self).has_category(a.category_id));
                let kp = choose|k: int|
                    0 <= k < old(self).prods().len() && (#[trigger] old(self).prods()[k]).id
                        == a.product_id;
                assert(self.prods()[kp].id == a.product_id);
                let kc = choose|k: int|
                    0 <= k < oldc.len() && (#[trigger] oldc[k]).id == a.category_id;
                assert(self.cats()[kc].id == a.category_id);
            };
        }
        Ok(resp)
    }

    /// Returns the category with the given id, or `NotFound`.
    pub fn get_category(&self, id: i32) -> (r: Result<CategoryResponse, ApiError>)
        requires
            self.wf(),
        ensures
            r is Ok <==> self.has_category(id),
            r matches Err(e) ==> e is NotFound,
            r matches Ok(resp) ==> Catalog::is_category_response(self.category_at(id), resp),
    {
        match self.find_category_index(id) {
            None => Err(ApiError::not_found_simple("Category not found")),
            Some(i) => {
                proof {
                    self.lemma_category_index_unique(id, i as int);
                }
                Ok(Catalog::category_response(&self.categories[i]))
            },
        }
    }

    /// Lists all categories, ordered by name ascending.  When
    /// `include_product_count` is requested, each entry carries the number
    /// of distinct products associated with it; otherwise the count is
    /// absent.
    pub fn list_categories(&self, params: CategoryQueryParams) -> (r: CategoryListResponse)
        requires
            self.wf(),
        ensures
            r.categories@.to_multiset() == self.cats().map_values(
                with_count(*self, params.include_product_count == Some(true)),
            ).to_multiset(),
            sorted_by_key(r.categories@),
            r.categories@.len() == self.cats().len(),
    {
        let want_counts = params.include_product_count();
        let ghost f = with_count(*self, want_counts);
        let mut rows: Vec<CategoryWithProductsResponse> = Vec::new();
        let mut i: usize = 0;
        proof {
            assert(rows@ =~= self.cats().take(0).map_values(f));
        }
        while i < self.categories.len()
            invariant
                self.wf(),
                want_counts == (params.include_product_count == Some(true)),
                f == with_count(*self, want_counts),
                i <= self.cats().len(),
                rows@ == self.cats().take(i as int).map_values(f),
            decreases self.cats().len() - i,
        {
            let product_count: Option<i64> = if want_counts {
                Some(self.count_products_in_category(self.categories[i].id))
            } else {
                None
            };
            let row = CategoryWithProductsResponse {
                id: self.categories[i].id,
                name: self.categories[i].name.clone(),
                description: clone_opt_string(&self.categories[i].description),
                product_count: product_count,
                created_at: self.categories[i].created_at,
                updated_at: self.categories[i].updated_at,
            };
            proof {
                assert(row == f(self.cats()[i as int]));
            }
            rows.push(row);
            proof {
                assert(self.cats().take(i as int + 1) =~= self.cats().take(i as int).push(
                    self.cats()[i as int],
                ));
                assert(self.cats().take(i as int).push(self.cats()[i as int]).map_values(f)
                    =~= self.cats().take(i as int).map_values(f).push(
                    f(self.cats()[i as int]),
                ));
            }
            i = i + 1;
        }
        proof {
            lemma_take_all(self.cats());
        }
        let sorted = sort_by_name(&rows);
        proof {
            rows@.to_multiset_ensures();
            sorted@.to_multiset_ensures();
        }
        CategoryListResponse { categories: sorted }
    }

    /// Updates a category: supplied fields overwrite, omitted fields keep
    /// their prior values, and `updated_at` is refreshed.  Fails with
    /// `Validation` on an out-of-bounds name, `NotFound` on an unknown id,
    /// and `Conflict` when the new name collides with a different existing
    /// category; on failure the store is unchanged.
    pub fn update_category(&mut self, id: i32, req: UpdateCategoryRequest, now: i64) -> (r: Result<
        CategoryResponse,
        ApiError,
    >)
        requires
            old(self).wf(),
        ensures
            final(self).wf(),
            r is Ok <==> valid_update_category(req) && old(self).has_category(id)
                && !update_name_conflict(*old(self), id, req),
            !valid_update_category(req) ==> (r matches Err(e) && e is Validation),
            valid_update_category(req) && !old(self).has_category(id) ==> (r matches Err(e)
                && e is NotFound),
            valid_update_category(req) && old(self).has_category(id) && update_name_conflict(
                *old(self),
                id,
                req,
            ) ==> (r matches Err(e) && e is Conflict),
            r is Err ==> *final(self) == *old(self),
            r matches Ok(resp) ==> {
                &&& final(self).cats() == old(self).cats().update(
                    old(self).category_index(id),
                    apply_category_update(old(self).category_at(id), req, now),
                )
                &&& final(self).prods() == old(self).prods()
                &&& final(self).assocs() == old(self).assocs()
                &&& final(self).next_category_id == old(self).next_category_id
                &&& final(self).next_product_id == old(self).next_product_id
                &&& Catalog::is_category_response(
                    apply_category_update(old(self).category_at(id), req, now),
                    resp,
                )
            },
    {
        match validate_update_category(&req) {
            Err(e) => {
                return Err(e);
            },
            Ok(()) => {},
        }
        let idx = match self.find_category_index(id) {
            None => {
                return Err(ApiError::not_found_simple("Category not found"));
            },
            Some(i) => i,
        };
        proof {
            self.lemma_category_index_unique(id, idx as int);
        }
        if let Some(n) = &req.name {
            match self.find_category_by_name(n) {
                Some(j) => {
                    if self.categories[j].id != id {
                        return Err(ApiError::Conflict("Category name already exists".to_owned()));
                    }
                    proof {
                        // the matching row is the updated one itself, and
                        // names are unique, so no other row carries the name
                        assert forall|k: int|
                            0 <= k < self.cats().len() && (#[trigger] self.cats()[k]).name@ == n@
                                implies self.cats()[k].id == id by {
                            if k < j as int {
                                assert(self.cats()[k].name@ != self.cats()[j as int].name@);
                            } else if k > j as int {
                                assert(self.cats()[j as int].name@ != self.cats()[k].name@);
                            }
                        };
                    }
                },
                None => {},
            }
        }
        let cur = self.categories[idx].clone();
        let new_name = match req.name {
            Some(n) => n,
            None => cur.name.clone(),
        };
        let new_description = match req.description {
            Some(d) => Some(d),
            None => clone_opt_string(&cur.description),
        };
        let updated = Category {
            id: cur.id,
            name: new_name,
            description: new_description,
            created_at: cur.created_at,
            updated_at: now,
        };
        let resp = Catalog::category_response(&updated);
        self.categories[idx] = updated;
        proof {
            let oldc = old(self).cats();
            assert(self.cats() == oldc.update(
                old(self).category_index(id),
                apply_category_update(old(self).category_at(id), req, now),
            ));
            assert forall|i: int, j: int| 0 <= i < j < self.cats().len() implies
                (#[trigger] self.cats()[i]).id < (#[trigger] self.cats()[j]).id by {
                assert(oldc[i].id < oldc[j].id);
                assert(self.cats()[i].id == oldc[i].id);
                assert(self.cats()[j].id == oldc[j].id);
            };
            assert forall|i: int, j: int| 0 <= i < j < self.cats().len() implies
                (#[trigger] self.cats()[i]).name@ != (#[trigger] self.cats()[j]).name@ by {
                if i != idx as int && j != idx as int {
                    assert(oldc[i].name@ != oldc[j].name@);
                }
            };
            assert forall|i: int|
                0 <= i < self.assocs().len() implies self.has_product(
                (#[trigger] self.assocs()[i]).product_id,
            ) && self.has_category(self.assocs()[i].category_id) by {
                let a = old(self).assocs()[i];
                assert(self.assocs()[i] == a);
                assert(old(self).has_product(a.product_id));
                assert(old(self).has_category(a.category_id));
                let kp = choose|k: int|
                    0 <= k < old(self).prods().len() && (#[trigger] old(self).prods()[k]).id
                        == a.product_id;
                assert(self.prods()[kp].id == a.product_id);
                let kc = choose|k: int|
                    0 <= k < oldc.len() && (#[trigger] oldc[k]).id == a.category_id;
                assert(self.cats()[kc].id == a.category_id);
            };
        }
        Ok(resp)
    }

    /// Deletes a category and every association row referencing it,
    /// atomically.  The products it was tied to are left untouched.  Fails
    /// with `NotFound` on an unknown id, leaving the store unchanged.
    pub fn delete_category(&mut self, id: i32) -> (r: Result<(), ApiError>)
        requires
            old(self).wf(),
        ensures
            final(self).wf(),
            r is Ok <==> old(self).has_category(id),
            r matches Err(e) ==> e is NotFound && *final(self) == *old(self),
            r is Ok ==> {
                &&& final(self).cats() == old(self).cats().filter(keep_other_categories(id))
                &&& final(self).assocs() == old(self).assocs().filter(assoc_without_category(id))
                &&& final(self).prods() == old(self).prods()
                &&& final(self).next_category_id == old(self).next_category_id
                &&& final(self).next_product_id == old(self).next_product_id
            },
    {
        match self.find_category_index(id) {
            None => {
                return Err(ApiError::not_found_simple("Category not found"));
            },
            Some(_) => {},
        }
        let mut kept_assocs: Vec<ProductCategory> = Vec::new();
        let mut i: usize = 0;
        proof {
            assert(kept_assocs@ =~= self.assocs().take(0).filter(assoc_without_category(id)));
        }
        while i < self.associations.len()
            invariant
                i <= self.assocs().len(),
                kept_assocs@ == self.assocs().take(i as int).filter(assoc_without_category(id)),
            decreases self.assocs().len() - i,
        {
            proof {
                lemma_filter_take_step(self.assocs(), assoc_without_category(id), i as int);
            }
            if self.associations[i].category_id != id {
                kept_assocs.push(self.associations[i]);
            }
            i = i + 1;
        }
        proof {
            lemma_take_all(self.assocs());
        }

        let mut kept_cats: Vec<Category> = Vec::new();
        let mut j: usize = 0;
        proof {
            assert(kept_cats@ =~= self.cats().take(0).filter(keep_other_categories(id)));
        }
        while j < self.categories.len()
            invariant
                j <= self.cats().len(),
                kept_cats@ == self.cats().take(j as int).filter(keep_other_categories(id)),
            decreases self.cats().len() - j,
        {
            proof {
                lemma_filter_take_step(self.cats(), keep_other_categories(id), j as int);
            }
            if self.categories[j].id != id {
                kept_cats.push(self.categories[j].clone());
            }
            j = j + 1;
        }
        proof {
            lemma_take_all(self.cats());
        }

        self.associations = kept_assocs;
        self.categories = kept_cats;
        proof {
            broadcast use vstd::seq_lib::group_filter_ensures;

            let oldst = *old(self);
            let oldc = oldst.cats();
            let olda = oldst.assocs();
            let fc = oldc.filter(keep_other_categories(id));
            let fa = olda.filter(assoc_without_category(id));
            lemma_filter_witnesses(oldc, keep_other_categories(id));
            lemma_filter_witnesses(olda, assoc_without_category(id));
            assert(self.cats() == fc);
            assert(self.assocs() == fa);

            assert forall|i: int, j: int| 0 <= i < j < self.cats().len() implies
                (#[trigger] self.cats()[i]).id < (#[trigger] self.cats()[j]).id by {
                assert(fc[i] == self.cats()[i] && fc[j] == self.cats()[j]);
                let (m1, m2) = choose|m1: int, m2: int|
                    0 <= m1 < m2 < oldc.len() && fc[i] == oldc[m1] && fc[j] == oldc[m2];
                assert(oldc[m1].id < oldc[m2].id);
            };
            assert forall|i: int|
                0 <= i < self.cats().len() implies 1 <= (#[trigger] self.cats()[i]).id
                < self.next_category_id by {
                assert(fc[i] == self.cats()[i]);
                let m = choose|m: int| 0 <= m < oldc.len() && fc[i] == oldc[m];
                assert(1 <= oldc[m].id < oldst.next_category_id);
            };
            assert forall|i: int, j: int| 0 <= i < j < self.cats().len() implies
                (#[trigger] self.cats()[i]).name@ != (#[trigger] self.cats()[j]).name@ by {
                assert(fc[i] == self.cats()[i] && fc[j] == self.cats()[j]);
                let (m1, m2) = choose|m1: int, m2: int|
                    0 <= m1 < m2 < oldc.len() && fc[i] == oldc[m1] && fc[j] == oldc[m2];
                assert(oldc[m1].name@ != oldc[m2].name@);
            };
            assert forall|i: int|
                0 <= i < self.cats().len() implies crate::validation::valid_category_name(
                (#[trigger] self.cats()[i]).name@,
            ) by {
                assert(fc[i] == self.cats()[i]);
                let m = choose|m: int| 0 <= m < oldc.len() && fc[i] == oldc[m];
                assert(crate::validation::valid_category_name(oldc[m].name@));
            };
            assert forall|i: int, j: int| 0 <= i < j < self.assocs().len() implies !(
                (#[trigger] self.assocs()[i]).product_id == (#[trigger] self.assocs()[j]).product_id
                    && self.assocs()[i].category_id == self.assocs()[j].category_id) by {
                assert(fa[i] == self.assocs()[i] && fa[j] == self.assocs()[j]);
                let (m1, m2) = choose|m1: int, m2: int|
                    0 <= m1 < m2 < olda.len() && fa[i] == olda[m1] && fa[j] == olda[m2];
                assert(!(olda[m1].product_id == olda[m2].product_id && olda[m1].category_id
                    == olda[m2].category_id));
            };
            assert forall|i: int|
                0 <= i < self.assocs().len() implies self.has_product(
                (#[trigger] self.assocs()[i]).product_id,
            ) && self.has_category(self.assocs()[i].category_id) by {
                assert(fa[i] == self.assocs()[i]);
                let m = choose|m: int| 0 <= m < olda.len() && fa[i] == olda[m];
                let a = olda[m];
                assert(oldst.has_product(a.product_id));
                assert(oldst.has_category(a.category_id));
                let kp = choose|k: int|
                    0 <= k < oldst.prods().len() && (#[trigger] oldst.prods()[k]).id
                        == a.product_id;
                assert(self.prods()[kp].id == a.product_id);
                // the referenced category survives the deletion: it is not
                // the deleted one, so the filter keeps it
                let kc = choose|k: int|
                    0 <= k < oldc.len() && (#[trigger] oldc[k]).id == a.category_id;
                assert(a.category_id != id);
                assert(keep_other_categories(id)(oldc[kc]));
                assert(fc.contains(oldc[kc]));
                let w = choose|w: int| 0 <= w < fc.len() && #[trigger] fc[w] == oldc[kc];
                assert(self.cats()[w].id == a.category_id);
            };
        }
        Ok(())
    }

    /// Lists every product associated with the given category, in product
    /// id order, each with its own full category list.  Fails with
    /// `NotFound` when the category does not exist, so an empty category is
    /// distinguishable from a missing one.
    pub fn get_products_by_category(&self, category_id: i32) -> (r: Result<
        Vec<ProductResponse>,
        ApiError,
    >)
        requires
            self.wf(),
        ensures
            r is Ok <==> self.has_category(category_id),
            r matches Err(e) ==> e is NotFound,
            r matches Ok(list) ==> {
                &&& list@.len() == self.products_in_category(category_id).len()
                &&& forall|k: int|
                    0 <= k < list@.len() ==> self.is_product_response(
                        self.products_in_category(category_id)[k],
                        #[trigger] list@[k],
                    )
            },
    {
        match self.find_category_index(category_id) {
            None => {
                return Err(ApiError::not_found_simple("Category not found"));
            },
            Some(_) => {},
        }
        let ghost pred = self.in_category(category_id);
        let mut out: Vec<ProductResponse> = Vec::new();
        let mut i: usize = 0;
        proof {
            assert(self.prods().take(0).filter(pred) =~= Seq::<
                crate::models::product::Product,
            >::empty());
        }
        while i < self.products.len()
            invariant
                self.wf(),
                pred == self.in_category(category_id),
                i <= self.prods().len(),
                out@.len() == self.prods().take(i as int).filter(pred).len(),
                forall|k: int|
                    0 <= k < out@.len() ==> self.is_product_response(
                        self.prods().take(i as int).filter(pred)[k],
                        #[trigger] out@[k],
                    ),
            decreases self.prods().len() - i,
        {
            proof {
                lemma_filter_take_step(self.prods(), pred, i as int);
            }
            if self.has_association(self.products[i].id, category_id) {
                let resp = self.product_response(&self.products[i]);
                out.push(resp);
            }
            i = i + 1;
        }
        proof {
            lemma_take_all(self.prods());
        }
        Ok(out)
    }
}

} // verus!
