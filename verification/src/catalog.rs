//! The relational store behind both services: three tables and their
//! consistency rules.
//!
//! `Catalog` plays the role of the storage backend.  It keeps the
//! `categories`, `products` and association rows, assigns generated ids from
//! two counters, and maintains the invariants spelled out in [`Catalog::wf`]:
//! rows stand in id order, ids are unique and below the counters, category
//! names are unique, stored fields satisfy the domain rules, and every
//! association row references a live product and a live category exactly
//! once.  Each service operation is a method on this type (see the
//! `repository` modules) and is atomic: it either applies completely or
//! leaves the store untouched.

use vstd::prelude::*;
use crate::models::category::{Category, CategoryResponse, clone_opt_string};
use crate::models::product::{CategoryBrief, Product, ProductCategory, ProductResponse};
use crate::order::{sorted_by_key, sort_by_name};
use crate::seq_util::{lemma_filter_take_step, lemma_take_all};
use crate::validation::{valid_category_name, valid_product_name, valid_sku};

verus! {

/// The view of a category row as a brief: its id and name.
pub open spec fn to_brief() -> spec_fn(Category) -> CategoryBrief {
    |c: Category| CategoryBrief { id: c.id, name: c.name }
}

/// The in-memory relational store shared by the two services.
pub struct Catalog {
    pub categories: Vec<Category>,
    pub products: Vec<Product>,
    pub associations: Vec<ProductCategory>,
    pub next_category_id: i32,
    pub next_product_id: i32,
}

impl Catalog {
    /// The category table.
    pub open spec fn cats(self) -> Seq<Category> {
        self.categories@
    }

    /// The product table.
    pub open spec fn prods(self) -> Seq<Product> {
        self.products@
    }

    /// The association table.
    pub open spec fn assocs(self) -> Seq<ProductCategory> {
        self.associations@
    }

    /// A category row with this id exists.
    pub open spec fn has_category(self, id: i32) -> bool {
        exists|i: int| 0 <= i < self.cats().len() && (#[trigger] self.cats()[i]).id == id
    }

    /// A product row with this id exists.
    pub open spec fn has_product(self, id: i32) -> bool {
        exists|i: int| 0 <= i < self.prods().len() && (#[trigger] self.prods()[i]).id == id
    }

    /// An association row linking this product and category exists.
    pub open spec fn has_assoc(self, pid: i32, cid: i32) -> bool {
        exists|i: int|
            0 <= i < self.assocs().len() && (#[trigger] self.assocs()[i]).product_id == pid
                && self.assocs()[i].category_id == cid
    }

    /// Some category already carries this name (case-sensitive).
    pub open spec fn name_taken(self, name: Seq<char>) -> bool {
        exists|i: int| 0 <= i < self.cats().len() && (#[trigger] self.cats()[i]).name@ == name
    }

    /// The index of the category row with this id.
    pub open spec fn category_index(self, id: i32) -> int {
        choose|i: int| 0 <= i < self.cats().len() && (#[trigger] self.cats()[i]).id == id
    }

    /// The category row with this id.
    pub open spec fn category_at(self, id: i32) -> Category {
        self.cats()[self.category_index(id)]
    }

    /// The index of the product row with this id.
    pub open spec fn product_index(self, id: i32) -> int {
        choose|i: int| 0 <= i < self.prods().len() && (#[trigger] self.prods()[i]).id == id
    }

    /// The product row with this id.
    pub open spec fn product_at(self, id: i32) -> Product {
        self.prods()[self.product_index(id)]
    }

    /// Membership test used to filter products by category.
    pub open spec fn in_category(self, cid: i32) -> spec_fn(Product) -> bool {
        |p: Product| self.has_assoc(p.id, cid)
    }

    /// Membership test used to resolve the categories of a product.
    pub open spec fn category_of(self, pid: i32) -> spec_fn(Category) -> bool {
        |c: Category| self.has_assoc(pid, c.id)
    }

    /// The products associated with this category, in table (id) order.
    pub open spec fn products_in_category(self, cid: i32) -> Seq<Product> {
        self.prods().filter(self.in_category(cid))
    }

    /// The categories associated with this product, in table (id) order.
    pub open spec fn categories_of_product(self, pid: i32) -> Seq<Category> {
        self.cats().filter(self.category_of(pid))
    }

    /// The number of distinct products associated with this category.
    pub open spec fn product_count_in(self, cid: i32) -> int {
        self.products_in_category(cid).len() as int
    }

    /// The rows a listing must consider: all products, or those in the
    /// requested category.
    pub open spec fn matching_products(self, filt: Option<i32>) -> Seq<Product> {
        match filt {
            Some(cid) => self.products_in_category(cid),
            None => self.prods(),
        }
    }

    /// There is room for one more generated category id.
    pub open spec fn can_assign_category_id(self) -> bool {
        self.next_category_id < i32::MAX
    }

    /// There is room for one more generated product id.
    pub open spec fn can_assign_product_id(self) -> bool {
        self.next_product_id < i32::MAX
    }

    /// Well-formedness: the consistency rules every reachable store state
    /// satisfies.
    pub open spec fn wf(self) -> bool {
        // category rows stand in strictly increasing id order
        &&& forall|i: int, j: int|
            0 <= i < j < self.cats().len() ==> (#[trigger] self.cats()[i]).id
                < (#[trigger] self.cats()[j]).id
        // category ids are generated: positive and below the counter
        &&& forall|i: int|
            0 <= i < self.cats().len() ==> 1 <= (#[trigger] self.cats()[i]).id
                < self.next_category_id
        // category names are unique (case-sensitive)
        &&& forall|i: int, j: int|
            0 <= i < j < self.cats().len() ==> (#[trigger] self.cats()[i]).name@
                != (#[trigger] self.cats()[j]).name@
        // stored category fields obey the domain rules
        &&& forall|i: int|
            0 <= i < self.cats().len() ==> valid_category_name(
                (#[trigger] self.cats()[i]).name@,
            )
        &&& self.cats().len() < self.next_category_id as int
        // product rows stand in strictly increasing id order
        &&& forall|i: int, j: int|
            0 <= i < j < self.prods().len() ==> (#[trigger] self.prods()[i]).id
                < (#[trigger] self.prods()[j]).id
        // product ids are generated: positive and below the counter
        &&& forall|i: int|
            0 <= i < self.prods().len() ==> 1 <= (#[trigger] self.prods()[i]).id
                < self.next_product_id
        // stored product fields obey the domain rules
        &&& forall|i: int|
            0 <= i < self.prods().len() ==> valid_product_name(
                (#[trigger] self.prods()[i]).name@,
            ) && self.prods()[i].price > 0 && valid_sku(self.prods()[i].sku)
        &&& self.prods().len() < self.next_product_id as int
        // each (product, category) combination appears at most once
        &&& forall|i: int, j: int|
            0 <= i < j < self.assocs().len() ==> !((#[trigger] self.assocs()[i]).product_id
                == (#[trigger] self.assocs()[j]).product_id && self.assocs()[i].category_id
                == self.assocs()[j].category_id)
        // foreign keys: both parents of an association row exist
        &&& forall|i: int|
            0 <= i < self.assocs().len() ==> self.has_product(
                (#[trigger] self.assocs()[i]).product_id,
            ) && self.has_category(self.assocs()[i].category_id)
    }

    /// An empty store; id generation starts at 1.
    pub fn new() -> (r: Catalog)
        ensures
            r.wf(),
            r.cats() == Seq::<Category>::empty(),
            r.prods() == Seq::<Product>::empty(),
            r.assocs() == Seq::<ProductCategory>::empty(),
            r.next_category_id == 1,
            r.next_product_id == 1,
    {
        let r = Catalog {
            categories: Vec::new(),
            products: Vec::new(),
            associations: Vec::new(),
            next_category_id: 1,
            next_product_id: 1,
        };
        proof {
            assert(r.cats() =~= Seq::<Category>::empty());
            assert(r.prods() =~= Seq::<Product>::empty());
            assert(r.assocs() =~= Seq::<ProductCategory>::empty());
        }
        r
    }

    /// In a well-formed store the row index of an id is unique.
    pub proof fn lemma_category_index_unique(self, id: i32, i: int)
        requires
            self.wf(),
            0 <= i < self.cats().len(),
            self.cats()[i].id == id,
        ensures
            self.category_index(id) == i,
            self.has_category(id),
    {
        assert(self.has_category(id));
        let j = self.category_index(id);
        if i < j {
            assert(self.cats()[i].id < self.cats()[j].id);
        } else if j < i {
            assert(self.cats()[j].id < self.cats()[i].id);
        }
    }

    /// In a well-formed store the row index of an id is unique.
    pub proof fn lemma_product_index_unique(self, id: i32, i: int)
        requires
            self.wf(),
            0 <= i < self.prods().len(),
            self.prods()[i].id == id,
        ensures
            self.product_index(id) == i,
            self.has_product(id),
    {
        assert(self.has_product(id));
        let j = self.product_index(id);
        if i < j {
            assert(self.prods()[i].id < self.prods()[j].id);
        } else if j < i {
            assert(self.prods()[j].id < self.prods()[i].id);
        }
    }

    /// Finds the row index of a category id.
    pub fn find_category_index(&self, id: i32) -> (r: Option<usize>)
        ensures
            match r {
                Some(i) => i < self.cats().len() && self.cats()[i as int].id == id,
                None => !self.has_category(id),
            },
    {
        let mut i: usize = 0;
        while i < self.categories.len()
            invariant
                i <= self.cats().len(),
                forall|k: int| 0 <= k < i ==> (#[trigger] self.cats()[k]).id != id,
            decreases self.cats().len() - i,
        {
            if self.categories[i].id == id {
                return Some(i);
            }
            i = i + 1;
        }
        None
    }

    /// Finds the row index of a product id.
    pub fn find_product_index(&self, id: i32) -> (r: Option<usize>)
        ensures
            match r {
                Some(i) => i < self.prods().len() && self.prods()[i as int].id == id,
                None => !self.has_product(id),
            },
    {
        let mut i: usize = 0;
        while i < self.products.len()
            invariant
                i <= self.prods().len(),
                forall|k: int| 0 <= k < i ==> (#[trigger] self.prods()[k]).id != id,
            decreases self.prods().len() - i,
        {
            if self.products[i].id == id {
                return Some(i);
            }
            i = i + 1;
        }
        None
    }

    /// Finds the row index of a category name (case-sensitive exact match).
    pub fn find_category_by_name(&self, name: &String) -> (r: Option<usize>)
        ensures
            match r {
                Some(i) => i < self.cats().len() && self.cats()[i as int].name@ == name@,
                None => !self.name_taken(name@),
            },
    {
        let mut i: usize = 0;
        while i < self.categories.len()
            invariant
                i <= self.cats().len(),
                forall|k: int| 0 <= k < i ==> (#[trigger] self.cats()[k]).name@ != name@,
            decreases self.cats().len() - i,
        {
            if self.categories[i].name == *name {
                return Some(i);
            }
            i = i + 1;
        }
        None
    }

    /// Whether an association row links this product and category.
    pub fn has_association(&self, pid: i32, cid: i32) -> (r: bool)
        ensures
            r == self.has_assoc(pid, cid),
    {
        let mut i: usize = 0;
        while i < self.associations.len()
            invariant
                i <= self.assocs().len(),
                forall|k: int|
                    0 <= k < i ==> !((#[trigger] self.assocs()[k]).product_id == pid
                        && self.assocs()[k].category_id == cid),
            decreases self.assocs().len() - i,
        {
            if self.associations[i].product_id == pid && self.associations[i].category_id
                == cid {
                return true;
            }
            i = i + 1;
        }
        false
    }

    /// Counts the distinct products associated with a category, via the
    /// association table.
    pub fn count_products_in_category(&self, cid: i32) -> (n: i64)
        requires
            self.wf(),
        ensures
            n == self.product_count_in(cid),
    {
        let mut n: i64 = 0;
        let mut i: usize = 0;
        proof {
            assert(self.prods().take(0).filter(self.in_category(cid)) =~= Seq::<
                Product,
            >::empty());
        }
        while i < self.products.len()
            invariant
                self.wf(),
                i <= self.prods().len(),
                n == self.prods().take(i as int).filter(self.in_category(cid)).len(),
                n <= i,
            decreases self.prods().len() - i,
        {
            proof {
                lemma_filter_take_step(self.prods(), self.in_category(cid), i as int);
            }
            if self.has_association(self.products[i].id, cid) {
                n = n + 1;
            }
            i = i + 1;
        }
        proof {
            lemma_take_all(self.prods());
        }
        n
    }

    /// The category briefs of a product: its categories as (id, name)
    /// pairs, ordered by name ascending.
    pub open spec fn briefs_ok(self, pid: i32, briefs: Seq<CategoryBrief>) -> bool {
        &&& briefs.to_multiset() == self.categories_of_product(pid).map_values(
            to_brief(),
        ).to_multiset()
        &&& sorted_by_key(briefs)
    }

    /// Resolves the category briefs of a product, ordered by name.
    pub fn category_briefs(&self, pid: i32) -> (r: Vec<CategoryBrief>)
        ensures
            self.briefs_ok(pid, r@),
    {
        let mut raw: Vec<CategoryBrief> = Vec::new();
        let mut i: usize = 0;
        proof {
            assert(raw@ =~= self.cats().take(0).filter(self.category_of(pid)).map_values(
                to_brief(),
            ));
        }
        while i < self.categories.len()
            invariant
                i <= self.cats().len(),
                raw@ == self.cats().take(i as int).filter(self.category_of(pid)).map_values(
                    to_brief(),
                ),
            decreases self.cats().len() - i,
        {
            proof {
                lemma_filter_take_step(self.cats(), self.category_of(pid), i as int);
            }
            let ghost before = self.cats().take(i as int).filter(self.category_of(pid));
            if self.has_association(pid, self.categories[i].id) {
                let b = CategoryBrief {
                    id: self.categories[i].id,
                    name: self.categories[i].name.clone(),
                };
                proof {
                    assert(b == to_brief()(self.cats()[i as int]));
                }
                raw.push(b);
                proof {
                    assert(self.cats().take(i as int + 1).filter(self.category_of(pid))
                        == before.push(self.cats()[i as int]));
                    assert(before.push(self.cats()[i as int]).map_values(to_brief())
                        =~= before.map_values(to_brief()).push(to_brief()(self.cats()[i as int])));
                }
            }
            i = i + 1;
        }
        proof {
            lemma_take_all(self.cats());
        }
        sort_by_name(&raw)
    }

    /// A product response carries the product's own fields and its current
    /// category briefs, ordered by name.
    pub open spec fn is_product_response(self, p: Product, r: ProductResponse) -> bool {
        &&& r.id == p.id
        &&& r.name == p.name
        &&& r.description == p.description
        &&& r.price == p.price
        &&& r.sku == p.sku
        &&& r.created_at == p.created_at
        &&& r.updated_at == p.updated_at
        &&& self.briefs_ok(p.id, r.categories@)
    }

    /// Builds the response for one product row.
    pub fn product_response(&self, p: &Product) -> (r: ProductResponse)
        ensures
            self.is_product_response(*p, r),
    {
        ProductResponse {
            id: p.id,
            name: p.name.clone(),
            description: clone_opt_string(&p.description),
            price: p.price,
            sku: clone_opt_string(&p.sku),
            categories: self.category_briefs(p.id),
            created_at: p.created_at,
            updated_at: p.updated_at,
        }
    }

    /// A category response carries exactly the row's fields.
    pub open spec fn is_category_response(c: Category, r: CategoryResponse) -> bool {
        &&& r.id == c.id
        &&& r.name == c.name
        &&& r.description == c.description
        &&& r.created_at == c.created_at
        &&& r.updated_at == c.updated_at
    }

    /// Builds the response for one category row.
    pub fn category_response(c: &Category) -> (r: CategoryResponse)
        ensures
            Catalog::is_category_response(*c, r),
    {
        CategoryResponse {
            id: c.id,
            name: c.name.clone(),
            description: clone_opt_string(&c.description),
            created_at: c.created_at,
            updated_at: c.updated_at,
        }
    }
}

} // verus!
