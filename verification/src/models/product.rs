//! Product rows, association rows, and the request/response shapes of the
//! product service.
//!
//! Prices are exact decimals held as a whole number of minor currency units
//! (e.g. cents), never floating point.  Timestamps are seconds since the
//! Unix epoch, handed in by the caller.

use vstd::prelude::*;
use crate::models::category::clone_opt_string;

verus! {

/// A product row: `id` is generated by the store and `price` is strictly
/// positive (in minor currency units).
pub struct Product {
    pub id: i32,
    pub name: String,
    pub description: Option<String>,
    pub price: i64,
    pub sku: Option<String>,
    pub created_at: i64,
    pub updated_at: i64,
}

impl Clone for Product {
    fn clone(&self) -> (r: Self)
        ensures
            r == *self,
    {
        Product {
            id: self.id,
            name: self.name.clone(),
            description: clone_opt_string(&self.description),
            price: self.price,
            sku: clone_opt_string(&self.sku),
            created_at: self.created_at,
            updated_at: self.updated_at,
        }
    }
}

/// One association row of the many-to-many relationship.  Each
/// `(product_id, category_id)` combination appears at most once, and both
/// referenced rows exist while the association does.
#[derive(Clone, Copy, Debug)]
pub struct ProductCategory {
    pub product_id: i32,
    pub category_id: i32,
    pub created_at: i64,
}

/// Input for creating a product.  `category_ids` must be non-empty and
/// `price` strictly positive; both are enforced by the store itself.
pub struct CreateProductRequest {
    pub name: String,
    pub description: Option<String>,
    pub price: i64,
    pub sku: Option<String>,
    pub category_ids: Vec<i32>,
}

/// Partial update: only supplied fields are overwritten.  Supplying
/// `category_ids` replaces the whole association set of the product.
pub struct UpdateProductRequest {
    pub name: Option<String>,
    pub description: Option<String>,
    pub price: Option<i64>,
    pub sku: Option<String>,
    pub category_ids: Option<Vec<i32>>,
}

/// The minimal category representation embedded in a product response.
#[derive(Debug)]
pub struct CategoryBrief {
    pub id: i32,
    pub name: String,
}

impl Clone for CategoryBrief {
    fn clone(&self) -> (r: Self)
        ensures
            r == *self,
    {
        CategoryBrief { id: self.id, name: self.name.clone() }
    }
}

/// A full product record as returned to callers, with its category briefs
/// ordered by category name.
#[derive(Debug)]
pub struct ProductResponse {
    pub id: i32,
    pub name: String,
    pub description: Option<String>,
    pub price: i64,
    pub sku: Option<String>,
    pub categories: Vec<CategoryBrief>,
    pub created_at: i64,
    pub updated_at: i64,
}

/// One page of the product listing; `total` counts all matching rows, not
/// only this page.
#[derive(Debug)]
pub struct ProductListResponse {
    pub products: Vec<ProductResponse>,
    pub total: i64,
    pub page: i64,
    pub page_size: i64,
}

/// Query parameters of the product listing.
pub struct ProductQueryParams {
    pub page: Option<i64>,
    pub page_size: Option<i64>,
    pub category_id: Option<i32>,
}

impl ProductQueryParams {
    /// The effective page: 1-indexed, defaults to 1, floored at 1.
    pub open spec fn spec_page(self) -> int {
        match self.page {
            Some(p) => if p < 1 { 1 } else { p as int },
            None => 1,
        }
    }

    /// The effective page size: defaults to 10, floored at 1, capped at 100.
    pub open spec fn spec_page_size(self) -> int {
        match self.page_size {
            Some(s) => if s > 100 { 100 } else if s < 1 { 1 } else { s as int },
            None => 10,
        }
    }

    pub fn page(&self) -> (r: i64)
        ensures
            r == self.spec_page(),
    {
        match self.page {
            Some(p) => if p < 1 { 1 } else { p },
            None => 1,
        }
    }

    pub fn page_size(&self) -> (r: i64)
        ensures
            r == self.spec_page_size(),
    {
        match self.page_size {
            Some(s) => if s > 100 { 100 } else if s < 1 { 1 } else { s },
            None => 10,
        }
    }

    /// The number of rows that precede the requested page.
    pub fn offset(&self) -> (r: i64)
        requires
            (self.spec_page() - 1) * self.spec_page_size() <= i64::MAX,
        ensures
            r == (self.spec_page() - 1) * self.spec_page_size(),
    {
        let p = self.page();
        let s = self.page_size();
        proof {
            assert((p - 1) * s >= 0) by (nonlinear_arith)
                requires
                    p >= 1,
                    s >= 1,
            ;
        }
        (p - 1) * s
    }
}

} // verus!
