//! Category rows and the request/response shapes of the category service.
//!
//! Timestamps are plain integers (seconds since the Unix epoch), handed in by
//! the caller; the store never reads a clock itself.

use vstd::prelude::*;

verus! {

/// Copies an optional string, preserving its value.
pub fn clone_opt_string(o: &Option<String>) -> (r: Option<String>)
    ensures
        r == *o,
{
    match o {
        Some(s) => Some(s.clone()),
        None => None,
    }
}

/// A category row: `id` is generated by the store, `name` is unique across
/// all categories (case-sensitive), and `updated_at` is refreshed on every
/// mutation.
pub struct Category {
    pub id: i32,
    pub name: String,
    pub description: Option<String>,
    pub created_at: i64,
    pub updated_at: i64,
}

impl Clone for Category {
    fn clone(&self) -> (r: Self)
        ensures
            r == *self,
    {
        Category {
            id: self.id,
            name: self.name.clone(),
            description: clone_opt_string(&self.description),
            created_at: self.created_at,
            updated_at: self.updated_at,
        }
    }
}

/// Input for creating a category; `name` must hold 1 to 100 characters.
pub struct CreateCategoryRequest {
    pub name: String,
    pub description: Option<String>,
}

/// Partial update: only supplied fields are overwritten.
pub struct UpdateCategoryRequest {
    pub name: Option<String>,
    pub description: Option<String>,
}

/// A full category record as returned to callers.
#[derive(Debug)]
pub struct CategoryResponse {
    pub id: i32,
    pub name: String,
    pub description: Option<String>,
    pub created_at: i64,
    pub updated_at: i64,
}

/// A category list entry; `product_count` is `None` unless the caller asked
/// for counts, in which case it holds the number of distinct products
/// associated with the category.
#[derive(Debug)]
pub struct CategoryWithProductsResponse {
    pub id: i32,
    pub name: String,
    pub description: Option<String>,
    pub product_count: Option<i64>,
    pub created_at: i64,
    pub updated_at: i64,
}

impl Clone for CategoryWithProductsResponse {
    fn clone(&self) -> (r: Self)
        ensures
            r == *self,
    {
        CategoryWithProductsResponse {
            id: self.id,
            name: self.name.clone(),
            description: clone_opt_string(&self.description),
            product_count: self.product_count,
            created_at: self.created_at,
            updated_at: self.updated_at,
        }
    }
}

/// The category listing, ordered by name ascending.
#[derive(Debug)]
pub struct CategoryListResponse {
    pub categories: Vec<CategoryWithProductsResponse>,
}

/// Query parameters of the category listing.
pub struct CategoryQueryParams {
    pub include_product_count: Option<bool>,
}

impl CategoryQueryParams {
    /// Whether product counts were requested; absent means no.
    pub fn include_product_count(&self) -> (r: bool)
        ensures
            r == (self.include_product_count == Some(true)),
    {
        match self.include_product_count {
            Some(b) => b,
            None => false,
        }
    }
}

} // verus!
