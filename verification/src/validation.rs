//! Field-level validation of the request shapes.
//!
//! The rules: category names hold 1 to 100 characters, product names 1 to
//! 255, SKUs at most 50; prices are strictly positive; a product's category
//! list is never empty.  Each validator returns `Ok` exactly on the requests
//! that satisfy every rule, and a `Validation` error otherwise.

use vstd::prelude::*;
use vstd::string::StrSliceExecFns;
use crate::error::ApiError;
use crate::models::category::{CreateCategoryRequest, UpdateCategoryRequest};
use crate::models::product::{CreateProductRequest, UpdateProductRequest};

verus! {

/// A category name holds 1 to 100 characters.
pub open spec fn valid_category_name(name: Seq<char>) -> bool {
    1 <= name.len() <= 100
}

/// A product name holds 1 to 255 characters.
pub open spec fn valid_product_name(name: Seq<char>) -> bool {
    1 <= name.len() <= 255
}

/// A SKU, when present, holds at most 50 characters.
pub open spec fn valid_sku(sku: Option<String>) -> bool {
    match sku {
        Some(s) => s@.len() <= 50,
        None => true,
    }
}

pub open spec fn valid_create_category(req: CreateCategoryRequest) -> bool {
    valid_category_name(req.name@)
}

pub open spec fn valid_update_category(req: UpdateCategoryRequest) -> bool {
    match req.name {
        Some(n) => valid_category_name(n@),
        None => true,
    }
}

pub open spec fn valid_create_product(req: CreateProductRequest) -> bool {
    &&& valid_product_name(req.name@)
    &&& req.price > 0
    &&& valid_sku(req.sku)
    &&& req.category_ids@.len() >= 1
}

pub open spec fn valid_update_product(req: UpdateProductRequest) -> bool {
    &&& match req.name {
        Some(n) => valid_product_name(n@),
        None => true,
    }
    &&& match req.price {
        Some(p) => p > 0,
        None => true,
    }
    &&& valid_sku(req.sku)
    &&& match req.category_ids {
        Some(ids) => ids@.len() >= 1,
        None => true,
    }
}

pub fn validate_create_category(req: &CreateCategoryRequest) -> (r: Result<(), ApiError>)
    ensures
        r is Ok <==> valid_create_category(*req),
        r matches Err(e) ==> e is Validation,
{
    let len = req.name.as_str().unicode_len();
    if len < 1 || len > 100 {
        return Err(ApiError::Validation(
            "Category name cannot be empty and must be less than 101 characters".to_owned(),
        ));
    }
    Ok(())
}

pub fn validate_update_category(req: &UpdateCategoryRequest) -> (r: Result<(), ApiError>)
    ensures
        r is Ok <==> valid_update_category(*req),
        r matches Err(e) ==> e is Validation,
{
    if let Some(name) = &req.name {
        let len = name.as_str().unicode_len();
        if len < 1 || len > 100 {
            return Err(ApiError::Validation(
                "Category name cannot be empty and must be less than 101 characters".to_owned(),
            ));
        }
    }
    Ok(())
}

pub fn validate_create_product(req: &CreateProductRequest) -> (r: Result<(), ApiError>)
    ensures
        r is Ok <==> valid_create_product(*req),
        r matches Err(e) ==> e is Validation,
{
    let name_len = req.name.as_str().unicode_len();
    if name_len < 1 || name_len > 255 {
        return Err(ApiError::Validation(
            "Product name cannot be empty and must be less than 256 characters".to_owned(),
        ));
    }
    if req.price <= 0 {
        return Err(ApiError::Validation("Price must be positive".to_owned()));
    }
    if let Some(sku) = &req.sku {
        if sku.as_str().unicode_len() > 50 {
            return Err(ApiError::Validation("SKU must be less than 51 characters".to_owned()));
        }
    }
    if req.category_ids.len() == 0 {
        return Err(ApiError::Validation(
            "Product must belong to at least one category".to_owned(),
        ));
    }
    Ok(())
}

pub fn validate_update_product(req: &UpdateProductRequest) -> (r: Result<(), ApiError>)
    ensures
        r is Ok <==> valid_update_product(*req),
        r matches Err(e) ==> e is Validation,
{
    if let Some(name) = &req.name {
        let len = name.as_str().unicode_len();
        if len < 1 || len > 255 {
            return Err(ApiError::Validation(
                "Product name cannot be empty and must be less than 256 characters".to_owned(),
            ));
        }
    }
    if let Some(price) = &req.price {
        if *price <= 0 {
            return Err(ApiError::Validation("Price must be positive".to_owned()));
        }
    }
    if let Some(sku) = &req.sku {
        if sku.as_str().unicode_len() > 50 {
            return Err(ApiError::Validation("SKU must be less than 51 characters".to_owned()));
        }
    }
    if let Some(ids) = &req.category_ids {
        if ids.len() == 0 {
            return Err(ApiError::Validation(
                "Product must belong to at least one category".to_owned(),
            ));
        }
    }
    Ok(())
}

} // verus!
