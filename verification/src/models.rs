//! Plain data records, request and response shapes for the two services.

pub mod category;
pub mod product;
