//! The two services, as operations on the shared store.

pub mod category;
pub mod product;
