//! Product catalog domain logic: categories, products, and the many-to-many
//! association between them, over an in-memory relational store.
//!
//! The store (`Catalog`) keeps three tables — categories, products and
//! association rows — and enforces their consistency rules: generated ids,
//! unique category names, foreign keys from association rows to both parents,
//! and cascade-safe deletion.  Every operation states exactly when it
//! succeeds, which error it returns otherwise, and how the tables change.

pub mod catalog;
pub mod config;
pub mod error;
pub mod laws;
pub mod models;
pub mod order;
pub mod repository;
pub mod seq_util;
pub mod validation;

pub use catalog::Catalog;
pub use error::ApiError;
