//! A verified in-memory product catalog: products, shared variant dimensions
//! (such as "size"), and per-product variant values, held in three relations
//! (`products`, `variants`, `products_variants`) with dense generated ids.
//!
//! The store offers four operations — create a complete product inside one
//! all-or-nothing step, list a page of products, show one product by id, and
//! search products by name substring — each read operation pairing every
//! product with its variant assignments in insertion order.

pub mod laws;
pub mod models;
pub mod spec_catalog;
pub mod store;
pub mod text;
