//! A verified list query and aggregation engine: named, attributed item
//! lists are filtered by a selector, sorted under a polymorphic attribute
//! order, paged by raw position, and summed into per-key monetary rollups.
//! Every public operation carries a contract stating exactly what it
//! computes, down to the attribute codec's text grammar for prices.

pub mod codec;
pub mod common;
pub mod decimal;
pub mod list_of_lists_service;
pub mod list_service;
pub mod rollups;
pub mod selector;
pub mod sorting;
pub mod text;
pub mod user_service;
