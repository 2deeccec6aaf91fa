//! Catalogue of serialised titles: page extraction, identifier allocation,
//! storage layout and eviction planning, with machine-checked contracts.

pub mod fetch;
pub mod ids;
pub mod library;
pub mod storage;
pub mod story;
pub mod text;
pub mod timestamp;
pub mod user;
pub mod web;
