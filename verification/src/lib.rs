//! Trade-up discovery for weapon skins: grouping of skin metadata, target
//! selection, listing evaluation and trade-up assembly.

pub mod models;
pub mod text;
pub mod engine;
pub mod domain;
pub mod data;
pub mod api;
pub mod cache;
pub mod lists;
