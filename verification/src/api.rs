pub mod market;
pub mod metadata;
