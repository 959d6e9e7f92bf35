pub mod models;
