pub mod config;
pub mod header;
pub mod list;
pub mod run;
pub mod run_laws;
pub mod toml_model;
pub mod web;
