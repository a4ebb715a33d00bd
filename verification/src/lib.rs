pub mod analysis;
pub mod analyzer;
pub mod checker;
pub mod config;
pub mod edn;
pub mod git;
pub mod key_collector;
pub mod key_model;
pub mod laws;
pub mod locations;
pub mod names;
pub mod operation_laws;
pub mod order;
pub mod parser;
pub mod paths;
pub mod patterns;
pub mod read_model;
pub mod reporter;
pub mod scanner;
pub mod syntax;
pub mod text;
