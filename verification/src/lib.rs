pub mod config;
pub mod engine;
pub mod grouping;
pub mod models;
pub mod numeric;
pub mod parser;
pub mod paths;
pub mod properties;
pub mod rule_laws;
pub mod rule_reports;
pub mod rulemap;
pub mod rules;
pub mod syntax;
pub mod text;
pub mod treesitter;

