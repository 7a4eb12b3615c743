//! A linter for nginx configuration files.
use vstd::prelude::*;

pub mod ast;
pub mod cache;
pub mod categories;
pub mod config;
pub mod config_api;
pub mod determinism;
pub mod docs;
pub mod error;
pub mod fixes;
pub mod ignore;
pub mod include_walk;
pub mod includes;
pub mod lexer;
pub mod lint;
pub mod licenses;
pub mod linter;
pub mod parser;
pub mod plugin;
pub mod plugin_checks;
pub mod plugin_script;
pub mod positions;
pub mod rules;
pub mod run;
pub mod sdk;
pub mod text;

verus! {
} // verus!
