//! A code atlas: turns Rust sources into a graph of files and symbols that can be queried.
//!
//! The library holds the logic: module-path naming, import resolution, symbol extraction
//! from a syntax tree, the repository graph and symbol search. Reading and writing files,
//! the command line and JSON encoding live in the application around it.
pub mod text;
pub mod naming;
pub mod paths;
pub mod ids;
pub mod syntax;
pub mod repo;
pub mod extraction;
pub mod find;
pub mod config;
pub mod ignore_filter;
