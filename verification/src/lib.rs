//! A terminal command launcher library: a set of configuration documents
//! describes a tree of named groups and leaf commands; the library merges the
//! documents into one validated, ordered tree and tracks an interactive
//! navigation position inside it (current group, selection, breadcrumbs), up
//! to the point where a leaf command is handed to a shell.

pub mod config_aggregator;
pub mod config_structs;
pub mod executor;
pub mod order;
pub mod state;
pub mod toml_model;
pub mod toml_parser;
