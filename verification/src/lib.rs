//! A library for browsing NixOS configuration option trees.
//!
//! The library decodes a JSON description of a configuration schema
//! (the "options") together with a separately evaluated JSON tree of
//! concrete values (the "config"), builds a navigable tree of option
//! nodes from the schema, and overlays the concrete values onto the
//! matching nodes.

pub mod documentation;
pub mod json;
pub mod laws;
pub mod node;
pub mod overlay;
pub mod parse;
pub mod run;
pub mod select;
pub mod sort;
pub mod text;
