//! Blox: a lightweight nested-block markup language.
//!
//! The crate parses Blox source text into a typed document tree, serializes
//! the tree back to Blox source, and lowers it to HTML, Markdown, JSON and
//! plain text.  Contracts throughout are stated over ghost models of the
//! tree; the laws module proves what a parse of an encoding gives back.

pub mod api;
pub mod ast;
pub mod attrs;
pub mod decoder;
pub mod encoder;
pub mod enrich;
pub mod error;
pub mod inline;
pub mod json;
pub mod laws;
pub mod list;
pub mod model;
pub mod parser;
pub mod table;
pub mod text;
pub mod validate;
