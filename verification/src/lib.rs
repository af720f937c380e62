//! Evidence-linked knowledge maps for Rust crates.
pub mod model;
pub mod text;
pub mod projection;
pub mod lexer;
pub mod syntax;
pub mod attribute;
pub mod docs;
pub mod analysis;
pub mod cli;
pub mod report;
pub mod identity;
pub mod sets;
pub mod assembly;
pub mod scan;
pub mod source;
pub mod metadata;
