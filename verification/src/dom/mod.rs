//! The document: an arena of nodes linked by index.

pub mod attributes;
pub mod document;
pub mod element;
pub mod node;
pub mod parser;
