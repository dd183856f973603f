//! The document-processing core of a browser engine: an arena-based document
//! tree, a CSS engine (stylesheet parsing, selector matching, cascade) and the
//! construction of the box tree that layout works on.

pub mod css;
pub mod dom;
pub mod id_list;
pub mod layout;
pub mod text;
