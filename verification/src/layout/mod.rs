//! The box tree: which boxes a styled document gives rise to.

pub mod box_model;
pub mod inline;
pub mod tree;
