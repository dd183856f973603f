//! Stylesheets: values, properties, selectors, the stylesheet parser and the
//! cascade.

pub mod context;
pub mod parser;
pub mod properties;
pub mod selector;
pub mod style;
pub mod values;
