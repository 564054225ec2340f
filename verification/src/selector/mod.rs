//! Selectors: patterns in the manner of CSS, parsed from a string and
//! matched against elements.
pub mod matcher;
pub mod parser;
pub mod pattern;
pub mod store;
