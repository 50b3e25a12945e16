//! Compiles declarative URL-route templates (literal text with `{name}`
//! placeholders) into a validated schema, and renders concrete URL strings
//! from a variant's compiled tokens and its field values.

pub mod lexer;
pub mod render;
pub mod schema;
pub mod token;
pub mod validate;
