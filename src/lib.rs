//! A text-template engine: renders a parsed template against a tree of data
//! with an explicit control stack, so deeply nested templates cannot exhaust
//! the native stack.

pub mod value;
pub mod error;
pub mod ast;
pub mod filters;
pub mod eval;
pub mod render;
pub mod laws;
