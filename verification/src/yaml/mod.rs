//! YAML documents.

pub mod error;
pub mod failsafe;
pub mod laws;
pub mod nesting;
pub mod parse;
pub mod position;
pub mod scan;
pub mod typed;
pub mod value;
