//! Keyboard-remapping intermediate representation (IR), its JSON document
//! model, schema-driven validation, canonical pretty printing, and a compiler
//! to the Kanata keyboard-firmware DSL.

use vstd::prelude::*;

pub mod export;
pub mod ir;
pub mod json;
pub mod schema;
pub mod validation;

pub use export::export_kanata;
pub use ir::{Action, ComplexAction, Key, IR};
pub use schema::{generate_schema, validate_json_schema};
pub use validation::{ir_from_json, parse_ir, to_pretty_json};

verus! {

/// Errors produced by the library's operations.
///
/// `InvalidIR` covers malformed input syntax and typed/referential failures,
/// `SchemaValidation` covers structurally non-conforming documents, and
/// `ExportFailed` covers validated IR that the compiler cannot render.
#[derive(Debug)]
pub enum KeypathError {
    InvalidIR(String),
    SchemaValidation(String),
    ExportFailed(String),
}

impl KeypathError {
    /// Human-readable description of the error.
    pub fn message(&self) -> (r: &String)
        ensures
            r@ == match self {
                KeypathError::InvalidIR(m) => m@,
                KeypathError::SchemaValidation(m) => m@,
                KeypathError::ExportFailed(m) => m@,
            },
    {
        match self {
            KeypathError::InvalidIR(m) => m,
            KeypathError::SchemaValidation(m) => m,
            KeypathError::ExportFailed(m) => m,
        }
    }
}

} // verus!
