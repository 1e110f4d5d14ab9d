//! JSON interchange for the LIR AST: a versioned envelope around a [`Program`].
//!
//! The JSON text itself is read and written with `serde_json` by the program; this module
//! holds the envelope, its version rule, and the errors.

use vstd::prelude::*;
use crate::ast::Program;
use crate::text::{push_str, push_u64, string_of};
use crate::text::nat_decimal;

verus! {

/// `schema_version` of [`LirAstDocument`]; bumped when the JSON shape changes.
pub const AST_JSON_SCHEMA_VERSION: u32 = 1;

/// A program with the schema version it was written under.
#[derive(Debug)]
pub struct LirAstDocument {
    pub schema_version: u32,
    pub program: Program,
}

/// The error type of `serde_json`, carried through unchanged.
#[verifier::external_type_specification]
#[verifier::external_body]
pub struct ExJsonError(serde_json::Error);

/// Why a JSON document could not be read as a program.
#[derive(Debug)]
pub enum AstJsonError {
    /// The text is not JSON of the expected shape.
    Json(serde_json::Error),
    /// The envelope names a schema version this library does not read.
    UnsupportedSchemaVersion { got: u32 },
}

/// The envelope written for a program: the current schema version and the program.
pub fn lir_ast_document(program: Program) -> (d: LirAstDocument)
    ensures
        d.schema_version == AST_JSON_SCHEMA_VERSION,
        d.program == program,
{
    LirAstDocument { schema_version: AST_JSON_SCHEMA_VERSION, program }
}

/// The program of a decoded envelope, or the unsupported version it names.
pub fn document_program(doc: LirAstDocument) -> (r: Result<Program, AstJsonError>)
    ensures
        doc.schema_version == AST_JSON_SCHEMA_VERSION ==> (r matches Ok(p) && p == doc.program),
        doc.schema_version != AST_JSON_SCHEMA_VERSION ==> (r matches Err(AstJsonError::UnsupportedSchemaVersion { got }) && got == doc.schema_version),
{
    if doc.schema_version != AST_JSON_SCHEMA_VERSION {
        return Err(AstJsonError::UnsupportedSchemaVersion { got: doc.schema_version });
    }
    Ok(doc.program)
}

/// Message for an unsupported schema version.
pub fn unsupported_version_message(got: u32) -> (m: String)
    ensures
        m@ == "unsupported schema_version "@ + nat_decimal(got as nat) + " (expected "@ + nat_decimal(AST_JSON_SCHEMA_VERSION as nat) + ")"@,
{
    let mut m = string_of("unsupported schema_version ");
    push_u64(&mut m, got as u64);
    push_str(&mut m, " (expected ");
    push_u64(&mut m, AST_JSON_SCHEMA_VERSION as u64);
    push_str(&mut m, ")");
    m
}

} // verus!
