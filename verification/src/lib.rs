//! LIR, a small data-processing language (`lir/1`): lexer, parser, type checker,
//! reference interpreter, canonical formatter and LLVM IR emitter, plus the LYTR 0.1
//! bootstrap language built on top of it.

pub mod ast;
pub mod ast_json;
pub mod cli;
pub mod error;
pub mod format;
pub mod input_parse;
pub mod interp;
pub mod lex;
pub mod llvm_ir;
pub mod llvm_text;
pub mod laws;
pub mod lytr;
pub mod parse;
pub mod plan_law;
pub mod roundtrip;
pub mod semantics;
pub mod text;
pub mod types;
pub mod type_law;
pub mod wasm;

pub use ast::Program;
pub use ast_json::{AstJsonError, LirAstDocument, AST_JSON_SCHEMA_VERSION};
pub use error::{cli_json_line, LirError, Span};
pub use format::{format_program, program_is_canonical_text};
pub use input_parse::parse_input_array;
pub use interp::{run_program, RunOutcome, Val};
pub use llvm_ir::{codegen_supported, emit_llvm_ir};
pub use lytr::{check_lytr_program, parse_lytr_program, run_lytr_program, LytrError};
pub use parse::parse_program;
pub use types::{check_program, source_stream_ty};
pub use wasm::adapt_llvm_ir_for_wasm;
