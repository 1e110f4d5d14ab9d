//! LYTR 0.1 bootstrap: parse, type-check and interpret a small language.
//!
//! A program is the edition line `lytr/0.1`, then `fn main() -> i32 { … }` or
//! `fn main() -> i64 { … }`. The body binds names with `let` and ends with `return`;
//! expressions use integer literals, `true` / `false`, names, `+ - * / %`, comparisons,
//! parentheses, `if` / `else` with braced branches, `Ok(..)` / `Err(..)`, and `match` on a
//! `Result` with an `Ok(name)` and an `Err(name)` arm.

pub mod ast;
pub mod error;
pub mod lex;

pub use error::LytrError;
pub mod parse;
pub mod types;
pub mod interp;
pub mod laws;

pub use interp::run_lytr_program;
pub use parse::parse_lytr_program;
pub use types::check_lytr_program;
