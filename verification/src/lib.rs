//! A compiler for a small keyword-delimited markup language that emits HTML.
//!
//! The pipeline is a lexer that turns source text into a token sequence, a
//! token cursor, and a predictive recursive-descent driver whose productions
//! validate the grammar, manage a flat symbol table and append to a growing
//! HTML buffer. Compilation stops at the first error.
pub mod compiler;
pub mod errors;
pub mod lexer;
pub mod laws;
pub mod lemmas;
pub mod model;
mod util;

pub use compiler::LolCompiler;
pub use errors::CompileError;
pub use lexer::LolLexer;
pub use model::ErrSpec;
pub use model::PState;
