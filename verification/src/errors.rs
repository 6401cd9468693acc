//! The error value a failed compilation returns, and its rendered message.
use vstd::prelude::*;
use vstd::string::StringExecFns;
use crate::model::ErrSpec;

verus! {

/// The first error a compilation ran into. Compilation stops there: no
/// partial HTML is ever handed out.
#[derive(Debug)]
pub enum CompileError {
    /// An unrecognized `#`-prefixed token, named.
    Lexical(String),
    /// A token mismatch: what was expected and what stood there.
    Mismatch { expected: String, found: String },
    /// An unrecognized construct after `#GIMMEH`, named.
    UnexpectedConstruct(String),
    /// A plain-text production met this `#`-initial or non-ASCII token.
    InvalidText(String),
    /// This variable name was used before any definition.
    UndefinedVariable(String),
    /// The source lexed to zero tokens.
    InputError,
}

impl View for CompileError {
    type V = ErrSpec;

    open spec fn view(&self) -> ErrSpec {
        match self {
            CompileError::Lexical(t) => ErrSpec::Lexical(t@),
            CompileError::Mismatch { expected, found } => ErrSpec::Mismatch {
                expected: expected@,
                found: found@,
            },
            CompileError::UnexpectedConstruct(t) => ErrSpec::UnexpectedConstruct(t@),
            CompileError::InvalidText(t) => ErrSpec::InvalidText(t@),
            CompileError::UndefinedVariable(n) => ErrSpec::UndefinedVariable(n@),
            CompileError::InputError => ErrSpec::EmptyInput,
        }
    }
}

/// The diagnostic line each error renders to.
pub open spec fn err_message(e: ErrSpec) -> Seq<char> {
    match e {
        ErrSpec::Lexical(t) => "Lexical Error: Invalid token '"@ + t + "'"@,
        ErrSpec::Mismatch { expected, found } => "Syntax Error: Expected '"@ + expected
            + "', found '"@ + found + "'"@,
        ErrSpec::UnexpectedConstruct(_) => "Syntax Error: Unknown GIMMEH construct"@,
        ErrSpec::InvalidText(t) => "Syntax Error: Expected text, found '"@ + t + "'"@,
        ErrSpec::UndefinedVariable(n) => "Syntax Error: Undefined variable '"@ + n + "'"@,
        ErrSpec::EmptyInput => "Syntax Error: Empty input file."@,
    }
}

impl CompileError {
    /// The human-readable diagnostic line for this error.
    pub fn message(&self) -> (m: String)
        ensures
            m@ == err_message(self@),
    {
        match self {
            CompileError::Lexical(t) => {
                let mut m = "Lexical Error: Invalid token '".to_owned();
                m.append(t.as_str());
                m.append("'");
                m
            },
            CompileError::Mismatch { expected, found } => {
                let mut m = "Syntax Error: Expected '".to_owned();
                m.append(expected.as_str());
                m.append("', found '");
                m.append(found.as_str());
                m.append("'");
                m
            },
            CompileError::UnexpectedConstruct(_) => "Syntax Error: Unknown GIMMEH construct".to_owned(),
            CompileError::InvalidText(t) => {
                let mut m = "Syntax Error: Expected text, found '".to_owned();
                m.append(t.as_str());
                m.append("'");
                m
            },
            CompileError::UndefinedVariable(n) => {
                let mut m = "Syntax Error: Undefined variable '".to_owned();
                m.append(n.as_str());
                m.append("'");
                m
            },
            CompileError::InputError => "Syntax Error: Empty input file.".to_owned(),
        }
    }
}

} // verus!
