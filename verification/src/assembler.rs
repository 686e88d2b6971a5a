
pub mod codegen;
pub mod lexer;
pub mod number;
pub mod parser;
pub mod token;


pub use codegen::{GenFailure, GenStop, codegen, spec_codegen};
pub use lexer::{lex, spec_lex};
pub use number::{parse_balanced_ternary, parse_number};
pub use parser::{Line, LineKind, Operand, ParseStop, parse, spec_parse};
pub use token::Token;

use crate::tryte::Tryte;
use token::toks;
use vstd::prelude::*;

verus! {

/// Errors of the assembler, by stage, with a message.
#[derive(Debug, Clone, PartialEq)]
pub enum AssembleError {
    Lex(String),
    Parse(String),
    Codegen(String),
}

/// An assembler error as plain values.
pub enum AsmError {
    Lex(Seq<char>),
    Parse(Seq<char>),
    Codegen(Seq<char>),
}

impl View for AssembleError {
    type V = AsmError;

    open spec fn view(&self) -> AsmError {
        match self {
            AssembleError::Lex(m) => AsmError::Lex(m@),
            AssembleError::Parse(m) => AsmError::Parse(m@),
            AssembleError::Codegen(m) => AsmError::Codegen(m@),
        }
    }
}

/// The text of an assembler error: its stage, then its message.
pub open spec fn error_text(e: AsmError) -> Seq<char> {
    match e {
        AsmError::Lex(m) => "lex error: "@ + m,
        AsmError::Parse(m) => "parse error: "@ + m,
        AsmError::Codegen(m) => "codegen error: "@ + m,
    }
}

impl AssembleError {
    /// The text of the error, such as "lex error: bare '.'".
    pub fn to_string(&self) -> (s: String)
        ensures
            s@ == error_text(self@),
    {
        let (mut s, m) = match self {
            AssembleError::Lex(m) => (crate::text::lit("lex error: "), m),
            AssembleError::Parse(m) => (crate::text::lit("parse error: "), m),
            AssembleError::Codegen(m) => (crate::text::lit("codegen error: "), m),
        };
        crate::text::push_str(&mut s, m.as_str());
        s
    }
}

/// What assembling a source text gives: the binary, or the error of the
/// first stage that fails. `None` where a stage cannot finish: a `.asciiz`
/// directive as the very last token, or a program whose addresses pass `i32::MAX`.
pub open spec fn spec_assemble(source: Seq<char>) -> Option<Result<Seq<Tryte>, AsmError>> {
    match spec_lex(source) {
        Err(m) => Some(Err(AsmError::Lex(m))),
        Ok(ts) => match spec_parse(ts) {
            Err(ParseStop::Error(m)) => Some(Err(AsmError::Parse(m))),
            Err(ParseStop::OutOfTokens) => None,
            Ok(ls) => match spec_codegen(ls) {
                Ok(b) => Some(Ok(b)),
                Err(GenStop::Error(m)) => Some(Err(AsmError::Codegen(m))),
                Err(GenStop::AddressOverflow) => None,
            },
        },
    }
}

/// Assembles a source text, or says `None` where it cannot be assembled at
/// all (see [`spec_assemble`]).
pub fn try_assemble(source: &str) -> (r: Option<Result<Vec<Tryte>, AssembleError>>)
    requires
        source@.len() < usize::MAX - 2,
    ensures
        match spec_assemble(source@) {
            None => r is None,
            Some(Ok(b)) => (r matches Some(Ok(v)) && v@ == b),
            Some(Err(e)) => (r matches Some(Err(x)) && x@ == e),
        },
{
    let tokens = match lex(source) {
        Ok(t) => t,
        Err(e) => {
            return Some(Err(e));
        },
    };
    proof {
        lexer::lemma_lex_len(source@, 0);
        lexer::lemma_lex_regs(source@, 0);
        parser::lemma_parse_regs(toks(tokens@), 0, true, None);
    }
    let lines = match parser::parse_tokens(tokens.as_slice()) {
        Ok(l) => l,
        Err(parser::ParseFailure::Error(e)) => {
            return Some(Err(e));
        },
        Err(parser::ParseFailure::OutOfTokens) => {
            return None;
        },
    };
    match codegen(lines.as_slice()) {
        Ok(b) => Some(Ok(b)),
        Err(GenFailure::Error(e)) => Some(Err(e)),
        Err(GenFailure::AddressOverflow) => None,
    }
}

/// Assembles a source text into a binary: lexing, parsing, then code
/// generation; the first error stops it.
pub fn assemble(source: &str) -> (r: Result<Vec<Tryte>, AssembleError>)
    requires
        source@.len() < usize::MAX - 2,
        spec_assemble(source@) is Some,
    ensures
        match spec_assemble(source@) {
            Some(Ok(b)) => (r matches Ok(v) && v@ == b),
            Some(Err(e)) => (r matches Err(x) && x@ == e),
            None => true,
        },
{
    try_assemble(source).unwrap()
}

} // verus!
