//! A two-stage compiler backend for the Hack 16-bit computer: a
//! virtual-machine translator that lowers stack-based VM commands into
//! symbolic Hack assembly, and an assembler that lowers that assembly into
//! 16-bit binary machine words by two-pass symbol resolution.

pub mod code_writer;
pub mod error;
pub mod lexer;
pub mod parser;
pub mod text;
pub mod vm_parser;

use vstd::prelude::*;

use crate::error::{ErrorKind, TranslateError};
use crate::lexer::{spec_lex, Lexer};
use crate::parser::{predefined_map, spec_first_pass, spec_second_pass, Parser};
use crate::text::views_of;

verus! {

/// The machine words an assembly source assembles to: lex it, bind the
/// labels, then encode every instruction, or fail as the first pass that
/// rejects it does.
pub open spec fn spec_assemble(code: Seq<char>) -> Result<
    Seq<Seq<char>>,
    (ErrorKind, int, Seq<char>),
> {
    let ts = spec_lex(code);
    match spec_first_pass(ts, predefined_map(), 0) {
        Err(e) => Err(e),
        Ok(m) => match spec_second_pass(ts, m, 16, Seq::empty()) {
            Err(e) => Err(e),
            Ok(t) => Ok(t.0),
        },
    }
}

/// Assembles a whole source text into its 16-character binary words, one
/// per non-label instruction, in source order.
pub fn assemble(code: String) -> (r: Result<Vec<String>, TranslateError>)
    ensures
        match r {
            Ok(out) => spec_assemble(code@) == Ok::<_, (ErrorKind, int, Seq<char>)>(
                views_of(out@),
            ),
            Err(e) => spec_assemble(code@) == Err::<Seq<Seq<char>>, _>(
                (e.kind, e.line as int, e.text@),
            ),
        },
{
    let lexer = Lexer::new(code);
    let mut parser = Parser::new();
    match parser.first_pass(lexer.get_tokens()) {
        Err(e) => Err(e),
        Ok(_) => match parser.parse(lexer.get_tokens()) {
            Err(e) => Err(e),
            Ok(bits) => Ok(bits),
        },
    }
}

/// Translation is deterministic: the result of assembling a source text
/// is a function of that text alone, so two runs over identical input
/// yield identical output.
pub proof fn lemma_assemble_deterministic(
    code: Seq<char>,
    r1: Result<Seq<Seq<char>>, (ErrorKind, int, Seq<char>)>,
    r2: Result<Seq<Seq<char>>, (ErrorKind, int, Seq<char>)>,
)
    requires
        r1 == spec_assemble(code),
        r2 == spec_assemble(code),
    ensures
        r1 == r2,
{
}

} // verus!
