//! A two-stage compiler from a pointer-and-byte-tape language to RISC-V
//! assembly text: a parser that folds repeated commands and resolves loop
//! brackets, and a code generator that renders one block per instruction.

use vstd::prelude::*;
use crate::compiler::{assembly, compile_risc_v};
use crate::parser::{parse, parsed, ParseError};

pub mod compiler;
pub mod instruction;
pub mod laws;
pub mod parser;

verus! {

/// The assembly text that `source` compiles to, or the reason why it is no
/// program.
pub open spec fn compiled(source: Seq<char>) -> Result<Seq<char>, ParseError> {
    match parsed(source) {
        Ok(program) => Ok(assembly(program)),
        Err(e) => Err(e),
    }
}

/// Compiles a source text into assembly text: parses it, and generates the
/// code of the program where there is one. On a parse error nothing is
/// produced.
pub fn compile(source: &str) -> (result: Result<String, ParseError>)
    ensures
        match result {
            Ok(text) => compiled(source@) == Ok::<Seq<char>, ParseError>(text@),
            Err(e) => compiled(source@) == Err::<Seq<char>, ParseError>(e),
        },
{
    match parse(source) {
        Ok(program) => Ok(compile_risc_v(program.as_slice())),
        Err(e) => Err(e),
    }
}

} // verus!
