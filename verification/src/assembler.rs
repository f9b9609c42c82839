//! The assembler from end to end: source text to bytecode.

use crate::compiler::{compiled, CompilationError, Compiler};
use crate::lexer::{lex, tokens, LexingError};
use crate::parser::{parse, statements, ParsingError};
use vstd::prelude::*;
use vstd::string::StringSliceAdditionalSpecFns;

verus! {

/// The first error that the assembler met, by the stage that met it.
#[derive(Clone, Copy, Debug, PartialEq, Eq, Structural)]
pub enum AssemblyError {
    Lexing(LexingError),
    Parsing(ParsingError),
    Compilation(CompilationError),
}

/// The bytecode of a source text, given by its bytes, or the stage at which
/// it is refused: the text is read as tokens, the tokens as statements, and
/// the statements are compiled; the first stage that fails decides.
pub open spec fn assembled(source: Seq<u8>) -> Result<Seq<u8>, AssemblyError> {
    match tokens(source) {
        None => Err(AssemblyError::Lexing(LexingError::Undefined)),
        Some(lexemes) => match statements(lexemes) {
            None => Err(AssemblyError::Parsing(ParsingError::Undefined)),
            Some(program) => match compiled(program) {
                None => Err(AssemblyError::Compilation(CompilationError::Undefined)),
                Some(code) => Ok(code),
            },
        },
    }
}

/// Assembles a source text to bytecode.
pub fn assemble(source: &str) -> (result: Result<Vec<u8>, AssemblyError>)
    ensures
        match assembled(source.spec_bytes()) {
            Ok(code) => result is Ok && result->Ok_0@ == code,
            Err(error) => result == Err::<Vec<u8>, AssemblyError>(error),
        },
{
    let tokens = match lex(source) {
        Ok(tokens) => tokens,
        Err(error) => return Err(AssemblyError::Lexing(error)),
    };
    let statements = match parse(tokens.as_slice()) {
        Ok(statements) => statements,
        Err(error) => return Err(AssemblyError::Parsing(error)),
    };
    let mut compiler = Compiler::new(statements.as_slice());
    match compiler.compile() {
        Ok(code) => Ok(code),
        Err(error) => Err(AssemblyError::Compilation(error)),
    }
}

} // verus!
