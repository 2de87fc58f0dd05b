//! The parser: reads a program from the tokens of its text.
pub mod ast;
pub mod error;

use vstd::prelude::*;

use self::ast::Program;
use crate::syntax::lexer::Lexer;

verus! {

/// A parser over the tokens of a source text, and the program read so far.
pub struct Parser {
    tokens: Lexer,
    pub ast: Program,
}

impl Parser {
    /// A parser at the start of `input`, with an empty program.
    pub fn new(input: &str) -> (r: Parser)
        ensures
            r.program().statements@.len() == 0,
            r.tokens().wf(),
            r.tokens().source() == input@,
            r.tokens().index() == 0,
    {
        Parser { tokens: Lexer::new(input), ast: Program::new() }
    }

    /// The program read so far.
    pub closed spec fn program(&self) -> Program {
        self.ast
    }

    /// The lexer that the parser reads tokens from.
    pub closed spec fn tokens(&self) -> Lexer {
        self.tokens
    }
}

} // verus!
