//! A small regular-expression engine: a parser from pattern text to an
//! abstract syntax tree, a code generator to bytecode instructions, and an
//! evaluator that matches input text against the bytecode.

pub mod codegen;
pub mod evaluator;
pub mod parser;

use vstd::prelude::*;

verus! {

/// One bytecode instruction of the regular-expression machine.
#[derive(Clone, Copy, Debug, PartialEq, Eq, Structural)]
pub enum Instruction {
    /// Match this character and advance.
    Char(char),
    /// The whole pattern matched.
    Match,
    /// Continue at this address.
    Jump(usize),
    /// Try both addresses.
    Split(usize, usize),
}

/// Why a match attempt failed before it could be decided.
#[derive(Debug)]
pub enum MatchError {
    Parse(parser::ParseError),
    CodeGen(codegen::CodeGenError),
    Eval(evaluator::EvalError),
}

/// Matches a regular expression against a line of text.
///
/// `is_depth` picks the depth-first evaluator; otherwise the breadth-first
/// one runs. `Ok(true)` means some prefix of `line` matches `expr`.
pub fn do_matching(expr: &str, line: &str, is_depth: bool) -> (r: Result<bool, MatchError>)
    ensures
        expr@.len() == 0 ==> r == Err::<bool, MatchError>(
            MatchError::Parse(parser::ParseError::Empty),
        ),
        expr@.len() > 0 && (expr@[0] == '+' || expr@[0] == '*' || expr@[0] == '?' || expr@[0]
            == '|') ==> r == Err::<bool, MatchError>(
            MatchError::Parse(parser::ParseError::NoPrev(0)),
        ),
        line@.len() < usize::MAX ==> !(r matches Err(e) && e is Eval),
{
    let ast = match parser::parse(expr) {
        Ok(ast) => ast,
        Err(e) => {
            return Err(MatchError::Parse(e));
        },
    };
    let code = match codegen::get_code(&ast) {
        Ok(code) => code,
        Err(e) => {
            return Err(MatchError::CodeGen(e));
        },
    };
    let line = crate::text::to_chars(line);
    match evaluator::eval(&code, &line, is_depth) {
        Ok(b) => Ok(b),
        Err(e) => Err(MatchError::Eval(e)),
    }
}

} // verus!
