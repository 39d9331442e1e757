//! A small interpreter for an arithmetic language with variables.
//!
//! A source text is split into tokens ([`lexer`]) and parsed into syntax trees
//! ([`parser`], [`ast`]); the trees are lowered to the instructions of a stack
//! machine ([`bytecode`]), which runs them against a variable store
//! ([`machine`], [`scope`]).
//!
//! What a program means is said of the trees themselves in [`semantics`],
//! with the proof that the machine does just that. [`grammar`] says what
//! arithmetic is as a relation between tokens and trees, with the proof that
//! the parser finds the tree; [`shape`] proves that what the parser yields is
//! always a program of statements. [`laws`] holds what follows for whole
//! programs.
//!
//! The library does no input or output: what a program prints is appended to
//! a vector that the caller hands in.
pub mod ast;
pub mod bytecode;
pub mod error;
pub mod grammar;
pub mod laws;
pub mod lexer;
pub mod machine;
pub mod parser;
pub mod scope;
pub mod semantics;
pub mod shape;

use crate::bytecode::{eval, lower_all};
use crate::error::{result_view, ErrorView, EvalError};
use crate::laws::law_evaluation_errors;
use crate::machine::{outcome, run, start, stopped, Halt};
use crate::parser::{parse, parse_str};
use crate::scope::Scope;
use vstd::prelude::*;

verus! {

/// Where the evaluation of a source text ends, with `output` printed before:
/// a text that is no program stops at once with the parser's diagnostic; a
/// program is lowered and run with no variable bound.
pub open spec fn evaluation(text: Seq<char>, output: Seq<u64>) -> Halt {
    let fresh = start(Map::empty(), output);
    match parse(text) {
        Err(diagnostic) => stopped(fresh, ErrorView::ParseFailure { diagnostic }),
        Ok(nodes) => run(fresh, lower_all(nodes)),
    }
}

/// Evaluates the source text `input` in a scope of its own: no binding comes
/// in and none goes out. What the program prints is appended to `out`; the
/// result is the value that the program leaves on top of the stack, if any.
pub fn eval_str(input: &String, out: &mut Vec<u64>) -> (res: Result<Option<u64>, EvalError>)
    ensures
        result_view(res) == outcome(evaluation(input@, old(out)@)),
        final(out)@ == evaluation(input@, old(out)@).end.output,
        !(res matches Err(EvalError::StackUnderflow)),
{
    proof {
        law_evaluation_errors(input@, out@);
    }
    match parse_str(input) {
        Ok(ast) => {
            let mut scope = Scope::new();
            eval(ast, &mut scope, out)
        },
        Err(diagnostic) => Err(EvalError::ParseFailure { diagnostic }),
    }
}

} // verus!
