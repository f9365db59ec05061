//! Esperanto: a small statically-typed language you can read end to end.
//!
//! The pipeline is four stages: [`lexer`] turns text into tokens, [`parser`]
//! turns tokens into an AST, [`types`] checks and infers types over that AST,
//! and [`interpreter`] walks it. A program that does not type-check never runs;
//! [`soundness`] proves what running one that does can still meet.
pub mod ast;
pub mod text;
pub mod error;
pub mod lexer;
pub mod parser;
pub mod types;
pub mod value;
pub mod interpreter;
pub mod laws;
pub mod soundness;

pub use ast::Type;
pub use error::{Error, Result};
pub use value::Value;

use vstd::prelude::*;
use crate::error::SError;
use crate::ast::SStmt;
use crate::lexer::{lex, lex_spec, SToken};
use crate::parser::{parse, parse_spec};
use crate::types::{check, check_spec};
use crate::interpreter::{run_program_with_output, run_spec, value_res, strings_view};
use crate::value::SValue;

verus! {

/// The program a source text spells, or the lexing or parsing error.
pub open spec fn program_of(src: Seq<char>) -> std::result::Result<Seq<SStmt>, SError> {
    match lex_spec(src) {
        Ok(ts) => parse_spec(ts),
        Err(e) => Err(e),
    }
}

/// What `typecheck` answers: the lexing, parsing or type error, or `Ok`.
pub open spec fn typecheck_spec(src: Seq<char>) -> std::result::Result<(), SError> {
    match program_of(src) {
        Ok(prog) => check_spec(prog),
        Err(e) => Err(e),
    }
}

/// What `run` answers: the first error of lexing, parsing or checking, else
/// the outcome of running the program.
pub open spec fn run_spec_of(src: Seq<char>) -> std::result::Result<SValue, SError> {
    match program_of(src) {
        Ok(prog) => match check_spec(prog) {
            Ok(_) => run_spec(prog).1,
            Err(e) => Err(e),
        },
        Err(e) => Err(e),
    }
}

/// The lines a run of `src` prints: none unless the program type-checks.
pub open spec fn run_output_of(src: Seq<char>) -> Seq<Seq<char>> {
    match program_of(src) {
        Ok(prog) => match check_spec(prog) {
            Ok(_) => run_spec(prog).0.out,
            Err(_) => Seq::empty(),
        },
        Err(_) => Seq::empty(),
    }
}

/// Lex, parse, type-check, then evaluate `src`. Returns the value of the last
/// statement, together with the lines that `print` wrote.
pub fn run_with_output(src: &str) -> (r: (Result<Value>, Vec<String>))
    requires
        src@.len() + 2 < usize::MAX,
    ensures
        value_res(r.0) == run_spec_of(src@),
        strings_view(r.1@) == run_output_of(src@),
{
    let toks = match lex(src) {
        Ok(t) => t,
        Err(e) => {
            let out: Vec<String> = Vec::new();
            assert(strings_view(out@) =~= Seq::<Seq<char>>::empty());
            return (Err(e), out);
        },
    };
    let prog = match parse(toks) {
        Ok(p) => p,
        Err(e) => {
            let out: Vec<String> = Vec::new();
            assert(strings_view(out@) =~= Seq::<Seq<char>>::empty());
            return (Err(e), out);
        },
    };
    match check(&prog) {
        Ok(()) => {},
        Err(e) => {
            let out: Vec<String> = Vec::new();
            assert(strings_view(out@) =~= Seq::<Seq<char>>::empty());
            return (Err(e), out);
        },
    }
    run_program_with_output(&prog)
}

/// Lex, parse, type-check, then evaluate `src`. Returns the value of the last
/// statement in the program.
pub fn run(src: &str) -> (r: Result<Value>)
    requires
        src@.len() + 2 < usize::MAX,
    ensures
        value_res(r) == run_spec_of(src@),
{
    let (r, _out) = run_with_output(src);
    r
}

/// Type-check `src` without running it. `Ok(())` means the program is well-typed.
pub fn typecheck(src: &str) -> (r: Result<()>)
    requires
        src@.len() + 2 < usize::MAX,
    ensures
        crate::types::unit_result(r) == typecheck_spec(src@),
{
    let toks = lex(src)?;
    let prog = parse(toks)?;
    check(&prog)
}

} // verus!
