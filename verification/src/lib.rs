//! A front end and evaluator for a small dynamically typed scripting
//! language: a scanner from text to tokens, a recursive-descent parser from
//! tokens to statements, and a tree-walking evaluator over a chain of scopes.
//!
//! Every stage is stated over a mathematical model (sequences of characters,
//! views of tokens and trees, maps from names to values) and proved against it.

pub mod text;
pub mod reader;
pub mod tokenize;
pub mod ast;
pub mod parser;
pub mod number;
pub mod environ;
pub mod evaluate;

use vstd::prelude::*;

use crate::ast::Operator;
use crate::evaluate::{exec_stmts, Effects, Interpreter};
use crate::number::{NumberModel, Numbers};
use crate::parser::{parse, program, SyntaxErrorView};
use crate::reader::Source;
use crate::tokenize::{scan_text, tokenize, ScanError};

verus! {

/// The error of a run: the error of the stage that failed.
#[derive(Debug)]
pub enum Error {
    Read(reader::Error),
    Tokenize(tokenize::Error),
    Parse(parser::Error),
    Evaluate(evaluate::Error),
}

/// The mathematical value of an [`Error`].
pub enum ErrorView {
    Read(Seq<char>),
    Tokenize(Seq<ScanError>),
    Parse(SyntaxErrorView),
    Evaluate(evaluate::ErrorView),
}

impl View for Error {
    type V = ErrorView;

    open spec fn view(&self) -> ErrorView {
        match self {
            Error::Read(e) => ErrorView::Read(e.msg@),
            Error::Tokenize(e) => ErrorView::Tokenize(e@),
            Error::Parse(e) => ErrorView::Parse(e@),
            Error::Evaluate(e) => ErrorView::Evaluate(e@),
        }
    }
}

impl From<reader::Error> for Error {
    fn from(error: reader::Error) -> (r: Error) {
        Error::Read(error)
    }
}

impl vstd::std_specs::convert::FromSpecImpl<reader::Error> for Error {
    open spec fn obeys_from_spec() -> bool {
        true
    }

    open spec fn from_spec(error: reader::Error) -> Error {
        Error::Read(error)
    }
}

impl From<tokenize::Error> for Error {
    fn from(error: tokenize::Error) -> (r: Error) {
        Error::Tokenize(error)
    }
}

impl vstd::std_specs::convert::FromSpecImpl<tokenize::Error> for Error {
    open spec fn obeys_from_spec() -> bool {
        true
    }

    open spec fn from_spec(error: tokenize::Error) -> Error {
        Error::Tokenize(error)
    }
}

impl From<parser::Error> for Error {
    fn from(error: parser::Error) -> (r: Error) {
        Error::Parse(error)
    }
}

impl vstd::std_specs::convert::FromSpecImpl<parser::Error> for Error {
    open spec fn obeys_from_spec() -> bool {
        true
    }

    open spec fn from_spec(error: parser::Error) -> Error {
        Error::Parse(error)
    }
}

impl From<evaluate::Error> for Error {
    fn from(error: evaluate::Error) -> (r: Error) {
        Error::Evaluate(error)
    }
}

impl vstd::std_specs::convert::FromSpecImpl<evaluate::Error> for Error {
    open spec fn obeys_from_spec() -> bool {
        true
    }

    open spec fn from_spec(error: evaluate::Error) -> Error {
        Error::Evaluate(error)
    }
}

/// The view of the result of a run.
pub open spec fn run_result(r: Result<(), Error>) -> Result<(), ErrorView> {
    match r {
        Ok(_) => Ok(()),
        Err(e) => Err(e@),
    }
}

/// What running a source text gives: all its lexical errors where it has
/// any, else its first syntax error where it has one, and both without any
/// effect; else what executing its statements gives.
pub open spec fn run_text(m: NumberModel, source: Seq<char>, before: Effects) -> (
    Result<(), ErrorView>,
    Effects,
) {
    let scanned = scan_text(source);
    if scanned.errors.len() > 0 {
        (Err(ErrorView::Tokenize(scanned.errors)), before)
    } else {
        match program(scanned.tokens) {
            Err(e) => (Err(ErrorView::Parse(e)), before),
            Ok(p) => {
                let (r, after) = exec_stmts(m, p, 0, before);
                (
                    match r {
                        Ok(_) => Ok(()),
                        Err(e) => Err(ErrorView::Evaluate(e)),
                    },
                    after,
                )
            },
        }
    }
}

/// Runs a source text in a session: scans it, parses it and executes it.
/// A text with a lexical or a syntax error is not executed at all.
pub fn run_interp<P: Fn(&str) -> u64, A: Fn(Operator, u64, u64) -> u64, S: Fn(u64) -> String>(
    interp: &mut Interpreter<P, A, S>,
    source: Source,
) -> (res: Result<(), Error>)
    requires
        old(interp).wf(),
    ensures
        final(interp).wf(),
        final(interp).services() == old(interp).services(),
        final(interp).bindings().len() == old(interp).bindings().len(),
        old(interp).output().is_prefix_of(final(interp).output()),
        forall|m: NumberModel| #[trigger]
            m.describes(old(interp).services()) ==> (
                run_result(res),
                Effects { env: final(interp).bindings(), printed: final(interp).output() },
            ) == run_text(
                m,
                source@,
                Effects { env: old(interp).bindings(), printed: old(interp).output() },
            ),
        scan_text(source@).errors.len() > 0 ==> (res matches Err(Error::Tokenize(e)) && e@
            == scan_text(source@).errors),
        scan_text(source@).errors.len() == 0 ==> (program(scan_text(source@).tokens) matches Err(
            e,
        ) ==> (res matches Err(Error::Parse(x)) && x@ == e)),
{
    let tokens = match tokenize(source) {
        Ok(t) => t,
        Err(e) => {
            return Err(Error::from(e));
        },
    };
    let ast = match parse(tokens) {
        Ok(a) => a,
        Err(e) => {
            return Err(Error::from(e));
        },
    };
    match interp.evaluate(ast) {
        Ok(_) => Ok(()),
        Err(e) => Err(Error::from(e)),
    }
}

/// Runs a source text in a session of its own, and returns the session
/// with the result.
pub fn run<P: Fn(&str) -> u64, A: Fn(Operator, u64, u64) -> u64, S: Fn(u64) -> String>(
    source: Source,
    numbers: Numbers<P, A, S>,
) -> (r: (Interpreter<P, A, S>, Result<(), Error>))
    requires
        numbers.callable(),
    ensures
        r.0.wf(),
        r.0.services() == numbers,
        forall|m: NumberModel| #[trigger]
            m.describes(numbers) ==> (
                run_result(r.1),
                Effects { env: r.0.bindings(), printed: r.0.output() },
            ) == run_text(
                m,
                source@,
                Effects { env: seq![Map::empty()], printed: Seq::empty() },
            ),
{
    let mut interp = Interpreter::new(numbers);
    let res = run_interp(&mut interp, source);
    (interp, res)
}

} // verus!
