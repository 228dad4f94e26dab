//! One line of text against a session: parse it, then evaluate it.
use vstd::prelude::*;
use crate::ast::result_view;
use crate::eval::{Bindings, EvalCtx, EvalError, SpecEvalError, bindings_after, outcome_of};
use crate::parser::{ParseError, SpecParseError, parse_text, parse_top};

verus! {

/// Why a line gave no result.
#[derive(Debug, PartialEq, Eq)]
pub enum SessionError {
    /// The line is not a statement.
    Parse(ParseError),
    /// The line is a statement that could not be evaluated.
    Eval(EvalError),
}

/// The mathematical value of a [`SessionError`].
pub enum SpecSessionError {
    Parse(SpecParseError),
    Eval(SpecEvalError),
}

impl View for SessionError {
    type V = SpecSessionError;

    open spec fn view(&self) -> SpecSessionError {
        match self {
            SessionError::Parse(e) => SpecSessionError::Parse(e@),
            SessionError::Eval(e) => SpecSessionError::Eval(e@),
        }
    }
}

/// What a line reports under some bindings: what its statement reports, or
/// why it is no statement.
pub open spec fn line_outcome(text: Seq<char>, env: Bindings) -> Result<
    Option<u32>,
    SpecSessionError,
> {
    match parse_text(text) {
        Ok(s) => match outcome_of(s, env) {
            Ok(value) => Ok(value),
            Err(e) => Err(SpecSessionError::Eval(e)),
        },
        Err(e) => Err(SpecSessionError::Parse(e)),
    }
}

/// The bindings after a line: those after its statement, or, where it is no
/// statement, the bindings as they were.
pub open spec fn line_bindings(text: Seq<char>, env: Bindings) -> Bindings {
    match parse_text(text) {
        Ok(s) => bindings_after(s, env),
        Err(_) => env,
    }
}

/// Parses a line and evaluates it in a session. A line that fails, in
/// parsing or in evaluation, leaves the session as it was.
pub fn eval(s: &str, eval_ctx: &mut EvalCtx) -> (r: Result<Option<u32>, SessionError>)
    ensures
        result_view(r) == line_outcome(s@, old(eval_ctx)@),
        final(eval_ctx)@ == line_bindings(s@, old(eval_ctx)@),
        r is Err ==> final(eval_ctx)@ == old(eval_ctx)@,
{
    match parse_top(s) {
        Ok(stm) => match eval_ctx.eval_stm(stm) {
            Ok(value) => Ok(value),
            Err(e) => Err(SessionError::Eval(e)),
        },
        Err(e) => Err(SessionError::Parse(e)),
    }
}

} // verus!
