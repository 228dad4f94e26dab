//! The evaluator: statements against a session's variable bindings.
//!
//! Values are `u32` and arithmetic is modulo 2^32: a sum or a product that
//! does not fit wraps around, as number literals do in the lexer.
use vstd::prelude::*;
use vstd::hash_map::StringHashMap;
use crate::ast::{BinOperator, Expr, Stm, SpecExpr, SpecStm, result_view};

verus! {

/// Why a statement could not be evaluated.
#[derive(Debug, PartialEq, Eq)]
pub enum EvalError {
    /// The expression refers to a name that has no binding.
    UnboundVariable(String),
}

/// The mathematical value of an [`EvalError`].
pub enum SpecEvalError {
    UnboundVariable(Seq<char>),
}

impl View for EvalError {
    type V = SpecEvalError;

    open spec fn view(&self) -> SpecEvalError {
        match self {
            EvalError::UnboundVariable(name) => SpecEvalError::UnboundVariable(name@),
        }
    }
}

/// The bindings of a session: each bound name with its value.
pub type Bindings = Map<Seq<char>, u32>;

/// An operator applied to two values, modulo 2^32.
pub open spec fn apply(op: BinOperator, a: u32, b: u32) -> u32 {
    match op {
        BinOperator::Plus => ((a + b) % 0x1_0000_0000) as u32,
        BinOperator::Mult => ((a * b) % 0x1_0000_0000) as u32,
    }
}

/// The value of an expression under some bindings, or the first name, from
/// left to right, that has none.
pub open spec fn value_of(e: SpecExpr, env: Bindings) -> Result<u32, SpecEvalError>
    decreases e,
{
    match e {
        SpecExpr::Number(n) => Ok(n),
        SpecExpr::Var(name) => if env.contains_key(name) {
            Ok(env[name])
        } else {
            Err(SpecEvalError::UnboundVariable(name))
        },
        SpecExpr::BinOp(op, left, right) => match (value_of(*left, env), value_of(*right, env)) {
            (Ok(a), Ok(b)) => Ok(apply(op, a, b)),
            (Ok(_), Err(e)) => Err(e),
            (Err(e), _) => Err(e),
        },
    }
}

/// What evaluating a statement reports: the value of an expression, nothing
/// for an assignment, or why the expression has no value.
pub open spec fn outcome_of(s: SpecStm, env: Bindings) -> Result<Option<u32>, SpecEvalError> {
    match s {
        SpecStm::EvalExpr(e) => match value_of(e, env) {
            Ok(n) => Ok(Some(n)),
            Err(err) => Err(err),
        },
        SpecStm::Assign(_, e) => match value_of(e, env) {
            Ok(_) => Ok(None),
            Err(err) => Err(err),
        },
    }
}

/// The bindings after evaluating a statement: only an assignment whose
/// expression has a value changes them, and only at its own name.
pub open spec fn bindings_after(s: SpecStm, env: Bindings) -> Bindings {
    match s {
        SpecStm::Assign(name, e) => match value_of(e, env) {
            Ok(n) => env.insert(name, n),
            Err(_) => env,
        },
        SpecStm::EvalExpr(_) => env,
    }
}

/// A session: the variables bound so far.
pub struct EvalCtx {
    env: StringHashMap<u32>,
}

impl View for EvalCtx {
    type V = Bindings;

    closed spec fn view(&self) -> Bindings {
        self.env@
    }
}

impl EvalCtx {
    /// A session with no variable bound.
    pub fn new() -> (ctx: EvalCtx)
        ensures
            ctx@ == Map::<Seq<char>, u32>::empty(),
    {
        EvalCtx { env: StringHashMap::new() }
    }

    /// The value of an expression under the session's bindings.
    pub fn eval(&self, e: Expr) -> (r: Result<u32, EvalError>)
        ensures
            result_view(r) == value_of(e@, self@),
        decreases e,
    {
        match e {
            Expr::Number(n) => Ok(n),
            Expr::Var(name) => match self.env.get(name.as_str()) {
                Some(value) => Ok(*value),
                None => Err(EvalError::UnboundVariable(name)),
            },
            Expr::BinOp(op, left, right) => {
                let n1 = self.eval(*left)?;
                let n2 = self.eval(*right)?;
                let n = match op {
                    BinOperator::Plus => n1.wrapping_add(n2),
                    BinOperator::Mult => n1.wrapping_mul(n2),
                };
                Ok(n)
            },
        }
    }

    /// Evaluates a statement: reports the value of an expression, or binds
    /// the name of an assignment and reports nothing. Where the expression
    /// has no value the bindings stay as they were.
    pub fn eval_stm(&mut self, s: Stm) -> (r: Result<Option<u32>, EvalError>)
        ensures
            result_view(r) == outcome_of(s@, old(self)@),
            final(self)@ == bindings_after(s@, old(self)@),
    {
        match s {
            Stm::EvalExpr(e) => {
                let n = self.eval(*e)?;
                Ok(Some(n))
            },
            Stm::Assign(name, e) => {
                let n = self.eval(*e)?;
                self.env.insert(name, n);
                Ok(None)
            },
        }
    }
}

} // verus!
