//! The syntax trees that the parser builds and the evaluator walks.
use vstd::prelude::*;

verus! {

/// The two binary operators of the language.
#[derive(Debug, PartialEq, Eq, Clone, Copy)]
pub enum BinOperator {
    Plus,
    Mult,
}

/// An expression. Each node owns its operands.
#[derive(Debug, PartialEq, Eq)]
pub enum Expr {
    /// A literal.
    Number(u32),
    /// A reference to a variable, by name.
    Var(String),
    /// An operator applied to a left and a right operand.
    BinOp(BinOperator, Box<Expr>, Box<Expr>),
}

/// A statement: what one line of input asks for.
#[derive(Debug, PartialEq, Eq)]
pub enum Stm {
    /// Compute the value of an expression.
    EvalExpr(Box<Expr>),
    /// Bind a name to the value of an expression.
    Assign(String, Box<Expr>),
}

/// The mathematical value of an [`Expr`].
pub enum SpecExpr {
    Number(u32),
    Var(Seq<char>),
    BinOp(BinOperator, Box<SpecExpr>, Box<SpecExpr>),
}

/// The mathematical value of a [`Stm`].
pub enum SpecStm {
    EvalExpr(SpecExpr),
    Assign(Seq<char>, SpecExpr),
}

impl Expr {
    /// The tree with each name as a sequence of characters.
    pub open spec fn model(self) -> SpecExpr
        decreases self,
    {
        match self {
            Expr::Number(n) => SpecExpr::Number(n),
            Expr::Var(name) => SpecExpr::Var(name@),
            Expr::BinOp(op, left, right) => SpecExpr::BinOp(
                op,
                Box::new((*left).model()),
                Box::new((*right).model()),
            ),
        }
    }
}

impl View for Expr {
    type V = SpecExpr;

    open spec fn view(&self) -> SpecExpr {
        self.model()
    }
}

impl View for Stm {
    type V = SpecStm;

    open spec fn view(&self) -> SpecStm {
        match self {
            Stm::EvalExpr(e) => SpecStm::EvalExpr(e.view()),
            Stm::Assign(name, e) => SpecStm::Assign(name@, e.view()),
        }
    }
}

/// The value of a result: the value of what it holds, on either side.
pub open spec fn result_view<T: View, E: View>(r: Result<T, E>) -> Result<T::V, E::V> {
    match r {
        Ok(t) => Ok(t@),
        Err(e) => Err(e@),
    }
}

} // verus!
