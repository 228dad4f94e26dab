//! The grammar of the language, as a relation between tokens and trees.
//!
//! ```text
//! statement  := Var Equal expression | expression
//! expression := factor | factor Plus expression
//! factor     := atom | atom Mult factor
//! atom       := Number | Var | LParen expression RParen
//! ```
//!
//! Each predicate says that the tokens from `lo` up to, not including, `hi`
//! are one instance of a rule and read as a given tree.
use vstd::prelude::*;
use crate::ast::{BinOperator, SpecExpr, SpecStm};
use crate::token::SpecToken;

verus! {

/// The tokens from `lo` up to `hi` are an atom that reads as `e`.
pub open spec fn is_atom(tokens: Seq<SpecToken>, lo: int, hi: int, e: SpecExpr) -> bool
    decreases hi - lo, 0int,
{
    &&& 0 <= lo < hi <= tokens.len()
    &&& {
        ||| hi == lo + 1 && tokens[lo] == SpecToken::Number(e->Number_0) && e is Number
        ||| hi == lo + 1 && tokens[lo] == SpecToken::Var(e->Var_0) && e is Var
        ||| {
            &&& lo + 2 < hi
            &&& tokens[lo] == SpecToken::LParen
            &&& tokens[hi - 1] == SpecToken::RParen
            &&& is_expr(tokens, lo + 1, hi - 1, e)
        }
    }
}

/// The tokens from `lo` up to `hi` are a factor that reads as `e`: an atom,
/// or an atom, `Mult` at `mid` and a factor.
pub open spec fn is_factor(tokens: Seq<SpecToken>, lo: int, hi: int, e: SpecExpr) -> bool
    decreases hi - lo, 1int,
{
    ||| is_atom(tokens, lo, hi, e)
    ||| {
        &&& e matches SpecExpr::BinOp(BinOperator::Mult, left, right)
        &&& exists|mid: int|
            {
                &&& lo < mid < hi <= tokens.len()
                &&& #[trigger] tokens[mid] == SpecToken::Mult
                &&& is_atom(tokens, lo, mid, *left)
                &&& is_factor(tokens, mid + 1, hi, *right)
            }
    }
}

/// The tokens from `lo` up to `hi` are an expression that reads as `e`: a
/// factor, or a factor, `Plus` at `mid` and an expression.
pub open spec fn is_expr(tokens: Seq<SpecToken>, lo: int, hi: int, e: SpecExpr) -> bool
    decreases hi - lo, 2int,
{
    ||| is_factor(tokens, lo, hi, e)
    ||| {
        &&& e matches SpecExpr::BinOp(BinOperator::Plus, left, right)
        &&& exists|mid: int|
            {
                &&& lo < mid < hi <= tokens.len()
                &&& #[trigger] tokens[mid] == SpecToken::Plus
                &&& is_factor(tokens, lo, mid, *left)
                &&& is_expr(tokens, mid + 1, hi, *right)
            }
    }
}

/// The tokens from `lo` up to `hi` are a statement that reads as `s`.
pub open spec fn is_stm(tokens: Seq<SpecToken>, lo: int, hi: int, s: SpecStm) -> bool {
    match s {
        SpecStm::Assign(name, e) => {
            &&& 0 <= lo
            &&& lo + 2 < hi <= tokens.len()
            &&& tokens[lo] == SpecToken::Var(name)
            &&& tokens[lo + 1] == SpecToken::Equal
            &&& is_expr(tokens, lo + 2, hi, e)
        },
        SpecStm::EvalExpr(e) => is_expr(tokens, lo, hi, e),
    }
}

/// The token sequence starts with a statement that reads as `s`, and `EOF`
/// comes right after it.
pub open spec fn is_sentence(tokens: Seq<SpecToken>, s: SpecStm) -> bool {
    exists|hi: int|
        0 <= hi < tokens.len() && #[trigger] tokens[hi] == SpecToken::EOF && is_stm(
            tokens,
            0,
            hi,
            s,
        )
}

} // verus!
