//! Laws of evaluation: what a session's bindings do to the value of an
//! expression, what a statement does to the bindings, and what follows for
//! whole lines of text.
use vstd::prelude::*;
use vstd::arithmetic::div_mod::{lemma_add_mod_noop, lemma_mul_mod_noop};
use crate::ast::{BinOperator, SpecExpr, SpecStm};
use crate::eval::{Bindings, SpecEvalError, bindings_after, outcome_of, value_of};
use crate::laws::text::{
    all_blank, decimal_text, law_blanks_do_not_matter, law_literal_is_read_back, same_run,
};
use crate::parser::{
    SpecParseError, Step, assign_at, atom_at, expr_at, factor_at, parse_text, parse_tokens, stm_at,
};
use crate::session::{SpecSessionError, line_bindings, line_outcome};
use crate::token::SpecToken;

verus! {

/// A number token alone is the statement that asks for that number.
pub proof fn lemma_number_alone(n: u32)
    ensures
        parse_tokens(seq![SpecToken::Number(n), SpecToken::EOF]) == Ok::<SpecStm, SpecParseError>(
            SpecStm::EvalExpr(SpecExpr::Number(n)),
        ),
{
    let tokens = seq![SpecToken::Number(n), SpecToken::EOF];
    let literal = Step { result: Ok::<SpecExpr, SpecParseError>(SpecExpr::Number(n)), taken: 1 };
    assert(tokens.len() == 2 && tokens[0] == SpecToken::Number(n) && tokens[1] == SpecToken::EOF);
    assert(atom_at(tokens, 0) == literal);
    assert(factor_at(tokens, 0) == literal);
    assert(expr_at(tokens, 0) == literal);
    assert(assign_at(tokens, 0).result is Err);
    assert(stm_at(tokens, 0).taken == 1);
}

/// Every `u32` written in decimal is a statement whose value is that
/// number, whatever the bindings are, and that leaves the bindings alone.
pub proof fn law_literal_evaluates_to_itself(n: u32, env: Bindings)
    ensures
        parse_text(decimal_text(n as nat)) == Ok::<SpecStm, SpecParseError>(
            SpecStm::EvalExpr(SpecExpr::Number(n)),
        ),
        outcome_of(SpecStm::EvalExpr(SpecExpr::Number(n)), env) == Ok::<
            Option<u32>,
            SpecEvalError,
        >(Some(n)),
        bindings_after(SpecStm::EvalExpr(SpecExpr::Number(n)), env) == env,
{
    law_literal_is_read_back(n);
    lemma_number_alone(n);
}

/// A line that is a `u32` written in decimal reports that number and
/// changes no binding.
pub proof fn law_literal_line(n: u32, env: Bindings)
    ensures
        line_outcome(decimal_text(n as nat), env) == Ok::<Option<u32>, SpecSessionError>(Some(n)),
        line_bindings(decimal_text(n as nat), env) == env,
{
    law_literal_evaluates_to_itself(n, env);
}

/// Blanks at the start of a line, at its end, or between two characters
/// that do not belong to one run change neither the statement that the line
/// is, nor what it reports, nor what it does to the bindings.
pub proof fn law_blanks_change_no_line(
    before: Seq<char>,
    blanks: Seq<char>,
    after: Seq<char>,
    env: Bindings,
)
    requires
        all_blank(blanks),
        before.len() > 0 && after.len() > 0 ==> !same_run(before.last(), after[0]),
    ensures
        parse_text(before + blanks + after) == parse_text(before + after),
        line_outcome(before + blanks + after, env) == line_outcome(before + after, env),
        line_bindings(before + blanks + after, env) == line_bindings(before + after, env),
{
    law_blanks_do_not_matter(before, blanks, after);
}

/// A line that fails, in parsing or in evaluation, changes no binding.
pub proof fn law_failed_line_changes_nothing(text: Seq<char>, env: Bindings)
    requires
        line_outcome(text, env) is Err,
    ensures
        line_bindings(text, env) == env,
{
}

/// After an assignment whose expression has a value, the name evaluates to
/// that value, and every other name is bound as it was before.
pub proof fn law_assigned_value_is_read_back(
    name: Seq<char>,
    e: SpecExpr,
    env: Bindings,
    other: Seq<char>,
)
    requires
        value_of(e, env) is Ok,
    ensures
        outcome_of(SpecStm::Assign(name, e), env) == Ok::<Option<u32>, SpecEvalError>(None),
        value_of(SpecExpr::Var(name), bindings_after(SpecStm::Assign(name, e), env)) == value_of(
            e,
            env,
        ),
        other != name ==> value_of(
            SpecExpr::Var(other),
            bindings_after(SpecStm::Assign(name, e), env),
        ) == value_of(SpecExpr::Var(other), env),
{
}

/// Evaluating an expression statement changes no binding, so evaluating it
/// again reports the same.
pub proof fn law_reading_changes_nothing(e: SpecExpr, env: Bindings)
    ensures
        bindings_after(SpecStm::EvalExpr(e), env) == env,
        outcome_of(SpecStm::EvalExpr(e), bindings_after(SpecStm::EvalExpr(e), env)) == outcome_of(
            SpecStm::EvalExpr(e),
            env,
        ),
{
}

/// A statement that fails changes no binding.
pub proof fn law_failure_changes_nothing(s: SpecStm, env: Bindings)
    requires
        outcome_of(s, env) is Err,
    ensures
        bindings_after(s, env) == env,
{
}

/// No statement removes a binding.
pub proof fn law_bindings_never_shrink(s: SpecStm, env: Bindings, name: Seq<char>)
    requires
        env.contains_key(name),
    ensures
        bindings_after(s, env).contains_key(name),
{
}

/// The names that an expression refers to, from left to right.
pub open spec fn names_of(e: SpecExpr) -> Seq<Seq<char>>
    decreases e,
{
    match e {
        SpecExpr::Number(_) => Seq::empty(),
        SpecExpr::Var(name) => seq![name],
        SpecExpr::BinOp(_, left, right) => names_of(*left) + names_of(*right),
    }
}

/// An expression has a value exactly where every name it refers to is
/// bound. Where one is not, the error names the first such name from left
/// to right.
pub proof fn law_unbound_variable(e: SpecExpr, env: Bindings)
    ensures
        value_of(e, env) is Ok <==> forall|i: int|
            0 <= i < names_of(e).len() ==> env.contains_key(#[trigger] names_of(e)[i]),
        value_of(e, env) is Err ==> exists|i: int|
            {
                &&& 0 <= i < names_of(e).len()
                &&& value_of(e, env) == Err::<u32, SpecEvalError>(
                    SpecEvalError::UnboundVariable(#[trigger] names_of(e)[i]),
                )
                &&& !env.contains_key(names_of(e)[i])
                &&& forall|j: int| 0 <= j < i ==> env.contains_key(#[trigger] names_of(e)[j])
            },
    decreases e,
{
    match e {
        SpecExpr::Number(_) => {},
        SpecExpr::Var(name) => {
            assert(names_of(e)[0] == name);
        },
        SpecExpr::BinOp(_, left, right) => {
            law_unbound_variable(*left, env);
            law_unbound_variable(*right, env);
            let l = names_of(*left);
            let r = names_of(*right);
            let all = names_of(e);
            assert(all == l + r);
            assert forall|i: int| 0 <= i < l.len() implies all[i] == l[i] by {}
            assert forall|i: int| 0 <= i < r.len() implies all[l.len() + i] == r[i] by {}
            if value_of(*left, env) is Err {
                let i = choose|i: int|
                    {
                        &&& 0 <= i < l.len()
                        &&& value_of(*left, env) == Err::<u32, SpecEvalError>(
                            SpecEvalError::UnboundVariable(#[trigger] l[i]),
                        )
                        &&& !env.contains_key(l[i])
                        &&& forall|j: int| 0 <= j < i ==> env.contains_key(#[trigger] l[j])
                    };
                assert(all[i] == l[i]);
                assert forall|j: int| 0 <= j < i implies env.contains_key(#[trigger] all[j]) by {
                    assert(all[j] == l[j]);
                }
            } else if value_of(*right, env) is Err {
                let i = choose|i: int|
                    {
                        &&& 0 <= i < r.len()
                        &&& value_of(*right, env) == Err::<u32, SpecEvalError>(
                            SpecEvalError::UnboundVariable(#[trigger] r[i]),
                        )
                        &&& !env.contains_key(r[i])
                        &&& forall|j: int| 0 <= j < i ==> env.contains_key(#[trigger] r[j])
                    };
                let k = l.len() + i;
                assert(all[k] == r[i]);
                assert forall|j: int| 0 <= j < k implies env.contains_key(#[trigger] all[j]) by {
                    if j < l.len() {
                        assert(all[j] == l[j]);
                    } else {
                        assert(all[l.len() + (j - l.len())] == r[j - l.len()]);
                    }
                }
            } else {
                assert forall|i: int| 0 <= i < all.len() implies env.contains_key(
                    #[trigger] all[i],
                ) by {
                    if i < l.len() {
                        assert(all[i] == l[i]);
                    } else {
                        assert(all[l.len() + (i - l.len())] == r[i - l.len()]);
                    }
                }
            }
        },
    }
}

/// The value of an expression in exact arithmetic, where every name it
/// refers to is bound.
pub open spec fn exact_value(e: SpecExpr, env: Bindings) -> nat
    decreases e,
{
    match e {
        SpecExpr::Number(n) => n as nat,
        SpecExpr::Var(name) => env[name] as nat,
        SpecExpr::BinOp(BinOperator::Plus, left, right) => exact_value(*left, env) + exact_value(
            *right,
            env,
        ),
        SpecExpr::BinOp(BinOperator::Mult, left, right) => exact_value(*left, env) * exact_value(
            *right,
            env,
        ),
    }
}

/// The value of an expression is its value in exact arithmetic modulo 2^32.
pub proof fn law_values_wrap(e: SpecExpr, env: Bindings)
    requires
        value_of(e, env) is Ok,
    ensures
        value_of(e, env)->Ok_0 == exact_value(e, env) % 0x1_0000_0000,
    decreases e,
{
    match e {
        SpecExpr::Number(_) => {},
        SpecExpr::Var(_) => {},
        SpecExpr::BinOp(op, left, right) => {
            law_values_wrap(*left, env);
            law_values_wrap(*right, env);
            let a = exact_value(*left, env);
            let b = exact_value(*right, env);
            match op {
                BinOperator::Plus => {
                    lemma_add_mod_noop(a as int, b as int, 0x1_0000_0000);
                },
                BinOperator::Mult => {
                    lemma_mul_mod_noop(a as int, b as int, 0x1_0000_0000);
                },
            }
        },
    }
}

} // verus!
