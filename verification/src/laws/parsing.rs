//! Laws of the parser: it accepts exactly the token sequences of the
//! grammar and gives each the one tree that the grammar reads it as.
use vstd::prelude::*;
use crate::ast::{BinOperator, SpecExpr, SpecStm};
use crate::grammar::{is_atom, is_expr, is_factor, is_sentence, is_stm};
use crate::lexer::lex;
use crate::parser::{
    SpecParseError, Step, assign_at, atom_at, expr_at, factor_at, operator_token, parse_text,
    parse_tokens, stm_at, token_at,
};
use crate::token::SpecToken;

verus! {

/// The step of a rule that reads the tokens from `lo` up to `hi` as `tree`.
pub open spec fn reads<T>(tree: T, lo: int, hi: int) -> Step<T> {
    Step { result: Ok(tree), taken: (hi - lo) as nat }
}

/// A token follows at `at`, and it is not `Mult`: a factor can end there.
pub open spec fn ends_factor(tokens: Seq<SpecToken>, at: int) -> bool {
    0 <= at < tokens.len() && tokens[at] != SpecToken::Mult
}

/// A token follows at `at`, and it is neither `Plus` nor `Mult`: an
/// expression can end there.
pub open spec fn ends_expr(tokens: Seq<SpecToken>, at: int) -> bool {
    ends_factor(tokens, at) && tokens[at] != SpecToken::Plus
}

/// What the grammar reads as a factor is a non-empty range of tokens.
pub proof fn lemma_factor_bounds(tokens: Seq<SpecToken>, lo: int, hi: int, e: SpecExpr)
    requires
        is_factor(tokens, lo, hi, e),
    ensures
        0 <= lo < hi <= tokens.len(),
{
    if !is_atom(tokens, lo, hi, e) {
        let mid = choose|mid: int|
            {
                &&& lo < mid < hi <= tokens.len()
                &&& #[trigger] tokens[mid] == SpecToken::Mult
                &&& is_atom(tokens, lo, mid, *e->BinOp_1)
                &&& is_factor(tokens, mid + 1, hi, *e->BinOp_2)
            };
        assert(is_atom(tokens, lo, mid, *e->BinOp_1));
    }
}

/// What the grammar reads as an expression is a non-empty range of tokens.
pub proof fn lemma_expr_bounds(tokens: Seq<SpecToken>, lo: int, hi: int, e: SpecExpr)
    requires
        is_expr(tokens, lo, hi, e),
    ensures
        0 <= lo < hi <= tokens.len(),
{
    if is_factor(tokens, lo, hi, e) {
        lemma_factor_bounds(tokens, lo, hi, e);
    } else {
        let mid = choose|mid: int|
            {
                &&& lo < mid < hi <= tokens.len()
                &&& #[trigger] tokens[mid] == SpecToken::Plus
                &&& is_factor(tokens, lo, mid, *e->BinOp_1)
                &&& is_expr(tokens, mid + 1, hi, *e->BinOp_2)
            };
        lemma_factor_bounds(tokens, lo, mid, *e->BinOp_1);
    }
}

/// What the rule `atom` reads is an atom of the grammar.
pub proof fn lemma_atom_sound(tokens: Seq<SpecToken>, pos: int)
    requires
        atom_at(tokens, pos).result is Ok,
    ensures
        is_atom(
            tokens,
            pos,
            pos + atom_at(tokens, pos).taken,
            atom_at(tokens, pos).result->Ok_0,
        ),
    decreases tokens.len() - pos, 0int,
{
    assert(0 <= pos < tokens.len());
    if tokens[pos] == SpecToken::LParen {
        let inner = expr_at(tokens, pos + 1);
        assert(inner.result is Ok);
        lemma_expr_sound(tokens, pos + 1);
        lemma_expr_bounds(tokens, pos + 1, pos + 1 + inner.taken, inner.result->Ok_0);
        assert(tokens[pos + 1 + inner.taken] == SpecToken::RParen);
    } else {
        assert(tokens[pos] is Number || tokens[pos] is Var);
    }
}

/// What the rule `factor` reads is a factor of the grammar, and the token
/// after it can end a factor.
pub proof fn lemma_factor_sound(tokens: Seq<SpecToken>, pos: int)
    requires
        factor_at(tokens, pos).result is Ok,
    ensures
        is_factor(
            tokens,
            pos,
            pos + factor_at(tokens, pos).taken,
            factor_at(tokens, pos).result->Ok_0,
        ),
        ends_factor(tokens, pos + factor_at(tokens, pos).taken),
    decreases tokens.len() - pos, 1int,
{
    let left = atom_at(tokens, pos);
    let mid = pos + left.taken;
    lemma_atom_sound(tokens, pos);
    if tokens[mid] == SpecToken::Mult {
        lemma_factor_sound(tokens, mid + 1);
        assert(is_atom(tokens, pos, mid, left.result->Ok_0));
    }
}

/// What the rule `expression` reads is an expression of the grammar, and the
/// token after it can end an expression.
pub proof fn lemma_expr_sound(tokens: Seq<SpecToken>, pos: int)
    requires
        expr_at(tokens, pos).result is Ok,
    ensures
        is_expr(
            tokens,
            pos,
            pos + expr_at(tokens, pos).taken,
            expr_at(tokens, pos).result->Ok_0,
        ),
        ends_expr(tokens, pos + expr_at(tokens, pos).taken),
    decreases tokens.len() - pos, 2int,
{
    let left = factor_at(tokens, pos);
    let mid = pos + left.taken;
    lemma_factor_sound(tokens, pos);
    lemma_factor_bounds(tokens, pos, mid, left.result->Ok_0);
    if tokens[mid] == SpecToken::Plus {
        lemma_expr_sound(tokens, mid + 1);
    }
}

/// The rule `atom` reads every atom of the grammar, as the grammar does.
pub proof fn lemma_atom_complete(tokens: Seq<SpecToken>, lo: int, hi: int, e: SpecExpr)
    requires
        is_atom(tokens, lo, hi, e),
    ensures
        atom_at(tokens, lo) == reads(e, lo, hi),
    decreases hi - lo, 0int,
{
    if tokens[lo] == SpecToken::LParen {
        lemma_expr_complete(tokens, lo + 1, hi - 1, e);
    }
}

/// The rule `factor` reads every factor of the grammar that is followed by
/// a token other than `Mult`, as the grammar does.
pub proof fn lemma_factor_complete(tokens: Seq<SpecToken>, lo: int, hi: int, e: SpecExpr)
    requires
        is_factor(tokens, lo, hi, e),
        ends_factor(tokens, hi),
    ensures
        factor_at(tokens, lo) == reads(e, lo, hi),
    decreases hi - lo, 1int,
{
    if is_atom(tokens, lo, hi, e) {
        lemma_atom_complete(tokens, lo, hi, e);
    } else {
        let left = *e->BinOp_1;
        let right = *e->BinOp_2;
        let mid = choose|mid: int|
            {
                &&& lo < mid < hi <= tokens.len()
                &&& #[trigger] tokens[mid] == SpecToken::Mult
                &&& is_atom(tokens, lo, mid, left)
                &&& is_factor(tokens, mid + 1, hi, right)
            };
        lemma_atom_complete(tokens, lo, mid, left);
        lemma_factor_complete(tokens, mid + 1, hi, right);
    }
}

/// The rule `expression` reads every expression of the grammar that is
/// followed by a token other than `Plus` and `Mult`, as the grammar does.
pub proof fn lemma_expr_complete(tokens: Seq<SpecToken>, lo: int, hi: int, e: SpecExpr)
    requires
        is_expr(tokens, lo, hi, e),
        ends_expr(tokens, hi),
    ensures
        expr_at(tokens, lo) == reads(e, lo, hi),
    decreases hi - lo, 2int,
{
    if is_factor(tokens, lo, hi, e) {
        lemma_factor_bounds(tokens, lo, hi, e);
        lemma_factor_complete(tokens, lo, hi, e);
    } else {
        let left = *e->BinOp_1;
        let right = *e->BinOp_2;
        let mid = choose|mid: int|
            {
                &&& lo < mid < hi <= tokens.len()
                &&& #[trigger] tokens[mid] == SpecToken::Plus
                &&& is_factor(tokens, lo, mid, left)
                &&& is_expr(tokens, mid + 1, hi, right)
            };
        lemma_factor_bounds(tokens, lo, mid, left);
        lemma_factor_complete(tokens, lo, mid, left);
        lemma_expr_complete(tokens, mid + 1, hi, right);
    }
}

/// An expression of the grammar that starts with a variable goes on, if at
/// all, with an operator: never with `Equal`.
proof fn lemma_variable_first(tokens: Seq<SpecToken>, lo: int, hi: int, e: SpecExpr)
    requires
        is_expr(tokens, lo, hi, e),
        tokens[lo] is Var,
    ensures
        hi == lo + 1 || tokens[lo + 1] == SpecToken::Plus || tokens[lo + 1] == SpecToken::Mult,
{
    if is_factor(tokens, lo, hi, e) {
        lemma_variable_first_in_factor(tokens, lo, hi, e);
    } else {
        let left = *e->BinOp_1;
        let right = *e->BinOp_2;
        let mid = choose|mid: int|
            {
                &&& lo < mid < hi <= tokens.len()
                &&& #[trigger] tokens[mid] == SpecToken::Plus
                &&& is_factor(tokens, lo, mid, left)
                &&& is_expr(tokens, mid + 1, hi, right)
            };
        lemma_variable_first_in_factor(tokens, lo, mid, left);
    }
}

/// A factor of the grammar that starts with a variable goes on, if at all,
/// with `Mult`.
proof fn lemma_variable_first_in_factor(tokens: Seq<SpecToken>, lo: int, hi: int, e: SpecExpr)
    requires
        is_factor(tokens, lo, hi, e),
        tokens[lo] is Var,
    ensures
        hi == lo + 1 || tokens[lo + 1] == SpecToken::Mult,
{
    if !is_atom(tokens, lo, hi, e) {
        let left = *e->BinOp_1;
        let right = *e->BinOp_2;
        let mid = choose|mid: int|
            {
                &&& lo < mid < hi <= tokens.len()
                &&& #[trigger] tokens[mid] == SpecToken::Mult
                &&& is_atom(tokens, lo, mid, left)
                &&& is_factor(tokens, mid + 1, hi, right)
            };
        assert(mid == lo + 1);
    }
}

/// The parser accepts a token sequence as a statement exactly where the
/// grammar reads the sequence as that statement, followed by `EOF`.
pub proof fn law_parser_accepts_the_grammar(tokens: Seq<SpecToken>, s: SpecStm)
    ensures
        parse_tokens(tokens) == Ok::<SpecStm, SpecParseError>(s) <==> is_sentence(tokens, s),
{
    let stm = stm_at(tokens, 0);
    if parse_tokens(tokens) == Ok::<SpecStm, SpecParseError>(s) {
        let hi = stm.taken as int;
        if assign_at(tokens, 0).result is Ok {
            lemma_expr_sound(tokens, 2);
            lemma_expr_bounds(tokens, 2, hi, s->Assign_1);
        } else {
            lemma_expr_sound(tokens, 0);
        }
        assert(tokens[hi] == SpecToken::EOF);
        assert(is_stm(tokens, 0, hi, s));
    }
    if is_sentence(tokens, s) {
        let hi = choose|hi: int|
            0 <= hi < tokens.len() && #[trigger] tokens[hi] == SpecToken::EOF && is_stm(
                tokens,
                0,
                hi,
                s,
            );
        match s {
            SpecStm::Assign(name, e) => {
                lemma_expr_complete(tokens, 2, hi, e);
            },
            SpecStm::EvalExpr(e) => {
                lemma_expr_complete(tokens, 0, hi, e);
                if tokens[0] is Var {
                    lemma_variable_first(tokens, 0, hi, e);
                }
                assert(assign_at(tokens, 0).result is Err);
            },
        }
        assert(stm == reads(s, 0, hi));
    }
}

/// A text is accepted as a statement exactly where it has tokens and the
/// grammar reads them as that statement, followed by `EOF`.
pub proof fn law_accepted_texts(text: Seq<char>, s: SpecStm)
    ensures
        parse_text(text) == Ok::<SpecStm, SpecParseError>(s) <==> lex(text) is Ok && is_sentence(
            lex(text)->Ok_0,
            s,
        ),
{
    if lex(text) is Ok {
        law_parser_accepts_the_grammar(lex(text)->Ok_0, s);
    }
}

/// The errors that reading an expression can give.
pub open spec fn is_expr_error(e: SpecParseError) -> bool {
    e is UnexpectedEndOfInput || e is ExpectedButFound || e is ExpectedAtomOrParen
}

/// The rule `atom` gives no other errors than those.
pub proof fn lemma_atom_errors(tokens: Seq<SpecToken>, pos: int)
    ensures
        atom_at(tokens, pos).result matches Err(e) ==> is_expr_error(e),
    decreases tokens.len() - pos, 0int,
{
    if 0 <= pos < tokens.len() && tokens[pos] == SpecToken::LParen {
        lemma_expr_errors(tokens, pos + 1);
    }
}

/// The rule `factor` gives no other errors than those.
pub proof fn lemma_factor_errors(tokens: Seq<SpecToken>, pos: int)
    ensures
        factor_at(tokens, pos).result matches Err(e) ==> is_expr_error(e),
    decreases tokens.len() - pos, 1int,
{
    let left = atom_at(tokens, pos);
    lemma_atom_errors(tokens, pos);
    if left.result is Ok && token_at(tokens, pos + left.taken).result is Ok {
        lemma_factor_errors(tokens, pos + left.taken + 1);
    }
}

/// The rule `expression` gives no other errors than those.
pub proof fn lemma_expr_errors(tokens: Seq<SpecToken>, pos: int)
    ensures
        expr_at(tokens, pos).result matches Err(e) ==> is_expr_error(e),
    decreases tokens.len() - pos, 2int,
{
    let left = factor_at(tokens, pos);
    lemma_factor_errors(tokens, pos);
    if left.result is Ok && token_at(tokens, pos + left.taken).result is Ok {
        lemma_expr_errors(tokens, pos + left.taken + 1);
    }
}

/// A token sequence that is no statement is refused with one of the errors
/// of expressions: a failed assignment is tried again as an expression, so
/// `NotAVariable` is never the parser's last word, and `Lex` is for texts.
pub proof fn law_errors_of_token_sequences(tokens: Seq<SpecToken>)
    ensures
        parse_tokens(tokens) matches Err(e) ==> is_expr_error(e),
{
    lemma_expr_errors(tokens, 0);
}

/// The grammar reads a token sequence as at most one statement.
pub proof fn law_grammar_is_unambiguous(tokens: Seq<SpecToken>, s1: SpecStm, s2: SpecStm)
    requires
        is_sentence(tokens, s1),
        is_sentence(tokens, s2),
    ensures
        s1 == s2,
{
    law_parser_accepts_the_grammar(tokens, s1);
    law_parser_accepts_the_grammar(tokens, s2);
}

/// The tree of `left op right`.
pub open spec fn binary(op: BinOperator, left: SpecExpr, right: SpecExpr) -> SpecExpr {
    SpecExpr::BinOp(op, Box::new(left), Box::new(right))
}

/// Both operators group to the right: `a op b op c` is `a op (b op c)`.
pub proof fn law_operators_group_to_the_right(op: BinOperator, a: u32, b: u32, c: u32)
    ensures
        parse_tokens(
            seq![
                SpecToken::Number(a),
                operator_token(op),
                SpecToken::Number(b),
                operator_token(op),
                SpecToken::Number(c),
                SpecToken::EOF,
            ],
        ) == Ok::<SpecStm, SpecParseError>(
            SpecStm::EvalExpr(
                binary(op, SpecExpr::Number(a), binary(op, SpecExpr::Number(b), SpecExpr::Number(c))),
            ),
        ),
{
    let tokens = seq![
        SpecToken::Number(a),
        operator_token(op),
        SpecToken::Number(b),
        operator_token(op),
        SpecToken::Number(c),
        SpecToken::EOF,
    ];
    let tree = binary(op, SpecExpr::Number(a), binary(op, SpecExpr::Number(b), SpecExpr::Number(c)));
    assert(is_atom(tokens, 0, 1, SpecExpr::Number(a)));
    assert(is_atom(tokens, 2, 3, SpecExpr::Number(b)));
    assert(is_atom(tokens, 4, 5, SpecExpr::Number(c)));
    assert(is_factor(tokens, 4, 5, SpecExpr::Number(c)));
    match op {
        BinOperator::Mult => {
            assert(tokens[3] == SpecToken::Mult);
            assert(is_factor(tokens, 2, 5, binary(op, SpecExpr::Number(b), SpecExpr::Number(c))));
            assert(tokens[1] == SpecToken::Mult);
            assert(is_factor(tokens, 0, 5, tree));
        },
        BinOperator::Plus => {
            assert(is_factor(tokens, 0, 1, SpecExpr::Number(a)));
            assert(is_factor(tokens, 2, 3, SpecExpr::Number(b)));
            assert(is_expr(tokens, 4, 5, SpecExpr::Number(c)));
            assert(tokens[3] == SpecToken::Plus);
            assert(is_expr(tokens, 2, 5, binary(op, SpecExpr::Number(b), SpecExpr::Number(c))));
            assert(tokens[1] == SpecToken::Plus);
        },
    }
    assert(is_expr(tokens, 0, 5, tree));
    assert(tokens[5] == SpecToken::EOF);
    assert(is_stm(tokens, 0, 5, SpecStm::EvalExpr(tree)));
    law_parser_accepts_the_grammar(tokens, SpecStm::EvalExpr(tree));
}

/// `Mult` binds tighter than `Plus`, on either side: `a + b * c` is
/// `a + (b * c)`, and `a * b + c` is `(a * b) + c`.
pub proof fn law_mult_binds_tighter(a: u32, b: u32, c: u32)
    ensures
        parse_tokens(
            seq![
                SpecToken::Number(a),
                SpecToken::Plus,
                SpecToken::Number(b),
                SpecToken::Mult,
                SpecToken::Number(c),
                SpecToken::EOF,
            ],
        ) == Ok::<SpecStm, SpecParseError>(
            SpecStm::EvalExpr(
                binary(
                    BinOperator::Plus,
                    SpecExpr::Number(a),
                    binary(BinOperator::Mult, SpecExpr::Number(b), SpecExpr::Number(c)),
                ),
            ),
        ),
        parse_tokens(
            seq![
                SpecToken::Number(a),
                SpecToken::Mult,
                SpecToken::Number(b),
                SpecToken::Plus,
                SpecToken::Number(c),
                SpecToken::EOF,
            ],
        ) == Ok::<SpecStm, SpecParseError>(
            SpecStm::EvalExpr(
                binary(
                    BinOperator::Plus,
                    binary(BinOperator::Mult, SpecExpr::Number(a), SpecExpr::Number(b)),
                    SpecExpr::Number(c),
                ),
            ),
        ),
{
    let (na, nb, nc) = (SpecExpr::Number(a), SpecExpr::Number(b), SpecExpr::Number(c));
    {
        let tokens = seq![
            SpecToken::Number(a),
            SpecToken::Plus,
            SpecToken::Number(b),
            SpecToken::Mult,
            SpecToken::Number(c),
            SpecToken::EOF,
        ];
        let product = binary(BinOperator::Mult, nb, nc);
        let tree = binary(BinOperator::Plus, na, product);
        assert(is_atom(tokens, 0, 1, na));
        assert(is_atom(tokens, 2, 3, nb));
        assert(is_atom(tokens, 4, 5, nc));
        assert(is_factor(tokens, 0, 1, na));
        assert(is_factor(tokens, 4, 5, nc));
        assert(tokens[3] == SpecToken::Mult);
        assert(is_factor(tokens, 2, 5, product));
        assert(is_expr(tokens, 2, 5, product));
        assert(tokens[1] == SpecToken::Plus);
        assert(is_expr(tokens, 0, 5, tree));
        assert(tokens[5] == SpecToken::EOF);
        assert(is_stm(tokens, 0, 5, SpecStm::EvalExpr(tree)));
        law_parser_accepts_the_grammar(tokens, SpecStm::EvalExpr(tree));
    }
    {
        let tokens = seq![
            SpecToken::Number(a),
            SpecToken::Mult,
            SpecToken::Number(b),
            SpecToken::Plus,
            SpecToken::Number(c),
            SpecToken::EOF,
        ];
        let product = binary(BinOperator::Mult, na, nb);
        let tree = binary(BinOperator::Plus, product, nc);
        assert(is_atom(tokens, 0, 1, na));
        assert(is_atom(tokens, 2, 3, nb));
        assert(is_atom(tokens, 4, 5, nc));
        assert(is_factor(tokens, 2, 3, nb));
        assert(is_factor(tokens, 4, 5, nc));
        assert(is_expr(tokens, 4, 5, nc));
        assert(tokens[1] == SpecToken::Mult);
        assert(is_factor(tokens, 0, 3, product));
        assert(tokens[3] == SpecToken::Plus);
        assert(is_expr(tokens, 0, 5, tree));
        assert(tokens[5] == SpecToken::EOF);
        assert(is_stm(tokens, 0, 5, SpecStm::EvalExpr(tree)));
        law_parser_accepts_the_grammar(tokens, SpecStm::EvalExpr(tree));
    }
}

/// Parentheses group against the operators' order: `(a + b) * c` is the
/// product of a sum.
pub proof fn law_parentheses_group(a: u32, b: u32, c: u32)
    ensures
        parse_tokens(
            seq![
                SpecToken::LParen,
                SpecToken::Number(a),
                SpecToken::Plus,
                SpecToken::Number(b),
                SpecToken::RParen,
                SpecToken::Mult,
                SpecToken::Number(c),
                SpecToken::EOF,
            ],
        ) == Ok::<SpecStm, SpecParseError>(
            SpecStm::EvalExpr(
                binary(
                    BinOperator::Mult,
                    binary(BinOperator::Plus, SpecExpr::Number(a), SpecExpr::Number(b)),
                    SpecExpr::Number(c),
                ),
            ),
        ),
{
    let (na, nb, nc) = (SpecExpr::Number(a), SpecExpr::Number(b), SpecExpr::Number(c));
    let tokens = seq![
        SpecToken::LParen,
        SpecToken::Number(a),
        SpecToken::Plus,
        SpecToken::Number(b),
        SpecToken::RParen,
        SpecToken::Mult,
        SpecToken::Number(c),
        SpecToken::EOF,
    ];
    let sum = binary(BinOperator::Plus, na, nb);
    let tree = binary(BinOperator::Mult, sum, nc);
    assert(is_atom(tokens, 1, 2, na));
    assert(is_atom(tokens, 3, 4, nb));
    assert(is_atom(tokens, 6, 7, nc));
    assert(is_factor(tokens, 1, 2, na));
    assert(is_factor(tokens, 3, 4, nb));
    assert(is_factor(tokens, 6, 7, nc));
    assert(is_expr(tokens, 3, 4, nb));
    assert(tokens[2] == SpecToken::Plus);
    assert(is_expr(tokens, 1, 4, sum));
    assert(is_atom(tokens, 0, 5, sum));
    assert(tokens[5] == SpecToken::Mult);
    assert(is_factor(tokens, 0, 7, tree));
    assert(is_expr(tokens, 0, 7, tree));
    assert(tokens[7] == SpecToken::EOF);
    assert(is_stm(tokens, 0, 7, SpecStm::EvalExpr(tree)));
    law_parser_accepts_the_grammar(tokens, SpecStm::EvalExpr(tree));
}

} // verus!
