//! Laws of the lexer: blanks between tokens do not matter, and a number
//! written in decimal is read back as itself.
use vstd::prelude::*;
use crate::lexer::{
    LexError, RunKind, belongs, decimal_value, digit_value, is_blank, is_digit, is_letter, lex,
    lemma_run_between, lemma_run_len_bounds, number_of, run_len, symbol_token,
};
use crate::token::SpecToken;

verus! {

/// Every character of the text is a blank.
pub open spec fn all_blank(text: Seq<char>) -> bool {
    forall|i: int| 0 <= i < text.len() ==> is_blank(#[trigger] text[i])
}

/// Two characters that, side by side, belong to one run.
pub open spec fn same_run(a: char, b: char) -> bool {
    (is_digit(a) && is_digit(b)) || (is_letter(a) && is_letter(b))
}

/// A run that ends inside a text, or cannot go on into what follows, is the
/// run of the two texts joined.
proof fn lemma_run_len_of_prefix(a: Seq<char>, b: Seq<char>, kind: RunKind)
    requires
        run_len(a, kind) < a.len() || b.len() == 0 || !belongs(b[0], kind),
    ensures
        run_len(a + b, kind) == run_len(a, kind),
    decreases a.len(),
{
    if a.len() == 0 {
        assert(a + b =~= b);
    } else {
        assert((a + b)[0] == a[0]);
        if belongs(a[0], kind) {
            assert((a + b).skip(1) =~= a.skip(1) + b);
            lemma_run_len_of_prefix(a.skip(1), b, kind);
        }
    }
}

/// Every character of a run is of the run's kind.
proof fn lemma_run_is_of_kind(text: Seq<char>, kind: RunKind, k: int)
    requires
        0 <= k < run_len(text, kind),
    ensures
        k < text.len(),
        belongs(text[k], kind),
    decreases text.len(),
{
    if k > 0 {
        lemma_run_is_of_kind(text.skip(1), kind, k - 1);
        assert(text.skip(1)[k - 1] == text[k]);
    }
}

/// Blanks in front of a text do not change its tokens.
pub proof fn law_leading_blanks(blanks: Seq<char>, rest: Seq<char>)
    requires
        all_blank(blanks),
    ensures
        lex(blanks + rest) == lex(rest),
    decreases blanks.len(),
{
    if blanks.len() == 0 {
        assert(blanks + rest =~= rest);
    } else {
        assert((blanks + rest)[0] == blanks[0]);
        assert((blanks + rest).skip(1) =~= blanks.skip(1) + rest);
        assert forall|i: int| 0 <= i < blanks.skip(1).len() implies is_blank(
            #[trigger] blanks.skip(1)[i],
        ) by {
            assert(blanks.skip(1)[i] == blanks[i + 1]);
        }
        law_leading_blanks(blanks.skip(1), rest);
    }
}

/// Blanks change no token: put in at the start of a text, at its end, or
/// between two characters that do not belong to one run, they leave the
/// tokens of the text as they are.
pub proof fn law_blanks_do_not_matter(before: Seq<char>, blanks: Seq<char>, after: Seq<char>)
    requires
        all_blank(blanks),
        before.len() > 0 && after.len() > 0 ==> !same_run(before.last(), after[0]),
    ensures
        lex(before + blanks + after) == lex(before + after),
    decreases before.len(),
{
    let with = before + blanks + after;
    let without = before + after;
    if before.len() == 0 {
        assert(with =~= blanks + after);
        assert(without =~= after);
        law_leading_blanks(blanks, after);
    } else {
        let c = before[0];
        assert(with[0] == c && without[0] == c);
        if is_digit(c) || is_letter(c) {
            let kind = if is_digit(c) {
                RunKind::Digits
            } else {
                RunKind::Letters
            };
            let n = run_len(before, kind) as int;
            lemma_run_len_bounds(before, kind);
            if n == before.len() {
                lemma_run_is_of_kind(before, kind, n - 1);
                if blanks.len() > 0 {
                    assert((blanks + after)[0] == blanks[0]);
                    assert(is_blank(blanks[0]));
                } else if after.len() > 0 {
                    assert((blanks + after)[0] == after[0]);
                }
            }
            assert(with =~= before + (blanks + after));
            lemma_run_len_of_prefix(before, blanks + after, kind);
            lemma_run_len_of_prefix(before, after, kind);
            assert(with.take(n) =~= without.take(n));
            assert(with.skip(n) =~= before.skip(n) + blanks + after);
            assert(without.skip(n) =~= before.skip(n) + after);
            law_blanks_do_not_matter(before.skip(n), blanks, after);
        } else if is_blank(c) || symbol_token(c) is Some {
            assert(with.skip(1) =~= before.skip(1) + blanks + after);
            assert(without.skip(1) =~= before.skip(1) + after);
            law_blanks_do_not_matter(before.skip(1), blanks, after);
        }
    }
}

/// The character that stands for a digit's value.
pub open spec fn digit_char(d: nat) -> char
    recommends
        d < 10,
{
    ('0' as nat + d) as char
}

/// A number written in decimal, without leading zeros.
pub open spec fn decimal_text(n: nat) -> Seq<char>
    decreases n,
{
    if n < 10 {
        seq![digit_char(n)]
    } else {
        decimal_text(n / 10).push(digit_char(n % 10))
    }
}

/// A number's decimal text is a non-empty sequence of digits whose value is
/// the number.
pub proof fn lemma_decimal_text(n: nat)
    ensures
        decimal_text(n).len() >= 1,
        forall|k: int| 0 <= k < decimal_text(n).len() ==> is_digit(#[trigger] decimal_text(n)[k]),
        decimal_value(decimal_text(n)) == n,
    decreases n,
{
    let text = decimal_text(n);
    if n < 10 {
        assert(text.drop_last() =~= Seq::<char>::empty());
        assert(decimal_value(text.drop_last()) == 0);
        assert(digit_value(text.last()) == n);
    } else {
        lemma_decimal_text(n / 10);
        assert(text.drop_last() =~= decimal_text(n / 10));
        assert(digit_value(text.last()) == n % 10);
        assert forall|k: int| 0 <= k < text.len() implies is_digit(#[trigger] text[k]) by {
            if k < text.len() - 1 {
                assert(text[k] == decimal_text(n / 10)[k]);
            }
        }
    }
}

/// Digits and nothing else are one number token: their decimal value modulo
/// 2^32, whatever zeros they start with.
pub proof fn law_digits_are_one_number(digits: Seq<char>)
    requires
        digits.len() >= 1,
        forall|k: int| 0 <= k < digits.len() ==> is_digit(#[trigger] digits[k]),
    ensures
        lex(digits) == Ok::<Seq<SpecToken>, LexError>(
            seq![SpecToken::Number(number_of(digits)), SpecToken::EOF],
        ),
{
    let n = digits.len() as int;
    lemma_run_between(digits, RunKind::Digits, 0, n);
    assert(digits.skip(0) =~= digits);
    assert(digits.take(n) =~= digits);
    assert(digits.skip(n) =~= Seq::<char>::empty());
    assert(lex(Seq::<char>::empty()) == Ok::<Seq<SpecToken>, LexError>(seq![SpecToken::EOF]));
    assert(is_digit(digits[0]));
    assert(seq![SpecToken::Number(number_of(digits))] + seq![SpecToken::EOF] =~= seq![
        SpecToken::Number(number_of(digits)),
        SpecToken::EOF,
    ]);
}

/// Every `u32` written in decimal is read back as one number token that
/// holds it.
pub proof fn law_literal_is_read_back(n: u32)
    ensures
        lex(decimal_text(n as nat)) == Ok::<Seq<SpecToken>, LexError>(
            seq![SpecToken::Number(n), SpecToken::EOF],
        ),
{
    lemma_decimal_text(n as nat);
    law_digits_are_one_number(decimal_text(n as nat));
}

} // verus!
