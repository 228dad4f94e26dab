//! The lexer: from text to tokens.
//!
//! A run of ASCII digits is one number, a run of ASCII letters is one name,
//! blanks separate tokens, and five characters are tokens by themselves.
//! Numbers are read modulo 2^32: digits beyond the range of `u32` wrap.
use vstd::prelude::*;
use crate::token::{Token, SpecToken, token_views};

verus! {

/// Why a text could not be split into tokens.
#[derive(PartialEq, Eq, Debug, Clone, Copy)]
pub enum LexError {
    /// The text holds a character outside the language's alphabet.
    UnexpectedCharacter(char),
}

/// The ASCII digits.
pub open spec fn is_digit(c: char) -> bool {
    '0' <= c && c <= '9'
}

/// The ASCII letters, upper and lower case.
pub open spec fn is_letter(c: char) -> bool {
    ('a' <= c && c <= 'z') || ('A' <= c && c <= 'Z')
}

/// The characters that separate tokens and produce none.
pub open spec fn is_blank(c: char) -> bool {
    c == ' ' || c == '\n'
}

/// The token that a character is by itself, if it is one.
pub open spec fn symbol_token(c: char) -> Option<SpecToken> {
    if c == '=' {
        Some(SpecToken::Equal)
    } else if c == '(' {
        Some(SpecToken::LParen)
    } else if c == ')' {
        Some(SpecToken::RParen)
    } else if c == '+' {
        Some(SpecToken::Plus)
    } else if c == '*' {
        Some(SpecToken::Mult)
    } else {
        None
    }
}

/// The value of a digit.
pub open spec fn digit_value(c: char) -> nat
    recommends
        is_digit(c),
{
    (c as nat - '0' as nat) as nat
}

/// The two kinds of character of which a run is one token.
pub enum RunKind {
    Digits,
    Letters,
}

/// Whether a character can be part of a run of the given kind.
pub open spec fn belongs(c: char, kind: RunKind) -> bool {
    match kind {
        RunKind::Digits => is_digit(c),
        RunKind::Letters => is_letter(c),
    }
}

/// How many characters of one kind the text starts with.
pub open spec fn run_len(text: Seq<char>, kind: RunKind) -> nat
    decreases text.len(),
{
    if text.len() > 0 && belongs(text[0], kind) {
        1 + run_len(text.skip(1), kind)
    } else {
        0
    }
}

/// A run is no longer than the text, and not empty where the text starts
/// with a character of its kind.
pub proof fn lemma_run_len_bounds(text: Seq<char>, kind: RunKind)
    ensures
        run_len(text, kind) <= text.len(),
        text.len() > 0 && belongs(text[0], kind) ==> run_len(text, kind) >= 1,
    decreases text.len(),
{
    if text.len() > 0 && belongs(text[0], kind) {
        lemma_run_len_bounds(text.skip(1), kind);
    }
}

/// The number that a sequence of digits denotes in base ten.
pub open spec fn decimal_value(digits: Seq<char>) -> nat
    decreases digits.len(),
{
    if digits.len() == 0 {
        0
    } else {
        decimal_value(digits.drop_last()) * 10 + digit_value(digits.last())
    }
}

/// The value of a number token: the digits' value modulo 2^32.
pub open spec fn number_of(digits: Seq<char>) -> u32 {
    (decimal_value(digits) % 0x1_0000_0000) as u32
}

/// `head` in front of the tokens of `tail`, or the error of `tail`.
pub open spec fn followed_by(
    head: Seq<SpecToken>,
    tail: Result<Seq<SpecToken>, LexError>,
) -> Result<Seq<SpecToken>, LexError> {
    match tail {
        Ok(rest) => Ok(head + rest),
        Err(e) => Err(e),
    }
}

/// The tokens of a text, closed by `EOF`, or the first character that
/// belongs to no token.
pub open spec fn lex(text: Seq<char>) -> Result<Seq<SpecToken>, LexError>
    decreases text.len(),
{
    if text.len() == 0 {
        Ok(seq![SpecToken::EOF])
    } else if is_digit(text[0]) {
        let n = run_len(text, RunKind::Digits) as int;
        proof {
            lemma_run_len_bounds(text, RunKind::Digits);
        }
        followed_by(seq![SpecToken::Number(number_of(text.take(n)))], lex(text.skip(n)))
    } else if is_letter(text[0]) {
        let n = run_len(text, RunKind::Letters) as int;
        proof {
            lemma_run_len_bounds(text, RunKind::Letters);
        }
        followed_by(seq![SpecToken::Var(text.take(n))], lex(text.skip(n)))
    } else if is_blank(text[0]) {
        lex(text.skip(1))
    } else {
        match symbol_token(text[0]) {
            Some(token) => followed_by(seq![token], lex(text.skip(1))),
            None => Err(LexError::UnexpectedCharacter(text[0])),
        }
    }
}

/// `EOF` is the last of the tokens and occurs nowhere else among them.
pub open spec fn closed_by_eof(tokens: Seq<SpecToken>) -> bool {
    &&& tokens.len() >= 1
    &&& forall|i: int| 0 <= i < tokens.len() ==> (tokens[i] == SpecToken::EOF <==> i == tokens.len() - 1)
}

/// The tokens of every text are closed by `EOF`.
pub proof fn lemma_lex_closed_by_eof(text: Seq<char>)
    ensures
        lex(text) matches Ok(tokens) ==> closed_by_eof(tokens),
    decreases text.len(),
{
    if text.len() > 0 {
        let c = text[0];
        if is_digit(c) {
            lemma_run_len_bounds(text, RunKind::Digits);
            lemma_lex_closed_by_eof(text.skip(run_len(text, RunKind::Digits) as int));
        } else if is_letter(c) {
            lemma_run_len_bounds(text, RunKind::Letters);
            lemma_lex_closed_by_eof(text.skip(run_len(text, RunKind::Letters) as int));
        } else {
            lemma_lex_closed_by_eof(text.skip(1));
        }
    }
}

/// Where every character from `start` up to `end` is of one kind and the
/// character at `end`, if there is one, is not, the text from `start` begins
/// with exactly that run.
pub proof fn lemma_run_between(text: Seq<char>, kind: RunKind, start: int, end: int)
    requires
        0 <= start <= end <= text.len(),
        forall|k: int| start <= k < end ==> belongs(text[k], kind),
        end == text.len() || !belongs(text[end], kind),
    ensures
        run_len(text.skip(start), kind) == end - start,
    decreases end - start,
{
    if start < end {
        assert(text.skip(start)[0] == text[start]);
        assert(text.skip(start).skip(1) =~= text.skip(start + 1));
        lemma_run_between(text, kind, start + 1, end);
    } else if end < text.len() {
        assert(text.skip(start)[0] == text[end]);
    }
}

/// One more digit multiplies the number by ten and adds the digit, wrapping.
proof fn lemma_number_push(digits: Seq<char>, c: char)
    requires
        is_digit(c),
    ensures
        number_of(digits.push(c)) == number_of(digits).wrapping_mul(10).wrapping_add(
            digit_value(c) as u32,
        ),
{
    let v = decimal_value(digits);
    let d = digit_value(c);
    assert(digits.push(c).drop_last() =~= digits);
    assert(decimal_value(digits.push(c)) == v * 10 + d);
    assert((v * 10 + d) % 0x1_0000_0000 == (((v % 0x1_0000_0000) * 10) % 0x1_0000_0000 + d)
        % 0x1_0000_0000) by (nonlinear_arith)
        requires
            v >= 0,
            0 <= d < 10,
    ;
}

/// Tokens in front of tokens in front of a result are their concatenation
/// in front of it.
proof fn lemma_followed_by_twice(
    a: Seq<SpecToken>,
    b: Seq<SpecToken>,
    tail: Result<Seq<SpecToken>, LexError>,
)
    ensures
        followed_by(a, followed_by(b, tail)) == followed_by(a + b, tail),
{
    if let Ok(rest) = tail {
        assert(a + (b + rest) =~= (a + b) + rest);
    }
}

/// `String::push` of the standard library: the string afterwards is the
/// string before with `ch` appended. Taken from its documentation, not proved.
pub assume_specification[ String::push ](s: &mut String, ch: char)
    ensures
        final(s)@ == old(s)@.push(ch),
;

/// A run that has been read and not yet turned into a token.
enum Pending {
    Nothing,
    Number(u32),
    Name(String),
}

/// `pending` is what the characters of `text` from `start` up to `end` have
/// been gathered into.
spec fn gathered(pending: Pending, text: Seq<char>, start: int, end: int) -> bool {
    &&& 0 <= start <= end <= text.len()
    &&& match pending {
        Pending::Nothing => start == end,
        Pending::Number(value) => {
            &&& start < end
            &&& forall|k: int| start <= k < end ==> belongs(text[k], RunKind::Digits)
            &&& value == number_of(text.subrange(start, end))
        },
        Pending::Name(name) => {
            &&& start < end
            &&& forall|k: int| start <= k < end ==> belongs(text[k], RunKind::Letters)
            &&& name@ == text.subrange(start, end)
        },
    }
}

fn is_digit_char(c: char) -> (b: bool)
    ensures
        b == is_digit(c),
{
    '0' <= c && c <= '9'
}

fn is_letter_char(c: char) -> (b: bool)
    ensures
        b == is_letter(c),
{
    ('a' <= c && c <= 'z') || ('A' <= c && c <= 'Z')
}

fn is_blank_char(c: char) -> (b: bool)
    ensures
        b == is_blank(c),
{
    c == ' ' || c == '\n'
}

fn symbol_of(c: char) -> (symbol: Option<Token>)
    ensures
        match symbol {
            Some(token) => symbol_token(c) == Some(token@),
            None => symbol_token(c) is None,
        },
{
    if c == '=' {
        Some(Token::Equal)
    } else if c == '(' {
        Some(Token::LParen)
    } else if c == ')' {
        Some(Token::RParen)
    } else if c == '+' {
        Some(Token::Plus)
    } else if c == '*' {
        Some(Token::Mult)
    } else {
        None
    }
}

fn digit_of(c: char) -> (d: u32)
    requires
        is_digit(c),
    ensures
        d == digit_value(c),
{
    c as u32 - '0' as u32
}

/// Turns the pending run, if there is one, into a token at the end of
/// `tokens`. The run must not be able to go on at `end`.
fn emit(
    tokens: &mut Vec<Token>,
    pending: Pending,
    Ghost(text): Ghost<Seq<char>>,
    Ghost(start): Ghost<int>,
    Ghost(end): Ghost<int>,
)
    requires
        gathered(pending, text, start, end),
        lex(text) == followed_by(token_views(old(tokens)@), lex(text.skip(start))),
        pending is Number ==> end == text.len() || !is_digit(text[end]),
        pending is Name ==> end == text.len() || !is_letter(text[end]),
    ensures
        lex(text) == followed_by(token_views(final(tokens)@), lex(text.skip(end))),
{
    let ghost before = token_views(tokens@);
    match pending {
        Pending::Nothing => {},
        Pending::Number(value) => {
            tokens.push(Token::Number(value));
            proof {
                lemma_run_between(text, RunKind::Digits, start, end);
                let token = SpecToken::Number(value);
                assert(text.skip(start).take(end - start) =~= text.subrange(start, end));
                assert(text.skip(start).skip(end - start) =~= text.skip(end));
                assert(text.skip(start)[0] == text[start]);
                assert(token_views(tokens@) =~= before + seq![token]);
                lemma_followed_by_twice(before, seq![token], lex(text.skip(end)));
            }
        },
        Pending::Name(name) => {
            let ghost token = SpecToken::Var(name@);
            tokens.push(Token::Var(name));
            proof {
                lemma_run_between(text, RunKind::Letters, start, end);
                assert(text.skip(start).take(end - start) =~= text.subrange(start, end));
                assert(text.skip(start).skip(end - start) =~= text.skip(end));
                assert(text.skip(start)[0] == text[start]);
                assert(token_views(tokens@) =~= before + seq![token]);
                lemma_followed_by_twice(before, seq![token], lex(text.skip(end)));
            }
        },
    }
}

/// Splits a text into its tokens, closed by `EOF`.
///
/// Fails on the first character that is neither a digit, a letter, a blank
/// nor one of `( ) + * =`.
pub fn tokenize(input: &str) -> (result: Result<Vec<Token>, LexError>)
    ensures
        match result {
            Ok(tokens) => lex(input@) == Ok::<Seq<SpecToken>, LexError>(token_views(tokens@)),
            Err(e) => lex(input@) == Err::<Seq<SpecToken>, LexError>(e),
        },
        result matches Ok(tokens) ==> closed_by_eof(token_views(tokens@)),
{
    proof {
        lemma_lex_closed_by_eof(input@);
    }
    let mut tokens: Vec<Token> = Vec::new();
    let mut pending = Pending::Nothing;
    let ghost text = input@;
    let ghost mut start: int = 0;
    assert(text.skip(0) =~= text);
    assert(token_views(tokens@) + lex(text)->Ok_0 =~= lex(text)->Ok_0);
    for ch in it: input.chars()
        invariant
            it.seq() == text,
            text == input@,
            gathered(pending, text, start, it.index() as int),
            lex(text) == followed_by(token_views(tokens@), lex(text.skip(start))),
    {
        let ghost here = it.index() as int;
        assert(text[here] == ch);
        if is_digit_char(ch) {
            let digit = digit_of(ch);
            pending = match pending {
                Pending::Number(value) => {
                    proof {
                        lemma_number_push(text.subrange(start, here), ch);
                        assert(text.subrange(start, here + 1) =~= text.subrange(start, here).push(
                            ch,
                        ));
                    }
                    Pending::Number(value.wrapping_mul(10).wrapping_add(digit))
                },
                other => {
                    emit(&mut tokens, other, Ghost(text), Ghost(start), Ghost(here));
                    proof {
                        start = here;
                        lemma_number_push(Seq::<char>::empty(), ch);
                        assert(text.subrange(here, here + 1) =~= Seq::<char>::empty().push(ch));
                    }
                    Pending::Number(digit)
                },
            };
        } else if is_letter_char(ch) {
            pending = match pending {
                Pending::Name(mut name) => {
                    name.push(ch);
                    proof {
                        assert(text.subrange(start, here + 1) =~= text.subrange(start, here).push(
                            ch,
                        ));
                    }
                    Pending::Name(name)
                },
                other => {
                    emit(&mut tokens, other, Ghost(text), Ghost(start), Ghost(here));
                    let mut name = String::new();
                    name.push(ch);
                    proof {
                        start = here;
                        assert(text.subrange(here, here + 1) =~= Seq::<char>::empty().push(ch));
                    }
                    Pending::Name(name)
                },
            };
        } else {
            emit(&mut tokens, pending, Ghost(text), Ghost(start), Ghost(here));
            pending = Pending::Nothing;
            let ghost before = token_views(tokens@);
            proof {
                start = here + 1;
                assert(text.skip(here)[0] == ch);
                assert(text.skip(here).skip(1) =~= text.skip(here + 1));
            }
            if !is_blank_char(ch) {
                match symbol_of(ch) {
                    Some(token) => {
                        proof {
                            assert(token_views(tokens@.push(token)) =~= before + seq![token@]);
                            lemma_followed_by_twice(
                                before,
                                seq![token@],
                                lex(text.skip(here + 1)),
                            );
                        }
                        tokens.push(token);
                    },
                    None => {
                        return Err(LexError::UnexpectedCharacter(ch));
                    },
                }
            }
        }
    }
    let ghost end = text.len() as int;
    emit(&mut tokens, pending, Ghost(text), Ghost(start), Ghost(end));
    proof {
        let before = token_views(tokens@);
        assert(token_views(tokens@.push(Token::EOF)) =~= before + seq![SpecToken::EOF]);
    }
    tokens.push(Token::EOF);
    Ok(tokens)
}

} // verus!
