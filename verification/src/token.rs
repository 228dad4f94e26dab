//! Tokens, the smallest lexical units of the language.
use vstd::prelude::*;

verus! {

/// A lexical unit of the language.
#[derive(PartialEq, Eq, Debug)]
pub enum Token {
    /// An unsigned decimal literal.
    Number(u32),
    /// A variable name: a run of ASCII letters.
    Var(String),
    /// `(`
    LParen,
    /// `)`
    RParen,
    /// `+`
    Plus,
    /// `*`
    Mult,
    /// `=`
    Equal,
    /// The marker that closes every token sequence.
    EOF,
}

/// The mathematical value of a [`Token`]: names are sequences of characters.
pub enum SpecToken {
    Number(u32),
    Var(Seq<char>),
    LParen,
    RParen,
    Plus,
    Mult,
    Equal,
    EOF,
}

impl View for Token {
    type V = SpecToken;

    open spec fn view(&self) -> SpecToken {
        match self {
            Token::Number(n) => SpecToken::Number(*n),
            Token::Var(v) => SpecToken::Var(v@),
            Token::LParen => SpecToken::LParen,
            Token::RParen => SpecToken::RParen,
            Token::Plus => SpecToken::Plus,
            Token::Mult => SpecToken::Mult,
            Token::Equal => SpecToken::Equal,
            Token::EOF => SpecToken::EOF,
        }
    }
}

/// The values of a sequence of tokens, in order.
pub open spec fn token_views(tokens: Seq<Token>) -> Seq<SpecToken> {
    tokens.map_values(|t: Token| t@)
}

impl Token {
    /// Whether two tokens have the same value.
    pub fn same_as(&self, other: &Token) -> (same: bool)
        ensures
            same == (self@ == other@),
    {
        match (self, other) {
            (Token::Number(a), Token::Number(b)) => *a == *b,
            (Token::Var(a), Token::Var(b)) => *a == *b,
            (Token::LParen, Token::LParen) => true,
            (Token::RParen, Token::RParen) => true,
            (Token::Plus, Token::Plus) => true,
            (Token::Mult, Token::Mult) => true,
            (Token::Equal, Token::Equal) => true,
            (Token::EOF, Token::EOF) => true,
            _ => false,
        }
    }
}

impl Clone for Token {
    fn clone(&self) -> (copy: Token)
        ensures
            copy == *self,
    {
        match self {
            Token::Number(n) => Token::Number(*n),
            Token::Var(v) => Token::Var(v.clone()),
            Token::LParen => Token::LParen,
            Token::RParen => Token::RParen,
            Token::Plus => Token::Plus,
            Token::Mult => Token::Mult,
            Token::Equal => Token::Equal,
            Token::EOF => Token::EOF,
        }
    }
}

} // verus!
