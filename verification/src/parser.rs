//! The parser: from tokens to a statement, by recursive descent.
//!
//! ```text
//! statement  := assignment | evaluate
//! assignment := Var Equal expression
//! evaluate   := expression
//! expression := factor ( Plus expression )?
//! factor     := atom ( Mult factor )?
//! atom       := Number | Var | LParen expression RParen
//! ```
//!
//! The functions whose names end in `_at` say what each rule does at a
//! position of a token sequence, failures included: which error it gives and
//! how far it has read by then. The methods of [`Parser`] do exactly that.
//! Which sequences are accepted, and with which tree, is said once more in
//! [`crate::grammar`], without reference to the order in which the parser
//! works; [`crate::laws::parsing`] proves that the two agree.
use vstd::prelude::*;
use crate::ast::{BinOperator, Expr, Stm, SpecExpr, SpecStm, result_view};
use crate::lexer::{LexError, lex, tokenize};
use crate::token::{Token, SpecToken, token_views};

verus! {

/// Why a text or a token sequence is not a statement.
#[derive(Debug, PartialEq, Eq)]
pub enum ParseError {
    /// The text could not be split into tokens.
    Lex(LexError),
    /// A rule needed a token where the sequence had ended.
    UnexpectedEndOfInput,
    /// A rule needed the first token and found the second.
    ExpectedButFound(Token, Token),
    /// An atom cannot start with this token.
    ExpectedAtomOrParen(Token),
    /// An assignment must start with a variable.
    NotAVariable,
}

/// The mathematical value of a [`ParseError`].
pub enum SpecParseError {
    Lex(LexError),
    UnexpectedEndOfInput,
    ExpectedButFound(SpecToken, SpecToken),
    ExpectedAtomOrParen(SpecToken),
    NotAVariable,
}

impl View for ParseError {
    type V = SpecParseError;

    open spec fn view(&self) -> SpecParseError {
        match self {
            ParseError::Lex(e) => SpecParseError::Lex(*e),
            ParseError::UnexpectedEndOfInput => SpecParseError::UnexpectedEndOfInput,
            ParseError::ExpectedButFound(wanted, found) => SpecParseError::ExpectedButFound(
                wanted@,
                found@,
            ),
            ParseError::ExpectedAtomOrParen(found) => SpecParseError::ExpectedAtomOrParen(found@),
            ParseError::NotAVariable => SpecParseError::NotAVariable,
        }
    }
}

/// What a rule does when it is tried at some position of a token sequence:
/// its result, and how many tokens it has taken, whether it succeeded or not.
pub struct Step<T> {
    pub result: Result<T, SpecParseError>,
    pub taken: nat,
}

/// Taking one token.
pub open spec fn token_at(tokens: Seq<SpecToken>, pos: int) -> Step<SpecToken> {
    if 0 <= pos < tokens.len() {
        Step { result: Ok(tokens[pos]), taken: 1 }
    } else {
        Step { result: Err(SpecParseError::UnexpectedEndOfInput), taken: 0 }
    }
}

/// Taking one token that has to be `wanted`. A token that is not is taken
/// all the same.
pub open spec fn expect_at(tokens: Seq<SpecToken>, pos: int, wanted: SpecToken) -> Step<()> {
    let step = token_at(tokens, pos);
    match step.result {
        Ok(found) => if found == wanted {
            Step { result: Ok(()), taken: 1 }
        } else {
            Step { result: Err(SpecParseError::ExpectedButFound(wanted, found)), taken: 1 }
        },
        Err(e) => Step { result: Err(e), taken: 0 },
    }
}

/// The rule `atom`. Inside parentheses the closing token is looked for even
/// where the expression has failed, and its own failure comes first.
pub open spec fn atom_at(tokens: Seq<SpecToken>, pos: int) -> Step<SpecExpr>
    decreases tokens.len() - pos, 0int,
{
    match token_at(tokens, pos).result {
        Ok(SpecToken::LParen) => {
            let inner = expr_at(tokens, pos + 1);
            let close = expect_at(tokens, pos + 1 + inner.taken, SpecToken::RParen);
            Step {
                result: match close.result {
                    Ok(_) => inner.result,
                    Err(e) => Err(e),
                },
                taken: 1 + inner.taken + close.taken,
            }
        },
        Ok(SpecToken::Number(n)) => Step { result: Ok(SpecExpr::Number(n)), taken: 1 },
        Ok(SpecToken::Var(name)) => Step { result: Ok(SpecExpr::Var(name)), taken: 1 },
        Ok(other) => Step { result: Err(SpecParseError::ExpectedAtomOrParen(other)), taken: 1 },
        Err(e) => Step { result: Err(e), taken: 0 },
    }
}

/// The token that stands for an operator.
pub open spec fn operator_token(op: BinOperator) -> SpecToken {
    match op {
        BinOperator::Plus => SpecToken::Plus,
        BinOperator::Mult => SpecToken::Mult,
    }
}

/// A left operand, an operator and a right operand as one step. The left
/// operand's failure comes first.
pub open spec fn combine(op: BinOperator, left: Step<SpecExpr>, right: Step<SpecExpr>) -> Step<
    SpecExpr,
> {
    Step {
        result: match (left.result, right.result) {
            (Ok(lhs), Ok(rhs)) => Ok(SpecExpr::BinOp(op, Box::new(lhs), Box::new(rhs))),
            (Ok(_), Err(e)) => Err(e),
            (Err(e), _) => Err(e),
        },
        taken: left.taken + 1 + right.taken,
    }
}

/// The rule `factor`: an atom, and with `Mult` next, a factor as its right
/// operand. The token after the atom is looked at in either case, so there
/// has to be one; unless it is `Mult` it is not taken.
pub open spec fn factor_at(tokens: Seq<SpecToken>, pos: int) -> Step<SpecExpr>
    decreases tokens.len() - pos, 1int,
{
    let left = atom_at(tokens, pos);
    let next = token_at(tokens, pos + left.taken).result;
    if left.result is Err {
        left
    } else if next is Err {
        Step { result: Err(SpecParseError::UnexpectedEndOfInput), taken: left.taken }
    } else if next == Ok::<SpecToken, SpecParseError>(SpecToken::Mult) {
        combine(BinOperator::Mult, left, factor_at(tokens, pos + left.taken + 1))
    } else {
        left
    }
}

/// The rule `expression`: a factor, and with `Plus` next, an expression as
/// its right operand. The token after the factor is looked at in either
/// case, so there has to be one; unless it is `Plus` it is not taken.
pub open spec fn expr_at(tokens: Seq<SpecToken>, pos: int) -> Step<SpecExpr>
    decreases tokens.len() - pos, 2int,
{
    let left = factor_at(tokens, pos);
    let next = token_at(tokens, pos + left.taken).result;
    if left.result is Err {
        left
    } else if next is Err {
        Step { result: Err(SpecParseError::UnexpectedEndOfInput), taken: left.taken }
    } else if next == Ok::<SpecToken, SpecParseError>(SpecToken::Plus) {
        combine(BinOperator::Plus, left, expr_at(tokens, pos + left.taken + 1))
    } else {
        left
    }
}

/// Taking one token that has to be a variable. Another token is taken all
/// the same.
pub open spec fn var_at(tokens: Seq<SpecToken>, pos: int) -> Step<Seq<char>> {
    match token_at(tokens, pos).result {
        Ok(SpecToken::Var(name)) => Step { result: Ok(name), taken: 1 },
        Ok(_) => Step { result: Err(SpecParseError::NotAVariable), taken: 1 },
        Err(e) => Step { result: Err(e), taken: 0 },
    }
}

/// The rule `assignment`. It stops at the first part that fails.
pub open spec fn assign_at(tokens: Seq<SpecToken>, pos: int) -> Step<SpecStm> {
    let name = var_at(tokens, pos);
    let equal = expect_at(tokens, pos + 1, SpecToken::Equal);
    let value = expr_at(tokens, pos + 2);
    match (name.result, equal.result, value.result) {
        (Err(e), _, _) => Step { result: Err(e), taken: name.taken },
        (Ok(_), Err(e), _) => Step { result: Err(e), taken: 1 + equal.taken },
        (Ok(_), Ok(_), Err(e)) => Step { result: Err(e), taken: 2 + value.taken },
        (Ok(target), Ok(_), Ok(e)) => Step {
            result: Ok(SpecStm::Assign(target, e)),
            taken: 2 + value.taken,
        },
    }
}

/// The rule `statement`: an assignment, or, where that fails, an expression
/// read from the same position.
pub open spec fn stm_at(tokens: Seq<SpecToken>, pos: int) -> Step<SpecStm> {
    let assign = assign_at(tokens, pos);
    let value = expr_at(tokens, pos);
    if assign.result is Ok {
        assign
    } else {
        Step {
            result: match value.result {
                Ok(e) => Ok(SpecStm::EvalExpr(e)),
                Err(e) => Err(e),
            },
            taken: value.taken,
        }
    }
}

/// One statement and `EOF` right after it. `EOF` is looked for even where
/// the statement has failed, and its own failure comes first.
pub open spec fn all_at(tokens: Seq<SpecToken>, pos: int) -> Step<SpecStm> {
    let stm = stm_at(tokens, pos);
    let end = expect_at(tokens, pos + stm.taken, SpecToken::EOF);
    Step {
        result: match end.result {
            Ok(_) => stm.result,
            Err(e) => Err(e),
        },
        taken: stm.taken + end.taken,
    }
}

/// The statement that a token sequence is, read from its start.
pub open spec fn parse_tokens(tokens: Seq<SpecToken>) -> Result<SpecStm, SpecParseError> {
    all_at(tokens, 0).result
}

/// The statement that a text is.
pub open spec fn parse_text(text: Seq<char>) -> Result<SpecStm, SpecParseError> {
    match lex(text) {
        Ok(tokens) => parse_tokens(tokens),
        Err(e) => Err(SpecParseError::Lex(e)),
    }
}

/// A token sequence with a read cursor.
pub struct Parser {
    tokens: Vec<Token>,
    pos: usize,
}

impl Parser {
    /// The tokens that the parser reads.
    pub closed spec fn tokens(&self) -> Seq<SpecToken> {
        token_views(self.tokens@)
    }

    /// The position of the next token to read.
    pub closed spec fn cursor(&self) -> int {
        self.pos as int
    }

    /// `self` is `before` after `step`, and `r` is that step's result.
    pub open spec fn stepped<T: View>(
        &self,
        before: &Parser,
        r: Result<T, ParseError>,
        step: Step<T::V>,
    ) -> bool {
        &&& self.tokens() == before.tokens()
        &&& self.cursor() == before.cursor() + step.taken
        &&& result_view(r) == step.result
    }

    /// A parser at the start of `tokens`.
    pub fn new(tokens: Vec<Token>) -> (parser: Parser)
        ensures
            parser.tokens() == token_views(tokens@),
            parser.cursor() == 0,
    {
        Parser { tokens, pos: 0 }
    }

    /// Takes the next token.
    pub fn get_token(&mut self) -> (r: Result<Token, ParseError>)
        ensures
            final(self).stepped(old(self), r, token_at(old(self).tokens(), old(self).cursor())),
    {
        if self.pos < self.tokens.len() {
            let token = self.tokens[self.pos].clone();
            self.pos = self.pos + 1;
            Ok(token)
        } else {
            Err(ParseError::UnexpectedEndOfInput)
        }
    }

    /// Takes the next token, which has to be `token`.
    pub fn expect(&mut self, token: Token) -> (r: Result<(), ParseError>)
        ensures
            final(self).stepped(
                old(self),
                r,
                expect_at(old(self).tokens(), old(self).cursor(), token@),
            ),
    {
        let found = self.get_token()?;
        if found.same_as(&token) {
            Ok(())
        } else {
            Err(ParseError::ExpectedButFound(token, found))
        }
    }

    /// The cursor's position, to come back to.
    pub fn checkpoint(&self) -> (mark: usize)
        ensures
            mark == self.cursor(),
    {
        self.pos
    }

    /// Moves the cursor back to a position that `checkpoint` gave.
    pub fn restore_checkpoint(&mut self, mark: usize)
        ensures
            final(self).tokens() == old(self).tokens(),
            final(self).cursor() == mark,
    {
        self.pos = mark;
    }

    /// Reads an atom.
    pub fn parse_atom(&mut self) -> (r: Result<Expr, ParseError>)
        ensures
            final(self).stepped(old(self), r, atom_at(old(self).tokens(), old(self).cursor())),
        decreases old(self).tokens().len() - old(self).cursor(), 0int,
    {
        let token = self.get_token()?;
        match token {
            Token::LParen => {
                let e = self.parse_expr();
                self.expect(Token::RParen)?;
                e
            },
            Token::Number(n) => Ok(Expr::Number(n)),
            Token::Var(name) => Ok(Expr::Var(name)),
            other => Err(ParseError::ExpectedAtomOrParen(other)),
        }
    }

    /// Reads a factor: atoms joined by `Mult`, grouped to the right.
    pub fn parse_factor(&mut self) -> (r: Result<Expr, ParseError>)
        ensures
            final(self).stepped(old(self), r, factor_at(old(self).tokens(), old(self).cursor())),
        decreases old(self).tokens().len() - old(self).cursor(), 1int,
    {
        let lhs = self.parse_atom()?;
        let token = self.get_token()?;
        match token {
            Token::Mult => {
                let rhs = self.parse_factor()?;
                Ok(Expr::BinOp(BinOperator::Mult, Box::new(lhs), Box::new(rhs)))
            },
            _ => {
                self.pos = self.pos - 1;
                Ok(lhs)
            },
        }
    }

    /// Reads an expression: factors joined by `Plus`, grouped to the right.
    pub fn parse_expr(&mut self) -> (r: Result<Expr, ParseError>)
        ensures
            final(self).stepped(old(self), r, expr_at(old(self).tokens(), old(self).cursor())),
        decreases old(self).tokens().len() - old(self).cursor(), 2int,
    {
        let lhs = self.parse_factor()?;
        let token = self.get_token()?;
        match token {
            Token::Plus => {
                let rhs = self.parse_expr()?;
                Ok(Expr::BinOp(BinOperator::Plus, Box::new(lhs), Box::new(rhs)))
            },
            _ => {
                self.pos = self.pos - 1;
                Ok(lhs)
            },
        }
    }

    /// Reads the name at the head of an assignment.
    pub fn parse_var(&mut self) -> (r: Result<String, ParseError>)
        ensures
            final(self).stepped(old(self), r, var_at(old(self).tokens(), old(self).cursor())),
    {
        match self.get_token()? {
            Token::Var(name) => Ok(name),
            _ => Err(ParseError::NotAVariable),
        }
    }

    /// Reads an assignment.
    pub fn parse_assign(&mut self) -> (r: Result<Stm, ParseError>)
        ensures
            final(self).stepped(old(self), r, assign_at(old(self).tokens(), old(self).cursor())),
    {
        let name = self.parse_var()?;
        self.expect(Token::Equal)?;
        let e = self.parse_expr()?;
        Ok(Stm::Assign(name, Box::new(e)))
    }

    /// Reads a statement: an assignment, or, where that fails, an expression
    /// from the position where the assignment was tried.
    pub fn parse_stm(&mut self) -> (r: Result<Stm, ParseError>)
        ensures
            final(self).stepped(old(self), r, stm_at(old(self).tokens(), old(self).cursor())),
    {
        let checkpoint = self.checkpoint();
        match self.parse_assign() {
            Ok(stm) => Ok(stm),
            Err(_) => {
                self.restore_checkpoint(checkpoint);
                let e = self.parse_expr()?;
                Ok(Stm::EvalExpr(Box::new(e)))
            },
        }
    }

    /// Reads one statement and the `EOF` that has to follow it.
    pub fn parse_all(&mut self) -> (r: Result<Stm, ParseError>)
        ensures
            final(self).stepped(old(self), r, all_at(old(self).tokens(), old(self).cursor())),
    {
        let stm = self.parse_stm();
        self.expect(Token::EOF)?;
        stm
    }
}

/// Parses a text into the statement that it is.
pub fn parse_top(input: &str) -> (r: Result<Stm, ParseError>)
    ensures
        result_view(r) == parse_text(input@),
{
    let tokens = match tokenize(input) {
        Ok(tokens) => tokens,
        Err(e) => {
            return Err(ParseError::Lex(e));
        },
    };
    let mut parser = Parser::new(tokens);
    parser.parse_all()
}

} // verus!
