//! Tokens of the surface language.

use vstd::prelude::*;

verus! {

#[derive(Clone, Copy, Debug, PartialEq, Eq, Structural)]
pub enum TokenType {
    Number,
    Add,
    Negate,
    Lparen,
    Rparen,
    Lbracket,
    Rbracket,
    Identifier,
    EndOfFile,
    Error,
}

/// One token: its kind, the text it was read from, and where that text
/// starts (lines and columns count from 1).
#[derive(Debug, PartialEq)]
pub struct Token {
    pub ttype: TokenType,
    pub lexeme: String,
    pub line: usize,
    pub col: usize,
}

/// A token as a plain value.
pub struct TokenView {
    pub ttype: TokenType,
    pub lexeme: Seq<char>,
    pub line: usize,
    pub col: usize,
}

impl View for Token {
    type V = TokenView;

    open spec fn view(&self) -> TokenView {
        TokenView { ttype: self.ttype, lexeme: self.lexeme@, line: self.line, col: self.col }
    }
}

impl Clone for Token {
    fn clone(&self) -> (r: Self)
        ensures
            r@ == self@,
    {
        Token { ttype: self.ttype, lexeme: self.lexeme.clone(), line: self.line, col: self.col }
    }
}

/// The views of a sequence of tokens, in order.
pub open spec fn tokens_view(v: Seq<Token>) -> Seq<TokenView> {
    Seq::new(v.len(), |i: int| v[i]@)
}

} // verus!
