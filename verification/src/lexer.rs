//! The lexer: source text to tokens.

use crate::text::chars_of;
use crate::text::is_digit;
use crate::text::string_of;
use crate::token::Token;
use crate::token::tokens_view;
use crate::token::TokenType;
use crate::token::TokenView;
use vstd::prelude::*;

verus! {

/// A letter of the Latin alphabet.
pub open spec fn is_alpha(c: char) -> bool {
    ('a' <= c <= 'z') || ('A' <= c <= 'Z')
}

/// What may stand inside an identifier: a letter, a digit or a hyphen.
pub open spec fn is_id(c: char) -> bool {
    is_alpha(c) || is_digit(c) || c == '-'
}

/// What separates tokens.
pub open spec fn is_space(c: char) -> bool {
    c == ' ' || c == '\n' || c == '\r' || c == '\t'
}

/// The kind of the token that a character is by itself.
pub open spec fn single_kind(c: char) -> TokenType {
    if c == '+' {
        TokenType::Add
    } else if c == '-' {
        TokenType::Negate
    } else if c == '(' {
        TokenType::Lparen
    } else if c == ')' {
        TokenType::Rparen
    } else if c == '[' {
        TokenType::Lbracket
    } else if c == ']' {
        TokenType::Rbracket
    } else {
        TokenType::Error
    }
}

/// Where a run of digits (or, for a name, of identifier characters) that
/// reaches `pos` ends.
pub open spec fn scan_end(src: Seq<char>, pos: int, digits: bool) -> int
    decreases src.len() - pos,
{
    if 0 <= pos < src.len() && (if digits {
        is_digit(src[pos])
    } else {
        is_id(src[pos])
    }) {
        scan_end(src, pos + 1, digits)
    } else {
        pos
    }
}

/// A run ends at or behind where it was entered, and inside the text.
pub proof fn lemma_scan_end(src: Seq<char>, pos: int, digits: bool)
    requires
        0 <= pos <= src.len(),
    ensures
        pos <= scan_end(src, pos, digits) <= src.len(),
    decreases src.len() - pos,
{
    if pos < src.len() && (if digits {
        is_digit(src[pos])
    } else {
        is_id(src[pos])
    }) {
        lemma_scan_end(src, pos + 1, digits);
    }
}

/// The tokens of `src` from `pos` on, where `pos` is in line `line` at
/// column `col`. White space separates tokens. A line break starts the
/// next line and counts as its first column. A digit starts a number, a
/// letter a name; `+ - ( ) [ ]` are tokens by themselves; any other
/// character is an error token.
pub open spec fn lex_from(src: Seq<char>, pos: int, line: nat, col: nat) -> Seq<TokenView>
    decreases src.len() - pos,
{
    if pos < 0 || pos >= src.len() {
        Seq::empty()
    } else {
        let c = src[pos];
        if c == '\n' {
            lex_from(src, pos + 1, line + 1, 2)
        } else if is_space(c) {
            lex_from(src, pos + 1, line, col + 1)
        } else if is_digit(c) || is_alpha(c) {
            let end = scan_end(src, pos + 1, is_digit(c));
            proof {
                lemma_scan_end(src, pos + 1, is_digit(c));
            }
            seq![
                TokenView {
                    ttype: if is_digit(c) {
                        TokenType::Number
                    } else {
                        TokenType::Identifier
                    },
                    lexeme: src.subrange(pos, end),
                    line: line as usize,
                    col: col as usize,
                },
            ] + lex_from(src, end, line, (col + (end - pos)) as nat)
        } else {
            seq![
                TokenView {
                    ttype: single_kind(c),
                    lexeme: seq![c],
                    line: line as usize,
                    col: col as usize,
                },
            ] + lex_from(src, pos + 1, line, col + 1)
        }
    }
}

/// The tokens of a source text.
pub open spec fn lex_spec(src: Seq<char>) -> Seq<TokenView> {
    lex_from(src, 0, 1, 1)
}

/// The lexer's place in its text.
pub struct LexerView {
    pub source: Seq<char>,
    pub position: int,
    pub line: nat,
    pub column: nat,
}

pub struct Lexer {
    source_code: Vec<char>,
    position: usize,
    end: usize,
    // the number of line breaks passed, and of columns passed in this line
    line: usize,
    column: usize,
}

impl View for Lexer {
    type V = LexerView;

    closed spec fn view(&self) -> LexerView {
        LexerView {
            source: self.source_code@,
            position: self.position as int,
            line: (self.line + 1) as nat,
            column: (self.column + 1) as nat,
        }
    }
}

fn is_alpha_char(c: char) -> (r: bool)
    ensures
        r == is_alpha(c),
{
    (c >= 'a' && c <= 'z') || (c >= 'A' && c <= 'Z')
}

fn is_digit_char(c: char) -> (r: bool)
    ensures
        r == is_digit(c),
{
    c >= '0' && c <= '9'
}

fn is_id_start(c: char) -> (r: bool)
    ensures
        r == is_alpha(c),
{
    is_alpha_char(c)
}

fn is_id_char(c: char) -> (r: bool)
    ensures
        r == is_id(c),
{
    is_id_start(c) || is_digit_char(c) || c == '-'
}

/// Whether the character goes on a run of digits, or one of identifier characters.
fn in_run(c: char, digits: bool) -> (r: bool)
    ensures
        r == (if digits {
            is_digit(c)
        } else {
            is_id(c)
        }),
{
    if digits {
        is_digit_char(c)
    } else {
        is_id_char(c)
    }
}

impl Lexer {
    /// The lexer is inside its text, and has passed no more lines and
    /// columns than characters.
    pub closed spec fn inv(&self) -> bool {
        &&& self.end == self.source_code@.len()
        &&& self.position <= self.end
        &&& self.line <= self.position
        &&& self.column <= self.position
    }

    pub fn new(source: &str) -> (r: Self)
        ensures
            r.inv(),
            r@ == (LexerView { source: source@, position: 0, line: 1, column: 1 }),
    {
        let src = chars_of(source);
        let len = src.len();
        Lexer { source_code: src, position: 0, end: len, line: 0, column: 0 }
    }

    fn is_at_end(&self) -> (r: bool)
        requires
            self.inv(),
        ensures
            r == (self@.position >= self@.source.len()),
    {
        self.position >= self.end
    }

    /// The character at the lexer's place.
    fn peek(&self) -> (c: char)
        requires
            self.inv(),
            self@.position < self@.source.len(),
        ensures
            c == self@.source[self@.position],
    {
        self.source_code[self.position]
    }

    /// Passes one character that is no line break.
    fn advance(&mut self)
        requires
            old(self).inv(),
            old(self)@.position < old(self)@.source.len(),
        ensures
            final(self).inv(),
            final(self)@ == (LexerView {
                position: old(self)@.position + 1,
                column: old(self)@.column + 1,
                ..old(self)@
            }),
    {
        self.position += 1;
        self.column += 1;
    }

    /// Passes the white space at the lexer's place.
    fn skip_whitespace(&mut self)
        requires
            old(self).inv(),
        ensures
            final(self).inv(),
            final(self)@.source == old(self)@.source,
            lex_from(final(self)@.source, final(self)@.position, final(self)@.line, final(self)@.column)
                == lex_from(
                old(self)@.source,
                old(self)@.position,
                old(self)@.line,
                old(self)@.column,
            ),
            final(self)@.position < final(self)@.source.len() ==> !is_space(
                final(self)@.source[final(self)@.position],
            ),
            final(self)@.position >= old(self)@.position,
    {
        while self.at_space()
            invariant
                self.inv(),
                self@.position >= old(self)@.position,
                self@.source == old(self)@.source,
                lex_from(self@.source, self@.position, self@.line, self@.column) == lex_from(
                    old(self)@.source,
                    old(self)@.position,
                    old(self)@.line,
                    old(self)@.column,
                ),
            decreases self@.source.len() - self@.position,
        {
            let c = self.peek();
            if c == '\n' {
                self.position += 1;
                self.line += 1;
                self.column = 1;
            } else {
                self.advance();
            }
        }
    }

    /// Whether white space stands at the lexer's place.
    fn at_space(&self) -> (r: bool)
        requires
            self.inv(),
        ensures
            r == (self@.position < self@.source.len() && is_space(self@.source[self@.position])),
    {
        if self.is_at_end() {
            false
        } else {
            let c = self.peek();
            c == '\n' || c == ' ' || c == '\r' || c == '\t'
        }
    }

    /// The token made of the next `len` characters.
    fn make_token(&mut self, t: TokenType, len: usize) -> (token: Token)
        requires
            old(self).inv(),
            old(self)@.position + len <= old(self)@.source.len(),
            len > 0,
        ensures
            final(self).inv(),
            token@ == (TokenView {
                ttype: t,
                lexeme: old(self)@.source.subrange(
                    old(self)@.position,
                    old(self)@.position + len,
                ),
                line: old(self)@.line as usize,
                col: old(self)@.column as usize,
            }),
            final(self)@ == (LexerView {
                position: old(self)@.position + len,
                column: (old(self)@.column + len) as nat,
                ..old(self)@
            }),
    {
        let start_pos = self.position;
        let end_pos = self.position + len;
        let token = Token {
            ttype: t,
            lexeme: string_of(&self.source_code, start_pos, end_pos),
            col: self.column + 1,
            line: self.line + 1,
        };
        self.position = end_pos;
        self.column = self.column + len;
        token
    }

    /// Where the run of digits, or of identifier characters, behind the
    /// character at the lexer's place ends.
    fn run_end(&self, digits: bool) -> (end: usize)
        requires
            self.inv(),
            self@.position < self@.source.len(),
        ensures
            end == scan_end(self@.source, self@.position + 1, digits),
            self@.position < end <= self@.source.len(),
    {
        let mut end: usize = self.position + 1;
        while end < self.end && in_run(self.source_code[end], digits)
            invariant
                self.inv(),
                self.position < end <= self.end,
                scan_end(self@.source, self@.position + 1, digits) == scan_end(
                    self@.source,
                    end as int,
                    digits,
                ),
            decreases self.end - end,
        {
            end += 1;
        }
        end
    }

    /// The number at the lexer's place.
    fn number(&mut self) -> (token: Token)
        requires
            old(self).inv(),
            old(self)@.position < old(self)@.source.len(),
        ensures
            final(self).inv(),
            token@ == (TokenView {
                ttype: TokenType::Number,
                lexeme: old(self)@.source.subrange(
                    old(self)@.position,
                    scan_end(old(self)@.source, old(self)@.position + 1, true),
                ),
                line: old(self)@.line as usize,
                col: old(self)@.column as usize,
            }),
            final(self)@ == (LexerView {
                position: scan_end(old(self)@.source, old(self)@.position + 1, true),
                column: (old(self)@.column + (scan_end(
                    old(self)@.source,
                    old(self)@.position + 1,
                    true,
                ) - old(self)@.position)) as nat,
                ..old(self)@
            }),
    {
        let end = self.run_end(true);
        self.make_token(TokenType::Number, end - self.position)
    }

    /// The name at the lexer's place.
    fn identifier(&mut self) -> (token: Token)
        requires
            old(self).inv(),
            old(self)@.position < old(self)@.source.len(),
        ensures
            final(self).inv(),
            token@ == (TokenView {
                ttype: TokenType::Identifier,
                lexeme: old(self)@.source.subrange(
                    old(self)@.position,
                    scan_end(old(self)@.source, old(self)@.position + 1, false),
                ),
                line: old(self)@.line as usize,
                col: old(self)@.column as usize,
            }),
            final(self)@ == (LexerView {
                position: scan_end(old(self)@.source, old(self)@.position + 1, false),
                column: (old(self)@.column + (scan_end(
                    old(self)@.source,
                    old(self)@.position + 1,
                    false,
                ) - old(self)@.position)) as nat,
                ..old(self)@
            }),
    {
        let end = self.run_end(false);
        self.make_token(TokenType::Identifier, end - self.position)
    }

    /// The next token, if the text holds one more.
    fn next_token(&mut self) -> (r: Option<Token>)
        requires
            old(self).inv(),
        ensures
            final(self).inv(),
            final(self)@.source == old(self)@.source,
            match r {
                Some(token) => lex_from(
                    old(self)@.source,
                    old(self)@.position,
                    old(self)@.line,
                    old(self)@.column,
                ) == seq![token@] + lex_from(
                    final(self)@.source,
                    final(self)@.position,
                    final(self)@.line,
                    final(self)@.column,
                ) && final(self)@.position > old(self)@.position,
                None => lex_from(
                    old(self)@.source,
                    old(self)@.position,
                    old(self)@.line,
                    old(self)@.column,
                ) == Seq::<TokenView>::empty() && final(self)@.position == final(self)@.source.len(),
            },
    {
        self.skip_whitespace();
        if self.is_at_end() {
            return None;
        }
        let c = self.peek();
        let ghost src = self@.source;
        let ghost pos = self@.position;
        let ghost line = self@.line;
        let ghost col = self@.column;
        proof {
            lemma_scan_end(src, pos + 1, is_digit(c));
        }
        let token = if is_digit_char(c) {
            let token = self.number();
            assert(lex_from(src, pos, line, col) == seq![token@] + lex_from(
                src,
                self@.position,
                self@.line,
                self@.column,
            ));
            token
        } else if is_id_start(c) {
            let token = self.identifier();
            assert(lex_from(src, pos, line, col) == seq![token@] + lex_from(
                src,
                self@.position,
                self@.line,
                self@.column,
            ));
            token
        } else {
            let kind = if c == '+' {
                TokenType::Add
            } else if c == '-' {
                TokenType::Negate
            } else if c == '(' {
                TokenType::Lparen
            } else if c == ')' {
                TokenType::Rparen
            } else if c == '[' {
                TokenType::Lbracket
            } else if c == ']' {
                TokenType::Rbracket
            } else {
                TokenType::Error
            };
            assert(src.subrange(pos, pos + 1) =~= seq![c]);
            let token = self.make_token(kind, 1);
            assert(lex_from(src, pos, line, col) == seq![token@] + lex_from(
                src,
                self@.position,
                self@.line,
                self@.column,
            ));
            token
        };
        Some(token)
    }

    /// The tokens of the rest of the text.
    pub fn lex(&mut self) -> (r: Vec<Token>)
        requires
            old(self).inv(),
        ensures
            final(self).inv(),
            tokens_view(r@) == lex_from(
                old(self)@.source,
                old(self)@.position,
                old(self)@.line,
                old(self)@.column,
            ),
            final(self)@.source == old(self)@.source,
            final(self)@.position == final(self)@.source.len(),
    {
        let mut token_vec: Vec<Token> = Vec::new();
        let ghost all = lex_from(self@.source, self@.position, self@.line, self@.column);
        assert(tokens_view(token_vec@) + all =~= all);
        loop
            invariant
                self.inv(),
                self@.source == old(self)@.source,
                all == lex_from(
                    old(self)@.source,
                    old(self)@.position,
                    old(self)@.line,
                    old(self)@.column,
                ),
                all == tokens_view(token_vec@) + lex_from(
                    self@.source,
                    self@.position,
                    self@.line,
                    self@.column,
                ),
            ensures
                self.inv(),
                self@.source == old(self)@.source,
                self@.position == self@.source.len(),
                tokens_view(token_vec@) == all,
            decreases self@.source.len() - self@.position,
        {
            let ghost listed = tokens_view(token_vec@);
            let ghost rest = lex_from(self@.source, self@.position, self@.line, self@.column);
            match self.next_token() {
                Some(t) => {
                    token_vec.push(t);
                    assert(tokens_view(token_vec@) =~= listed.push(t@));
                    assert(all =~= tokens_view(token_vec@) + lex_from(
                        self@.source,
                        self@.position,
                        self@.line,
                        self@.column,
                    ));
                },
                None => {
                    assert(listed + rest =~= listed);
                    break ;
                },
            }
        }
        token_vec
    }
}

} // verus!
