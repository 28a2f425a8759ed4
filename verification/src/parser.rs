//! The parser: tokens to a program.
//!
//! ```text
//! program ::= '(' expr ')'
//! expr    ::= Number | Identifier | '(' expr ')'
//!           | '+' expr expr | '-' expr | 'read'
//!           | 'let' '(' binding+ ')' expr
//! binding ::= '[' Identifier expr ']'
//! ```

use crate::ast::AstNode;
use crate::ast::bindings_of;
use crate::ast::Expr;
use crate::ast::exprs_of;
use crate::ast::lemma_ops_differ;
use crate::ast::lemma_view_let;
use crate::ast::lemma_view_prim;
use crate::ast::LetBinding;
use crate::ast::op_add;
use crate::ast::op_neg;
use crate::ast::op_read;
use crate::ast::Program;
use crate::ast::well_formed;
use crate::text::parse_i64;
use crate::text::parse_i64_spec;
use crate::text::same_text;
use crate::token::Token;
use crate::token::tokens_view;
use crate::token::TokenType;
use crate::token::TokenView;
use vstd::prelude::*;

verus! {

/// What was parsed and the place of the first token behind it. For an
/// error the place is that of the token that was not expected.
pub struct Parsed {
    pub node: Expr,
    pub next: nat,
}

/// The bindings that were parsed, or the error that stopped them, and the
/// place behind.
pub struct ParsedBindings {
    pub bindings: Seq<(Seq<char>, Expr)>,
    pub failure: Option<Expr>,
    pub next: nat,
}

/// The token that stands for the end of the input.
pub open spec fn eof_token() -> TokenView {
    TokenView { ttype: TokenType::EndOfFile, lexeme: Seq::empty(), line: 0, col: 0 }
}

/// The token at `pos`, or the end of the input.
pub open spec fn token_at(ts: Seq<TokenView>, pos: nat) -> TokenView {
    if pos < ts.len() {
        ts[pos as int]
    } else {
        eof_token()
    }
}

/// How an error names the token it found.
pub open spec fn found_text(t: TokenView) -> Seq<char> {
    if t.ttype == TokenType::EndOfFile {
        "end of input"@
    } else {
        "'"@ + t.lexeme + "'"@
    }
}

/// An error's message: what was expected and what was found.
pub open spec fn expected_message(what: Seq<char>, t: TokenView) -> Seq<char> {
    "Expected "@ + what + ", found "@ + found_text(t)
}

/// The error for the token at `pos`, where `what` was expected.
pub open spec fn error_at(ts: Seq<TokenView>, pos: nat, what: Seq<char>) -> Parsed {
    Parsed {
        node: Expr::Error {
            msg: expected_message(what, token_at(ts, pos)),
            token: token_at(ts, pos),
        },
        next: pos,
    }
}

/// The expression that starts at `pos`, nested at most `fuel` deep. The
/// first error met is the result of everything around it.
pub open spec fn parse_expr_spec(ts: Seq<TokenView>, pos: nat, fuel: nat) -> Parsed
    decreases fuel, 0int,
{
    let t = token_at(ts, pos);
    if fuel == 0 || pos >= ts.len() {
        error_at(ts, pos, "an expression"@)
    } else {
        match t.ttype {
            TokenType::Number => match parse_i64_spec(t.lexeme) {
                Some(n) => Parsed { node: Expr::Int(n), next: pos + 1 },
                None => error_at(ts, pos, "a 64-bit integer"@),
            },
            TokenType::Lparen => {
                let inner = parse_expr_spec(ts, pos + 1, (fuel - 1) as nat);
                if inner.node is Error {
                    inner
                } else if token_at(ts, inner.next).ttype == TokenType::Rparen {
                    Parsed { node: inner.node, next: inner.next + 1 }
                } else {
                    error_at(ts, inner.next, "')'"@)
                }
            },
            TokenType::Add => {
                let left = parse_expr_spec(ts, pos + 1, (fuel - 1) as nat);
                if left.node is Error {
                    left
                } else {
                    let right = parse_expr_spec(ts, left.next, (fuel - 1) as nat);
                    if right.node is Error {
                        right
                    } else {
                        Parsed {
                            node: Expr::Prim { op: op_add(), args: seq![left.node, right.node] },
                            next: right.next,
                        }
                    }
                }
            },
            TokenType::Negate => {
                let inner = parse_expr_spec(ts, pos + 1, (fuel - 1) as nat);
                if inner.node is Error {
                    inner
                } else {
                    Parsed {
                        node: Expr::Prim { op: op_neg(), args: seq![inner.node] },
                        next: inner.next,
                    }
                }
            },
            TokenType::Identifier => {
                if t.lexeme == "read"@ {
                    Parsed { node: Expr::Prim { op: op_read(), args: Seq::empty() }, next: pos + 1 }
                } else if t.lexeme == "let"@ {
                    if token_at(ts, pos + 1).ttype != TokenType::Lparen {
                        error_at(ts, pos + 1, "'('"@)
                    } else {
                        let bound = parse_bindings_spec(ts, pos + 2, (fuel - 1) as nat);
                        match bound.failure {
                            Some(error) => Parsed { node: error, next: bound.next },
                            None => {
                                if token_at(ts, bound.next).ttype != TokenType::Rparen {
                                    error_at(ts, bound.next, "')'"@)
                                } else {
                                    let body = parse_expr_spec(
                                        ts,
                                        bound.next + 1,
                                        (fuel - 1) as nat,
                                    );
                                    if body.node is Error {
                                        body
                                    } else {
                                        Parsed {
                                            node: Expr::Let {
                                                bindings: bound.bindings,
                                                body: Box::new(body.node),
                                            },
                                            next: body.next,
                                        }
                                    }
                                }
                            },
                        }
                    }
                } else {
                    Parsed { node: Expr::Var { name: t.lexeme }, next: pos + 1 }
                }
            },
            _ => error_at(ts, pos, "an expression"@),
        }
    }
}

/// The bindings that start at `pos`: one at least, each in brackets.
pub open spec fn parse_bindings_spec(ts: Seq<TokenView>, pos: nat, fuel: nat) -> ParsedBindings
    decreases fuel, 1int,
{
    if token_at(ts, pos).ttype != TokenType::Lbracket {
        failed(error_at(ts, pos, "'['"@))
    } else if token_at(ts, pos + 1).ttype != TokenType::Identifier {
        failed(error_at(ts, pos + 1, "a variable name"@))
    } else if fuel == 0 {
        failed(error_at(ts, pos + 2, "an expression"@))
    } else {
        let value = parse_expr_spec(ts, pos + 2, (fuel - 1) as nat);
        if value.node is Error {
            failed(value)
        } else if token_at(ts, value.next).ttype != TokenType::Rbracket {
            failed(error_at(ts, value.next, "']'"@))
        } else {
            let here = (token_at(ts, pos + 1).lexeme, value.node);
            if token_at(ts, value.next + 1).ttype == TokenType::Lbracket {
                let rest = parse_bindings_spec(ts, value.next + 1, (fuel - 1) as nat);
                ParsedBindings {
                    bindings: seq![here] + rest.bindings,
                    failure: rest.failure,
                    next: rest.next,
                }
            } else {
                ParsedBindings { bindings: seq![here], failure: None, next: value.next + 1 }
            }
        }
    }
}

/// The bindings that an error stopped.
pub open spec fn failed(error: Parsed) -> ParsedBindings {
    ParsedBindings { bindings: Seq::empty(), failure: Some(error.node), next: error.next }
}

/// The program that the tokens are: a parenthesis, an expression, a
/// parenthesis. What stands behind is not looked at.
pub open spec fn parse_program_spec(ts: Seq<TokenView>) -> Expr {
    if token_at(ts, 0).ttype != TokenType::Lparen {
        error_at(ts, 0, "'('"@).node
    } else {
        let inner = parse_expr_spec(ts, 1, ts.len());
        if inner.node is Error {
            inner.node
        } else if token_at(ts, inner.next).ttype == TokenType::Rparen {
            inner.node
        } else {
            error_at(ts, inner.next, "')'"@).node
        }
    }
}

/// The parser's state as plain values.
pub struct ParserView {
    pub tokens: Seq<TokenView>,
    pub current: nat,
    pub parse_success: bool,
    pub errors: Seq<Expr>,
}

pub struct Parser {
    tokens: Vec<Token>,
    current: usize,
    parse_success: bool,
    errors: Vec<AstNode>,
}

impl View for Parser {
    type V = ParserView;

    closed spec fn view(&self) -> ParserView {
        ParserView {
            tokens: tokens_view(self.tokens@),
            current: self.current as nat,
            parse_success: self.parse_success,
            errors: exprs_of(self.errors@),
        }
    }
}

/// The state after `out` was parsed: the place behind it; an error is also
/// recorded, and the parse has then failed.
pub open spec fn after_parse(before: ParserView, node: Expr, next: nat) -> ParserView {
    ParserView {
        tokens: before.tokens,
        current: next,
        parse_success: before.parse_success && !(node is Error),
        errors: if node is Error {
            before.errors.push(node)
        } else {
            before.errors
        },
    }
}

impl Parser {
    pub fn new(tokens: Vec<Token>) -> (r: Parser)
        ensures
            r@ == (ParserView {
                tokens: tokens_view(tokens@),
                current: 0,
                parse_success: true,
                errors: Seq::empty(),
            }),
    {
        let r = Parser { tokens, current: 0, parse_success: true, errors: Vec::new() };
        assert(r@.errors =~= Seq::empty());
        r
    }

    /// Goes on to the next token.
    fn next(&mut self)
        requires
            old(self)@.current < old(self)@.tokens.len(),
        ensures
            final(self)@ == (ParserView { current: old(self)@.current + 1, ..old(self)@ }),
    {
        assert(self@.tokens.len() == self.tokens.len());
        self.current += 1;
    }

    /// The token `n` places on, or the end of the input.
    fn peek(&self, n: usize) -> (t: Token)
        requires
            self@.current + n <= usize::MAX,
        ensures
            t@ == token_at(self@.tokens, self@.current + n as nat),
    {
        let offset = self.current + n;
        if offset < self.tokens.len() {
            self.tokens[offset].clone()
        } else {
            Token { ttype: TokenType::EndOfFile, lexeme: String::new(), line: 0, col: 0 }
        }
    }

    /// The kind of the token `n` places on.
    fn kind(&self, n: usize) -> (k: TokenType)
        requires
            self@.current + n <= usize::MAX,
        ensures
            k == token_at(self@.tokens, self@.current + n as nat).ttype,
    {
        let offset = self.current + n;
        if offset < self.tokens.len() {
            self.tokens[offset].ttype
        } else {
            TokenType::EndOfFile
        }
    }

    /// Whether the current token is of the kind.
    fn is(&self, ttype: TokenType) -> (r: bool)
        ensures
            r == (token_at(self@.tokens, self@.current).ttype == ttype),
    {
        self.kind(0) == ttype
    }

    /// Passes the current token where it is of the kind.
    fn expect(&mut self, ttype: TokenType) -> (r: bool)
        requires
            ttype != TokenType::EndOfFile,
        ensures
            r == (token_at(old(self)@.tokens, old(self)@.current).ttype == ttype),
            r ==> old(self)@.current < old(self)@.tokens.len() && final(self)@ == (ParserView {
                current: old(self)@.current + 1,
                ..old(self)@
            }),
            !r ==> final(self)@ == old(self)@,
    {
        if self.kind(0) == ttype {
            self.next();
            true
        } else {
            false
        }
    }

    /// The current token.
    fn current(&self) -> (t: Token)
        ensures
            t@ == token_at(self@.tokens, self@.current),
    {
        self.peek(0)
    }

    /// Whether no error has been met.
    pub fn parse_success(&self) -> (r: bool)
        ensures
            r == self@.parse_success,
    {
        self.parse_success
    }

    /// The errors met, in order.
    pub fn error_list(&self) -> (r: &Vec<AstNode>)
        ensures
            exprs_of(r@) == self@.errors,
    {
        &self.errors
    }

    fn error(&mut self)
        ensures
            final(self)@ == (ParserView { parse_success: false, ..old(self)@ }),
    {
        self.parse_success = false;
    }

    /// The error for the current token, where `what` was expected.
    fn make_error_node(&mut self, what: &str) -> (r: AstNode)
        ensures
            r@ == error_at(old(self)@.tokens, old(self)@.current, what@).node,
            final(self)@ == after_parse(old(self)@, r@, old(self)@.current),
    {
        self.error();
        let token = self.peek(0);
        let mut msg = String::from_str("Expected ");
        msg.append(what);
        msg.append(", found ");
        match token.ttype {
            TokenType::EndOfFile => {
                msg.append("end of input");
            },
            _ => {
                msg.append("'");
                msg.append(token.lexeme.as_str());
                msg.append("'");
            },
        }
        assert(msg@ =~= expected_message(what@, token@));
        let recorded = AstNode::Error { msg: msg.clone(), token: token.clone() };
        let ghost before = self@.errors;
        self.errors.push(recorded);
        assert(self@.errors =~= before.push(recorded@));
        AstNode::Error { msg, token }
    }

    fn parse_number(&mut self) -> (r: AstNode)
        requires
            token_at(old(self)@.tokens, old(self)@.current).ttype == TokenType::Number,
            old(self)@.current < old(self)@.tokens.len(),
        ensures
            ({
                let t = token_at(old(self)@.tokens, old(self)@.current);
                let out = match parse_i64_spec(t.lexeme) {
                    Some(n) => Parsed { node: Expr::Int(n), next: old(self)@.current + 1 },
                    None => error_at(old(self)@.tokens, old(self)@.current, "a 64-bit integer"@),
                };
                r@ == out.node && final(self)@ == after_parse(old(self)@, out.node, out.next)
            }),
    {
        let token = self.current();
        match parse_i64(token.lexeme.as_str()) {
            Some(n) => {
                self.next();
                AstNode::Int(n)
            },
            None => self.make_error_node("a 64-bit integer"),
        }
    }

    /// The bindings of a `let`.
    fn parse_bindings(&mut self, Ghost(fuel): Ghost<nat>) -> (r: Result<Vec<LetBinding>, AstNode>)
        requires
            fuel + old(self)@.current >= old(self)@.tokens.len(),
            old(self)@.current <= old(self)@.tokens.len(),
        ensures
            ({
                let out = parse_bindings_spec(old(self)@.tokens, old(self)@.current, fuel);
                &&& match r {
                    Ok(bindings) => out.failure is None && bindings_of(bindings@) == out.bindings
                        && final(self)@ == (ParserView { current: out.next, ..old(self)@ })
                        && forall|i: int|
                        0 <= i < out.bindings.len() ==> well_formed((#[trigger] out.bindings[i]).1),
                    Err(error) => out.failure == Some(error@) && error@ is Error && final(self)@
                        == after_parse(old(self)@, error@, out.next),
                }
                &&& out.next <= old(self)@.tokens.len()
                &&& out.next >= old(self)@.current
                &&& out.failure is None ==> out.next > old(self)@.current
            }),
        decreases fuel, 1int,
    {
        let ghost ts = self@.tokens;
        let ghost pos = self@.current;
        if !self.expect(TokenType::Lbracket) {
            return Err(self.make_error_node("'['"));
        }
        if !self.is(TokenType::Identifier) {
            return Err(self.make_error_node("a variable name"));
        }
        let var = self.current().lexeme;
        self.next();
        if self.current >= self.tokens.len() {
            assert(fuel == 0 || parse_expr_spec(ts, pos + 2, (fuel - 1) as nat) == error_at(
                ts,
                pos + 2,
                "an expression"@,
            ));
            return Err(self.make_error_node("an expression"));
        }
        let value = self.parse_expr(Ghost((fuel - 1) as nat));
        if let AstNode::Error { .. } = value {
            return Err(value);
        }
        if !self.expect(TokenType::Rbracket) {
            return Err(self.make_error_node("']'"));
        }
        let here = LetBinding { identifier: var, expr: value };
        if self.is(TokenType::Lbracket) {
            match self.parse_bindings(Ghost((fuel - 1) as nat)) {
                Ok(mut rest) => {
                    let ghost tail = bindings_of(rest@);
                    rest.insert(0, here);
                    assert(bindings_of(rest@) =~= seq![here@] + tail);
                    Ok(rest)
                },
                Err(error) => Err(error),
            }
        } else {
            let single = vec![here];
            assert(bindings_of(single@) =~= seq![here@]);
            Ok(single)
        }
    }

    /// What follows a `let`: its bindings in parentheses and its body.
    fn parse_let(&mut self, Ghost(fuel): Ghost<nat>) -> (r: AstNode)
        requires
            fuel > 0,
            fuel + old(self)@.current > old(self)@.tokens.len(),
            0 < old(self)@.current <= old(self)@.tokens.len(),
            token_at(old(self)@.tokens, (old(self)@.current - 1) as nat).ttype
                == TokenType::Identifier,
            token_at(old(self)@.tokens, (old(self)@.current - 1) as nat).lexeme == "let"@,
        ensures
            ({
                let out = parse_expr_spec(
                    old(self)@.tokens,
                    (old(self)@.current - 1) as nat,
                    fuel,
                );
                &&& r@ == out.node
                &&& final(self)@ == after_parse(old(self)@, out.node, out.next)
                &&& out.next <= old(self)@.tokens.len()
                &&& out.next >= old(self)@.current - 1
                &&& !(out.node is Error) ==> well_formed(out.node) && out.next >= old(self)@.current
            }),
        decreases fuel, 2int,
    {
        proof {
            reveal_strlit("read");
            reveal_strlit("let");
            assert("read"@ != "let"@) by {
                assert("read"@.len() != "let"@.len());
            }
        }
        if !self.expect(TokenType::Lparen) {
            return self.make_error_node("'('");
        }
        match self.parse_bindings(Ghost((fuel - 1) as nat)) {
            Err(error) => error,
            Ok(binding_vec) => {
                if !self.expect(TokenType::Rparen) {
                    return self.make_error_node("')'");
                }
                let body = self.parse_expr(Ghost((fuel - 1) as nat));
                if let AstNode::Error { .. } = body {
                    return body;
                }
                let body = Box::new(body);
                proof {
                    lemma_view_let(binding_vec, body);
                }
                AstNode::Let { bindings: binding_vec, body }
            },
        }
    }

    fn parse_identifier(&mut self, Ghost(fuel): Ghost<nat>) -> (r: AstNode)
        requires
            fuel > 0,
            fuel + old(self)@.current >= old(self)@.tokens.len(),
            old(self)@.current < old(self)@.tokens.len(),
            token_at(old(self)@.tokens, old(self)@.current).ttype == TokenType::Identifier,
        ensures
            ({
                let out = parse_expr_spec(old(self)@.tokens, old(self)@.current, fuel);
                &&& r@ == out.node
                &&& final(self)@ == after_parse(old(self)@, out.node, out.next)
                &&& out.next <= old(self)@.tokens.len()
                &&& out.next >= old(self)@.current
                &&& !(out.node is Error) ==> well_formed(out.node) && out.next > old(self)@.current
            }),
        decreases fuel, 3int,
    {
        proof {
            lemma_ops_differ();
        }
        let token = self.current();
        self.next();
        if same_text(&token.lexeme, "read") {
            let args: Vec<AstNode> = Vec::new();
            let op = String::from_str("read");
            proof {
                lemma_view_prim(op, args);
                assert(exprs_of(args@) =~= Seq::empty());
            }
            AstNode::Prim { op, args }
        } else if same_text(&token.lexeme, "let") {
            self.parse_let(Ghost(fuel))
        } else {
            AstNode::Var { name: token.lexeme }
        }
    }

    fn parse_operator(&mut self, Ghost(fuel): Ghost<nat>) -> (r: AstNode)
        requires
            fuel > 0,
            fuel + old(self)@.current >= old(self)@.tokens.len(),
            old(self)@.current < old(self)@.tokens.len(),
            token_at(old(self)@.tokens, old(self)@.current).ttype == TokenType::Add || token_at(
                old(self)@.tokens,
                old(self)@.current,
            ).ttype == TokenType::Negate,
        ensures
            ({
                let out = parse_expr_spec(old(self)@.tokens, old(self)@.current, fuel);
                &&& r@ == out.node
                &&& final(self)@ == after_parse(old(self)@, out.node, out.next)
                &&& out.next <= old(self)@.tokens.len()
                &&& out.next >= old(self)@.current
                &&& !(out.node is Error) ==> well_formed(out.node) && out.next > old(self)@.current
            }),
        decreases fuel, 3int,
    {
        proof {
            lemma_ops_differ();
        }
        let add = self.is(TokenType::Add);
        self.next();
        let first = self.parse_expr(Ghost((fuel - 1) as nat));
        if let AstNode::Error { .. } = first {
            return first;
        }
        if add {
            let second = self.parse_expr(Ghost((fuel - 1) as nat));
            if let AstNode::Error { .. } = second {
                return second;
            }
            let args = vec![first, second];
            let op = String::from_str("+");
            proof {
                lemma_view_prim(op, args);
                assert(exprs_of(args@) =~= seq![first@, second@]);
            }
            AstNode::Prim { op, args }
        } else {
            let args = vec![first];
            let op = String::from_str("-");
            proof {
                lemma_view_prim(op, args);
                assert(exprs_of(args@) =~= seq![first@]);
            }
            AstNode::Prim { op, args }
        }
    }

    /// The expression at the current token.
    fn parse_expr(&mut self, Ghost(fuel): Ghost<nat>) -> (r: AstNode)
        requires
            fuel + old(self)@.current >= old(self)@.tokens.len(),
            old(self)@.current <= old(self)@.tokens.len(),
        ensures
            ({
                let out = parse_expr_spec(old(self)@.tokens, old(self)@.current, fuel);
                &&& r@ == out.node
                &&& final(self)@ == after_parse(old(self)@, out.node, out.next)
                &&& out.next <= old(self)@.tokens.len()
                &&& out.next >= old(self)@.current
                &&& !(out.node is Error) ==> well_formed(out.node) && out.next > old(self)@.current
            }),
        decreases fuel, 4int,
    {
        if self.current >= self.tokens.len() {
            return self.make_error_node("an expression");
        }
        match self.kind(0) {
            TokenType::Lparen => {
                self.next();
                let node = self.parse_expr(Ghost((fuel - 1) as nat));
                if let AstNode::Error { .. } = node {
                    return node;
                }
                if !self.expect(TokenType::Rparen) {
                    return self.make_error_node("')'");
                }
                node
            },
            TokenType::Number => self.parse_number(),
            TokenType::Add | TokenType::Negate => self.parse_operator(Ghost(fuel)),
            TokenType::Identifier => self.parse_identifier(Ghost(fuel)),
            _ => self.make_error_node("an expression"),
        }
    }

    fn parse_program(&mut self) -> (r: Program)
        requires
            old(self)@.current == 0,
        ensures
            r@ == parse_program_spec(old(self)@.tokens),
            final(self)@.tokens == old(self)@.tokens,
            final(self)@.parse_success == (old(self)@.parse_success && !(r@ is Error)),
            final(self)@.errors == (if r@ is Error {
                old(self)@.errors.push(r@)
            } else {
                old(self)@.errors
            }),
            !(r@ is Error) ==> well_formed(r@),
    {
        if !self.expect(TokenType::Lparen) {
            return Program { info: (), exp: self.make_error_node("'('") };
        }
        let node = self.parse_expr(Ghost(self@.tokens.len()));
        if let AstNode::Error { .. } = node {
            return Program { info: (), exp: node };
        }
        if !self.is(TokenType::Rparen) {
            return Program { info: (), exp: self.make_error_node("')'") };
        }
        Program { info: (), exp: node }
    }

    /// The program that the tokens are, or the first error in them. A
    /// program without error is well formed.
    pub fn parse(&mut self) -> (r: Program)
        requires
            old(self)@.current == 0,
        ensures
            r@ == parse_program_spec(old(self)@.tokens),
            final(self)@.tokens == old(self)@.tokens,
            final(self)@.parse_success == (old(self)@.parse_success && !(r@ is Error)),
            final(self)@.errors == (if r@ is Error {
                old(self)@.errors.push(r@)
            } else {
                old(self)@.errors
            }),
            !(r@ is Error) ==> well_formed(r@),
    {
        self.parse_program()
    }
}

/// An expression that was parsed without error is well formed.
pub proof fn lemma_parse_well_formed(ts: Seq<TokenView>, pos: nat, fuel: nat)
    ensures
        !(parse_expr_spec(ts, pos, fuel).node is Error) ==> well_formed(
            parse_expr_spec(ts, pos, fuel).node,
        ),
    decreases fuel, 0int,
{
    lemma_ops_differ();
    let t = token_at(ts, pos);
    if fuel > 0 && pos < ts.len() {
        let less = (fuel - 1) as nat;
        match t.ttype {
            TokenType::Lparen => {
                lemma_parse_well_formed(ts, pos + 1, less);
            },
            TokenType::Add => {
                lemma_parse_well_formed(ts, pos + 1, less);
                let left = parse_expr_spec(ts, pos + 1, less);
                lemma_parse_well_formed(ts, left.next, less);
                let right = parse_expr_spec(ts, left.next, less);
                if !(left.node is Error) && !(right.node is Error) {
                    let args = seq![left.node, right.node];
                    assert forall|i: int| 0 <= i < args.len() implies well_formed(
                        #[trigger] args[i],
                    ) by {}
                }
            },
            TokenType::Negate => {
                lemma_parse_well_formed(ts, pos + 1, less);
                let inner = parse_expr_spec(ts, pos + 1, less);
                if !(inner.node is Error) {
                    let args = seq![inner.node];
                    assert forall|i: int| 0 <= i < args.len() implies well_formed(
                        #[trigger] args[i],
                    ) by {}
                }
            },
            TokenType::Identifier => {
                reveal_strlit("read");
                reveal_strlit("let");
                if t.lexeme == "let"@ && t.lexeme != "read"@ {
                    lemma_bindings_well_formed(ts, pos + 2, less);
                    let bound = parse_bindings_spec(ts, pos + 2, less);
                    lemma_parse_well_formed(ts, bound.next + 1, less);
                }
            },
            _ => {},
        }
    }
}

/// Bindings that were parsed without error hold well-formed expressions.
pub proof fn lemma_bindings_well_formed(ts: Seq<TokenView>, pos: nat, fuel: nat)
    ensures
        parse_bindings_spec(ts, pos, fuel).failure is None ==> forall|i: int|
            0 <= i < parse_bindings_spec(ts, pos, fuel).bindings.len() ==> well_formed(
                (#[trigger] parse_bindings_spec(ts, pos, fuel).bindings[i]).1,
            ),
        parse_bindings_spec(ts, pos, fuel).failure matches Some(error) ==> error is Error,
    decreases fuel, 1int,
{
    if token_at(ts, pos).ttype == TokenType::Lbracket && token_at(ts, pos + 1).ttype
        == TokenType::Identifier && fuel > 0 {
        let less = (fuel - 1) as nat;
        lemma_parse_well_formed(ts, pos + 2, less);
        let value = parse_expr_spec(ts, pos + 2, less);
        if !(value.node is Error) && token_at(ts, value.next).ttype == TokenType::Rbracket {
            if token_at(ts, value.next + 1).ttype == TokenType::Lbracket {
                lemma_bindings_well_formed(ts, value.next + 1, less);
                let rest = parse_bindings_spec(ts, value.next + 1, less);
                let all = parse_bindings_spec(ts, pos, fuel).bindings;
                if rest.failure is None {
                    assert forall|i: int| 0 <= i < all.len() implies well_formed(
                        (#[trigger] all[i]).1,
                    ) by {
                        if i > 0 {
                            assert(all[i] == rest.bindings[i - 1]);
                        }
                    }
                }
            }
        }
    }
}

/// A program that was parsed without error is well formed.
pub proof fn lemma_program_well_formed(ts: Seq<TokenView>)
    ensures
        !(parse_program_spec(ts) is Error) ==> well_formed(parse_program_spec(ts)),
{
    lemma_parse_well_formed(ts, 1, ts.len());
}

} // verus!
