//! A recursive-descent parser, one function per grammar rule:
//!
//! ```text
//!   program              -> statement*
//!   statement            -> let_statement | assignment | expression_statement
//!   let_statement        -> "let" IDENTIFIER "=" expression
//!   assignment           -> IDENTIFIER "=" expression
//!   expression_statement -> expression
//!
//!   expression -> term (("+" | "-") term)*
//!   term       -> unary (("*" | "/") unary)*
//!   unary      -> "-" unary | factor
//!   factor     -> NUMBER | IDENTIFIER | "(" expression ")"
//! ```
//!
//! Precedence comes from the layering: a deeper rule binds tighter. Each
//! loop wraps the tree built so far as the left child, so operators of one
//! level associate to the left.

use vstd::prelude::*;

use super::ast::{program_model, BinaryOp, Expr, Program, SpecExpr, SpecStmt, Stmt, UnaryOp};
use crate::lexer::token::{
    kind_debug, push_kind_debug, push_token_found, token_found_text, tokens_view, SpecToken,
    SpecTokenKind, Token, TokenKind,
};
use crate::text::push_str;

verus! {

// ---------------------------------------------------------------------
// The grammar, over the models of the tokens
// ---------------------------------------------------------------------

/// Why and where parsing stopped: the message, and the index of the token
/// that could not be parsed, where the parser's cursor stands afterwards.
pub struct ParseFailure {
    pub message: Seq<char>,
    pub at: int,
}

/// A parsed value and the index of the first token after it, or a failure.
pub type Parsed<T> = Result<(T, int), ParseFailure>;

/// The token at index `p`; past either end, an `Eof` token.
pub open spec fn tok(ts: Seq<SpecToken>, p: int) -> SpecToken {
    if 0 <= p < ts.len() {
        ts[p]
    } else {
        SpecToken { kind: SpecTokenKind::Eof, line: 0, column: 0 }
    }
}

pub open spec fn kind_at(ts: Seq<SpecToken>, p: int) -> SpecTokenKind {
    tok(ts, p).kind
}

pub open spec fn fail<T>(message: Seq<char>, at: int) -> Parsed<T> {
    Err(ParseFailure { message, at })
}

pub open spec fn factor_message(t: SpecToken) -> Seq<char> {
    "expected a number, name, or '(', found "@ + token_found_text(t)
}

pub open spec fn expected_message(k: SpecTokenKind, t: SpecToken) -> Seq<char> {
    "expected "@ + kind_debug(k) + ", found "@ + token_found_text(t)
}

pub open spec fn let_name_message(t: SpecToken) -> Seq<char> {
    "expected a variable name after 'let', found "@ + token_found_text(t)
}

/// The operator of the `expression` level that a token stands for.
pub open spec fn additive_op(k: SpecTokenKind) -> Option<BinaryOp> {
    match k {
        SpecTokenKind::Plus => Some(BinaryOp::Add),
        SpecTokenKind::Minus => Some(BinaryOp::Subtract),
        _ => None,
    }
}

/// The operator of the `term` level that a token stands for.
pub open spec fn multiplicative_op(k: SpecTokenKind) -> Option<BinaryOp> {
    match k {
        SpecTokenKind::Star => Some(BinaryOp::Multiply),
        SpecTokenKind::Slash => Some(BinaryOp::Divide),
        _ => None,
    }
}

pub open spec fn binary(left: SpecExpr, op: BinaryOp, right: SpecExpr) -> SpecExpr {
    SpecExpr::Binary { left: Box::new(left), op, right: Box::new(right) }
}

/// expression -> term (("+" | "-") term)*, from token `p`.
pub open spec fn expression_of(ts: Seq<SpecToken>, p: int) -> Parsed<SpecExpr>
    decreases ts.len() - p, 5nat,
{
    match term_of(ts, p) {
        Ok((left, q)) => if p < q <= ts.len() {
            expression_rest(ts, q, left)
        } else {
            Ok((left, q))
        },
        Err(f) => Err(f),
    }
}

/// The `(("+" | "-") term)*` loop, with `left` the tree built so far.
pub open spec fn expression_rest(ts: Seq<SpecToken>, p: int, left: SpecExpr) -> Parsed<SpecExpr>
    decreases ts.len() - p, 4nat,
{
    match additive_op(kind_at(ts, p)) {
        Some(op) => match term_of(ts, p + 1) {
            Ok((right, q)) => if p < q <= ts.len() {
                expression_rest(ts, q, binary(left, op, right))
            } else {
                Ok((binary(left, op, right), q))
            },
            Err(f) => Err(f),
        },
        None => Ok((left, p)),
    }
}

/// term -> unary (("*" | "/") unary)*, from token `p`.
pub open spec fn term_of(ts: Seq<SpecToken>, p: int) -> Parsed<SpecExpr>
    decreases ts.len() - p, 3nat,
{
    match unary_of(ts, p) {
        Ok((left, q)) => if p < q <= ts.len() {
            term_rest(ts, q, left)
        } else {
            Ok((left, q))
        },
        Err(f) => Err(f),
    }
}

/// The `(("*" | "/") unary)*` loop, with `left` the tree built so far.
pub open spec fn term_rest(ts: Seq<SpecToken>, p: int, left: SpecExpr) -> Parsed<SpecExpr>
    decreases ts.len() - p, 3nat,
{
    match multiplicative_op(kind_at(ts, p)) {
        Some(op) => match unary_of(ts, p + 1) {
            Ok((right, q)) => if p < q <= ts.len() {
                term_rest(ts, q, binary(left, op, right))
            } else {
                Ok((binary(left, op, right), q))
            },
            Err(f) => Err(f),
        },
        None => Ok((left, p)),
    }
}

/// unary -> "-" unary | factor, from token `p`.
pub open spec fn unary_of(ts: Seq<SpecToken>, p: int) -> Parsed<SpecExpr>
    decreases ts.len() - p, 2nat,
{
    if kind_at(ts, p) is Minus {
        match unary_of(ts, p + 1) {
            Ok((operand, q)) => Ok(
                (SpecExpr::Unary { op: UnaryOp::Negate, operand: Box::new(operand) }, q),
            ),
            Err(f) => Err(f),
        }
    } else {
        factor_of(ts, p)
    }
}

/// factor -> NUMBER | IDENTIFIER | "(" expression ")", from token `p`.
pub open spec fn factor_of(ts: Seq<SpecToken>, p: int) -> Parsed<SpecExpr>
    decreases ts.len() - p, 1nat,
{
    match kind_at(ts, p) {
        SpecTokenKind::Integer(text) => Ok((SpecExpr::Number(text), p + 1)),
        SpecTokenKind::Identifier(name) => Ok((SpecExpr::Identifier(name), p + 1)),
        SpecTokenKind::LeftParen => match expression_of(ts, p + 1) {
            Ok((e, q)) => if kind_at(ts, q) is RightParen {
                Ok((e, q + 1))
            } else {
                fail(expected_message(SpecTokenKind::RightParen, tok(ts, q)), q)
            },
            Err(f) => Err(f),
        },
        _ => fail(factor_message(tok(ts, p)), p),
    }
}

/// let_statement -> "let" IDENTIFIER "=" expression, with the `let` at `p`.
pub open spec fn let_statement_of(ts: Seq<SpecToken>, p: int) -> Parsed<SpecStmt>
    decreases ts.len() - p, 7nat,
{
    match kind_at(ts, p + 1) {
        SpecTokenKind::Identifier(name) => if kind_at(ts, p + 2) is Equals {
            match expression_of(ts, p + 3) {
                Ok((value, q)) => Ok((SpecStmt::Let { name, value }, q)),
                Err(f) => Err(f),
            }
        } else {
            fail(expected_message(SpecTokenKind::Equals, tok(ts, p + 2)), p + 2)
        },
        _ => fail(let_name_message(tok(ts, p + 1)), p + 1),
    }
}

/// assignment -> IDENTIFIER "=" expression, with the name at `p`.
pub open spec fn assignment_of(ts: Seq<SpecToken>, name: Seq<char>, p: int) -> Parsed<SpecStmt>
    decreases ts.len() - p, 7nat,
{
    if kind_at(ts, p + 1) is Equals {
        match expression_of(ts, p + 2) {
            Ok((value, q)) => Ok((SpecStmt::Assign { name, value }, q)),
            Err(f) => Err(f),
        }
    } else {
        fail(expected_message(SpecTokenKind::Equals, tok(ts, p + 1)), p + 1)
    }
}

/// Whether the statement at `p` is an assignment: a name followed by `=`.
pub open spec fn starts_assignment(ts: Seq<SpecToken>, p: int) -> bool {
    kind_at(ts, p) is Identifier && kind_at(ts, p + 1) is Equals
}

/// statement -> let_statement | assignment | expression_statement.
pub open spec fn statement_of(ts: Seq<SpecToken>, p: int) -> Parsed<SpecStmt>
    decreases ts.len() - p, 8nat,
{
    if kind_at(ts, p) is Let {
        let_statement_of(ts, p)
    } else if starts_assignment(ts, p) {
        assignment_of(ts, kind_at(ts, p)->Identifier_0, p)
    } else {
        match expression_of(ts, p) {
            Ok((e, q)) => Ok((SpecStmt::Expression(e), q)),
            Err(f) => Err(f),
        }
    }
}

/// program -> statement*, until the `Eof` token; on success the index is
/// that of the `Eof` token.
pub open spec fn program_of(ts: Seq<SpecToken>, p: int) -> Parsed<Seq<SpecStmt>>
    decreases ts.len() - p, 9nat,
{
    if kind_at(ts, p) is Eof {
        Ok((Seq::empty(), p))
    } else {
        match statement_of(ts, p) {
            Ok((s, q)) => if p < q <= ts.len() {
                match program_of(ts, q) {
                    Ok((rest, e)) => Ok((seq![s] + rest, e)),
                    Err(f) => Err(f),
                }
            } else {
                Ok((seq![s], q))
            },
            Err(f) => Err(f),
        }
    }
}

/// The program that a whole token list parses to.
pub open spec fn parse_tokens(ts: Seq<SpecToken>) -> Parsed<Seq<SpecStmt>> {
    program_of(ts, 0)
}

/// A token list that the parser can work through: it is not empty and its
/// last token is `Eof`, as the lexer's lists are.
pub open spec fn well_terminated(ts: Seq<SpecToken>) -> bool {
    ts.len() > 0 && ts.last().kind is Eof
}

/// Whether an executable result agrees with a parse of the models, and
/// `end` is where the parse leaves the cursor.
pub open spec fn agrees<T: View>(r: Result<T, String>, expected: Parsed<T::V>, end: int) -> bool {
    match expected {
        Ok((v, q)) => r is Ok && r->Ok_0@ == v && end == q,
        Err(f) => r is Err && r->Err_0@ == f.message && end == f.at,
    }
}

// ---------------------------------------------------------------------
// The parser
// ---------------------------------------------------------------------

pub struct Parser {
    tokens: Vec<Token>,
    pos: usize,
}

impl Parser {
    /// The models of the tokens.
    pub closed spec fn tokens_model(&self) -> Seq<SpecToken> {
        tokens_view(self.tokens@)
    }

    /// The index of the next token to parse.
    pub closed spec fn cursor(&self) -> int {
        self.pos as int
    }

    /// The cursor is on a token of a non-empty list.
    pub closed spec fn wf(&self) -> bool {
        self.pos < self.tokens@.len()
    }

    /// Ready to parse: besides `wf`, the token list ends with `Eof`, which
    /// is what stops every rule of the grammar.
    pub closed spec fn ready(&self) -> bool {
        &&& self.wf()
        &&& well_terminated(tokens_view(self.tokens@))
    }

    pub fn new(tokens: Vec<Token>) -> (parser: Parser)
        requires
            tokens@.len() > 0,
        ensures
            parser.wf(),
            parser.tokens_model() == tokens_view(tokens@),
            parser.cursor() == 0,
    {
        Parser { tokens, pos: 0 }
    }

    /// The current token.
    fn peek(&self) -> (token: &Token)
        requires
            self.wf(),
        ensures
            token@ == tok(tokens_view(self.tokens@), self.pos as int),
    {
        &self.tokens[self.pos]
    }

    /// The token after the current one, if there is one.
    fn peek_next(&self) -> (token: Option<&Token>)
        requires
            self.wf(),
        ensures
            self.pos + 1 < self.tokens@.len() ==> token is Some && token->Some_0@ == tok(
                tokens_view(self.tokens@),
                self.pos + 1,
            ),
            self.pos + 1 >= self.tokens@.len() ==> token is None,
    {
        if self.pos < self.tokens.len() - 1 {
            Some(&self.tokens[self.pos + 1])
        } else {
            None
        }
    }

    /// Consume the current token; the cursor never moves past the last one.
    fn advance(&mut self) -> (token: Token)
        requires
            old(self).wf(),
        ensures
            final(self).wf(),
            final(self).tokens@ == old(self).tokens@,
            token@ == tok(tokens_view(old(self).tokens@), old(self).pos as int),
            final(self).pos == (if old(self).pos + 1 < old(self).tokens@.len() {
                old(self).pos + 1
            } else {
                old(self).pos as int
            }),
    {
        let token = self.tokens[self.pos].clone();
        if self.pos < self.tokens.len() - 1 {
            self.pos = self.pos + 1;
        }
        token
    }

    /// Consume a token of the given kind, or report what stands there
    /// instead.
    fn expect(&mut self, kind: TokenKind) -> (result: Result<(), String>)
        requires
            old(self).wf(),
        ensures
            final(self).wf(),
            final(self).tokens@ == old(self).tokens@,
            ({
                let ts = tokens_view(old(self).tokens@);
                let p = old(self).pos as int;
                if kind_at(ts, p) == kind@ {
                    &&& result is Ok
                    &&& final(self).pos == (if p + 1 < ts.len() {
                        p + 1
                    } else {
                        p
                    })
                } else {
                    &&& result is Err
                    &&& result->Err_0@ == expected_message(kind@, tok(ts, p))
                    &&& final(self).pos == p
                }
            }),
    {
        if self.peek().kind == kind {
            self.advance();
            Ok(())
        } else {
            let mut message = String::new();
            push_str(&mut message, "expected ");
            push_kind_debug(&mut message, &kind);
            push_str(&mut message, ", found ");
            push_token_found(&mut message, self.peek());
            assert(message@ =~= expected_message(kind@, tok(tokens_view(self.tokens@), self.pos as int)));
            Err(message)
        }
    }

    /// A token other than `Eof` is not the last one, so consuming it moves
    /// the cursor one place on.
    proof fn lemma_not_eof_not_last(&self)
        requires
            self.ready(),
        ensures
            !(kind_at(tokens_view(self.tokens@), self.pos as int) is Eof) ==> self.pos + 1
                < self.tokens@.len(),
    {
    }

    /// program -> statement*: parse statements until `Eof`.
    pub fn parse(&mut self) -> (result: Result<Program, String>)
        requires
            old(self).wf(),
            well_terminated(old(self).tokens_model()),
        ensures
            final(self).wf(),
            final(self).tokens_model() == old(self).tokens_model(),
            match program_of(old(self).tokens_model(), old(self).cursor()) {
                Ok((prog, q)) => result is Ok && program_model(result->Ok_0@) == prog
                    && final(self).cursor() == q,
                Err(f) => result is Err && result->Err_0@ == f.message && final(self).cursor()
                    == f.at,
            },
    {
        let ghost ts = tokens_view(self.tokens@);
        let ghost p0 = self.pos as int;
        let mut statements: Vec<Stmt> = Vec::new();
        while !(self.peek().kind == TokenKind::Eof)
            invariant
                self.ready(),
                tokens_view(self.tokens@) == ts,
                self.tokens@ == old(self).tokens@,
                p0 == old(self).pos,
                p0 <= self.pos,
                program_of(ts, p0) == prepend_statements(
                    program_model(statements@),
                    program_of(ts, self.pos as int),
                ),
            decreases ts.len() - self.pos,
        {
            let ghost before = program_model(statements@);
            let ghost p = self.pos as int;
            let stmt = match self.parse_statement() {
                Ok(s) => s,
                Err(message) => {
                    return Err(message);
                },
            };
            statements.push(stmt);
            assert(program_model(statements@) =~= before + seq![stmt@]);
            proof {
                lemma_prepend_statements_push(before, stmt@, program_of(ts, self.pos as int));
            }
        }
        assert(program_model(statements@) + Seq::<SpecStmt>::empty() =~= program_model(statements@));
        Ok(statements)
    }

    /// statement -> let_statement | assignment | expression_statement.
    fn parse_statement(&mut self) -> (result: Result<Stmt, String>)
        requires
            old(self).ready(),
        ensures
            final(self).ready(),
            final(self).tokens@ == old(self).tokens@,
            agrees(
                result,
                statement_of(tokens_view(old(self).tokens@), old(self).pos as int),
                final(self).pos as int,
            ),
            result is Ok ==> old(self).pos < final(self).pos,
        decreases old(self).tokens@.len() - old(self).pos, 8nat,
    {
        if self.peek().kind == TokenKind::Let {
            return self.parse_let_statement();
        }
        let name = match &self.peek().kind {
            TokenKind::Identifier(name) => match self.peek_next() {
                Some(next) => if next.kind == TokenKind::Equals {
                    Some(name.clone())
                } else {
                    None
                },
                None => None,
            },
            _ => None,
        };
        match name {
            Some(name) => self.parse_assignment(name),
            None => {
                let expr = self.parse_expression()?;
                Ok(Stmt::Expression(expr))
            },
        }
    }

    /// let_statement -> "let" IDENTIFIER "=" expression.
    fn parse_let_statement(&mut self) -> (result: Result<Stmt, String>)
        requires
            old(self).ready(),
            kind_at(tokens_view(old(self).tokens@), old(self).pos as int) is Let,
        ensures
            final(self).ready(),
            final(self).tokens@ == old(self).tokens@,
            agrees(
                result,
                let_statement_of(tokens_view(old(self).tokens@), old(self).pos as int),
                final(self).pos as int,
            ),
            result is Ok ==> old(self).pos < final(self).pos,
        decreases old(self).tokens@.len() - old(self).pos, 7nat,
    {
        proof {
            self.lemma_not_eof_not_last();
        }
        self.advance();  // consume "let"
        let name = match &self.peek().kind {
            TokenKind::Identifier(name) => name.clone(),
            _ => {
                let mut message = String::new();
                push_str(&mut message, "expected a variable name after 'let', found ");
                push_token_found(&mut message, self.peek());
                assert(message@ =~= let_name_message(tok(tokens_view(self.tokens@), self.pos as int)));
                return Err(message);
            },
        };
        proof {
            self.lemma_not_eof_not_last();
        }
        self.advance();
        self.expect(TokenKind::Equals)?;
        let value = self.parse_expression()?;
        Ok(Stmt::Let { name, value })
    }

    /// assignment -> IDENTIFIER "=" expression, with the name already read.
    fn parse_assignment(&mut self, name: String) -> (result: Result<Stmt, String>)
        requires
            old(self).ready(),
            kind_at(tokens_view(old(self).tokens@), old(self).pos as int) is Identifier,
        ensures
            final(self).ready(),
            final(self).tokens@ == old(self).tokens@,
            agrees(
                result,
                assignment_of(tokens_view(old(self).tokens@), name@, old(self).pos as int),
                final(self).pos as int,
            ),
            result is Ok ==> old(self).pos < final(self).pos,
        decreases old(self).tokens@.len() - old(self).pos, 7nat,
    {
        proof {
            self.lemma_not_eof_not_last();
        }
        self.advance();
        self.expect(TokenKind::Equals)?;
        let value = self.parse_expression()?;
        Ok(Stmt::Assign { name, value })
    }

    /// expression -> term (("+" | "-") term)*
    fn parse_expression(&mut self) -> (result: Result<Expr, String>)
        requires
            old(self).ready(),
        ensures
            final(self).ready(),
            final(self).tokens@ == old(self).tokens@,
            agrees(
                result,
                expression_of(tokens_view(old(self).tokens@), old(self).pos as int),
                final(self).pos as int,
            ),
            result is Ok ==> old(self).pos < final(self).pos,
        decreases old(self).tokens@.len() - old(self).pos, 5nat,
    {
        let ghost ts = tokens_view(self.tokens@);
        let ghost p0 = self.pos as int;
        let mut left = self.parse_term()?;
        loop
            invariant
                self.ready(),
                self.tokens@ == old(self).tokens@,
                tokens_view(self.tokens@) == ts,
                p0 == old(self).pos,
                p0 < self.pos,
                expression_of(ts, p0) == expression_rest(ts, self.pos as int, left@),
            ensures
                self.ready(),
                self.tokens@ == old(self).tokens@,
                p0 < self.pos,
                expression_of(ts, p0) == Ok::<(SpecExpr, int), ParseFailure>((left@, self.pos as int)),
            decreases ts.len() - self.pos,
        {
            let op = match self.peek().kind {
                TokenKind::Plus => BinaryOp::Add,
                TokenKind::Minus => BinaryOp::Subtract,
                _ => break,
            };
            proof {
                self.lemma_not_eof_not_last();
            }
            self.advance();
            let right = self.parse_term()?;
            left = Expr::Binary { left: Box::new(left), op, right: Box::new(right) };
        }
        Ok(left)
    }

    /// term -> unary (("*" | "/") unary)*
    fn parse_term(&mut self) -> (result: Result<Expr, String>)
        requires
            old(self).ready(),
        ensures
            final(self).ready(),
            final(self).tokens@ == old(self).tokens@,
            agrees(
                result,
                term_of(tokens_view(old(self).tokens@), old(self).pos as int),
                final(self).pos as int,
            ),
            result is Ok ==> old(self).pos < final(self).pos,
        decreases old(self).tokens@.len() - old(self).pos, 3nat,
    {
        let ghost ts = tokens_view(self.tokens@);
        let ghost p0 = self.pos as int;
        let mut left = self.parse_unary()?;
        loop
            invariant
                self.ready(),
                self.tokens@ == old(self).tokens@,
                tokens_view(self.tokens@) == ts,
                p0 == old(self).pos,
                p0 < self.pos,
                term_of(ts, p0) == term_rest(ts, self.pos as int, left@),
            ensures
                self.ready(),
                self.tokens@ == old(self).tokens@,
                p0 < self.pos,
                term_of(ts, p0) == Ok::<(SpecExpr, int), ParseFailure>((left@, self.pos as int)),
            decreases ts.len() - self.pos,
        {
            let op = match self.peek().kind {
                TokenKind::Star => BinaryOp::Multiply,
                TokenKind::Slash => BinaryOp::Divide,
                _ => break,
            };
            proof {
                self.lemma_not_eof_not_last();
            }
            self.advance();
            let right = self.parse_unary()?;
            left = Expr::Binary { left: Box::new(left), op, right: Box::new(right) };
        }
        Ok(left)
    }

    /// unary -> "-" unary | factor
    fn parse_unary(&mut self) -> (result: Result<Expr, String>)
        requires
            old(self).ready(),
        ensures
            final(self).ready(),
            final(self).tokens@ == old(self).tokens@,
            agrees(
                result,
                unary_of(tokens_view(old(self).tokens@), old(self).pos as int),
                final(self).pos as int,
            ),
            result is Ok ==> old(self).pos < final(self).pos,
        decreases old(self).tokens@.len() - old(self).pos, 2nat,
    {
        if self.peek().kind == TokenKind::Minus {
            proof {
                self.lemma_not_eof_not_last();
            }
            self.advance();
            let operand = self.parse_unary()?;
            Ok(Expr::Unary { op: UnaryOp::Negate, operand: Box::new(operand) })
        } else {
            self.parse_factor()
        }
    }

    /// factor -> NUMBER | IDENTIFIER | "(" expression ")"
    fn parse_factor(&mut self) -> (result: Result<Expr, String>)
        requires
            old(self).ready(),
        ensures
            final(self).ready(),
            final(self).tokens@ == old(self).tokens@,
            agrees(
                result,
                factor_of(tokens_view(old(self).tokens@), old(self).pos as int),
                final(self).pos as int,
            ),
            result is Ok ==> old(self).pos < final(self).pos,
        decreases old(self).tokens@.len() - old(self).pos, 1nat,
    {
        proof {
            self.lemma_not_eof_not_last();
        }
        let token = self.peek().clone();
        match token.kind {
            TokenKind::Integer(text) => {
                self.advance();
                Ok(Expr::Number(text))
            },
            TokenKind::Identifier(name) => {
                self.advance();
                Ok(Expr::Identifier(name))
            },
            TokenKind::LeftParen => {
                self.advance();
                let expr = self.parse_expression()?;
                self.expect(TokenKind::RightParen)?;
                Ok(expr)
            },
            _ => {
                let mut message = String::new();
                push_str(&mut message, "expected a number, name, or '(', found ");
                push_token_found(&mut message, &token);
                assert(message@ =~= factor_message(tok(tokens_view(self.tokens@), self.pos as int)));
                Err(message)
            },
        }
    }
}

pub open spec fn prepend_statements(
    pre: Seq<SpecStmt>,
    rest: Parsed<Seq<SpecStmt>>,
) -> Parsed<Seq<SpecStmt>> {
    match rest {
        Ok((ss, e)) => Ok((pre + ss, e)),
        Err(f) => Err(f),
    }
}

proof fn lemma_prepend_statements_push(
    pre: Seq<SpecStmt>,
    s: SpecStmt,
    rest: Parsed<Seq<SpecStmt>>,
)
    ensures
        prepend_statements(
            pre,
            match rest {
                Ok((ss, e)) => Ok((seq![s] + ss, e)),
                Err(f) => Err(f),
            },
        ) == prepend_statements(pre + seq![s], rest),
{
    match rest {
        Ok((ss, e)) => {
            assert(pre + (seq![s] + ss) =~= (pre + seq![s]) + ss);
        },
        Err(f) => {},
    }
}

} // verus!
