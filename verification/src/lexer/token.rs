//! Tokens: the labelled chunks of source text that the lexer produces and
//! the parser consumes.

use vstd::prelude::*;

use crate::text::{decimal, push_decimal, push_str};

verus! {

/// The kinds of tokens the lexer can produce.
///
/// Integer literals keep the digits exactly as written: turning them into a
/// number is the evaluator's decision, not the lexer's.
#[derive(Debug)]
pub enum TokenKind {
    Integer(String),
    Identifier(String),
    // Keywords.
    Let,
    Const,
    If,
    Else,
    While,
    For,
    Fn,
    Return,
    True,
    False,
    // Operators.
    Plus,
    Minus,
    Star,
    Slash,
    Equals,
    // Grouping.
    LeftParen,
    RightParen,
    /// Marks the end of input.
    Eof,
}

/// The mathematical model of a token kind: literal and name text as
/// sequences of characters.
pub enum SpecTokenKind {
    Integer(Seq<char>),
    Identifier(Seq<char>),
    Let,
    Const,
    If,
    Else,
    While,
    For,
    Fn,
    Return,
    True,
    False,
    Plus,
    Minus,
    Star,
    Slash,
    Equals,
    LeftParen,
    RightParen,
    Eof,
}

impl View for TokenKind {
    type V = SpecTokenKind;

    open spec fn view(&self) -> SpecTokenKind {
        match self {
            TokenKind::Integer(t) => SpecTokenKind::Integer(t@),
            TokenKind::Identifier(t) => SpecTokenKind::Identifier(t@),
            TokenKind::Let => SpecTokenKind::Let,
            TokenKind::Const => SpecTokenKind::Const,
            TokenKind::If => SpecTokenKind::If,
            TokenKind::Else => SpecTokenKind::Else,
            TokenKind::While => SpecTokenKind::While,
            TokenKind::For => SpecTokenKind::For,
            TokenKind::Fn => SpecTokenKind::Fn,
            TokenKind::Return => SpecTokenKind::Return,
            TokenKind::True => SpecTokenKind::True,
            TokenKind::False => SpecTokenKind::False,
            TokenKind::Plus => SpecTokenKind::Plus,
            TokenKind::Minus => SpecTokenKind::Minus,
            TokenKind::Star => SpecTokenKind::Star,
            TokenKind::Slash => SpecTokenKind::Slash,
            TokenKind::Equals => SpecTokenKind::Equals,
            TokenKind::LeftParen => SpecTokenKind::LeftParen,
            TokenKind::RightParen => SpecTokenKind::RightParen,
            TokenKind::Eof => SpecTokenKind::Eof,
        }
    }
}

impl PartialEq for TokenKind {
    fn eq(&self, other: &TokenKind) -> (same: bool) {
        match (self, other) {
            (TokenKind::Integer(a), TokenKind::Integer(b)) => *a == *b,
            (TokenKind::Identifier(a), TokenKind::Identifier(b)) => *a == *b,
            (TokenKind::Let, TokenKind::Let) => true,
            (TokenKind::Const, TokenKind::Const) => true,
            (TokenKind::If, TokenKind::If) => true,
            (TokenKind::Else, TokenKind::Else) => true,
            (TokenKind::While, TokenKind::While) => true,
            (TokenKind::For, TokenKind::For) => true,
            (TokenKind::Fn, TokenKind::Fn) => true,
            (TokenKind::Return, TokenKind::Return) => true,
            (TokenKind::True, TokenKind::True) => true,
            (TokenKind::False, TokenKind::False) => true,
            (TokenKind::Plus, TokenKind::Plus) => true,
            (TokenKind::Minus, TokenKind::Minus) => true,
            (TokenKind::Star, TokenKind::Star) => true,
            (TokenKind::Slash, TokenKind::Slash) => true,
            (TokenKind::Equals, TokenKind::Equals) => true,
            (TokenKind::LeftParen, TokenKind::LeftParen) => true,
            (TokenKind::RightParen, TokenKind::RightParen) => true,
            (TokenKind::Eof, TokenKind::Eof) => true,
            _ => false,
        }
    }
}

impl vstd::std_specs::cmp::PartialEqSpecImpl for TokenKind {
    open spec fn obeys_eq_spec() -> bool {
        true
    }

    open spec fn eq_spec(&self, other: &TokenKind) -> bool {
        self@ == other@
    }
}

impl Clone for TokenKind {
    fn clone(&self) -> (copy: TokenKind)
        ensures
            copy@ == self@,
    {
        match self {
            TokenKind::Integer(t) => TokenKind::Integer(t.clone()),
            TokenKind::Identifier(t) => TokenKind::Identifier(t.clone()),
            TokenKind::Let => TokenKind::Let,
            TokenKind::Const => TokenKind::Const,
            TokenKind::If => TokenKind::If,
            TokenKind::Else => TokenKind::Else,
            TokenKind::While => TokenKind::While,
            TokenKind::For => TokenKind::For,
            TokenKind::Fn => TokenKind::Fn,
            TokenKind::Return => TokenKind::Return,
            TokenKind::True => TokenKind::True,
            TokenKind::False => TokenKind::False,
            TokenKind::Plus => TokenKind::Plus,
            TokenKind::Minus => TokenKind::Minus,
            TokenKind::Star => TokenKind::Star,
            TokenKind::Slash => TokenKind::Slash,
            TokenKind::Equals => TokenKind::Equals,
            TokenKind::LeftParen => TokenKind::LeftParen,
            TokenKind::RightParen => TokenKind::RightParen,
            TokenKind::Eof => TokenKind::Eof,
        }
    }
}

/// A token: its kind plus the line and column (both counted from 1) of its
/// first character in the source.
#[derive(Debug, PartialEq)]
pub struct Token {
    pub kind: TokenKind,
    pub line: usize,
    pub column: usize,
}

/// The mathematical model of a token.
pub struct SpecToken {
    pub kind: SpecTokenKind,
    pub line: nat,
    pub column: nat,
}

impl View for Token {
    type V = SpecToken;

    open spec fn view(&self) -> SpecToken {
        SpecToken { kind: self.kind@, line: self.line as nat, column: self.column as nat }
    }
}

impl Clone for Token {
    fn clone(&self) -> (copy: Token)
        ensures
            copy@ == self@,
    {
        Token { kind: self.kind.clone(), line: self.line, column: self.column }
    }
}

impl Token {
    pub fn new(kind: TokenKind, line: usize, column: usize) -> (token: Token)
        ensures
            token.kind == kind,
            token.line == line,
            token.column == column,
    {
        Token { kind, line, column }
    }
}

/// The models of a list of tokens.
pub open spec fn tokens_view(tokens: Seq<Token>) -> Seq<SpecToken> {
    tokens.map_values(|t: Token| t@)
}

/// The text that `{:?}` gives for a string: the string in double quotes,
/// with the characters Rust escapes in string literals escaped.
pub uninterp spec fn str_debug(s: Seq<char>) -> Seq<char>;

/// The text that `{:?}` gives for a token kind, as diagnostics show it.
pub open spec fn kind_debug(k: SpecTokenKind) -> Seq<char> {
    match k {
        SpecTokenKind::Integer(t) => "Integer("@ + str_debug(t) + ")"@,
        SpecTokenKind::Identifier(t) => "Identifier("@ + str_debug(t) + ")"@,
        SpecTokenKind::Let => "Let"@,
        SpecTokenKind::Const => "Const"@,
        SpecTokenKind::If => "If"@,
        SpecTokenKind::Else => "Else"@,
        SpecTokenKind::While => "While"@,
        SpecTokenKind::For => "For"@,
        SpecTokenKind::Fn => "Fn"@,
        SpecTokenKind::Return => "Return"@,
        SpecTokenKind::True => "True"@,
        SpecTokenKind::False => "False"@,
        SpecTokenKind::Plus => "Plus"@,
        SpecTokenKind::Minus => "Minus"@,
        SpecTokenKind::Star => "Star"@,
        SpecTokenKind::Slash => "Slash"@,
        SpecTokenKind::Equals => "Equals"@,
        SpecTokenKind::LeftParen => "LeftParen"@,
        SpecTokenKind::RightParen => "RightParen"@,
        SpecTokenKind::Eof => "Eof"@,
    }
}

/// "KIND at line L, column C": how diagnostics name a token and its place.
pub open spec fn token_found_text(t: SpecToken) -> Seq<char> {
    kind_debug(t.kind) + " at line "@ + decimal(t.line) + ", column "@ + decimal(t.column)
}

/// `format!("{:?}", s)` for a `String`, which `<str as Debug>::fmt`
/// writes. The contract names the text and claims nothing more of it.
#[verifier::external_body]
fn debug_text(s: &String) -> (text: String)
    ensures
        text@ == str_debug(s@),
{
    format!("{:?}", s)
}

/// Appends the `{:?}` text of a token kind.
pub fn push_kind_debug(out: &mut String, kind: &TokenKind)
    ensures
        final(out)@ == old(out)@ + kind_debug(kind@),
{
    match kind {
        TokenKind::Integer(t) => {
            push_str(out, "Integer(");
            let quoted = debug_text(t);
            push_str(out, quoted.as_str());
            push_str(out, ")");
        },
        TokenKind::Identifier(t) => {
            push_str(out, "Identifier(");
            let quoted = debug_text(t);
            push_str(out, quoted.as_str());
            push_str(out, ")");
        },
        TokenKind::Let => push_str(out, "Let"),
        TokenKind::Const => push_str(out, "Const"),
        TokenKind::If => push_str(out, "If"),
        TokenKind::Else => push_str(out, "Else"),
        TokenKind::While => push_str(out, "While"),
        TokenKind::For => push_str(out, "For"),
        TokenKind::Fn => push_str(out, "Fn"),
        TokenKind::Return => push_str(out, "Return"),
        TokenKind::True => push_str(out, "True"),
        TokenKind::False => push_str(out, "False"),
        TokenKind::Plus => push_str(out, "Plus"),
        TokenKind::Minus => push_str(out, "Minus"),
        TokenKind::Star => push_str(out, "Star"),
        TokenKind::Slash => push_str(out, "Slash"),
        TokenKind::Equals => push_str(out, "Equals"),
        TokenKind::LeftParen => push_str(out, "LeftParen"),
        TokenKind::RightParen => push_str(out, "RightParen"),
        TokenKind::Eof => push_str(out, "Eof"),
    }
    assert(final(out)@ =~= old(out)@ + kind_debug(kind@));
}

/// Appends "KIND at line L, column C" for a token.
pub fn push_token_found(out: &mut String, token: &Token)
    ensures
        final(out)@ == old(out)@ + token_found_text(token@),
{
    push_kind_debug(out, &token.kind);
    push_str(out, " at line ");
    push_decimal(out, token.line);
    push_str(out, ", column ");
    push_decimal(out, token.column);
    assert(final(out)@ =~= old(out)@ + token_found_text(token@));
}

} // verus!
