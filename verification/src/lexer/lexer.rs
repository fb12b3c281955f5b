//! The lexer: turns source text into tokens, each carrying the line and
//! column where it starts.
//!
//! Whitespace and `~ ... ~` comments are skipped. A run of ASCII digits is
//! one integer token; a letter or underscore followed by letters, digits or
//! underscores is one word, which is a keyword when it spells one and an
//! identifier otherwise. `+ - * / = ( )` are tokens of one character. The
//! list always ends with an `Eof` token.

use vstd::prelude::*;

use super::token::{tokens_view, SpecToken, SpecTokenKind, Token, TokenKind};
use crate::text::{decimal, push_char, push_decimal, push_str};

verus! {

// ---------------------------------------------------------------------
// Character classes
// ---------------------------------------------------------------------

/// The characters with the Unicode `White_Space` property, which is what
/// `char::is_whitespace` tests.
pub open spec fn is_white_space(c: char) -> bool {
    ||| ('\u{9}' <= c && c <= '\u{d}')
    ||| c == ' '
    ||| c == '\u{85}'
    ||| c == '\u{a0}'
    ||| c == '\u{1680}'
    ||| ('\u{2000}' <= c && c <= '\u{200a}')
    ||| c == '\u{2028}'
    ||| c == '\u{2029}'
    ||| c == '\u{202f}'
    ||| c == '\u{205f}'
    ||| c == '\u{3000}'
}

pub open spec fn is_digit(c: char) -> bool {
    '0' <= c && c <= '9'
}

/// Whether `char::is_alphabetic` holds of `c` (the Unicode `Alphabetic`
/// property).
pub uninterp spec fn alphabetic(c: char) -> bool;

/// Whether `char::is_alphanumeric` holds of `c` (alphabetic or numeric).
pub uninterp spec fn alphanumeric(c: char) -> bool;

pub open spec fn is_ascii_letter(c: char) -> bool {
    ('a' <= c && c <= 'z') || ('A' <= c && c <= 'Z')
}

/// `char::is_alphabetic`: whether `c` has the Unicode `Alphabetic`
/// property. Its source answers ASCII characters itself: of those, exactly
/// the letters are alphabetic. The contract names the result and states
/// that; of other characters it claims nothing.
#[verifier::external_body]
fn char_is_alphabetic(c: char) -> (b: bool)
    ensures
        b == alphabetic(c),
        c <= '\u{7f}' ==> (b <==> is_ascii_letter(c)),
{
    c.is_alphabetic()
}

/// `char::is_alphanumeric`: whether `c` is alphabetic or numeric. Of the
/// ASCII characters, exactly the letters and digits are. The contract
/// names the result and states that; of other characters it claims
/// nothing.
#[verifier::external_body]
fn char_is_alphanumeric(c: char) -> (b: bool)
    ensures
        b == alphanumeric(c),
        c <= '\u{7f}' ==> (b <==> (is_ascii_letter(c) || is_digit(c))),
{
    c.is_alphanumeric()
}

/// Whether `char::is_alphabetic` holds of `c`: the ASCII letters, and the
/// `Alphabetic` characters beyond ASCII.
pub open spec fn is_letter(c: char) -> bool {
    if c <= '\u{7f}' {
        is_ascii_letter(c)
    } else {
        alphabetic(c)
    }
}

/// Whether `char::is_alphanumeric` holds of `c`: the ASCII letters and
/// digits, and the alphabetic or numeric characters beyond ASCII.
pub open spec fn is_letter_or_digit(c: char) -> bool {
    if c <= '\u{7f}' {
        is_ascii_letter(c) || is_digit(c)
    } else {
        alphanumeric(c)
    }
}

/// A character that can start a name: a letter or an underscore.
pub open spec fn identifier_start(c: char) -> bool {
    is_letter(c) || c == '_'
}

/// A character that can continue a name: a letter, a digit or an underscore.
pub open spec fn identifier_continue(c: char) -> bool {
    is_letter_or_digit(c) || c == '_'
}

/// The token that a single character stands for, if it is one.
pub open spec fn single_char_kind(c: char) -> Option<SpecTokenKind> {
    if c == '+' {
        Some(SpecTokenKind::Plus)
    } else if c == '-' {
        Some(SpecTokenKind::Minus)
    } else if c == '*' {
        Some(SpecTokenKind::Star)
    } else if c == '/' {
        Some(SpecTokenKind::Slash)
    } else if c == '=' {
        Some(SpecTokenKind::Equals)
    } else if c == '(' {
        Some(SpecTokenKind::LeftParen)
    } else if c == ')' {
        Some(SpecTokenKind::RightParen)
    } else {
        None
    }
}

/// The keyword that a whole word spells, if any.
pub open spec fn keyword_kind(w: Seq<char>) -> Option<SpecTokenKind> {
    if w == "let"@ {
        Some(SpecTokenKind::Let)
    } else if w == "const"@ {
        Some(SpecTokenKind::Const)
    } else if w == "if"@ {
        Some(SpecTokenKind::If)
    } else if w == "else"@ {
        Some(SpecTokenKind::Else)
    } else if w == "while"@ {
        Some(SpecTokenKind::While)
    } else if w == "for"@ {
        Some(SpecTokenKind::For)
    } else if w == "fn"@ {
        Some(SpecTokenKind::Fn)
    } else if w == "return"@ {
        Some(SpecTokenKind::Return)
    } else if w == "true"@ {
        Some(SpecTokenKind::True)
    } else if w == "false"@ {
        Some(SpecTokenKind::False)
    } else {
        None
    }
}

/// The token kind of a whole word: its keyword, or else an identifier.
pub open spec fn word_kind(w: Seq<char>) -> SpecTokenKind {
    match keyword_kind(w) {
        Some(k) => k,
        None => SpecTokenKind::Identifier(w),
    }
}

// ---------------------------------------------------------------------
// Positions and scanning
// ---------------------------------------------------------------------

/// The line and column (both from 1) of index `i` of the source: every
/// line feed before `i` starts a new line, and each other character moves
/// one column right.
pub open spec fn position(cs: Seq<char>, i: int) -> (nat, nat)
    decreases i,
{
    if i <= 0 {
        (1, 1)
    } else {
        let (line, column) = position(cs, i - 1);
        if cs[i - 1] == '\n' {
            (line + 1, 1)
        } else {
            (line, column + 1)
        }
    }
}

/// The end of the run of characters satisfying `p` that starts at `i`:
/// the first index at or after `i` whose character fails `p`, or the end.
pub open spec fn run_end(cs: Seq<char>, i: int, p: spec_fn(char) -> bool) -> int
    decreases cs.len() - i,
{
    if 0 <= i < cs.len() && p(cs[i]) {
        run_end(cs, i + 1, p)
    } else {
        i
    }
}

pub proof fn lemma_run_end_bounds(cs: Seq<char>, i: int, p: spec_fn(char) -> bool)
    requires
        0 <= i <= cs.len(),
    ensures
        i <= run_end(cs, i, p) <= cs.len(),
        forall|k: int| i <= k < run_end(cs, i, p) ==> p(#[trigger] cs[k]),
        run_end(cs, i, p) < cs.len() ==> !p(cs[run_end(cs, i, p)]),
    decreases cs.len() - i,
{
    if i < cs.len() && p(cs[i]) {
        lemma_run_end_bounds(cs, i + 1, p);
    }
}

pub proof fn lemma_position_bounds(cs: Seq<char>, i: int)
    requires
        0 <= i,
    ensures
        1 <= position(cs, i).0 <= i + 1,
        1 <= position(cs, i).1 <= i + 1,
    decreases i,
{
    if i > 0 {
        lemma_position_bounds(cs, i - 1);
    }
}

pub open spec fn digits_pred() -> spec_fn(char) -> bool {
    |c: char| is_digit(c)
}

pub open spec fn word_pred() -> spec_fn(char) -> bool {
    |c: char| identifier_continue(c)
}

pub open spec fn comment_pred() -> spec_fn(char) -> bool {
    |c: char| c != '~'
}

// ---------------------------------------------------------------------
// What the lexer produces
// ---------------------------------------------------------------------

/// Why and where lexing stopped: the message, and the index at which the
/// lexer's cursor stands afterwards.
pub struct LexFailure {
    pub message: Seq<char>,
    pub at: int,
}

pub open spec fn token_at(cs: Seq<char>, i: int, kind: SpecTokenKind) -> SpecToken {
    SpecToken { kind, line: position(cs, i).0, column: position(cs, i).1 }
}

pub open spec fn unexpected_char_message(c: char, pos: (nat, nat)) -> Seq<char> {
    "unexpected character '"@ + seq![c] + "' at line "@ + decimal(pos.0) + ", column "@
        + decimal(pos.1)
}

pub open spec fn unterminated_comment_message(pos: (nat, nat)) -> Seq<char> {
    "unterminated comment starting at line "@ + decimal(pos.0) + ", column "@ + decimal(pos.1)
}

pub open spec fn prepend_token(
    t: SpecToken,
    rest: Result<Seq<SpecToken>, LexFailure>,
) -> Result<Seq<SpecToken>, LexFailure> {
    match rest {
        Ok(ts) => Ok(seq![t] + ts),
        Err(f) => Err(f),
    }
}

pub open spec fn prefix_tokens(
    pre: Seq<SpecToken>,
    rest: Result<Seq<SpecToken>, LexFailure>,
) -> Result<Seq<SpecToken>, LexFailure> {
    match rest {
        Ok(ts) => Ok(pre + ts),
        Err(f) => Err(f),
    }
}

/// The tokens of `cs` from index `i` on, or the failure that stops the
/// lexer: what `tokenize` returns when its cursor stands at `i`.
pub open spec fn lex_from(cs: Seq<char>, i: int) -> Result<Seq<SpecToken>, LexFailure>
    decreases cs.len() - i,
{
    if i < 0 || i >= cs.len() {
        Ok(seq![token_at(cs, i, SpecTokenKind::Eof)])
    } else {
        let c = cs[i];
        if is_white_space(c) {
            lex_from(cs, i + 1)
        } else if c == '~' {
            let j = run_end(cs, i + 1, comment_pred());
            proof {
                lemma_run_end_bounds(cs, i + 1, comment_pred());
            }
            if j >= cs.len() {
                Err(LexFailure { message: unterminated_comment_message(position(cs, i)), at: cs.len() as int })
            } else {
                lex_from(cs, j + 1)
            }
        } else if is_digit(c) {
            let j = run_end(cs, i + 1, digits_pred());
            proof {
                lemma_run_end_bounds(cs, i + 1, digits_pred());
            }
            prepend_token(
                token_at(cs, i, SpecTokenKind::Integer(cs.subrange(i, j))),
                lex_from(cs, j),
            )
        } else if identifier_start(c) {
            let j = run_end(cs, i + 1, word_pred());
            proof {
                lemma_run_end_bounds(cs, i + 1, word_pred());
            }
            prepend_token(token_at(cs, i, word_kind(cs.subrange(i, j))), lex_from(cs, j))
        } else if let Some(k) = single_char_kind(c) {
            prepend_token(token_at(cs, i, k), lex_from(cs, i + 1))
        } else {
            Err(LexFailure { message: unexpected_char_message(c, position(cs, i)), at: i })
        }
    }
}

/// The tokens of a whole source text.
pub open spec fn lex(cs: Seq<char>) -> Result<Seq<SpecToken>, LexFailure> {
    lex_from(cs, 0)
}

// ---------------------------------------------------------------------
// The lexer
// ---------------------------------------------------------------------

pub struct Lexer {
    /// The source, as a list of characters so we can index it simply.
    chars: Vec<char>,
    /// How far we've read.
    pos: usize,
    /// Current location in the source, for diagnostics.
    line: usize,
    column: usize,
}

impl Lexer {
    /// The source characters.
    pub closed spec fn source(&self) -> Seq<char> {
        self.chars@
    }

    /// The index of the next character to read.
    pub closed spec fn cursor(&self) -> int {
        self.pos as int
    }

    /// The cursor lies within the source, and the line and column are those
    /// of the cursor; the source is shorter than the largest `usize`, so that
    /// neither count can overflow.
    pub closed spec fn wf(&self) -> bool {
        &&& self.chars@.len() < usize::MAX
        &&& self.pos <= self.chars@.len()
        &&& (self.line as nat, self.column as nat) == position(self.chars@, self.pos as int)
    }

    pub fn new(source: &str) -> (lexer: Lexer)
        requires
            source@.len() < usize::MAX,
        ensures
            lexer.wf(),
            lexer.source() == source@,
            lexer.cursor() == 0,
    {
        let mut chars: Vec<char> = Vec::new();
        for c in it: source.chars()
            invariant
                it.seq() == source@,
                chars@ == it.seq().take(it.index() as int),
        {
            chars.push(c);
        }
        assert(chars@ =~= source@);
        Lexer { chars, pos: 0, line: 1, column: 1 }
    }

    /// Look at the current character without consuming it; `None` at the
    /// end of input.
    fn peek(&self) -> (c: Option<char>)
        requires
            self.wf(),
        ensures
            c == (if self.pos < self.chars@.len() {
                Some(self.chars@[self.pos as int])
            } else {
                None::<char>
            }),
    {
        if self.pos < self.chars.len() {
            Some(self.chars[self.pos])
        } else {
            None
        }
    }

    /// Consume the current character and move the cursor past it, keeping
    /// the line and column up to date.
    fn advance(&mut self) -> (c: Option<char>)
        requires
            old(self).wf(),
        ensures
            final(self).wf(),
            final(self).chars@ == old(self).chars@,
            old(self).pos < old(self).chars@.len() ==> final(self).pos == old(self).pos + 1 && c
                == Some(old(self).chars@[old(self).pos as int]),
            old(self).pos >= old(self).chars@.len() ==> final(self).pos == old(self).pos && c
                is None,
    {
        let c = match self.peek() {
            Some(c) => c,
            None => return None,
        };
        proof {
            lemma_position_bounds(self.chars@, self.pos as int);
        }
        self.pos = self.pos + 1;
        if c == '\n' {
            self.line = self.line + 1;
            self.column = 1;
        } else {
            self.column = self.column + 1;
        }
        Some(c)
    }

    /// Turn the rest of the source into a list of tokens, ending with
    /// `Eof`, or report the first character that cannot start a token, or
    /// an unterminated comment.
    pub fn tokenize(&mut self) -> (result: Result<Vec<Token>, String>)
        requires
            old(self).wf(),
        ensures
            final(self).wf(),
            final(self).source() == old(self).source(),
            match lex_from(old(self).source(), old(self).cursor()) {
                Ok(ts) => result is Ok && tokens_view(result->Ok_0@) == ts && final(self).cursor()
                    == final(self).source().len(),
                Err(f) => result is Err && result->Err_0@ == f.message && final(self).cursor()
                    == f.at,
            },
    {
        let ghost cs = self.chars@;
        let ghost start = self.pos as int;
        let mut tokens: Vec<Token> = Vec::new();
        while self.pos < self.chars.len()
            invariant
                self.wf(),
                self.chars@ == cs,
                0 <= start <= self.pos,
                cs == old(self).chars@,
                start == old(self).pos,
                lex_from(cs, start) == prefix_tokens(tokens_view(tokens@), lex_from(cs, self.pos as int)),
            decreases cs.len() - self.pos,
        {
            let c = self.chars[self.pos];
            let ghost i = self.pos as int;
            if is_whitespace(c) {
                self.advance();
            } else if c == '~' {
                match self.skip_comment() {
                    Ok(()) => {},
                    Err(message) => {
                        return Err(message);
                    },
                }
            } else if is_ascii_digit(c) {
                let t = self.read_number();
                let ghost pre = tokens_view(tokens@);
                tokens.push(t);
                assert(tokens_view(tokens@) =~= pre + seq![t@]);
                proof {
                    lemma_prefix_assoc(pre, t@, lex_from(cs, self.pos as int));
                }
            } else if is_identifier_start(c) {
                let t = self.read_identifier_or_keyword();
                let ghost pre = tokens_view(tokens@);
                tokens.push(t);
                assert(tokens_view(tokens@) =~= pre + seq![t@]);
                proof {
                    lemma_prefix_assoc(pre, t@, lex_from(cs, self.pos as int));
                }
            } else if let Some(kind) = single_char_token(c) {
                let line = self.line;
                let column = self.column;
                self.advance();
                let t = Token::new(kind, line, column);
                let ghost pre = tokens_view(tokens@);
                tokens.push(t);
                assert(tokens_view(tokens@) =~= pre + seq![t@]);
                proof {
                    lemma_prefix_assoc(pre, t@, lex_from(cs, self.pos as int));
                }
            } else {
                let mut message = String::new();
                push_str(&mut message, "unexpected character '");
                push_char(&mut message, c);
                push_str(&mut message, "' at line ");
                push_decimal(&mut message, self.line);
                push_str(&mut message, ", column ");
                push_decimal(&mut message, self.column);
                assert(message@ =~= unexpected_char_message(c, position(cs, i)));
                return Err(message);
            }
        }
        let eof = Token::new(TokenKind::Eof, self.line, self.column);
        let ghost pre = tokens_view(tokens@);
        tokens.push(eof);
        assert(tokens_view(tokens@) =~= pre + seq![eof@]);
        Ok(tokens)
    }

    /// Read a run of digits into one `Integer` token, located at its first
    /// digit.
    fn read_number(&mut self) -> (token: Token)
        requires
            old(self).wf(),
            old(self).pos < old(self).chars@.len(),
            is_digit(old(self).chars@[old(self).pos as int]),
        ensures
            final(self).wf(),
            final(self).chars@ == old(self).chars@,
            old(self).pos < final(self).pos,
            ({
                let cs = old(self).chars@;
                let i = old(self).pos as int;
                let j = run_end(cs, i + 1, digits_pred());
                &&& final(self).pos == j
                &&& token@ == token_at(cs, i, SpecTokenKind::Integer(cs.subrange(i, j)))
            }),
    {
        let ghost cs = self.chars@;
        let ghost i = self.pos as int;
        proof {
            lemma_run_end_bounds(cs, i + 1, digits_pred());
        }
        let line = self.line;
        let column = self.column;
        let mut text = String::new();
        while self.pos < self.chars.len() && is_ascii_digit(self.chars[self.pos])
            invariant
                self.wf(),
                self.chars@ == cs,
                0 <= i <= self.pos,
                i < cs.len(),
                is_digit(cs[i]),
                text@ == cs.subrange(i, self.pos as int),
                run_end(cs, i + 1, digits_pred()) == run_end(cs, self.pos as int, digits_pred())
                    || self.pos == i,
            decreases cs.len() - self.pos,
        {
            let c = self.chars[self.pos];
            assert(c == cs[self.pos as int]);
            let ghost p0 = self.pos as int;
            push_char(&mut text, c);
            assert(text@ == cs.subrange(i, p0).push(c));
            self.advance();
            assert(text@ =~= cs.subrange(i, self.pos as int));
        }
        proof {
            if self.pos == i {
                assert(false);
            }
        }
        Token::new(TokenKind::Integer(text), line, column)
    }

    /// Read a word, then classify it: a keyword if it spells one, else an
    /// identifier. The whole word is read first, so `lettuce` is one
    /// identifier, never `let` followed by `tuce`.
    fn read_identifier_or_keyword(&mut self) -> (token: Token)
        requires
            old(self).wf(),
            old(self).pos < old(self).chars@.len(),
            identifier_start(old(self).chars@[old(self).pos as int]),
        ensures
            final(self).wf(),
            final(self).chars@ == old(self).chars@,
            old(self).pos < final(self).pos,
            ({
                let cs = old(self).chars@;
                let i = old(self).pos as int;
                let j = run_end(cs, i + 1, word_pred());
                &&& final(self).pos == j
                &&& token@ == token_at(cs, i, word_kind(cs.subrange(i, j)))
            }),
    {
        let ghost cs = self.chars@;
        let ghost i = self.pos as int;
        let line = self.line;
        let column = self.column;
        let mut text = String::new();
        let first = self.chars[self.pos];
        push_char(&mut text, first);
        self.advance();
        assert(text@ =~= cs.subrange(i, self.pos as int));
        while self.pos < self.chars.len() && is_identifier_continue(self.chars[self.pos])
            invariant
                self.wf(),
                self.chars@ == cs,
                0 <= i < self.pos,
                text@ == cs.subrange(i, self.pos as int),
                run_end(cs, i + 1, word_pred()) == run_end(cs, self.pos as int, word_pred()),
            decreases cs.len() - self.pos,
        {
            let c = self.chars[self.pos];
            push_char(&mut text, c);
            self.advance();
            assert(text@ =~= cs.subrange(i, self.pos as int));
        }
        let kind = match keyword_token(&text) {
            Some(k) => k,
            None => TokenKind::Identifier(text),
        };
        Token::new(kind, line, column)
    }

    /// Skip a `~ ... ~` comment, which may span lines. Reaching the end of
    /// input before the closing `~` is an error that points at the opening
    /// one.
    fn skip_comment(&mut self) -> (result: Result<(), String>)
        requires
            old(self).wf(),
            old(self).pos < old(self).chars@.len(),
            old(self).chars@[old(self).pos as int] == '~',
        ensures
            final(self).wf(),
            final(self).chars@ == old(self).chars@,
            old(self).pos < final(self).pos,
            ({
                let cs = old(self).chars@;
                let i = old(self).pos as int;
                let j = run_end(cs, i + 1, comment_pred());
                if j >= cs.len() {
                    &&& result is Err
                    &&& result->Err_0@ == unterminated_comment_message(position(cs, i))
                    &&& final(self).pos == cs.len()
                } else {
                    &&& result is Ok
                    &&& final(self).pos == j + 1
                }
            }),
    {
        let ghost cs = self.chars@;
        let ghost i = self.pos as int;
        let line = self.line;
        let column = self.column;
        self.advance();
        while self.pos < self.chars.len() && self.chars[self.pos] != '~'
            invariant
                self.wf(),
                self.chars@ == cs,
                0 <= i < self.pos,
                run_end(cs, i + 1, comment_pred()) == run_end(cs, self.pos as int, comment_pred()),
            decreases cs.len() - self.pos,
        {
            self.advance();
        }
        if self.pos < self.chars.len() {
            self.advance();
            Ok(())
        } else {
            let mut message = String::new();
            push_str(&mut message, "unterminated comment starting at line ");
            push_decimal(&mut message, line);
            push_str(&mut message, ", column ");
            push_decimal(&mut message, column);
            assert(message@ =~= unterminated_comment_message(position(cs, i)));
            Err(message)
        }
    }
}

proof fn lemma_prefix_assoc(
    pre: Seq<SpecToken>,
    t: SpecToken,
    rest: Result<Seq<SpecToken>, LexFailure>,
)
    ensures
        prefix_tokens(pre, prepend_token(t, rest)) == prefix_tokens(pre + seq![t], rest),
{
    match rest {
        Ok(ts) => {
            assert(pre + (seq![t] + ts) =~= (pre + seq![t]) + ts);
        },
        Err(f) => {},
    }
}

/// `char::is_whitespace`, which holds exactly of the Unicode `White_Space`
/// characters.
fn is_whitespace(c: char) -> (b: bool)
    ensures
        b == is_white_space(c),
{
    ('\u{9}' <= c && c <= '\u{d}') || c == ' ' || c == '\u{85}' || c == '\u{a0}' || c
        == '\u{1680}' || ('\u{2000}' <= c && c <= '\u{200a}') || c == '\u{2028}' || c
        == '\u{2029}' || c == '\u{202f}' || c == '\u{205f}' || c == '\u{3000}'
}

/// `char::is_ascii_digit`.
fn is_ascii_digit(c: char) -> (b: bool)
    ensures
        b == is_digit(c),
{
    '0' <= c && c <= '9'
}

/// A letter or underscore.
fn is_identifier_start(c: char) -> (b: bool)
    ensures
        b == identifier_start(c),
{
    char_is_alphabetic(c) || c == '_'
}

/// A letter, digit or underscore.
fn is_identifier_continue(c: char) -> (b: bool)
    ensures
        b == identifier_continue(c),
{
    char_is_alphanumeric(c) || c == '_'
}

/// Map a single character to its token kind, if it is one.
fn single_char_token(c: char) -> (kind: Option<TokenKind>)
    ensures
        match single_char_kind(c) {
            Some(k) => kind is Some && kind->Some_0@ == k,
            None => kind is None,
        },
{
    match c {
        '+' => Some(TokenKind::Plus),
        '-' => Some(TokenKind::Minus),
        '*' => Some(TokenKind::Star),
        '/' => Some(TokenKind::Slash),
        '=' => Some(TokenKind::Equals),
        '(' => Some(TokenKind::LeftParen),
        ')' => Some(TokenKind::RightParen),
        _ => None,
    }
}

fn word_is(word: &String, keyword: &str) -> (b: bool)
    ensures
        b == (word@ == keyword@),
{
    let k = String::from_str(keyword);
    *word == k
}

/// The keyword token that a whole word spells, if any.
fn keyword_token(word: &String) -> (kind: Option<TokenKind>)
    ensures
        match keyword_kind(word@) {
            Some(k) => kind is Some && kind->Some_0@ == k,
            None => kind is None,
        },
{
    if word_is(word, "let") {
        Some(TokenKind::Let)
    } else if word_is(word, "const") {
        Some(TokenKind::Const)
    } else if word_is(word, "if") {
        Some(TokenKind::If)
    } else if word_is(word, "else") {
        Some(TokenKind::Else)
    } else if word_is(word, "while") {
        Some(TokenKind::While)
    } else if word_is(word, "for") {
        Some(TokenKind::For)
    } else if word_is(word, "fn") {
        Some(TokenKind::Fn)
    } else if word_is(word, "return") {
        Some(TokenKind::Return)
    } else if word_is(word, "true") {
        Some(TokenKind::True)
    } else if word_is(word, "false") {
        Some(TokenKind::False)
    } else {
        None
    }
}

} // verus!
