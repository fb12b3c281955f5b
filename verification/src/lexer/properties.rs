//! What holds of every token list the lexer produces.

use vstd::prelude::*;

use super::lexer::{
    comment_pred, digits_pred, identifier_continue, identifier_start, is_digit, is_white_space,
    keyword_kind, lemma_run_end_bounds, lex, lex_from, position, prepend_token, run_end,
    single_char_kind, token_at, unterminated_comment_message, word_kind, word_pred, LexFailure,
};
use super::token::{SpecToken, SpecTokenKind};
use crate::parser::parser::well_terminated;

verus! {

/// A token as the lexer makes it: an integer is one or more ASCII digits;
/// a name starts with a letter or underscore, continues with letters,
/// digits or underscores, and is not a keyword.
pub open spec fn token_text_ok(t: SpecToken) -> bool {
    match t.kind {
        SpecTokenKind::Integer(text) => text.len() > 0 && forall|k: int|
            0 <= k < text.len() ==> is_digit(#[trigger] text[k]),
        SpecTokenKind::Identifier(w) => {
            &&& w.len() > 0
            &&& identifier_start(w[0])
            &&& forall|k: int| 1 <= k < w.len() ==> identifier_continue(#[trigger] w[k])
            &&& keyword_kind(w) is None
        },
        _ => true,
    }
}

/// Every token is well formed, the last one is `Eof`, and no other is.
pub open spec fn lexed_shape(ts: Seq<SpecToken>) -> bool {
    &&& ts.len() > 0
    &&& ts.last().kind is Eof
    &&& forall|k: int| 0 <= k < ts.len() - 1 ==> !(#[trigger] ts[k].kind is Eof)
    &&& forall|k: int| 0 <= k < ts.len() ==> token_text_ok(#[trigger] ts[k])
}

proof fn lemma_lex_from_shape(cs: Seq<char>, i: int)
    requires
        0 <= i <= cs.len(),
    ensures
        lex_from(cs, i) matches Ok(ts) ==> lexed_shape(ts),
    decreases cs.len() - i,
{
    if i < cs.len() {
        let c = cs[i];
        if is_white_space(c) {
            lemma_lex_from_shape(cs, i + 1);
        } else if c == '~' {
            lemma_run_end_bounds(cs, i + 1, comment_pred());
            let j = run_end(cs, i + 1, comment_pred());
            if j < cs.len() {
                lemma_lex_from_shape(cs, j + 1);
            }
        } else if is_digit(c) {
            lemma_run_end_bounds(cs, i + 1, digits_pred());
            let j = run_end(cs, i + 1, digits_pred());
            lemma_lex_from_shape(cs, j);
            if let Ok(rest) = lex_from(cs, j) {
                let text = cs.subrange(i, j);
                assert forall|k: int| 0 <= k < text.len() implies is_digit(#[trigger] text[k]) by {
                    assert(text[k] == cs[i + k]);
                    if k > 0 {
                        assert((digits_pred())(cs[i + k]));
                    }
                }
                let t = token_at(cs, i, SpecTokenKind::Integer(text));
                assert(token_text_ok(t));
                lemma_prepend_shape(cs, i, rest);
                assert(lexed_shape(seq![t] + rest));
            }
        } else if identifier_start(c) {
            lemma_run_end_bounds(cs, i + 1, word_pred());
            let j = run_end(cs, i + 1, word_pred());
            lemma_lex_from_shape(cs, j);
            if let Ok(rest) = lex_from(cs, j) {
                let w = cs.subrange(i, j);
                assert forall|k: int| 1 <= k < w.len() implies identifier_continue(#[trigger] w[k]) by {
                    assert(w[k] == cs[i + k]);
                    assert((word_pred())(cs[i + k]));
                }
                let t = token_at(cs, i, word_kind(w));
                assert(w[0] == c);
                assert(token_text_ok(t));
                lemma_prepend_shape(cs, i, rest);
                assert(lexed_shape(seq![t] + rest));
            }
        } else {
            lemma_lex_from_shape(cs, i + 1);
            if let Ok(rest) = lex_from(cs, i + 1) {
                if let Some(k) = single_char_kind(c) {
                    lemma_prepend_shape(cs, i, rest);
                    assert(lexed_shape(seq![token_at(cs, i, k)] + rest));
                }
            }
        }
    } else {
        assert(lexed_shape(seq![token_at(cs, i, SpecTokenKind::Eof)]));
    }
}

proof fn lemma_prepend_shape(cs: Seq<char>, i: int, rest: Seq<SpecToken>)
    requires
        lexed_shape(rest),
    ensures
        forall|t: SpecToken|
            token_text_ok(t) && !(t.kind is Eof) ==> lexed_shape(#[trigger] (seq![t] + rest)),
{
    assert forall|t: SpecToken| token_text_ok(t) && !(t.kind is Eof) implies lexed_shape(
        #[trigger] (seq![t] + rest),
    ) by {
        let ts = seq![t] + rest;
        assert(ts.last() == rest.last());
        assert forall|k: int| 0 <= k < ts.len() implies token_text_ok(#[trigger] ts[k]) by {
            if k > 0 {
                assert(ts[k] == rest[k - 1]);
            }
        }
        assert forall|k: int| 0 <= k < ts.len() - 1 implies !(#[trigger] ts[k].kind is Eof) by {
            if k > 0 {
                assert(ts[k] == rest[k - 1]);
            }
        }
    }
}

/// Every token list the lexer produces ends with `Eof` and holds no other
/// `Eof`; its integers are runs of ASCII digits, and its names are never
/// keywords: a word is read whole before it is classified.
pub proof fn lemma_lexed_tokens_are_well_formed(cs: Seq<char>)
    ensures
        lex(cs) matches Ok(ts) ==> lexed_shape(ts),
{
    lemma_lex_from_shape(cs, 0);
}

/// The parser accepts every token list the lexer produces.
pub proof fn lemma_lexer_output_is_parseable(cs: Seq<char>)
    ensures
        lex(cs) matches Ok(ts) ==> well_terminated(ts),
{
    lemma_lex_from_shape(cs, 0);
}

/// The characters that `char::is_whitespace` accepts, one by one: tab,
/// line feed, vertical tab, form feed, carriage return, space, next line,
/// no-break space, ogham space mark, the spaces U+2000 to U+200A, line
/// separator, paragraph separator, narrow no-break space, medium
/// mathematical space and ideographic space.
pub open spec fn documented_white_space(c: char) -> bool {
    ||| c == '\t' || c == '\n' || c == '\u{b}' || c == '\u{c}' || c == '\r' || c == ' '
    ||| c == '\u{85}' || c == '\u{a0}' || c == '\u{1680}'
    ||| c == '\u{2000}' || c == '\u{2001}' || c == '\u{2002}' || c == '\u{2003}'
    ||| c == '\u{2004}' || c == '\u{2005}' || c == '\u{2006}' || c == '\u{2007}'
    ||| c == '\u{2008}' || c == '\u{2009}' || c == '\u{200a}'
    ||| c == '\u{2028}' || c == '\u{2029}' || c == '\u{202f}' || c == '\u{205f}'
    ||| c == '\u{3000}'
}

/// Every whitespace character between tokens is skipped: the tokens from a
/// whitespace character on are the tokens from the character after it.
pub proof fn lemma_white_space_is_skipped(cs: Seq<char>, i: int)
    requires
        0 <= i < cs.len(),
        documented_white_space(cs[i]),
    ensures
        lex_from(cs, i) == lex_from(cs, i + 1),
{
}

/// A character of a name in ASCII: a letter, a digit or an underscore.
pub open spec fn ascii_name_char(c: char) -> bool {
    ('a' <= c && c <= 'z') || ('A' <= c && c <= 'Z') || ('0' <= c && c <= '9') || c == '_'
}

proof fn lemma_run_end_exact(cs: Seq<char>, k: int, j: int, p: spec_fn(char) -> bool)
    requires
        0 <= k <= j <= cs.len(),
        forall|m: int| k <= m < j ==> p(#[trigger] cs[m]),
        j < cs.len() ==> !p(cs[j]),
    ensures
        run_end(cs, k, p) == j,
    decreases j - k,
{
    if k < j {
        lemma_run_end_exact(cs, k + 1, j, p);
    }
}

/// Names are read whole: a letter or underscore, followed by a run of
/// letters, digits and underscores that ends at the end of the source or
/// at an ASCII character of none of those kinds, is one token whose text
/// is the whole run (an underscore or a digit inside never splits it);
/// lexing then goes on after the run.
pub proof fn lemma_names_are_read_whole(cs: Seq<char>, i: int, j: int)
    requires
        0 <= i < j <= cs.len(),
        ascii_name_char(cs[i]) && !('0' <= cs[i] && cs[i] <= '9'),
        forall|k: int| i < k < j ==> ascii_name_char(#[trigger] cs[k]),
        j < cs.len() ==> cs[j] <= '\u{7f}' && !ascii_name_char(cs[j]),
    ensures
        lex_from(cs, i) == prepend_token(
            token_at(cs, i, word_kind(cs.subrange(i, j))),
            lex_from(cs, j),
        ),
        keyword_kind(cs.subrange(i, j)) is None ==> word_kind(cs.subrange(i, j))
            == SpecTokenKind::Identifier(cs.subrange(i, j)),
{
    assert forall|m: int| i + 1 <= m < j implies (word_pred())(#[trigger] cs[m]) by {
        assert(ascii_name_char(cs[m]));
    }
    lemma_run_end_exact(cs, i + 1, j, word_pred());
}

/// Integers are read whole: a run of ASCII digits ending at the end of
/// the source or at a non-digit is one integer token with the whole run as
/// its text.
pub proof fn lemma_numbers_are_read_whole(cs: Seq<char>, i: int, j: int)
    requires
        0 <= i < j <= cs.len(),
        forall|k: int| i <= k < j ==> '0' <= #[trigger] cs[k] && cs[k] <= '9',
        j < cs.len() ==> !('0' <= cs[j] && cs[j] <= '9'),
    ensures
        lex_from(cs, i) == prepend_token(
            token_at(cs, i, SpecTokenKind::Integer(cs.subrange(i, j))),
            lex_from(cs, j),
        ),
{
    assert('0' <= cs[i] && cs[i] <= '9');
    assert forall|m: int| i + 1 <= m < j implies (digits_pred())(#[trigger] cs[m]) by {
        assert('0' <= cs[m] && cs[m] <= '9');
    }
    lemma_run_end_exact(cs, i + 1, j, digits_pred());
}

/// The token each operator or bracket character stands for.
pub open spec fn symbol_kind(c: char) -> Option<SpecTokenKind> {
    if c == '+' {
        Some(SpecTokenKind::Plus)
    } else if c == '-' {
        Some(SpecTokenKind::Minus)
    } else if c == '*' {
        Some(SpecTokenKind::Star)
    } else if c == '/' {
        Some(SpecTokenKind::Slash)
    } else if c == '=' {
        Some(SpecTokenKind::Equals)
    } else if c == '(' {
        Some(SpecTokenKind::LeftParen)
    } else if c == ')' {
        Some(SpecTokenKind::RightParen)
    } else {
        None
    }
}

/// Each of `+ - * / = ( )` is a token of one character, located where it
/// stands; lexing goes on right after it.
pub proof fn lemma_symbols_are_single_tokens(cs: Seq<char>, i: int)
    requires
        0 <= i < cs.len(),
        symbol_kind(cs[i]) is Some,
    ensures
        lex_from(cs, i) == prepend_token(
            token_at(cs, i, symbol_kind(cs[i])->Some_0),
            lex_from(cs, i + 1),
        ),
{
}

/// The ten keywords, each read as its own token kind.
pub proof fn lemma_keywords(w: Seq<char>)
    ensures
        w == "let"@ ==> word_kind(w) == SpecTokenKind::Let,
        w == "const"@ ==> word_kind(w) == SpecTokenKind::Const,
        w == "if"@ ==> word_kind(w) == SpecTokenKind::If,
        w == "else"@ ==> word_kind(w) == SpecTokenKind::Else,
        w == "while"@ ==> word_kind(w) == SpecTokenKind::While,
        w == "for"@ ==> word_kind(w) == SpecTokenKind::For,
        w == "fn"@ ==> word_kind(w) == SpecTokenKind::Fn,
        w == "return"@ ==> word_kind(w) == SpecTokenKind::Return,
        w == "true"@ ==> word_kind(w) == SpecTokenKind::True,
        w == "false"@ ==> word_kind(w) == SpecTokenKind::False,
{
    reveal_strlit("let");
    reveal_strlit("const");
    reveal_strlit("if");
    reveal_strlit("else");
    reveal_strlit("while");
    reveal_strlit("for");
    reveal_strlit("fn");
    reveal_strlit("return");
    reveal_strlit("true");
    reveal_strlit("false");
    let words = seq!["let"@, "const"@, "if"@, "else"@, "while"@, "for"@, "fn"@, "return"@, "true"@, "false"@];
    assert forall|a: int, b: int| 0 <= a < b < 10 implies #[trigger] words[a] != #[trigger] words[b] by {
        if words[a].len() == words[b].len() {
            assert(words[a][0] != words[b][0] || words[a][1] != words[b][1]);
        }
    }
    assert(words[0] == "let"@);
    assert(words[1] == "const"@);
    assert(words[2] == "if"@);
    assert(words[3] == "else"@);
    assert(words[4] == "while"@);
    assert(words[5] == "for"@);
    assert(words[6] == "fn"@);
    assert(words[7] == "return"@);
    assert(words[8] == "true"@);
    assert(words[9] == "false"@);
}

/// A `~ ... ~` comment is skipped whole, across lines: from an opening `~`
/// whose closing `~` is at `j`, lexing goes on after `j`; with no closing
/// `~`, lexing fails, pointing at the opening one.
pub proof fn lemma_comments_are_skipped(cs: Seq<char>, i: int, j: int)
    requires
        0 <= i < j <= cs.len(),
        cs[i] == '~',
        forall|k: int| i < k < j ==> #[trigger] cs[k] != '~',
        j < cs.len() ==> cs[j] == '~',
    ensures
        j < cs.len() ==> lex_from(cs, i) == lex_from(cs, j + 1),
        j == cs.len() ==> lex_from(cs, i) == Err::<Seq<SpecToken>, LexFailure>(
            LexFailure { message: unterminated_comment_message(position(cs, i)), at: cs.len() as int },
        ),
{
    assert forall|m: int| i + 1 <= m < j implies (comment_pred())(#[trigger] cs[m]) by {
        assert(cs[m] != '~');
    }
    lemma_run_end_exact(cs, i + 1, j, comment_pred());
}

/// Lines and columns: the source starts at line 1, column 1; a line feed
/// moves to column 1 of the next line, and any other character moves one
/// column right on the same line. So the column of an index is one more
/// than its distance from the start of its line.
pub proof fn lemma_positions(cs: Seq<char>, k: int, i: int)
    requires
        0 <= k <= i <= cs.len(),
        k == 0 || cs[k - 1] == '\n',
        forall|m: int| k <= m < i ==> #[trigger] cs[m] != '\n',
    ensures
        position(cs, 0) == (1nat, 1nat),
        position(cs, i).0 == position(cs, k).0,
        position(cs, i).1 == i - k + 1,
        i < cs.len() && cs[i] == '\n' ==> position(cs, i + 1) == (position(cs, i).0 + 1, 1nat),
    decreases i - k,
{
    if i > k {
        assert(cs[i - 1] != '\n');
        lemma_positions(cs, k, i - 1);
    }
}

} // verus!
