//! What the grammar guarantees: parsing always moves forward, a program
//! parse stops only at `Eof`, precedence and associativity come out of the
//! layering, and a fully parenthesized rendering of any expression parses
//! back to that expression.

use vstd::prelude::*;

use super::ast::{BinaryOp, SpecExpr, SpecStmt, UnaryOp};
use super::parser::{
    additive_op, binary, let_statement_of, expression_of, expression_rest, factor_of, kind_at, multiplicative_op,
    parse_tokens, program_of, starts_assignment, statement_of, term_of, term_rest, unary_of, Parsed,
};
use crate::lexer::token::{SpecToken, SpecTokenKind};

verus! {

// ---------------------------------------------------------------------
// Progress
// ---------------------------------------------------------------------

pub proof fn lemma_expression_progress(ts: Seq<SpecToken>, p: int)
    ensures
        expression_of(ts, p) matches Ok((_, q)) ==> p < q <= ts.len(),
    decreases ts.len() - p, 5nat,
{
    lemma_term_progress(ts, p);
    if let Ok((left, q)) = term_of(ts, p) {
        lemma_expression_rest_progress(ts, q, left);
    }
}

pub proof fn lemma_expression_rest_progress(ts: Seq<SpecToken>, p: int, left: SpecExpr)
    requires
        p <= ts.len(),
    ensures
        expression_rest(ts, p, left) matches Ok((_, q)) ==> p <= q <= ts.len(),
    decreases ts.len() - p, 4nat,
{
    if let Some(op) = additive_op(kind_at(ts, p)) {
        lemma_term_progress(ts, p + 1);
        if let Ok((right, q)) = term_of(ts, p + 1) {
            lemma_expression_rest_progress(ts, q, binary(left, op, right));
        }
    }
}

pub proof fn lemma_term_progress(ts: Seq<SpecToken>, p: int)
    ensures
        term_of(ts, p) matches Ok((_, q)) ==> p < q <= ts.len(),
    decreases ts.len() - p, 3nat,
{
    lemma_unary_progress(ts, p);
    if let Ok((left, q)) = unary_of(ts, p) {
        lemma_term_rest_progress(ts, q, left);
    }
}

pub proof fn lemma_term_rest_progress(ts: Seq<SpecToken>, p: int, left: SpecExpr)
    requires
        p <= ts.len(),
    ensures
        term_rest(ts, p, left) matches Ok((_, q)) ==> p <= q <= ts.len(),
    decreases ts.len() - p, 2nat,
{
    if let Some(op) = multiplicative_op(kind_at(ts, p)) {
        lemma_unary_progress(ts, p + 1);
        if let Ok((right, q)) = unary_of(ts, p + 1) {
            lemma_term_rest_progress(ts, q, binary(left, op, right));
        }
    }
}

pub proof fn lemma_unary_progress(ts: Seq<SpecToken>, p: int)
    ensures
        unary_of(ts, p) matches Ok((_, q)) ==> p < q <= ts.len(),
    decreases ts.len() - p, 1nat,
{
    if kind_at(ts, p) is Minus {
        lemma_unary_progress(ts, p + 1);
    } else {
        lemma_factor_progress(ts, p);
    }
}

pub proof fn lemma_factor_progress(ts: Seq<SpecToken>, p: int)
    ensures
        factor_of(ts, p) matches Ok((_, q)) ==> p < q <= ts.len(),
    decreases ts.len() - p, 0nat,
{
    if kind_at(ts, p) is LeftParen {
        lemma_expression_progress(ts, p + 1);
    }
}

pub proof fn lemma_statement_progress(ts: Seq<SpecToken>, p: int)
    ensures
        statement_of(ts, p) matches Ok((_, q)) ==> p < q <= ts.len(),
{
    if kind_at(ts, p) is Let {
        if kind_at(ts, p + 1) is Identifier && kind_at(ts, p + 2) is Equals {
            lemma_expression_progress(ts, p + 3);
        }
    } else if starts_assignment(ts, p) {
        lemma_expression_progress(ts, p + 2);
    } else {
        lemma_expression_progress(ts, p);
    }
}

/// A successful parse of a program stops at an `Eof` token: the parser
/// reads statements until the end marker, never less.
pub proof fn lemma_program_ends_at_eof(ts: Seq<SpecToken>, p: int)
    ensures
        program_of(ts, p) matches Ok((_, q)) ==> kind_at(ts, q) is Eof,
    decreases ts.len() - p,
{
    if !(kind_at(ts, p) is Eof) {
        lemma_statement_progress(ts, p);
        if let Ok((s, q)) = statement_of(ts, p) {
            lemma_program_ends_at_eof(ts, q);
        }
    }
}

// ---------------------------------------------------------------------
// Round trip of a fully parenthesized rendering
// ---------------------------------------------------------------------

/// The token of a binary operator.
pub open spec fn op_kind(op: BinaryOp) -> SpecTokenKind {
    match op {
        BinaryOp::Add => SpecTokenKind::Plus,
        BinaryOp::Subtract => SpecTokenKind::Minus,
        BinaryOp::Multiply => SpecTokenKind::Star,
        BinaryOp::Divide => SpecTokenKind::Slash,
    }
}

/// The token kinds of an expression written with every binary operation
/// in parentheses: `-x` as `- x`, `a + b` as `( a + b )`.
pub open spec fn render(e: SpecExpr) -> Seq<SpecTokenKind>
    decreases e,
{
    match e {
        SpecExpr::Number(t) => seq![SpecTokenKind::Integer(t)],
        SpecExpr::Identifier(n) => seq![SpecTokenKind::Identifier(n)],
        SpecExpr::Unary { op, operand } => seq![SpecTokenKind::Minus] + render(*operand),
        SpecExpr::Binary { left, op, right } => seq![SpecTokenKind::LeftParen] + render(*left)
            + seq![op_kind(op)] + render(*right) + seq![SpecTokenKind::RightParen],
    }
}

/// The tokens from index `p` on have the kinds `ks`.
pub open spec fn kinds_at(ts: Seq<SpecToken>, p: int, ks: Seq<SpecTokenKind>) -> bool {
    &&& 0 <= p
    &&& p + ks.len() <= ts.len()
    &&& forall|k: int| 0 <= k < ks.len() ==> #[trigger] ts[p + k].kind == ks[k]
}

proof fn lemma_render_nonempty(e: SpecExpr)
    ensures
        render(e).len() >= 1,
    decreases e,
{
    match e {
        SpecExpr::Unary { op, operand } => lemma_render_nonempty(*operand),
        SpecExpr::Binary { left, op, right } => {
            lemma_render_nonempty(*left);
            lemma_render_nonempty(*right);
        },
        _ => {},
    }
}

proof fn lemma_kinds_at_part(
    ts: Seq<SpecToken>,
    p: int,
    ks: Seq<SpecTokenKind>,
    start: int,
    part: Seq<SpecTokenKind>,
)
    requires
        kinds_at(ts, p, ks),
        0 <= start,
        start + part.len() <= ks.len(),
        ks.subrange(start, start + part.len()) == part,
    ensures
        kinds_at(ts, p + start, part),
{
    assert forall|k: int| 0 <= k < part.len() implies #[trigger] ts[p + start + k].kind == part[k] by {
        assert(ts[p + (start + k)].kind == ks[start + k]);
        assert(ks.subrange(start, start + part.len())[k] == ks[start + k]);
    }
}

type ExprParse = Result<(SpecExpr, int), super::parser::ParseFailure>;

/// `( left op right )`, with both operands parsed as unary-level units,
/// parses as a factor to the binary node.
proof fn lemma_parenthesized_binary(
    ts: Seq<SpecToken>,
    p: int,
    left: SpecExpr,
    op: BinaryOp,
    right: SpecExpr,
    p1: int,
    p2: int,
)
    requires
        0 <= p < p1 < p2 < ts.len(),
        kind_at(ts, p) is LeftParen,
        unary_of(ts, p + 1) == ExprParse::Ok((left, p1)),
        kind_at(ts, p1) == op_kind(op),
        unary_of(ts, p1 + 1) == ExprParse::Ok((right, p2)),
        p1 + 1 < p2,
        kind_at(ts, p2) is RightParen,
    ensures
        unary_of(ts, p) == ExprParse::Ok((binary(left, op, right), p2 + 1)),
{
    let whole = binary(left, op, right);
    if multiplicative_op(op_kind(op)) is Some {
        assert(term_rest(ts, p2, whole) == ExprParse::Ok((whole, p2)));
        assert(term_rest(ts, p1, left) == ExprParse::Ok((whole, p2)));
        assert(term_of(ts, p + 1) == ExprParse::Ok((whole, p2)));
        assert(expression_rest(ts, p2, whole) == ExprParse::Ok((whole, p2)));
        assert(expression_of(ts, p + 1) == ExprParse::Ok((whole, p2)));
    } else {
        assert(term_rest(ts, p1, left) == ExprParse::Ok((left, p1)));
        assert(term_of(ts, p + 1) == ExprParse::Ok((left, p1)));
        assert(term_rest(ts, p2, right) == ExprParse::Ok((right, p2)));
        assert(term_of(ts, p1 + 1) == ExprParse::Ok((right, p2)));
        assert(expression_rest(ts, p2, whole) == ExprParse::Ok((whole, p2)));
        assert(expression_rest(ts, p1, left) == ExprParse::Ok((whole, p2)));
        assert(expression_of(ts, p + 1) == ExprParse::Ok((whole, p2)));
    }
    assert(factor_of(ts, p) == ExprParse::Ok((whole, p2 + 1)));
}

/// Where the pieces of a binary node's rendering stand.
proof fn lemma_binary_pieces(ts: Seq<SpecToken>, p: int, left: SpecExpr, op: BinaryOp, right: SpecExpr)
    requires
        kinds_at(ts, p, render(binary(left, op, right))),
    ensures
        kinds_at(ts, p + 1, render(left)),
        kinds_at(ts, p + 2 + render(left).len(), render(right)),
        kind_at(ts, p) is LeftParen,
        kind_at(ts, p + 1 + render(left).len()) == op_kind(op),
        kind_at(ts, p + 2 + render(left).len() + render(right).len()) is RightParen,
{
    let ks = render(binary(left, op, right));
    let l = render(left);
    let r = render(right);
    let ln = l.len() as int;
    let rn = r.len() as int;
    assert(ks =~= seq![SpecTokenKind::LeftParen] + l + seq![op_kind(op)] + r + seq![SpecTokenKind::RightParen]);
    assert(ks.subrange(1, 1 + ln) =~= l);
    lemma_kinds_at_part(ts, p, ks, 1, l);
    assert(ks.subrange(2 + ln, 2 + ln + rn) =~= r);
    lemma_kinds_at_part(ts, p, ks, 2 + ln, r);
    assert(ts[p + 0].kind == ks[0]);
    assert(ts[p + (1 + ln)].kind == ks[1 + ln]);
    assert(ts[p + (2 + ln + rn)].kind == ks[2 + ln + rn]);
}

/// The rendering of `e`, wherever it stands in a token list, parses as a
/// unary-level unit back to `e`, whatever follows it.
proof fn lemma_render_parses(ts: Seq<SpecToken>, p: int, e: SpecExpr)
    requires
        kinds_at(ts, p, render(e)),
    ensures
        unary_of(ts, p) == ExprParse::Ok((e, p + render(e).len())),
    decreases e,
{
    lemma_render_nonempty(e);
    let ks = render(e);
    assert(ts[p + 0].kind == ks[0]);
    match e {
        SpecExpr::Number(t) => {
            assert(kind_at(ts, p) == SpecTokenKind::Integer(t));
            assert(factor_of(ts, p) == ExprParse::Ok((SpecExpr::Number(t), p + 1)));
        },
        SpecExpr::Identifier(n) => {},
        SpecExpr::Unary { op, operand } => {
            let inner = render(*operand);
            assert(ks.subrange(1, 1 + inner.len() as int) =~= inner);
            lemma_kinds_at_part(ts, p, ks, 1, inner);
            lemma_render_parses(ts, p + 1, *operand);
            match op {
                UnaryOp::Negate => {},
            }
        },
        SpecExpr::Binary { left, op, right } => {
            let ln = render(*left).len() as int;
            let rn = render(*right).len() as int;
            lemma_render_nonempty(*left);
            lemma_render_nonempty(*right);
            assert(binary(*left, op, *right) == e);
            lemma_binary_pieces(ts, p, *left, op, *right);
            lemma_render_parses(ts, p + 1, *left);
            lemma_render_parses(ts, p + 2 + ln, *right);
            lemma_parenthesized_binary(ts, p, *left, op, *right, p + 1 + ln, p + 2 + ln + rn);
        },
    }
}

/// Parentheses override precedence and the tree keeps only structure: the
/// fully parenthesized rendering of any expression, followed by `Eof`,
/// parses to a program of exactly that expression.
pub proof fn lemma_parenthesized_rendering_round_trips(ts: Seq<SpecToken>, e: SpecExpr)
    requires
        ts.len() == render(e).len() + 1,
        kinds_at(ts, 0, render(e)),
        ts.last().kind is Eof,
    ensures
        parse_tokens(ts) == Ok::<(Seq<SpecStmt>, int), super::parser::ParseFailure>(
            (seq![SpecStmt::Expression(e)], render(e).len() as int),
        ),
{
    let n = render(e).len() as int;
    lemma_render_nonempty(e);
    lemma_render_parses(ts, 0, e);
    assert(ts[0int + 0int].kind == render(e)[0int]);
    assert(kind_at(ts, n) is Eof);
    assert(!(kind_at(ts, 0) is Let)) by {
        match e {
            SpecExpr::Number(t) => {},
            SpecExpr::Identifier(x) => {},
            SpecExpr::Unary { op, operand } => {},
            SpecExpr::Binary { left, op, right } => {},
        }
    }
    assert(!starts_assignment(ts, 0)) by {
        if kind_at(ts, 0) is Identifier {
            assert(n == 1) by {
                match e {
                    SpecExpr::Identifier(x) => {},
                    SpecExpr::Number(t) => {},
                    SpecExpr::Unary { op, operand } => {},
                    SpecExpr::Binary { left, op, right } => {},
                }
            }
        }
    }
    assert(term_of(ts, 0) == ExprParse::Ok((e, n)));
    assert(expression_of(ts, 0) == ExprParse::Ok((e, n)));
    assert(statement_of(ts, 0) == Ok::<(SpecStmt, int), super::parser::ParseFailure>(
        (SpecStmt::Expression(e), n),
    ));
    assert(program_of(ts, n) == Ok::<(Seq<SpecStmt>, int), super::parser::ParseFailure>(
        (Seq::empty(), n),
    ));
    assert(seq![SpecStmt::Expression(e)] + Seq::<SpecStmt>::empty() =~= seq![SpecStmt::Expression(e)]);
}

// ---------------------------------------------------------------------
// Precedence and associativity
// ---------------------------------------------------------------------

/// The expression of a number or name token.
pub open spec fn atom(k: SpecTokenKind) -> Option<SpecExpr> {
    match k {
        SpecTokenKind::Integer(t) => Some(SpecExpr::Number(t)),
        SpecTokenKind::Identifier(n) => Some(SpecExpr::Identifier(n)),
        _ => None,
    }
}

/// A token that continues no expression: neither a `+ -` nor a `* /`.
pub open spec fn ends_expression(k: SpecTokenKind) -> bool {
    additive_op(k) is None && multiplicative_op(k) is None
}

proof fn lemma_atom_parses(ts: Seq<SpecToken>, p: int)
    requires
        atom(kind_at(ts, p)) is Some,
    ensures
        unary_of(ts, p) == ExprParse::Ok((atom(kind_at(ts, p))->Some_0, p + 1)),
        0 <= p < ts.len(),
{
    match kind_at(ts, p) {
        SpecTokenKind::Integer(t) => {
            assert(factor_of(ts, p) == ExprParse::Ok((SpecExpr::Number(t), p + 1)));
        },
        SpecTokenKind::Identifier(n) => {
            assert(factor_of(ts, p) == ExprParse::Ok((SpecExpr::Identifier(n), p + 1)));
        },
        _ => {},
    }
}

/// `a + b * c` is `a + (b * c)`: an operator of `* /` binds tighter than
/// one of `+ -`, wherever it stands.
pub proof fn lemma_multiplication_binds_tighter(ts: Seq<SpecToken>)
    requires
        atom(kind_at(ts, 0)) is Some,
        additive_op(kind_at(ts, 1)) is Some,
        atom(kind_at(ts, 2)) is Some,
        multiplicative_op(kind_at(ts, 3)) is Some,
        atom(kind_at(ts, 4)) is Some,
        ends_expression(kind_at(ts, 5)),
    ensures
        expression_of(ts, 0) == ExprParse::Ok(
            (
                binary(
                    atom(kind_at(ts, 0))->Some_0,
                    additive_op(kind_at(ts, 1))->Some_0,
                    binary(
                        atom(kind_at(ts, 2))->Some_0,
                        multiplicative_op(kind_at(ts, 3))->Some_0,
                        atom(kind_at(ts, 4))->Some_0,
                    ),
                ),
                5,
            ),
        ),
{
    let a = atom(kind_at(ts, 0))->Some_0;
    let b = atom(kind_at(ts, 2))->Some_0;
    let c = atom(kind_at(ts, 4))->Some_0;
    let op1 = additive_op(kind_at(ts, 1))->Some_0;
    let op2 = multiplicative_op(kind_at(ts, 3))->Some_0;
    lemma_atom_parses(ts, 0);
    lemma_atom_parses(ts, 2);
    lemma_atom_parses(ts, 4);
    let bc = binary(b, op2, c);
    assert(term_of(ts, 0) == ExprParse::Ok((a, 1)));
    assert(term_rest(ts, 5, bc) == ExprParse::Ok((bc, 5)));
    assert(term_rest(ts, 3, b) == ExprParse::Ok((bc, 5)));
    assert(term_of(ts, 2) == ExprParse::Ok((bc, 5)));
    assert(expression_rest(ts, 5, binary(a, op1, bc)) == ExprParse::Ok((binary(a, op1, bc), 5)));
    assert(expression_rest(ts, 1, a) == ExprParse::Ok((binary(a, op1, bc), 5)));
}

/// `a * b + c` is `(a * b) + c`.
pub proof fn lemma_product_then_sum(ts: Seq<SpecToken>)
    requires
        atom(kind_at(ts, 0)) is Some,
        multiplicative_op(kind_at(ts, 1)) is Some,
        atom(kind_at(ts, 2)) is Some,
        additive_op(kind_at(ts, 3)) is Some,
        atom(kind_at(ts, 4)) is Some,
        ends_expression(kind_at(ts, 5)),
    ensures
        expression_of(ts, 0) == ExprParse::Ok(
            (
                binary(
                    binary(
                        atom(kind_at(ts, 0))->Some_0,
                        multiplicative_op(kind_at(ts, 1))->Some_0,
                        atom(kind_at(ts, 2))->Some_0,
                    ),
                    additive_op(kind_at(ts, 3))->Some_0,
                    atom(kind_at(ts, 4))->Some_0,
                ),
                5,
            ),
        ),
{
    let a = atom(kind_at(ts, 0))->Some_0;
    let b = atom(kind_at(ts, 2))->Some_0;
    let c = atom(kind_at(ts, 4))->Some_0;
    let op1 = multiplicative_op(kind_at(ts, 1))->Some_0;
    let op2 = additive_op(kind_at(ts, 3))->Some_0;
    lemma_atom_parses(ts, 0);
    lemma_atom_parses(ts, 2);
    lemma_atom_parses(ts, 4);
    let ab = binary(a, op1, b);
    assert(term_rest(ts, 3, ab) == ExprParse::Ok((ab, 3)));
    assert(term_rest(ts, 1, a) == ExprParse::Ok((ab, 3)));
    assert(term_of(ts, 0) == ExprParse::Ok((ab, 3)));
    assert(term_rest(ts, 5, c) == ExprParse::Ok((c, 5)));
    assert(term_of(ts, 4) == ExprParse::Ok((c, 5)));
    assert(expression_rest(ts, 5, binary(ab, op2, c)) == ExprParse::Ok((binary(ab, op2, c), 5)));
    assert(expression_rest(ts, 3, ab) == ExprParse::Ok((binary(ab, op2, c), 5)));
}

/// A chain of units for one level, from `starts[0]`: unit `i` is parsed
/// (by `term_of` for the `+ -` level, by `unary_of` for the `* /` level)
/// from `starts[i]` to `trees[i]`, ending at `ends[i]`; the token at
/// `ends[i]` is an operator of that level and the next unit starts right
/// after it, except after the last unit, where no operator of that level
/// follows.
pub open spec fn is_chain(
    ts: Seq<SpecToken>,
    starts: Seq<int>,
    ends: Seq<int>,
    trees: Seq<SpecExpr>,
    additive: bool,
) -> bool {
    &&& starts.len() > 0
    &&& ends.len() == starts.len()
    &&& trees.len() == starts.len()
    &&& forall|i: int|
        0 <= i < starts.len() ==> #[trigger] unit_of(ts, starts[i], additive) == ExprParse::Ok(
            (trees[i], ends[i]),
        )
    &&& forall|i: int|
        0 <= i < starts.len() - 1 ==> (#[trigger] level_op(ts, ends[i], additive)) is Some
            && starts[i + 1] == ends[i] + 1
    &&& level_op(ts, ends[starts.len() - 1], additive) is None
}

/// The rule that parses one operand of a level.
pub open spec fn unit_of(ts: Seq<SpecToken>, p: int, additive: bool) -> Parsed<SpecExpr> {
    if additive {
        term_of(ts, p)
    } else {
        unary_of(ts, p)
    }
}

/// The operator of the `+ -` level (when `additive`) or of the `* /`
/// level that the token at `q` stands for.
pub open spec fn level_op(ts: Seq<SpecToken>, q: int, additive: bool) -> Option<BinaryOp> {
    if additive {
        additive_op(kind_at(ts, q))
    } else {
        multiplicative_op(kind_at(ts, q))
    }
}

/// The first `k + 1` operands of a chain grouped from the left:
/// `((t0 op1 t1) op2 t2) ...`.
pub open spec fn chain_value(
    ts: Seq<SpecToken>,
    ends: Seq<int>,
    trees: Seq<SpecExpr>,
    k: int,
    additive: bool,
) -> SpecExpr
    decreases k,
{
    if k <= 0 {
        trees[0]
    } else {
        binary(
            chain_value(ts, ends, trees, k - 1, additive),
            level_op(ts, ends[k - 1], additive)->Some_0,
            trees[k],
        )
    }
}

proof fn lemma_unit_progress(ts: Seq<SpecToken>, p: int, additive: bool)
    ensures
        unit_of(ts, p, additive) matches Ok((_, q)) ==> p < q <= ts.len(),
{
    if additive {
        lemma_term_progress(ts, p);
    } else {
        lemma_unary_progress(ts, p);
    }
}

proof fn lemma_chain_rest(
    ts: Seq<SpecToken>,
    starts: Seq<int>,
    ends: Seq<int>,
    trees: Seq<SpecExpr>,
    additive: bool,
    k: int,
)
    requires
        is_chain(ts, starts, ends, trees, additive),
        0 <= k < starts.len(),
        ends[k] <= ts.len(),
    ensures
        ({
            let n = starts.len() - 1;
            let done = ExprParse::Ok((chain_value(ts, ends, trees, n, additive), ends[n]));
            if additive {
                expression_rest(ts, ends[k], chain_value(ts, ends, trees, k, additive)) == done
            } else {
                term_rest(ts, ends[k], chain_value(ts, ends, trees, k, additive)) == done
            }
        }),
    decreases starts.len() - k,
{
    if k < starts.len() - 1 {
        assert(level_op(ts, ends[k], additive) is Some && starts[k + 1] == ends[k] + 1);
        assert(unit_of(ts, starts[k + 1], additive) == ExprParse::Ok((trees[k + 1], ends[k + 1])));
        lemma_unit_progress(ts, starts[k + 1], additive);
        lemma_chain_rest(ts, starts, ends, trees, additive, k + 1);
        assert(chain_value(ts, ends, trees, k + 1, additive) == binary(
            chain_value(ts, ends, trees, k, additive),
            level_op(ts, ends[k], additive)->Some_0,
            trees[k + 1],
        ));
    }
}

/// `expression -> term (("+" | "-") term)*` groups from the left, however
/// many terms there are: `1 - 2 + 3` is `(1 - 2) + 3`. The parse stops at
/// the first token after a term that is neither `+` nor `-`.
pub proof fn lemma_expression_associates_left(
    ts: Seq<SpecToken>,
    starts: Seq<int>,
    ends: Seq<int>,
    trees: Seq<SpecExpr>,
)
    requires
        is_chain(ts, starts, ends, trees, true),
    ensures
        expression_of(ts, starts[0]) == ExprParse::Ok(
            (
                chain_value(ts, ends, trees, starts.len() - 1, true),
                ends[starts.len() - 1],
            ),
        ),
{
    assert(unit_of(ts, starts[0], true) == ExprParse::Ok((trees[0], ends[0])));
    lemma_term_progress(ts, starts[0]);
    lemma_chain_rest(ts, starts, ends, trees, true, 0);
}

/// `term -> unary (("*" | "/") unary)*` groups from the left, however many
/// operands there are, and stops at the first token after an operand that
/// is neither `*` nor `/`, leaving `+` and `-` to the level above: so `*`
/// and `/` bind tighter than `+` and `-`.
pub proof fn lemma_term_associates_left(
    ts: Seq<SpecToken>,
    starts: Seq<int>,
    ends: Seq<int>,
    trees: Seq<SpecExpr>,
)
    requires
        is_chain(ts, starts, ends, trees, false),
    ensures
        term_of(ts, starts[0]) == ExprParse::Ok(
            (
                chain_value(ts, ends, trees, starts.len() - 1, false),
                ends[starts.len() - 1],
            ),
        ),
{
    assert(unit_of(ts, starts[0], false) == ExprParse::Ok((trees[0], ends[0])));
    lemma_unary_progress(ts, starts[0]);
    lemma_chain_rest(ts, starts, ends, trees, false, 0);
}

/// `k` nested negations of `e`.
pub open spec fn negations(e: SpecExpr, k: nat) -> SpecExpr
    decreases k,
{
    if k == 0 {
        e
    } else {
        SpecExpr::Unary { op: UnaryOp::Negate, operand: Box::new(negations(e, (k - 1) as nat)) }
    }
}

/// `unary -> "-" unary | factor`: `k` leading `-` tokens wrap the factor
/// after them in `k` negations (`---5` is `-(-(-5))`), or the factor's
/// error is the result.
pub proof fn lemma_unary_prefix(ts: Seq<SpecToken>, p: int, k: nat)
    requires
        forall|i: int| 0 <= i < k ==> #[trigger] kind_at(ts, p + i) is Minus,
        !(kind_at(ts, p + k) is Minus),
    ensures
        unary_of(ts, p) == match factor_of(ts, p + k) {
            Ok((f, q)) => ExprParse::Ok((negations(f, k), q)),
            Err(e) => Err(e),
        },
    decreases k,
{
    if k > 0 {
        assert(kind_at(ts, p + 0) is Minus);
        assert forall|i: int| 0 <= i < k - 1 implies #[trigger] kind_at(ts, (p + 1) + i) is Minus by {
            assert(kind_at(ts, p + (i + 1)) is Minus);
        }
        assert(p + 1 + (k - 1) == p + k);
        lemma_unary_prefix(ts, p + 1, (k - 1) as nat);
    }
}

/// `factor -> "(" expression ")"`: parentheses keep no node of their own;
/// `((42))` is the number 42.
pub proof fn lemma_parentheses_vanish(ts: Seq<SpecToken>, p: int)
    requires
        kind_at(ts, p) is LeftParen,
    ensures
        factor_of(ts, p) == match expression_of(ts, p + 1) {
            Ok((e, q)) => if kind_at(ts, q) is RightParen {
                ExprParse::Ok((e, q + 1))
            } else {
                super::parser::fail(
                    super::parser::expected_message(SpecTokenKind::RightParen, super::parser::tok(ts, q)),
                    q,
                )
            },
            Err(f) => Err(f),
        },
{
}

/// `- a op b` is `(- a) op b`: negation binds tighter than every binary
/// operator.
pub proof fn lemma_negation_binds_tightest(ts: Seq<SpecToken>)
    requires
        kind_at(ts, 0) is Minus,
        atom(kind_at(ts, 1)) is Some,
        additive_op(kind_at(ts, 2)) is Some || multiplicative_op(kind_at(ts, 2)) is Some,
        atom(kind_at(ts, 3)) is Some,
        ends_expression(kind_at(ts, 4)),
    ensures
        ({
            let op = if additive_op(kind_at(ts, 2)) is Some {
                additive_op(kind_at(ts, 2))->Some_0
            } else {
                multiplicative_op(kind_at(ts, 2))->Some_0
            };
            let neg = SpecExpr::Unary {
                op: UnaryOp::Negate,
                operand: Box::new(atom(kind_at(ts, 1))->Some_0),
            };
            expression_of(ts, 0) == ExprParse::Ok((binary(neg, op, atom(kind_at(ts, 3))->Some_0), 4))
        }),
{
    let a = atom(kind_at(ts, 1))->Some_0;
    let b = atom(kind_at(ts, 3))->Some_0;
    lemma_atom_parses(ts, 1);
    lemma_atom_parses(ts, 3);
    let neg = SpecExpr::Unary { op: UnaryOp::Negate, operand: Box::new(a) };
    assert(unary_of(ts, 0) == ExprParse::Ok((neg, 2)));
    if additive_op(kind_at(ts, 2)) is Some {
        let op = additive_op(kind_at(ts, 2))->Some_0;
        assert(term_of(ts, 0) == ExprParse::Ok((neg, 2)));
        assert(term_of(ts, 3) == ExprParse::Ok((b, 4)));
        assert(expression_rest(ts, 4, binary(neg, op, b)) == ExprParse::Ok((binary(neg, op, b), 4)));
        assert(expression_rest(ts, 2, neg) == ExprParse::Ok((binary(neg, op, b), 4)));
    } else {
        let op = multiplicative_op(kind_at(ts, 2))->Some_0;
        let whole = binary(neg, op, b);
        assert(term_rest(ts, 4, whole) == ExprParse::Ok((whole, 4)));
        assert(term_rest(ts, 2, neg) == ExprParse::Ok((whole, 4)));
        assert(term_of(ts, 0) == ExprParse::Ok((whole, 4)));
        assert(expression_rest(ts, 4, whole) == ExprParse::Ok((whole, 4)));
    }
}

/// `let_statement -> "let" IDENTIFIER "=" expression`: after the `let`
/// at `p`, a name, then `=`, then an expression give the statement; a
/// missing name or `=` is reported at the token that stands there instead.
pub proof fn lemma_let_statement_shape(ts: Seq<SpecToken>, p: int)
    ensures
        kind_at(ts, p + 1) is Identifier && kind_at(ts, p + 2) is Equals ==> let_statement_of(ts, p)
            == match expression_of(ts, p + 3) {
            Ok((value, q)) => Ok::<(SpecStmt, int), super::parser::ParseFailure>(
                (SpecStmt::Let { name: kind_at(ts, p + 1)->Identifier_0, value }, q),
            ),
            Err(f) => Err(f),
        },
        !(kind_at(ts, p + 1) is Identifier) ==> let_statement_of(ts, p) == super::parser::fail::<
            SpecStmt,
        >(super::parser::let_name_message(super::parser::tok(ts, p + 1)), p + 1),
        kind_at(ts, p + 1) is Identifier && !(kind_at(ts, p + 2) is Equals) ==> let_statement_of(
            ts,
            p,
        ) == super::parser::fail::<SpecStmt>(
            super::parser::expected_message(SpecTokenKind::Equals, super::parser::tok(ts, p + 2)),
            p + 2,
        ),
{
}

/// Each operator token builds its own operation: `+` adds, `-`
/// subtracts, `*` multiplies and `/` divides; `a op b` is the one binary
/// node of `a`, that operation and `b`.
pub proof fn lemma_operator_tokens(ts: Seq<SpecToken>, op: BinaryOp)
    requires
        atom(kind_at(ts, 0)) is Some,
        kind_at(ts, 1) == op_kind(op),
        atom(kind_at(ts, 2)) is Some,
        ends_expression(kind_at(ts, 3)),
    ensures
        expression_of(ts, 0) == ExprParse::Ok(
            (binary(atom(kind_at(ts, 0))->Some_0, op, atom(kind_at(ts, 2))->Some_0), 3),
        ),
{
    let a = atom(kind_at(ts, 0))->Some_0;
    let b = atom(kind_at(ts, 2))->Some_0;
    lemma_atom_parses(ts, 0);
    lemma_atom_parses(ts, 2);
    let whole = binary(a, op, b);
    match op {
        BinaryOp::Add | BinaryOp::Subtract => {
            assert(term_rest(ts, 1, a) == ExprParse::Ok((a, 1)));
            assert(term_of(ts, 0) == ExprParse::Ok((a, 1)));
            assert(term_rest(ts, 3, b) == ExprParse::Ok((b, 3)));
            assert(term_of(ts, 2) == ExprParse::Ok((b, 3)));
            assert(expression_rest(ts, 3, whole) == ExprParse::Ok((whole, 3)));
            assert(expression_rest(ts, 1, a) == ExprParse::Ok((whole, 3)));
        },
        BinaryOp::Multiply | BinaryOp::Divide => {
            assert(term_rest(ts, 3, whole) == ExprParse::Ok((whole, 3)));
            assert(term_rest(ts, 1, a) == ExprParse::Ok((whole, 3)));
            assert(term_of(ts, 0) == ExprParse::Ok((whole, 3)));
            assert(expression_rest(ts, 3, whole) == ExprParse::Ok((whole, 3)));
        },
    }
}

/// A statement that starts with a name followed by `=` is an assignment
/// of the expression after `=` to that name; a name followed by anything
/// else starts an expression statement.
pub proof fn lemma_assignment_statements(ts: Seq<SpecToken>, p: int)
    requires
        kind_at(ts, p) is Identifier,
    ensures
        kind_at(ts, p + 1) is Equals ==> statement_of(ts, p) == match expression_of(ts, p + 2) {
            Ok((value, q)) => Ok::<(SpecStmt, int), super::parser::ParseFailure>(
                (SpecStmt::Assign { name: kind_at(ts, p)->Identifier_0, value }, q),
            ),
            Err(f) => Err(f),
        },
        !(kind_at(ts, p + 1) is Equals) ==> statement_of(ts, p) == match expression_of(ts, p) {
            Ok((e, q)) => Ok::<(SpecStmt, int), super::parser::ParseFailure>(
                (SpecStmt::Expression(e), q),
            ),
            Err(f) => Err(f),
        },
{
}

} // verus!
