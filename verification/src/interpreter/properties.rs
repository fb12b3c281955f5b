//! What the interpreter guarantees across statements and operators.

use vstd::prelude::*;

use super::eval::{
    abs, all_digits, apply, checked, digit_value, digits_value, div_trunc, eval_expr, exec_stmt, run_from,
    run_program, Outcome,
};
use crate::lexer::lexer::is_digit;
use crate::text::{decimal, digit_char};
use crate::parser::ast::{BinaryOp, SpecExpr, SpecStmt, UnaryOp};

verus! {

pub type Bindings = Map<Seq<char>, i64>;

/// `let name = value` evaluates `value` in the current environment and
/// binds the result: afterwards `name` reads back that value and every
/// other name reads as before. If `value` fails, the statement fails the
/// same way.
pub proof fn lemma_let_then_read(name: Seq<char>, value: SpecExpr, env: Bindings, other: Seq<char>)
    requires
        other != name,
    ensures
        match eval_expr(value, env) {
            Outcome::Value(v) => exec_stmt(SpecStmt::Let { name, value }, env) matches Outcome::Value(
                (produced, after),
            ) && produced is None && eval_expr(SpecExpr::Identifier(name), after)
                == Outcome::Value(v) && eval_expr(SpecExpr::Identifier(other), after) == eval_expr(
                SpecExpr::Identifier(other),
                env,
            ),
            Outcome::Error(m) => exec_stmt(SpecStmt::Let { name, value }, env) == Outcome::<
                (Option<i64>, Bindings),
            >::Error(m),
            Outcome::Overflow => exec_stmt(SpecStmt::Let { name, value }, env) is Overflow,
        },
{
    if let Outcome::Value(v) = eval_expr(value, env) {
        let after = env.insert(name, v);
        assert(after.contains_key(name) && after[name] == v);
        assert(after.contains_key(other) == env.contains_key(other));
        if env.contains_key(other) {
            assert(after[other] == env[other]);
        }
    }
}

/// `name = value` on a name that was never defined fails, whatever
/// `value` is; on a defined name it does what `let` does.
pub proof fn lemma_assign_requires_definition(name: Seq<char>, value: SpecExpr, env: Bindings)
    ensures
        !env.contains_key(name) ==> exec_stmt(SpecStmt::Assign { name, value }, env)
            == Outcome::<(Option<i64>, Bindings)>::Error(
            "cannot assign to undefined variable: "@ + name,
        ),
        env.contains_key(name) ==> exec_stmt(SpecStmt::Assign { name, value }, env) == exec_stmt(
            SpecStmt::Let { name, value },
            env,
        ),
{
}

/// A bare expression produces its value and leaves the environment as it
/// was.
pub proof fn lemma_expression_keeps_environment(e: SpecExpr, env: Bindings)
    ensures
        match eval_expr(e, env) {
            Outcome::Value(v) => exec_stmt(SpecStmt::Expression(e), env) == Outcome::Value(
                (Some(v), env),
            ),
            Outcome::Error(m) => exec_stmt(SpecStmt::Expression(e), env) == Outcome::<
                (Option<i64>, Bindings),
            >::Error(m),
            Outcome::Overflow => exec_stmt(SpecStmt::Expression(e), env) is Overflow,
        },
{
}

/// A program is more than independent expressions: a later statement sees
/// a variable that an earlier one defined. `let name = value` followed by
/// `name` produces the value of `value`.
pub proof fn lemma_later_statement_sees_definition(name: Seq<char>, value: SpecExpr)
    ensures
        run_program(seq![SpecStmt::Let { name, value }, SpecStmt::Expression(SpecExpr::Identifier(name))])
            == match eval_expr(value, Map::empty()) {
            Outcome::Value(v) => Outcome::Value(Some(v)),
            Outcome::Error(m) => Outcome::Error(m),
            Outcome::Overflow => Outcome::Overflow,
        },
{
    reveal_with_fuel(run_from, 3);
    let p = seq![SpecStmt::Let { name, value }, SpecStmt::Expression(SpecExpr::Identifier(name))];
    assert(p[0] == SpecStmt::Let { name, value });
    assert(p.drop_first() =~= seq![SpecStmt::Expression(SpecExpr::Identifier(name))]);
    assert(p.drop_first().drop_first() =~= Seq::<SpecStmt>::empty());
    if let Outcome::Value(v) = eval_expr(value, Map::empty()) {
        let env = Map::<Seq<char>, i64>::empty().insert(name, v);
        assert(env.contains_key(name) && env[name] == v);
    }
}

/// Reassignment uses the current values and later statements see the new
/// one: `let name = first`, then `name = second` (which may mention
/// `name`), then `name` produces the value of `second` evaluated where
/// `name` holds the value of `first`.
pub proof fn lemma_assignment_replaces_value(name: Seq<char>, first: SpecExpr, second: SpecExpr)
    ensures
        run_program(
            seq![
                SpecStmt::Let { name, value: first },
                SpecStmt::Assign { name, value: second },
                SpecStmt::Expression(SpecExpr::Identifier(name)),
            ],
        ) == match eval_expr(first, Map::empty()) {
            Outcome::Value(v1) => match eval_expr(second, Map::empty().insert(name, v1)) {
                Outcome::Value(v2) => Outcome::Value(Some(v2)),
                Outcome::Error(m) => Outcome::Error(m),
                Outcome::Overflow => Outcome::Overflow,
            },
            Outcome::Error(m) => Outcome::Error(m),
            Outcome::Overflow => Outcome::Overflow,
        },
{
    reveal_with_fuel(run_from, 4);
    let p = seq![
        SpecStmt::Let { name, value: first },
        SpecStmt::Assign { name, value: second },
        SpecStmt::Expression(SpecExpr::Identifier(name)),
    ];
    assert(p[0] == SpecStmt::Let { name, value: first });
    assert(p.drop_first()[0] == SpecStmt::Assign { name, value: second });
    assert(p.drop_first().drop_first() =~= seq![SpecStmt::Expression(SpecExpr::Identifier(name))]);
    assert(p.drop_first().drop_first().drop_first() =~= Seq::<SpecStmt>::empty());
    if let Outcome::Value(v1) = eval_expr(first, Map::empty()) {
        let env1 = Map::<Seq<char>, i64>::empty().insert(name, v1);
        assert(env1.contains_key(name));
        if let Outcome::Value(v2) = eval_expr(second, env1) {
            let env2 = env1.insert(name, v2);
            assert(env2.contains_key(name) && env2[name] == v2);
        }
    }
}

/// Negating twice gives the value back; only negating `i64::MIN`
/// overflows.
pub proof fn lemma_double_negation_cancels(e: SpecExpr, env: Bindings)
    ensures
        eval_expr(
            SpecExpr::Unary {
                op: UnaryOp::Negate,
                operand: Box::new(SpecExpr::Unary { op: UnaryOp::Negate, operand: Box::new(e) }),
            },
            env,
        ) == (if eval_expr(e, env) == Outcome::Value(i64::MIN) {
            Outcome::Overflow
        } else {
            eval_expr(e, env)
        }),
{
    let inner = SpecExpr::Unary { op: UnaryOp::Negate, operand: Box::new(e) };
    assert(eval_expr(inner, env) == match eval_expr(e, env) {
        Outcome::Value(v) => checked(-v),
        Outcome::Error(m) => Outcome::Error(m),
        Outcome::Overflow => Outcome::<i64>::Overflow,
    });
}

/// Integer division rounds toward zero: when `a / b` has a value `q`, the
/// remainder `a - q * b` is smaller than `b` in size and is zero or has
/// the sign of `a` (so 7 / 2 is 3 and -7 / 2 is -3). Dividing by zero is
/// an error, and only `i64::MIN / -1` overflows.
pub proof fn lemma_division_truncates(a: i64, b: i64)
    ensures
        match apply(BinaryOp::Divide, a, b) {
            Outcome::Value(q) => {
                let r = a - q * b;
                &&& abs(r) < abs(b as int)
                &&& (r == 0 || (r < 0) == (a < 0))
            },
            Outcome::Error(m) => b == 0 && m == "division by zero"@,
            Outcome::Overflow => a == i64::MIN && b == -1,
        },
{
    if b != 0 {
        let aa = abs(a as int);
        let bb = abs(b as int);
        let qq = aa / bb;
        let rr = aa % bb;
        vstd::arithmetic::div_mod::lemma_fundamental_div_mod(aa, bb);
        vstd::arithmetic::div_mod::lemma_mod_pos_bound(aa, bb);
        assert(qq >= 0 && qq <= aa) by (nonlinear_arith)
            requires
                aa == bb * qq + rr,
                0 <= rr < bb,
                bb >= 1,
                aa >= 0,
        ;
        let q = div_trunc(a as int, b as int);
        if a >= 0 && b > 0 {
            assert(a - q * b == rr) by (nonlinear_arith)
                requires aa == bb * qq + rr, aa == a, bb == b, q == qq;
        } else if a >= 0 && b < 0 {
            assert(a - q * b == rr) by (nonlinear_arith)
                requires aa == bb * qq + rr, aa == a, bb == -b, q == -qq;
        } else if a < 0 && b > 0 {
            assert(a - q * b == -rr) by (nonlinear_arith)
                requires aa == bb * qq + rr, aa == -a, bb == b, q == -qq;
        } else {
            assert(a - q * b == -rr) by (nonlinear_arith)
                requires aa == bb * qq + rr, aa == -a, bb == -b, q == qq;
        }
        if !(a == i64::MIN && b == -1) {
            assert(aa <= 0x8000_0000_0000_0000);
            if qq == 0x8000_0000_0000_0000 {
                assert(aa == 0x8000_0000_0000_0000);
                assert(bb == 1) by (nonlinear_arith)
                    requires
                        aa == bb * qq + rr,
                        qq == 0x8000_0000_0000_0000,
                        aa == 0x8000_0000_0000_0000,
                        0 <= rr,
                        bb >= 1,
                ;
            }
            assert(checked(q) == Outcome::Value(q as i64));
        } else {
            assert(aa == 0x8000_0000_0000_0000 && bb == 1);
            assert(qq == 0x8000_0000_0000_0000) by (nonlinear_arith)
                requires
                    aa == bb * qq + rr,
                    0 <= rr < bb,
                    bb == 1,
                    aa == 0x8000_0000_0000_0000,
            ;
        }
    }
}

/// The name a statement binds, if any.
pub open spec fn bound_name(s: SpecStmt) -> Option<Seq<char>> {
    match s {
        SpecStmt::Let { name, .. } => Some(name),
        SpecStmt::Assign { name, .. } => Some(name),
        SpecStmt::Expression(_) => None,
    }
}

/// `let name = value`, and `name = value` on a defined name, evaluate
/// `value` in the environment before the update and then map `name` to
/// the result, creating or overwriting it; every other name keeps its
/// value.
pub proof fn lemma_binding_statements(name: Seq<char>, value: SpecExpr, env: Bindings)
    ensures
        eval_expr(value, env) matches Outcome::Value(v) ==> {
            &&& exec_stmt(SpecStmt::Let { name, value }, env) == Outcome::Value(
                (None::<i64>, env.insert(name, v)),
            )
            &&& env.contains_key(name) ==> exec_stmt(SpecStmt::Assign { name, value }, env)
                == Outcome::Value((None::<i64>, env.insert(name, v)))
        },
{
}

/// No statement removes a variable or changes one it does not name: on
/// success every name defined before is still defined, and every name
/// other than the statement's keeps its value; an expression statement
/// changes nothing. (On failure the interpreter keeps the environment as
/// it was: see `exec`.)
pub proof fn lemma_statement_changes_only_its_name(s: SpecStmt, env: Bindings)
    ensures
        exec_stmt(s, env) matches Outcome::Value((_, after)) ==> {
            &&& forall|k: Seq<char>| env.contains_key(k) ==> #[trigger] after.contains_key(k)
            &&& forall|k: Seq<char>|
                env.contains_key(k) && bound_name(s) != Some(k) ==> #[trigger] after[k] == env[k]
            &&& bound_name(s) is None ==> after == env
        },
{
}

// ---------------------------------------------------------------------
// Arithmetic
// ---------------------------------------------------------------------

pub open spec fn binary_node(left: SpecExpr, op: BinaryOp, right: SpecExpr) -> SpecExpr {
    SpecExpr::Binary { left: Box::new(left), op, right: Box::new(right) }
}

/// The operators compute the mathematical results on the operands'
/// values: `a + b`, `a - b` and `a * b` exactly, whenever the result fits
/// in an `i64` (and an overflow otherwise), and `-a` for every `a` but
/// `i64::MIN`. So `-2 * 3` is `-6` and `3 - 5` is `-2`.
pub proof fn lemma_arithmetic_is_exact(
    left: SpecExpr,
    right: SpecExpr,
    env: Bindings,
    a: i64,
    b: i64,
)
    requires
        eval_expr(left, env) == Outcome::Value(a),
        eval_expr(right, env) == Outcome::Value(b),
    ensures
        i64::MIN <= a + b <= i64::MAX ==> eval_expr(binary_node(left, BinaryOp::Add, right), env)
            == Outcome::Value((a + b) as i64),
        i64::MIN <= a - b <= i64::MAX ==> eval_expr(
            binary_node(left, BinaryOp::Subtract, right),
            env,
        ) == Outcome::Value((a - b) as i64),
        i64::MIN <= a * b <= i64::MAX ==> eval_expr(
            binary_node(left, BinaryOp::Multiply, right),
            env,
        ) == Outcome::Value((a * b) as i64),
        !(i64::MIN <= a + b <= i64::MAX) ==> eval_expr(
            binary_node(left, BinaryOp::Add, right),
            env,
        ) is Overflow,
        !(i64::MIN <= a - b <= i64::MAX) ==> eval_expr(
            binary_node(left, BinaryOp::Subtract, right),
            env,
        ) is Overflow,
        !(i64::MIN <= a * b <= i64::MAX) ==> eval_expr(
            binary_node(left, BinaryOp::Multiply, right),
            env,
        ) is Overflow,
        a != i64::MIN ==> eval_expr(
            SpecExpr::Unary { op: UnaryOp::Negate, operand: Box::new(left) },
            env,
        ) == Outcome::Value((-a) as i64),
{
}

/// Division on the operands' values: dividing by zero is the error
/// "division by zero"; otherwise the quotient `q` leaves a remainder
/// `a - q * b` smaller than `b` in size and zero or of the sign of `a`
/// (rounding toward zero), and only `i64::MIN / -1` overflows.
pub proof fn lemma_division_is_exact(left: SpecExpr, right: SpecExpr, env: Bindings, a: i64, b: i64)
    requires
        eval_expr(left, env) == Outcome::Value(a),
        eval_expr(right, env) == Outcome::Value(b),
    ensures
        b == 0 ==> eval_expr(binary_node(left, BinaryOp::Divide, right), env) == Outcome::<
            i64,
        >::Error("division by zero"@),
        b != 0 && !(a == i64::MIN && b == -1) ==> (eval_expr(
            binary_node(left, BinaryOp::Divide, right),
            env,
        ) matches Outcome::Value(q) && abs(a - q * b) < abs(b as int) && (a - q * b == 0 || (a
            - q * b < 0) == (a < 0))),
        a == i64::MIN && b == -1 ==> eval_expr(binary_node(left, BinaryOp::Divide, right), env)
            is Overflow,
{
    lemma_division_truncates(a, b);
}

/// A name reads the value it is bound to, and an unbound name is the
/// error "undefined variable: NAME".
pub proof fn lemma_names_read_their_binding(name: Seq<char>, env: Bindings)
    ensures
        env.contains_key(name) ==> eval_expr(SpecExpr::Identifier(name), env) == Outcome::Value(
            env[name],
        ),
        !env.contains_key(name) ==> eval_expr(SpecExpr::Identifier(name), env) == Outcome::<
            i64,
        >::Error("undefined variable: "@ + name),
{
}

proof fn lemma_digit_char_value(d: nat)
    requires
        d < 10,
    ensures
        digit_value(digit_char(d)) == d,
        is_digit(digit_char(d)),
{
}

proof fn lemma_digits_of_decimal(n: nat)
    ensures
        digits_value(decimal(n)) == n,
        all_digits(decimal(n)),
        decimal(n).len() > 0,
    decreases n,
{
    if n >= 10 {
        lemma_digits_of_decimal(n / 10);
        let s = decimal(n / 10);
        let t = decimal(n);
        assert(t.drop_last() =~= s);
        assert(t.last() == digit_char(n % 10));
        vstd::arithmetic::div_mod::lemma_fundamental_div_mod(n as int, 10);
        vstd::arithmetic::div_mod::lemma_mod_pos_bound(n as int, 10);
        lemma_digit_char_value(n % 10);
        assert(digits_value(t) == digits_value(s) * 10 + digit_value(t.last()));
        assert(digits_value(s) * 10 + n % 10 == n) by (nonlinear_arith)
            requires
                digits_value(s) == n / 10,
                n == 10 * (n / 10) + n % 10,
        ;
        assert forall|k: int| 0 <= k < t.len() implies is_digit(#[trigger] t[k]) by {
            if k < s.len() {
                assert(t[k] == s[k]);
            }
        }
    } else {
        let t = decimal(n);
        assert(t.drop_last() =~= Seq::<char>::empty());
        lemma_digit_char_value(n);
        assert(t.last() == digit_char(n));
        assert(digits_value(t.drop_last()) == 0);
        assert(digits_value(t) == digits_value(t.drop_last()) * 10 + digit_value(t.last()));
    }
}

/// A literal written in decimal digits has the value those digits spell,
/// with or without a leading `-`, as far as an `i64` reaches.
pub proof fn lemma_decimal_literals(n: nat)
    ensures
        n <= i64::MAX ==> eval_expr(SpecExpr::Number(decimal(n)), Map::empty()) == Outcome::Value(
            n as i64,
        ),
        n <= 0x8000_0000_0000_0000 ==> eval_expr(
            SpecExpr::Number(seq!['-'] + decimal(n)),
            Map::empty(),
        ) == Outcome::Value((-n) as i64),
{
    lemma_digits_of_decimal(n);
    let d = decimal(n);
    assert(d[0] != '-' && d[0] != '+');
    let t = seq!['-'] + d;
    assert(t.drop_first() =~= d);
}

// ---------------------------------------------------------------------
// One environment through the whole program
// ---------------------------------------------------------------------

/// What the statements before produced does not change how the rest
/// runs: each statement runs in the environment that the earlier ones
/// left, whatever value the last of them produced.
pub proof fn lemma_run_ignores_previous_value(
    stmts: Seq<SpecStmt>,
    env: Bindings,
    last1: Option<i64>,
    last2: Option<i64>,
)
    requires
        stmts.len() > 0,
    ensures
        run_from(stmts, env, last1) == run_from(stmts, env, last2),
{
}

/// Running `s` then the rest from `env` is running the rest from the
/// environment `s` leaves, with `s`'s value as the one so far.
pub proof fn lemma_run_continues_from_statement(
    s: SpecStmt,
    rest: Seq<SpecStmt>,
    env: Bindings,
    last: Option<i64>,
)
    ensures
        run_from(seq![s] + rest, env, last) == match exec_stmt(s, env) {
            Outcome::Value((v, after)) => run_from(rest, after, v),
            Outcome::Error(m) => Outcome::Error(m),
            Outcome::Overflow => Outcome::Overflow,
        },
{
    assert((seq![s] + rest)[0] == s);
    assert((seq![s] + rest).drop_first() =~= rest);
}

/// After `name = value` on a defined name, reading `name` gives the new
/// value, whatever statements ran before and whatever they produced.
pub proof fn lemma_read_after_assignment(
    name: Seq<char>,
    value: SpecExpr,
    env: Bindings,
    last: Option<i64>,
    v: i64,
)
    requires
        env.contains_key(name),
        eval_expr(value, env) == Outcome::Value(v),
    ensures
        run_from(
            seq![SpecStmt::Assign { name, value }, SpecStmt::Expression(SpecExpr::Identifier(name))],
            env,
            last,
        ) == Outcome::Value(Some(v)),
{
    reveal_with_fuel(run_from, 3);
    let p = seq![SpecStmt::Assign { name, value }, SpecStmt::Expression(SpecExpr::Identifier(name))];
    assert(p[0] == SpecStmt::Assign { name, value });
    assert(p.drop_first() =~= seq![SpecStmt::Expression(SpecExpr::Identifier(name))]);
    assert(p.drop_first().drop_first() =~= Seq::<SpecStmt>::empty());
    let after = env.insert(name, v);
    assert(after.contains_key(name) && after[name] == v);
}

} // verus!
