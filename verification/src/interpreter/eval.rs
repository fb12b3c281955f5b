//! The tree-walking interpreter.
//!
//! `run` executes a program's statements in order, threading one
//! environment through them; `exec` runs one statement; `eval` computes one
//! expression, children first, so the tree's shape alone decides precedence.
//! Integers are `i64`: a literal is turned into a number here, and an
//! operation whose result does not fit in an `i64` is an arithmetic
//! overflow, which the contracts keep apart from the language's errors.

use vstd::prelude::*;

use crate::lexer::lexer::is_digit;
use crate::parser::ast::{program_model, BinaryOp, Expr, Program, SpecExpr, SpecStmt, Stmt, UnaryOp};
use crate::text::push_str;

verus! {

// ---------------------------------------------------------------------
// The environment
// ---------------------------------------------------------------------

/// The environment: the value of each variable, by name.
pub struct Env {
    /// Bindings in the order they were made; a later binding of a name
    /// hides the earlier ones.
    bindings: Vec<(String, i64)>,
}

pub open spec fn bindings_map(b: Seq<(String, i64)>) -> Map<Seq<char>, i64>
    decreases b.len(),
{
    if b.len() == 0 {
        Map::empty()
    } else {
        bindings_map(b.drop_last()).insert(b.last().0@, b.last().1)
    }
}

impl View for Env {
    type V = Map<Seq<char>, i64>;

    closed spec fn view(&self) -> Map<Seq<char>, i64> {
        bindings_map(self.bindings@)
    }
}

/// Bindings after index `i` that do not bind `n` do not change what `n`
/// looks up to.
proof fn lemma_lookup_ignores_suffix(b: Seq<(String, i64)>, i: int, n: Seq<char>)
    requires
        0 <= i <= b.len(),
        forall|k: int| i <= k < b.len() ==> (#[trigger] b[k]).0@ != n,
    ensures
        bindings_map(b).contains_key(n) == bindings_map(b.take(i)).contains_key(n),
        bindings_map(b).contains_key(n) ==> bindings_map(b)[n] == bindings_map(b.take(i))[n],
    decreases b.len(),
{
    if i == b.len() {
        assert(b.take(i) =~= b);
    } else {
        let last = b.len() - 1;
        assert(b[last].0@ != n);
        assert(b.drop_last().take(i) =~= b.take(i));
        lemma_lookup_ignores_suffix(b.drop_last(), i, n);
    }
}

impl Env {
    pub fn new() -> (env: Env)
        ensures
            env@ == Map::<Seq<char>, i64>::empty(),
    {
        Env { bindings: Vec::new() }
    }

    /// The value of `name`, if it is defined.
    pub fn get(&self, name: &String) -> (value: Option<i64>)
        ensures
            value == (if self@.contains_key(name@) {
                Some(self@[name@])
            } else {
                None::<i64>
            }),
    {
        let mut i = self.bindings.len();
        while i > 0
            invariant
                i <= self.bindings@.len(),
                forall|k: int| i <= k < self.bindings@.len() ==> (#[trigger] self.bindings@[k]).0@
                    != name@,
            decreases i,
        {
            if self.bindings[i - 1].0 == *name {
                proof {
                    let b = self.bindings@;
                    lemma_lookup_ignores_suffix(b, i as int, name@);
                    assert(b.take(i as int).drop_last() =~= b.take(i - 1));
                }
                return Some(self.bindings[i - 1].1);
            }
            i = i - 1;
        }
        proof {
            lemma_lookup_ignores_suffix(self.bindings@, 0, name@);
        }
        None
    }

    /// Whether `name` is defined.
    pub fn contains_key(&self, name: &String) -> (defined: bool)
        ensures
            defined == self@.contains_key(name@),
    {
        self.get(name).is_some()
    }

    /// Define `name` as `value`, creating it or overwriting it.
    pub fn insert(&mut self, name: String, value: i64)
        ensures
            final(self)@ == old(self)@.insert(name@, value),
    {
        let ghost before = self.bindings@;
        self.bindings.push((name, value));
        assert(self.bindings@.drop_last() =~= before);
    }
}

// ---------------------------------------------------------------------
// What evaluation gives
// ---------------------------------------------------------------------

/// How an evaluation ends: with a value, with an error of the language
/// (whose message is given), or with an `i64` arithmetic overflow, which
/// the library's callers must rule out.
pub enum Outcome<T> {
    Value(T),
    Error(Seq<char>),
    Overflow,
}

pub open spec fn fits_i64(x: int) -> bool {
    i64::MIN <= x <= i64::MAX
}

/// `x` as an `i64`, or an overflow.
pub open spec fn checked(x: int) -> Outcome<i64> {
    if fits_i64(x) {
        Outcome::Value(x as i64)
    } else {
        Outcome::Overflow
    }
}

pub open spec fn abs(a: int) -> int {
    if a < 0 {
        -a
    } else {
        a
    }
}

/// Integer division rounding toward zero, as `i64` division does: 7 / 2 is
/// 3 and -7 / 2 is -3.
pub open spec fn div_trunc(a: int, b: int) -> int {
    let q = abs(a) / abs(b);
    if (a < 0) != (b < 0) {
        -q
    } else {
        q
    }
}

pub open spec fn digit_value(c: char) -> nat {
    (c as int - '0' as int) as nat
}

/// The number that a string of decimal digits spells.
pub open spec fn digits_value(s: Seq<char>) -> nat
    decreases s.len(),
{
    if s.len() == 0 {
        0
    } else {
        digits_value(s.drop_last()) * 10 + digit_value(s.last())
    }
}

pub open spec fn all_digits(s: Seq<char>) -> bool {
    forall|k: int| 0 <= k < s.len() ==> is_digit(#[trigger] s[k])
}

/// What `str::parse::<i64>` gives for a text: an optional `+` or `-`
/// followed by one or more ASCII digits, whose value fits in an `i64`.
pub open spec fn literal_value(t: Seq<char>) -> Option<i64> {
    let signed = t.len() > 0 && (t[0] == '-' || t[0] == '+');
    let digits = if signed {
        t.drop_first()
    } else {
        t
    };
    let magnitude = digits_value(digits) as int;
    let v = if signed && t[0] == '-' {
        -magnitude
    } else {
        magnitude
    };
    if digits.len() > 0 && all_digits(digits) && fits_i64(v) {
        Some(v as i64)
    } else {
        None
    }
}

pub open spec fn negate(v: i64) -> Outcome<i64> {
    checked(-v)
}

/// `a op b` on `i64` values.
pub open spec fn apply(op: BinaryOp, a: i64, b: i64) -> Outcome<i64> {
    match op {
        BinaryOp::Add => checked(a + b),
        BinaryOp::Subtract => checked(a - b),
        BinaryOp::Multiply => checked(a * b),
        BinaryOp::Divide => if b == 0 {
            Outcome::Error("division by zero"@)
        } else {
            checked(div_trunc(a as int, b as int))
        },
    }
}

/// The value of an expression in an environment: children first, left
/// before right, the first error or overflow ending the evaluation.
pub open spec fn eval_expr(e: SpecExpr, env: Map<Seq<char>, i64>) -> Outcome<i64>
    decreases e,
{
    match e {
        SpecExpr::Number(text) => match literal_value(text) {
            Some(v) => Outcome::Value(v),
            None => Outcome::Error("invalid integer literal: "@ + text),
        },
        SpecExpr::Identifier(name) => if env.contains_key(name) {
            Outcome::Value(env[name])
        } else {
            Outcome::Error("undefined variable: "@ + name)
        },
        SpecExpr::Unary { op, operand } => match eval_expr(*operand, env) {
            Outcome::Value(v) => match op {
                UnaryOp::Negate => negate(v),
            },
            Outcome::Error(m) => Outcome::Error(m),
            Outcome::Overflow => Outcome::Overflow,
        },
        SpecExpr::Binary { left, op, right } => match eval_expr(*left, env) {
            Outcome::Value(a) => match eval_expr(*right, env) {
                Outcome::Value(b) => apply(op, a, b),
                Outcome::Error(m) => Outcome::Error(m),
                Outcome::Overflow => Outcome::Overflow,
            },
            Outcome::Error(m) => Outcome::Error(m),
            Outcome::Overflow => Outcome::Overflow,
        },
    }
}

/// The environment after `name` is set to the value of `value`.
pub open spec fn bind(
    name: Seq<char>,
    value: SpecExpr,
    env: Map<Seq<char>, i64>,
) -> Outcome<(Option<i64>, Map<Seq<char>, i64>)> {
    match eval_expr(value, env) {
        Outcome::Value(v) => Outcome::Value((None, env.insert(name, v))),
        Outcome::Error(m) => Outcome::Error(m),
        Outcome::Overflow => Outcome::Overflow,
    }
}

/// Running one statement: the value it produces, if any, and the
/// environment after it. `let` defines or overwrites; `=` reassigns a
/// variable that must already exist; a bare expression leaves the
/// environment as it was.
pub open spec fn exec_stmt(
    s: SpecStmt,
    env: Map<Seq<char>, i64>,
) -> Outcome<(Option<i64>, Map<Seq<char>, i64>)> {
    match s {
        SpecStmt::Let { name, value } => bind(name, value, env),
        SpecStmt::Assign { name, value } => if env.contains_key(name) {
            bind(name, value, env)
        } else {
            Outcome::Error("cannot assign to undefined variable: "@ + name)
        },
        SpecStmt::Expression(e) => match eval_expr(e, env) {
            Outcome::Value(v) => Outcome::Value((Some(v), env)),
            Outcome::Error(m) => Outcome::Error(m),
            Outcome::Overflow => Outcome::Overflow,
        },
    }
}

/// Running statements in order from `env`, where `last` is what the
/// statement before them produced: the result is what the final statement
/// produced.
pub open spec fn run_from(
    stmts: Seq<SpecStmt>,
    env: Map<Seq<char>, i64>,
    last: Option<i64>,
) -> Outcome<Option<i64>>
    decreases stmts.len(),
{
    if stmts.len() == 0 {
        Outcome::Value(last)
    } else {
        match exec_stmt(stmts[0], env) {
            Outcome::Value((v, env2)) => run_from(stmts.drop_first(), env2, v),
            Outcome::Error(m) => Outcome::Error(m),
            Outcome::Overflow => Outcome::Overflow,
        }
    }
}

/// Running a whole program from an empty environment.
pub open spec fn run_program(stmts: Seq<SpecStmt>) -> Outcome<Option<i64>> {
    run_from(stmts, Map::empty(), None)
}

/// An executable result that agrees with an outcome that is not an
/// overflow.
pub open spec fn result_matches<T>(r: Result<T, String>, o: Outcome<T>) -> bool {
    match o {
        Outcome::Value(v) => r == Ok::<T, String>(v),
        Outcome::Error(m) => r is Err && r->Err_0@ == m,
        Outcome::Overflow => false,
    }
}

// ---------------------------------------------------------------------
// The interpreter
// ---------------------------------------------------------------------

/// How an evaluation can stop early.
enum Fault {
    Error(String),
    Overflow,
}

spec fn fault_matches<T>(r: Result<T, Fault>, o: Outcome<T>) -> bool {
    match o {
        Outcome::Value(v) => r == Ok::<T, Fault>(v),
        Outcome::Error(m) => r is Err && (r->Err_0 matches Fault::Error(s) && s@ == m),
        Outcome::Overflow => r is Err && r->Err_0 is Overflow,
    }
}

fn error_with(prefix: &str, text: &String) -> (f: Fault)
    ensures
        f matches Fault::Error(s) && s@ == prefix@ + text@,
{
    let mut message = String::new();
    push_str(&mut message, prefix);
    push_str(&mut message, text.as_str());
    assert(message@ =~= prefix@ + text@);
    Fault::Error(message)
}

/// The magnitude of an `i64`, as a `u64`.
fn magnitude(a: i64) -> (m: u64)
    ensures
        m == abs(a as int),
{
    if a < 0 {
        (0i128 - a as i128) as u64
    } else {
        a as u64
    }
}

/// `a / b`, rounding toward zero, or an overflow for `i64::MIN / -1`.
fn divide(a: i64, b: i64) -> (r: Result<i64, Fault>)
    requires
        b != 0,
    ensures
        fault_matches(r, checked(div_trunc(a as int, b as int))),
{
    if a == i64::MIN && b == -1 {
        assert(abs(a as int) / abs(b as int) == 0x8000_0000_0000_0000) by (nonlinear_arith)
            requires
                abs(a as int) == 0x8000_0000_0000_0000,
                abs(b as int) == 1,
        ;
        return Err(Fault::Overflow);
    }
    let q = magnitude(a) / magnitude(b);
    assert(q <= abs(a as int)) by (nonlinear_arith)
        requires
            q == abs(a as int) / abs(b as int),
            abs(b as int) >= 1,
            abs(a as int) >= 0,
    ;
    if (a < 0) != (b < 0) {
        Ok((0i128 - q as i128) as i64)
    } else {
        assert(q < 0x8000_0000_0000_0000) by (nonlinear_arith)
            requires
                q == abs(a as int) / abs(b as int),
                abs(b as int) >= 1,
                abs(a as int) <= 0x8000_0000_0000_0000,
                abs(a as int) == 0x8000_0000_0000_0000 ==> abs(b as int) >= 2,
        ;
        Ok(q as i64)
    }
}

/// The value of a number literal, as `str::parse::<i64>` reads it.
fn parse_literal(text: &String) -> (value: Option<i64>)
    ensures
        value == literal_value(text@),
{
    let mut chars: Vec<char> = Vec::new();
    for c in it: text.as_str().chars()
        invariant
            it.seq() == text@,
            chars@ == it.seq().take(it.index() as int),
    {
        chars.push(c);
    }
    assert(chars@ =~= text@);
    let ghost t = chars@;
    let signed = chars.len() > 0 && (chars[0] == '-' || chars[0] == '+');
    let negative = signed && chars[0] == '-';
    let start: usize = if signed {
        1
    } else {
        0
    };
    let ghost digits = if signed {
        t.drop_first()
    } else {
        t
    };
    assert(digits =~= t.subrange(start as int, t.len() as int));
    if start >= chars.len() {
        return None;
    }
    // The magnitude, capped: once it passes the largest magnitude an `i64`
    // can have, its exact value no longer matters.
    let cap: u64 = 0x8000_0000_0000_0001;
    let mut acc: u64 = 0;
    let mut i: usize = start;
    while i < chars.len()
        invariant
            t == chars@,
            t == text@,
            start <= i <= chars@.len(),
            start < chars@.len(),
            digits == t.subrange(start as int, t.len() as int),
            cap == 0x8000_0000_0000_0001,
            signed == (t.len() > 0 && (t[0] == '-' || t[0] == '+')),
            start == (if signed {
                1usize
            } else {
                0usize
            }),
            negative == (signed && t[0] == '-'),
            all_digits(t.subrange(start as int, i as int)),
            acc == (if digits_value(t.subrange(start as int, i as int)) < cap {
                digits_value(t.subrange(start as int, i as int))
            } else {
                cap as nat
            }),
        decreases chars.len() - i,
    {
        let c = chars[i];
        if !('0' <= c && c <= '9') {
            proof {
                assert(digits[i - start] == c);
            }
            return None;
        }
        let d = (c as u32 - '0' as u32) as u64;
        let ghost prev = digits_value(t.subrange(start as int, i as int));
        proof {
            assert(t.subrange(start as int, i + 1).drop_last() =~= t.subrange(start as int, i as int));
            assert(d == digit_value(c));
        }
        if acc >= 922_337_203_685_477_581 {
            acc = cap;
            proof {
                assert(prev >= 922_337_203_685_477_581);
                assert(prev * 10 + d >= cap) by (nonlinear_arith)
                    requires
                        prev >= 922_337_203_685_477_581,
                        d >= 0,
                        cap == 0x8000_0000_0000_0001,
                ;
            }
        } else {
            let next = acc * 10 + d;
            acc = if next < cap {
                next
            } else {
                cap
            };
        }
        i = i + 1;
        assert(all_digits(t.subrange(start as int, i as int))) by {
            assert forall|k: int| 0 <= k < i - start implies is_digit(
                #[trigger] t.subrange(start as int, i as int)[k],
            ) by {
                if k < i - 1 - start {
                    assert(t.subrange(start as int, i - 1)[k] == t.subrange(start as int, i as int)[k]);
                }
            }
        }
    }
    assert(t.subrange(start as int, i as int) =~= digits);
    if negative {
        if acc <= 0x8000_0000_0000_0000 {
            Some((0i128 - acc as i128) as i64)
        } else {
            None
        }
    } else {
        if acc <= 0x7fff_ffff_ffff_ffff {
            Some(acc as i64)
        } else {
            None
        }
    }
}

/// Evaluate an expression, or say how its evaluation stops.
fn evaluate(expr: &Expr, env: &Env) -> (r: Result<i64, Fault>)
    ensures
        fault_matches(r, eval_expr(expr@, env@)),
    decreases expr,
{
    match expr {
        Expr::Number(text) => match parse_literal(text) {
            Some(v) => Ok(v),
            None => Err(error_with("invalid integer literal: ", text)),
        },
        Expr::Identifier(name) => match env.get(name) {
            Some(v) => Ok(v),
            None => Err(error_with("undefined variable: ", name)),
        },
        Expr::Unary { op, operand } => {
            let value = evaluate(operand, env)?;
            match op {
                UnaryOp::Negate => {
                    if value == i64::MIN {
                        Err(Fault::Overflow)
                    } else {
                        Ok(-value)
                    }
                },
            }
        },
        Expr::Binary { left, op, right } => {
            let l = evaluate(left, env)?;
            let r = evaluate(right, env)?;
            match op {
                BinaryOp::Add => match l.checked_add(r) {
                    Some(v) => Ok(v),
                    None => Err(Fault::Overflow),
                },
                BinaryOp::Subtract => match l.checked_sub(r) {
                    Some(v) => Ok(v),
                    None => Err(Fault::Overflow),
                },
                BinaryOp::Multiply => match l.checked_mul(r) {
                    Some(v) => Ok(v),
                    None => Err(Fault::Overflow),
                },
                BinaryOp::Divide => {
                    if r == 0 {
                        let mut message = String::new();
                        push_str(&mut message, "division by zero");
                        Err(Fault::Error(message))
                    } else {
                        divide(l, r)
                    }
                },
            }
        },
    }
}

/// Evaluate an expression to an integer, using the environment to look up
/// variables. The caller rules out `i64` overflow, on which the arithmetic
/// would panic.
pub fn eval(expr: &Expr, env: &Env) -> (result: Result<i64, String>)
    requires
        !(eval_expr(expr@, env@) is Overflow),
    ensures
        result_matches(result, eval_expr(expr@, env@)),
{
    match evaluate(expr, env) {
        Ok(v) => Ok(v),
        Err(Fault::Error(message)) => Err(message),
        Err(Fault::Overflow) => {
            proof {
                assert(false);
            }
            Err(String::new())
        },
    }
}

/// Execute one statement, returning its value if it is an expression.
fn exec(stmt: &Stmt, env: &mut Env) -> (r: Result<Option<i64>, Fault>)
    ensures
        match exec_stmt(stmt@, old(env)@) {
            Outcome::Value((v, env2)) => r == Ok::<Option<i64>, Fault>(v) && final(env)@ == env2,
            Outcome::Error(m) => r is Err && (r->Err_0 matches Fault::Error(s) && s@ == m)
                && final(env)@ == old(env)@,
            Outcome::Overflow => r is Err && r->Err_0 is Overflow && final(env)@ == old(env)@,
        },
{
    match stmt {
        Stmt::Let { name, value } => {
            let v = evaluate(value, env)?;
            env.insert(name.clone(), v);
            Ok(None)
        },
        Stmt::Assign { name, value } => {
            if !env.contains_key(name) {
                return Err(error_with("cannot assign to undefined variable: ", name));
            }
            let v = evaluate(value, env)?;
            env.insert(name.clone(), v);
            Ok(None)
        },
        Stmt::Expression(expr) => {
            let v = evaluate(expr, env)?;
            Ok(Some(v))
        },
    }
}

/// Run a program, or say how it stops.
fn run_program_checked(program: &Program) -> (r: Result<Option<i64>, Fault>)
    ensures
        fault_matches(r, run_program(program_model(program@))),
{
    let ghost stmts = program_model(program@);
    let mut env = Env::new();
    let mut last_value: Option<i64> = None;
    let mut i: usize = 0;
    assert(stmts.skip(0) =~= stmts);
    while i < program.len()
        invariant
            i <= program@.len(),
            stmts == program_model(program@),
            run_program(stmts) == run_from(stmts.skip(i as int), env@, last_value),
        decreases program@.len() - i,
    {
        proof {
            assert(stmts.skip(i as int)[0] == program@[i as int]@);
            assert(stmts.skip(i as int).drop_first() =~= stmts.skip(i + 1));
        }
        last_value = exec(&program[i], &mut env)?;
        i = i + 1;
    }
    proof {
        assert(stmts.skip(i as int).len() == 0);
    }
    Ok(last_value)
}

/// Run a whole program, threading one environment through all statements.
/// Returns the value of the last statement if it was an expression. The
/// caller rules out `i64` overflow, on which the arithmetic would panic.
pub fn run(program: &Program) -> (result: Result<Option<i64>, String>)
    requires
        !(run_program(program_model(program@)) is Overflow),
    ensures
        result_matches(result, run_program(program_model(program@))),
{
    match run_program_checked(program) {
        Ok(v) => Ok(v),
        Err(Fault::Error(message)) => Err(message),
        Err(Fault::Overflow) => {
            proof {
                assert(false);
            }
            Err(String::new())
        },
    }
}

/// Run a whole program as `run` does, but report an `i64` overflow as
/// `None` instead of requiring its absence.
pub fn run_checked(program: &Program) -> (result: Option<Result<Option<i64>, String>>)
    ensures
        match run_program(program_model(program@)) {
            Outcome::Overflow => result is None,
            o => result is Some && result_matches(result->Some_0, o),
        },
{
    match run_program_checked(program) {
        Ok(v) => Some(Ok(v)),
        Err(Fault::Error(message)) => Some(Err(message)),
        Err(Fault::Overflow) => None,
    }
}

} // verus!
