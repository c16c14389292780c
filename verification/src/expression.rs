//! Evaluating expression clauses (`[(< ?v 100)]`, `[(+ ?a ?b) ?c]`) against
//! the bindings of a query.
//!
//! Values are compared and combined here wherever no floating point is
//! involved. A step that needs floating point (a comparison or arithmetic
//! with a float operand, an ordering of integers beyond 2^53, the equality of
//! two floats) is handed to a caller-supplied float step; user-defined
//! predicates are applied by a caller-supplied predicate step. Both steps are
//! taken to be functions of their arguments.
use vstd::prelude::*;
use crate::types::{
    Value, ValueView, BinOp, BinOpView, UnaryOp, UnaryOpView, Expr, ExprView, WhereClause, ClauseView, value_clone,
    strs_view, opt_str_view, clauses_view, lemma_clauses_view,
};
use crate::executor::{truthy, is_truthy};
use crate::evaluator::Bindings;
use crate::prepared::{str_lt, name_less, lemma_str_lt_irreflexive, lemma_str_lt_transitive, lemma_str_lt_total};
use crate::functions::{less, FunctionRegistry, RegistryView};
use crate::clauses::regex_compile_error;
use crate::text::{chars_of, has_prefix, starts_with, str_eq, concat};
use crate::functions::value_eq;

verus! {

/// A step of expression evaluation that needs floating point.
#[derive(Debug, Clone, Copy, PartialEq, Eq, Structural)]
pub enum FloatOp {
    Lt,
    Gt,
    Lte,
    Gte,
    Eq,
    Neq,
    Add,
    Sub,
    Mul,
    Div,
}

/// The model of an evaluation result.
pub open spec fn eval_view(r: Result<Value, ()>) -> Result<ValueView, ()> {
    match r {
        Ok(v) => Ok(v@),
        Err(_) => Err(()),
    }
}

// ===================== the steps supplied by the caller =====================

/// A float step answers alike for arguments with equal models.
pub open spec fn float_step_deterministic<F: Fn(FloatOp, Value, Value) -> Result<Value, ()>>(f: F) -> bool {
    forall|op: FloatOp, x1: Value, y1: Value, o1: Result<Value, ()>, x2: Value, y2: Value, o2: Result<Value, ()>|
        #![trigger call_ensures(f, (op, x1, y1), o1), call_ensures(f, (op, x2, y2), o2)]
        x1@ == x2@ && y1@ == y2@ && call_ensures(f, (op, x1, y1), o1) && call_ensures(f, (op, x2, y2), o2)
            ==> eval_view(o1) == eval_view(o2)
}

/// The float step can be called on any arguments.
pub open spec fn float_step_total<F: Fn(FloatOp, Value, Value) -> Result<Value, ()>>(f: F) -> bool {
    forall|op: FloatOp, x: Value, y: Value| call_requires(f, (op, x, y))
}

/// What the float step answers for `op` on values with models `a` and `b`.
pub open spec fn float_answer<F: Fn(FloatOp, Value, Value) -> Result<Value, ()>>(
    f: F,
    op: FloatOp,
    a: ValueView,
    b: ValueView,
) -> Result<ValueView, ()> {
    let (_, _, o) = choose|x: Value, y: Value, o: Result<Value, ()>|
        x@ == a && y@ == b && #[trigger] call_ensures(f, (op, x, y), o);
    eval_view(o)
}

/// The float step as a function on models.
pub open spec fn float_fn<F: Fn(FloatOp, Value, Value) -> Result<Value, ()>>(f: F) -> spec_fn(
    FloatOp,
    ValueView,
    ValueView,
) -> Result<ValueView, ()> {
    |op: FloatOp, a: ValueView, b: ValueView| float_answer(f, op, a, b)
}

proof fn lemma_float_answer<F: Fn(FloatOp, Value, Value) -> Result<Value, ()>>(
    f: F,
    op: FloatOp,
    x: Value,
    y: Value,
    o: Result<Value, ()>,
)
    requires
        float_step_deterministic(f),
        call_ensures(f, (op, x, y), o),
    ensures
        eval_view(o) == float_fn(f)(op, x@, y@),
{
    let (x2, y2, o2) = choose|x2: Value, y2: Value, o2: Result<Value, ()>|
        x2@ == x@ && y2@ == y@ && #[trigger] call_ensures(f, (op, x2, y2), o2);
    assert(call_ensures(f, (op, x2, y2), o2) && call_ensures(f, (op, x, y), o));
}

/// A predicate step answers alike for arguments with equal models.
pub open spec fn predicate_step_deterministic<G: Fn(&str, &Value) -> bool>(g: G) -> bool {
    forall|n1: &str, x1: &Value, o1: bool, n2: &str, x2: &Value, o2: bool|
        #![trigger call_ensures(g, (n1, x1), o1), call_ensures(g, (n2, x2), o2)]
        n1@ == n2@ && x1@ == x2@ && call_ensures(g, (n1, x1), o1) && call_ensures(g, (n2, x2), o2) ==> o1 == o2
}

/// The predicate step can be called on any arguments.
pub open spec fn predicate_step_total<G: Fn(&str, &Value) -> bool>(g: G) -> bool {
    forall|n: &str, x: &Value| call_requires(g, (n, x))
}

/// What the predicate step answers for the predicate named `n` on a value
/// with model `a`.
pub open spec fn predicate_answer<G: Fn(&str, &Value) -> bool>(g: G, n: Seq<char>, a: ValueView) -> bool {
    let (_, _, o) = choose|m: &str, x: &Value, o: bool| m@ == n && x@ == a && #[trigger] call_ensures(g, (m, x), o);
    o
}

proof fn lemma_predicate_answer<G: Fn(&str, &Value) -> bool>(g: G, n: &str, x: &Value, o: bool)
    requires
        predicate_step_deterministic(g),
        call_ensures(g, (n, x), o),
    ensures
        o == predicate_answer(g, n@, x@),
{
    let (n2, x2, o2) = choose|n2: &str, x2: &Value, o2: bool|
        n2@ == n@ && x2@ == x@ && #[trigger] call_ensures(g, (n2, x2), o2);
    assert(call_ensures(g, (n2, x2), o2) && call_ensures(g, (n, x), o));
}

/// A user-defined predicate is registered under `n` (built-in names are
/// sentinels, not applied through the registry).
pub open spec fn user_predicate(reg: RegistryView, n: Seq<char>) -> bool {
    reg.predicates.contains_key(n) && !reg.predicates[n].is_builtin
}

/// User-defined predicates as a function on models: `None` for a name that
/// is not registered as one.
pub open spec fn predicate_fn<G: Fn(&str, &Value) -> bool>(reg: RegistryView, g: G) -> spec_fn(
    Seq<char>,
    ValueView,
) -> Option<bool> {
    |n: Seq<char>, a: ValueView|
        if user_predicate(reg, n) {
            Some(predicate_answer(g, n, a))
        } else {
            None
        }
}

// ===================== the meaning of an expression =====================

/// Integers of at most this magnitude convert to floating point exactly, so
/// their ordering as floats is their ordering as integers.
pub open spec fn exact_as_float(i: i64) -> bool {
    -9007199254740992 <= i <= 9007199254740992
}

/// An integer or a float.
pub open spec fn is_number(v: ValueView) -> bool {
    v is Integer || v is Float
}

/// `s` ends with `p`.
pub open spec fn has_suffix(s: Seq<char>, p: Seq<char>) -> bool {
    p.len() <= s.len() && s.subrange(s.len() - p.len(), s.len() as int) == p
}

/// `p` occurs in `s`.
pub open spec fn has_infix(s: Seq<char>, p: Seq<char>) -> bool {
    exists|i: int| 0 <= i <= s.len() - p.len() && #[trigger] s.subrange(i, i + p.len()) == p
}

/// Whether regex-lite's `Regex::is_match` finds the compiled pattern `p` in `s`.
pub uninterp spec fn regex_is_match(p: Seq<char>, s: Seq<char>) -> bool;

/// regex-lite: `Regex::new(p)`, then `is_match(s)`; `None` where the pattern
/// does not compile. Whether it matches is named (`regex_is_match`), as the
/// pattern language is the crate's grammar.
#[verifier::external_body]
fn regex_match(p: &str, s: &str) -> (r: Option<bool>)
    ensures
        r is None <==> regex_compile_error(p@) is Some,
        r matches Some(m) ==> m == regex_is_match(p@, s@),
{
    match regex_lite::Regex::new(p) {
        Ok(re) => Some(re.is_match(s)),
        Err(_) => None,
    }
}

/// The float step for an ordering operator.
pub open spec fn ordering_float_op(op: BinOpView) -> FloatOp {
    match op {
        BinOpView::Lt => FloatOp::Lt,
        BinOpView::Gt => FloatOp::Gt,
        BinOpView::Lte => FloatOp::Lte,
        _ => FloatOp::Gte,
    }
}

/// The float step for an arithmetic operator.
pub open spec fn arith_float_op(op: BinOpView) -> FloatOp {
    match op {
        BinOpView::Add => FloatOp::Add,
        BinOpView::Sub => FloatOp::Sub,
        BinOpView::Mul => FloatOp::Mul,
        _ => FloatOp::Div,
    }
}

/// An ordering operator on two strings: strings order lexicographically.
pub open spec fn str_order(op: BinOpView, x: Seq<char>, y: Seq<char>) -> bool {
    match op {
        BinOpView::Lt => str_lt(x, y),
        BinOpView::Gt => str_lt(y, x),
        BinOpView::Lte => !str_lt(y, x),
        _ => !str_lt(x, y),
    }
}

/// An ordering operator on two integers.
pub open spec fn int_order(op: BinOpView, x: i64, y: i64) -> bool {
    match op {
        BinOpView::Lt => x < y,
        BinOpView::Gt => x > y,
        BinOpView::Lte => x <= y,
        _ => x >= y,
    }
}

/// An arithmetic operator on two integers: addition, subtraction and
/// multiplication wrap; division truncates, and fails on a zero divisor and
/// on the one quotient that overflows (`i64::MIN / -1`).
pub open spec fn int_arith(op: BinOpView, x: i64, y: i64) -> Result<ValueView, ()> {
    match op {
        BinOpView::Add => Ok(ValueView::Integer(x.wrapping_add(y))),
        BinOpView::Sub => Ok(ValueView::Integer(x.wrapping_sub(y))),
        BinOpView::Mul => Ok(ValueView::Integer(x.wrapping_mul(y))),
        _ => match x.checked_div(y) {
            Some(q) => Ok(ValueView::Integer(q)),
            None => Err(()),
        },
    }
}

/// A binary operator on two values; `fl` is the float step. Equality is
/// structural (two floats by the float step); an ordering compares two
/// strings, or two numbers; arithmetic needs two numbers; the string
/// predicates need two strings.
pub open spec fn spec_binop(
    op: BinOpView,
    a: ValueView,
    b: ValueView,
    fl: spec_fn(FloatOp, ValueView, ValueView) -> Result<ValueView, ()>,
) -> Result<ValueView, ()> {
    match op {
        BinOpView::Eq => if a is Float && b is Float {
            fl(FloatOp::Eq, a, b)
        } else {
            Ok(ValueView::Boolean(a == b))
        },
        BinOpView::Neq => if a is Float && b is Float {
            fl(FloatOp::Neq, a, b)
        } else {
            Ok(ValueView::Boolean(a != b))
        },
        BinOpView::Lt | BinOpView::Gt | BinOpView::Lte | BinOpView::Gte => match (a, b) {
            (ValueView::Str(x), ValueView::Str(y)) => Ok(ValueView::Boolean(str_order(op, x, y))),
            (ValueView::Integer(x), ValueView::Integer(y)) => if exact_as_float(x) && exact_as_float(y) {
                Ok(ValueView::Boolean(int_order(op, x, y)))
            } else {
                fl(ordering_float_op(op), a, b)
            },
            _ => if is_number(a) && is_number(b) {
                fl(ordering_float_op(op), a, b)
            } else {
                Err(())
            },
        },
        BinOpView::Add | BinOpView::Sub | BinOpView::Mul | BinOpView::Div => match (a, b) {
            (ValueView::Integer(x), ValueView::Integer(y)) => int_arith(op, x, y),
            _ => if is_number(a) && is_number(b) {
                fl(arith_float_op(op), a, b)
            } else {
                Err(())
            },
        },
        BinOpView::StartsWith => match (a, b) {
            (ValueView::Str(s), ValueView::Str(p)) => Ok(ValueView::Boolean(has_prefix(s, p))),
            _ => Err(()),
        },
        BinOpView::EndsWith => match (a, b) {
            (ValueView::Str(s), ValueView::Str(p)) => Ok(ValueView::Boolean(has_suffix(s, p))),
            _ => Err(()),
        },
        BinOpView::Contains => match (a, b) {
            (ValueView::Str(s), ValueView::Str(p)) => Ok(ValueView::Boolean(has_infix(s, p))),
            _ => Err(()),
        },
        BinOpView::Matches(p) => match (a, b) {
            (ValueView::Str(s), ValueView::Str(_)) => match regex_compile_error(p) {
                None => Ok(ValueView::Boolean(regex_is_match(p, s))),
                Some(_) => Err(()),
            },
            _ => Err(()),
        },
    }
}

/// A unary predicate on a value; `pr` applies user-defined predicates
/// (`None` for a name that is not registered, which fails).
pub open spec fn spec_unary(op: UnaryOpView, v: ValueView, pr: spec_fn(Seq<char>, ValueView) -> Option<bool>) -> Result<
    ValueView,
    (),
> {
    match op {
        UnaryOpView::StringQ => Ok(ValueView::Boolean(v is Str)),
        UnaryOpView::IntegerQ => Ok(ValueView::Boolean(v is Integer)),
        UnaryOpView::FloatQ => Ok(ValueView::Boolean(v is Float)),
        UnaryOpView::BooleanQ => Ok(ValueView::Boolean(v is Boolean)),
        UnaryOpView::NilQ => Ok(ValueView::Boolean(v is Null)),
        UnaryOpView::Udf(n) => match pr(n, v) {
            Some(t) => Ok(ValueView::Boolean(t)),
            None => Err(()),
        },
    }
}

/// The value of an expression under bindings `b`: a variable is its bound
/// value (unbound fails), a literal itself, an unfilled slot fails; the
/// operands of an operator are evaluated left to right and a failure of
/// either fails the whole.
pub open spec fn spec_eval(
    e: ExprView,
    b: Map<Seq<char>, ValueView>,
    fl: spec_fn(FloatOp, ValueView, ValueView) -> Result<ValueView, ()>,
    pr: spec_fn(Seq<char>, ValueView) -> Option<bool>,
) -> Result<ValueView, ()>
    decreases e,
{
    match e {
        ExprView::Var(v) => if b.contains_key(v) {
            Ok(b[v])
        } else {
            Err(())
        },
        ExprView::Lit(v) => Ok(v),
        ExprView::Slot(_) => Err(()),
        ExprView::UnaryOp(op, arg) => match spec_eval(*arg, b, fl, pr) {
            Ok(v) => spec_unary(op, v, pr),
            Err(_) => Err(()),
        },
        ExprView::BinOp(op, lhs, rhs) => match spec_eval(*lhs, b, fl, pr) {
            Ok(lv) => match spec_eval(*rhs, b, fl, pr) {
                Ok(rv) => spec_binop(op, lv, rv, fl),
                Err(_) => Err(()),
            },
            Err(_) => Err(()),
        },
    }
}

/// Strings order totally under the comparison operators, in the order that
/// `min` and `max` use: of `(< a b)` and `(>= a b)` exactly one holds, and of
/// `(> a b)` and `(<= a b)`; for equal strings the strict comparisons are
/// false and the others true; for different strings exactly one of `(< a b)`
/// and `(> a b)` holds.
pub proof fn lemma_string_comparison_total(
    a: Seq<char>,
    b: Seq<char>,
    fl: spec_fn(FloatOp, ValueView, ValueView) -> Result<ValueView, ()>,
)
    ensures
        spec_binop(BinOpView::Lt, ValueView::Str(a), ValueView::Str(b), fl) == Ok::<ValueView, ()>(
            ValueView::Boolean(less(ValueView::Str(a), ValueView::Str(b))),
        ),
        spec_binop(BinOpView::Gte, ValueView::Str(a), ValueView::Str(b), fl) == Ok::<ValueView, ()>(
            ValueView::Boolean(!less(ValueView::Str(a), ValueView::Str(b))),
        ),
        spec_binop(BinOpView::Gt, ValueView::Str(a), ValueView::Str(b), fl) == Ok::<ValueView, ()>(
            ValueView::Boolean(less(ValueView::Str(b), ValueView::Str(a))),
        ),
        spec_binop(BinOpView::Lte, ValueView::Str(a), ValueView::Str(b), fl) == Ok::<ValueView, ()>(
            ValueView::Boolean(!less(ValueView::Str(b), ValueView::Str(a))),
        ),
        a == b ==> !less(ValueView::Str(a), ValueView::Str(b)),
        a != b ==> less(ValueView::Str(a), ValueView::Str(b)) != less(ValueView::Str(b), ValueView::Str(a)),
{
    if a == b {
        lemma_str_lt_irreflexive(a);
    } else {
        lemma_str_lt_total(a, b);
        if str_lt(a, b) && str_lt(b, a) {
            lemma_str_lt_transitive(a, b, a);
            lemma_str_lt_irreflexive(a);
        }
    }
}

/// Two integers within 2^53 (the integers an `f64` holds exactly) compare
/// as integers, whatever the float step: `<`, `>`, `<=` and `>=` answer the
/// integer comparison, so `(<= x x)` and `(>= x x)` hold and `(< x x)` and
/// `(> x x)` do not, `(<= x y)` is the negation of `(> x y)` and of
/// `(< y x)`, and `(>= x y)` the negation of `(< x y)`.
pub proof fn lemma_integer_ordering(
    x: i64,
    y: i64,
    fl: spec_fn(FloatOp, ValueView, ValueView) -> Result<ValueView, ()>,
)
    requires
        -9007199254740992 <= x <= 9007199254740992,
        -9007199254740992 <= y <= 9007199254740992,
    ensures
        spec_binop(BinOpView::Lt, ValueView::Integer(x), ValueView::Integer(y), fl) == Ok::<ValueView, ()>(
            ValueView::Boolean(x < y),
        ),
        spec_binop(BinOpView::Gt, ValueView::Integer(x), ValueView::Integer(y), fl) == Ok::<ValueView, ()>(
            ValueView::Boolean(x > y),
        ),
        spec_binop(BinOpView::Lte, ValueView::Integer(x), ValueView::Integer(y), fl) == Ok::<ValueView, ()>(
            ValueView::Boolean(x <= y),
        ),
        spec_binop(BinOpView::Gte, ValueView::Integer(x), ValueView::Integer(y), fl) == Ok::<ValueView, ()>(
            ValueView::Boolean(x >= y),
        ),
        spec_binop(BinOpView::Lte, ValueView::Integer(x), ValueView::Integer(x), fl) == Ok::<ValueView, ()>(
            ValueView::Boolean(true),
        ),
        spec_binop(BinOpView::Gte, ValueView::Integer(x), ValueView::Integer(x), fl) == Ok::<ValueView, ()>(
            ValueView::Boolean(true),
        ),
        spec_binop(BinOpView::Lt, ValueView::Integer(x), ValueView::Integer(x), fl) == Ok::<ValueView, ()>(
            ValueView::Boolean(false),
        ),
        spec_binop(BinOpView::Gt, ValueView::Integer(x), ValueView::Integer(x), fl) == Ok::<ValueView, ()>(
            ValueView::Boolean(false),
        ),
{
}

/// Integer arithmetic gives the mathematical sum, difference and product
/// whenever it fits an `i64`; division by zero fails; any other division
/// except `i64::MIN / -1` gives the quotient truncated toward zero: `q` with
/// `x == q * y + r`, where the remainder `r` is smaller than `y` in size and
/// is zero or has the sign of `x`.
pub proof fn lemma_integer_arithmetic(
    x: i64,
    y: i64,
    fl: spec_fn(FloatOp, ValueView, ValueView) -> Result<ValueView, ()>,
)
    ensures
        i64::MIN <= x + y <= i64::MAX ==> spec_binop(BinOpView::Add, ValueView::Integer(x), ValueView::Integer(y), fl)
            == Ok::<ValueView, ()>(ValueView::Integer((x + y) as i64)),
        i64::MIN <= x - y <= i64::MAX ==> spec_binop(BinOpView::Sub, ValueView::Integer(x), ValueView::Integer(y), fl)
            == Ok::<ValueView, ()>(ValueView::Integer((x - y) as i64)),
        i64::MIN <= x * y <= i64::MAX ==> spec_binop(BinOpView::Mul, ValueView::Integer(x), ValueView::Integer(y), fl)
            == Ok::<ValueView, ()>(ValueView::Integer((x * y) as i64)),
        y == 0 ==> spec_binop(BinOpView::Div, ValueView::Integer(x), ValueView::Integer(y), fl) is Err,
        y != 0 && !(x == i64::MIN && y == -1) ==> ({
            let r = spec_binop(BinOpView::Div, ValueView::Integer(x), ValueView::Integer(y), fl);
            &&& r matches Ok(ValueView::Integer(q))
            &&& {
                let q = r->Ok_0->Integer_0 as int;
                let rem = x - q * y;
                &&& (if rem >= 0 { rem } else { -rem }) < (if y >= 0 { y as int } else { -y })
                &&& (rem == 0 || (rem > 0) == (x > 0))
            }
        }),
{
    let p = x * y;
    if i64::MIN <= p <= i64::MAX {
        let range: int = 0x1_0000_0000_0000_0000;
        if p >= 0 {
            assert(p % range == p);
        } else {
            assert(p % range == p + range);
        }
    }
    if y != 0 && !(x == i64::MIN && y == -1) {
        let xi = x as int;
        let d = y as int;
        let out: int = if xi == 0 {
            0
        } else if xi > 0 && d > 0 {
            lemma_div_bounds(xi, d);
            xi / d
        } else if xi < 0 && d < 0 {
            lemma_div_bounds(-xi, -d);
            let q = (-xi) / (-d);
            if d == -1 {
                assert(q == -xi);
            } else {
                vstd::arithmetic::div_mod::lemma_div_is_ordered_by_denominator(-xi, 2, -d);
            }
            assert(q * d == -(q * (-d))) by (nonlinear_arith);
            q
        } else if xi < 0 {
            lemma_div_bounds(-xi, d);
            let q = (-xi) / d;
            assert((q * -1) * d == -(q * d)) by (nonlinear_arith);
            q * -1
        } else {
            lemma_div_bounds(xi, -d);
            let q = xi / (-d);
            assert((q * -1) * d == q * (-d)) by (nonlinear_arith);
            q * -1
        };
        assert(i64::MIN <= out <= i64::MAX);
        assert(x.checked_div(y) == Some(out as i64));
        let rem = xi - out * d;
        assert((if rem >= 0 { rem } else { -rem }) < (if d >= 0 { d } else { -d }));
        assert(rem == 0 || (rem > 0) == (xi > 0));
    }
}

proof fn lemma_div_bounds(a: int, b: int)
    requires
        a > 0,
        b > 0,
    ensures
        0 <= a / b <= a,
        0 <= a - (a / b) * b < b,
        a - (a / b) * b == a % b,
{
    vstd::arithmetic::div_mod::lemma_fundamental_div_mod(a, b);
    vstd::arithmetic::div_mod::lemma_div_pos_is_pos(a, b);
    vstd::arithmetic::div_mod::lemma_div_is_ordered_by_denominator(a, 1, b);
    vstd::arithmetic::mul::lemma_mul_is_commutative(b, a / b);
}

/// Equality of two values that are not both floats is structural, so every
/// such value equals itself, and `!=` answers the negation of `=`.
pub proof fn lemma_structural_equality(
    a: ValueView,
    b: ValueView,
    fl: spec_fn(FloatOp, ValueView, ValueView) -> Result<ValueView, ()>,
)
    requires
        !(a is Float && b is Float),
    ensures
        spec_binop(BinOpView::Eq, a, b, fl) == Ok::<ValueView, ()>(ValueView::Boolean(a == b)),
        spec_binop(BinOpView::Neq, a, b, fl) == Ok::<ValueView, ()>(ValueView::Boolean(a != b)),
        !(a is Float) ==> spec_binop(BinOpView::Eq, a, a, fl) == Ok::<ValueView, ()>(ValueView::Boolean(true)),
{
}

/// The characters of `p` stand in `s` from offset `k` on.
pub open spec fn chars_at(s: Seq<char>, p: Seq<char>, k: int) -> bool {
    forall|i: int| 0 <= i < p.len() ==> #[trigger] s[k + i] == p[i]
}

/// The string predicates look at characters: `starts-with?` holds when the
/// pattern's characters open the string, `ends-with?` when they close it,
/// `includes?` when they occur in it at some offset; all three fail unless
/// both operands are strings.
pub proof fn lemma_string_predicates(
    s: Seq<char>,
    p: Seq<char>,
    fl: spec_fn(FloatOp, ValueView, ValueView) -> Result<ValueView, ()>,
)
    ensures
        spec_binop(BinOpView::StartsWith, ValueView::Str(s), ValueView::Str(p), fl) == Ok::<ValueView, ()>(
            ValueView::Boolean(p.len() <= s.len() && forall|i: int| 0 <= i < p.len() ==> s[i] == p[i]),
        ),
        spec_binop(BinOpView::EndsWith, ValueView::Str(s), ValueView::Str(p), fl) == Ok::<ValueView, ()>(
            ValueView::Boolean(
                p.len() <= s.len() && forall|i: int| 0 <= i < p.len() ==> s[s.len() - p.len() + i] == p[i],
            ),
        ),
        spec_binop(BinOpView::Contains, ValueView::Str(s), ValueView::Str(p), fl) == Ok::<ValueView, ()>(
            ValueView::Boolean(exists|k: int| 0 <= k <= s.len() - p.len() && #[trigger] chars_at(s, p, k)),
        ),
        forall|a: ValueView, b: ValueView|
            !(a is Str && b is Str) ==> spec_binop(BinOpView::StartsWith, a, b, fl) is Err && spec_binop(
                BinOpView::EndsWith,
                a,
                b,
                fl,
            ) is Err && spec_binop(BinOpView::Contains, a, b, fl) is Err,
{
    if p.len() <= s.len() {
        if forall|i: int| 0 <= i < p.len() ==> s[i] == p[i] {
            assert(s.subrange(0, p.len() as int) =~= p);
        }
        if s.subrange(0, p.len() as int) == p {
            assert forall|i: int| 0 <= i < p.len() implies s[i] == p[i] by {
                assert(s.subrange(0, p.len() as int)[i] == s[i]);
            }
        }
        let o = s.len() - p.len();
        if forall|i: int| 0 <= i < p.len() ==> s[s.len() - p.len() + i] == p[i] {
            assert(s.subrange(o, s.len() as int) =~= p);
        }
        if s.subrange(o, s.len() as int) == p {
            assert forall|i: int| 0 <= i < p.len() implies s[s.len() - p.len() + i] == p[i] by {
                assert(s.subrange(o, s.len() as int)[i] == s[o + i]);
            }
        }
    }
    if has_infix(s, p) {
        let k = choose|k: int| 0 <= k <= s.len() - p.len() && #[trigger] s.subrange(k, k + p.len()) == p;
        assert forall|i: int| 0 <= i < p.len() implies #[trigger] s[k + i] == p[i] by {
            assert(s.subrange(k, k + p.len())[i] == s[k + i]);
        }
        assert(chars_at(s, p, k));
    }
    if exists|k: int| 0 <= k <= s.len() - p.len() && #[trigger] chars_at(s, p, k) {
        let k = choose|k: int| 0 <= k <= s.len() - p.len() && #[trigger] chars_at(s, p, k);
        assert forall|i: int| 0 <= i < p.len() implies #[trigger] s.subrange(k, k + p.len())[i] == p[i] by {
            assert(s[k + i] == p[i]);
        }
        assert(s.subrange(k, k + p.len()) =~= p);
    }
}

/// Each type predicate holds exactly for its kind of value, so at most one
/// of them holds for any value.
pub proof fn lemma_type_predicates(v: ValueView, pr: spec_fn(Seq<char>, ValueView) -> Option<bool>)
    ensures
        spec_unary(UnaryOpView::StringQ, v, pr) == Ok::<ValueView, ()>(ValueView::Boolean(v is Str)),
        spec_unary(UnaryOpView::IntegerQ, v, pr) == Ok::<ValueView, ()>(ValueView::Boolean(v is Integer)),
        spec_unary(UnaryOpView::FloatQ, v, pr) == Ok::<ValueView, ()>(ValueView::Boolean(v is Float)),
        spec_unary(UnaryOpView::BooleanQ, v, pr) == Ok::<ValueView, ()>(ValueView::Boolean(v is Boolean)),
        spec_unary(UnaryOpView::NilQ, v, pr) == Ok::<ValueView, ()>(ValueView::Boolean(v is Null)),
{
}

/// The float step answers every ordering of two numbers with a boolean (as
/// `f64` comparison does, false against NaN).
pub open spec fn float_orders_answer(fl: spec_fn(FloatOp, ValueView, ValueView) -> Result<ValueView, ()>) -> bool {
    forall|op: FloatOp, a: ValueView, b: ValueView|
        (op == FloatOp::Lt || op == FloatOp::Gt || op == FloatOp::Lte || op == FloatOp::Gte) && is_number(a)
            && is_number(b) ==> (#[trigger] fl(op, a, b)) is Ok && fl(op, a, b)->Ok_0 is Boolean
}

/// An ordering comparison fails exactly when its operands are neither two
/// strings nor two numbers; otherwise it gives a boolean (two strings
/// lexicographically, two integers within 2^53 exactly, other numbers by
/// the float step, which must answer orderings with booleans).
pub proof fn lemma_ordering_comparison(
    op: BinOpView,
    a: ValueView,
    b: ValueView,
    fl: spec_fn(FloatOp, ValueView, ValueView) -> Result<ValueView, ()>,
)
    requires
        op is Lt || op is Gt || op is Lte || op is Gte,
        float_orders_answer(fl),
    ensures
        spec_binop(op, a, b, fl) is Err <==> !((a is Str && b is Str) || (is_number(a) && is_number(b))),
        spec_binop(op, a, b, fl) is Ok ==> spec_binop(op, a, b, fl)->Ok_0 is Boolean,
{
    let fop = ordering_float_op(op);
    assert(fop == FloatOp::Lt || fop == FloatOp::Gt || fop == FloatOp::Lte || fop == FloatOp::Gte);
    if is_number(a) && is_number(b) {
        assert(fl(fop, a, b) is Ok && fl(fop, a, b)->Ok_0 is Boolean);
    }
}

// ===================== evaluation =====================

fn ends_with(s: &str, p: &str) -> (r: bool)
    ensures
        r == has_suffix(s@, p@),
{
    let sv = chars_of(s);
    let pv = chars_of(p);
    if pv.len() > sv.len() {
        return false;
    }
    let off = sv.len() - pv.len();
    let mut i: usize = 0;
    while i < pv.len()
        invariant
            off + pv@.len() == sv@.len(),
            sv@.len() == sv.len(),
            i <= pv@.len(),
            sv@ == s@,
            pv@ == p@,
            forall|j: int| 0 <= j < i ==> sv@[off + j] == pv@[j],
        decreases pv@.len() - i,
    {
        if sv[off + i] != pv[i] {
            assert(s@.subrange(off as int, s@.len() as int)[i as int] != p@[i as int]);
            return false;
        }
        i = i + 1;
    }
    assert(s@.subrange(off as int, s@.len() as int) =~= p@);
    true
}

fn occurs_at(sv: &Vec<char>, pv: &Vec<char>, k: usize) -> (r: bool)
    requires
        k + pv@.len() <= sv@.len(),
    ensures
        r == (sv@.subrange(k as int, k + pv@.len()) == pv@),
{
    let mut i: usize = 0;
    while i < pv.len()
        invariant
            k + pv@.len() <= sv@.len(),
            sv@.len() == sv.len(),
            i <= pv@.len(),
            forall|j: int| 0 <= j < i ==> sv@[k + j] == pv@[j],
        decreases pv@.len() - i,
    {
        if sv[k + i] != pv[i] {
            assert(sv@.subrange(k as int, k + pv@.len())[i as int] != pv@[i as int]);
            return false;
        }
        i = i + 1;
    }
    assert(sv@.subrange(k as int, k + pv@.len()) =~= pv@);
    true
}

pub(crate) fn contains_text(s: &str, p: &str) -> (r: bool)
    ensures
        r == has_infix(s@, p@),
{
    let sv = chars_of(s);
    let pv = chars_of(p);
    if pv.len() > sv.len() {
        return false;
    }
    let last = sv.len() - pv.len();
    let mut k: usize = 0;
    loop
        invariant
            last + pv@.len() == sv@.len(),
            k <= last,
            sv@ == s@,
            pv@ == p@,
            forall|j: int| 0 <= j < k ==> #[trigger] s@.subrange(j, j + p@.len()) != p@,
        ensures
            forall|j: int| 0 <= j <= last ==> #[trigger] s@.subrange(j, j + p@.len()) != p@,
        decreases last - k,
    {
        if occurs_at(&sv, &pv, k) {
            return true;
        }
        if k == last {
            break;
        }
        k = k + 1;
    }
    false
}

pub(crate) fn is_number_value(v: &Value) -> (r: bool)
    ensures
        r == is_number(v@),
{
    match v {
        Value::Integer(_) => true,
        Value::Float(_) => true,
        _ => false,
    }
}

fn ordering_step(op: &BinOp) -> (r: FloatOp)
    ensures
        r == ordering_float_op(op@),
{
    match op {
        BinOp::Lt => FloatOp::Lt,
        BinOp::Gt => FloatOp::Gt,
        BinOp::Lte => FloatOp::Lte,
        _ => FloatOp::Gte,
    }
}

fn arith_step(op: &BinOp) -> (r: FloatOp)
    ensures
        r == arith_float_op(op@),
{
    match op {
        BinOp::Add => FloatOp::Add,
        BinOp::Sub => FloatOp::Sub,
        BinOp::Mul => FloatOp::Mul,
        _ => FloatOp::Div,
    }
}

pub(crate) fn call_float_step<F: Fn(FloatOp, Value, Value) -> Result<Value, ()>>(
    float_step: &F,
    op: FloatOp,
    l: Value,
    r: Value,
) -> (res: Result<Value, ()>)
    requires
        float_step_total(*float_step),
        float_step_deterministic(*float_step),
    ensures
        eval_view(res) == float_fn(*float_step)(op, l@, r@),
{
    let ghost lv = l@;
    let ghost rv = r@;
    let ghost (l0, r0) = (l, r);
    let res = float_step(op, l, r);
    proof {
        lemma_float_answer(*float_step, op, l0, r0, res);
    }
    res
}

/// Applies a binary operator to two values (see `spec_binop`); steps that
/// need floating point go to `float_step`.
pub fn eval_binop<F: Fn(FloatOp, Value, Value) -> Result<Value, ()>>(
    op: &BinOp,
    l: Value,
    r: Value,
    float_step: &F,
) -> (res: Result<Value, ()>)
    requires
        float_step_total(*float_step),
        float_step_deterministic(*float_step),
    ensures
        eval_view(res) == spec_binop(op@, l@, r@, float_fn(*float_step)),
{
    let both_float = match (&l, &r) {
        (Value::Float(_), Value::Float(_)) => true,
        _ => false,
    };
    match op {
        BinOp::Eq => {
            if both_float {
                call_float_step(float_step, FloatOp::Eq, l, r)
            } else {
                Ok(Value::Boolean(value_eq(&l, &r)))
            }
        },
        BinOp::Neq => {
            if both_float {
                call_float_step(float_step, FloatOp::Neq, l, r)
            } else {
                Ok(Value::Boolean(!value_eq(&l, &r)))
            }
        },
        BinOp::Lt | BinOp::Gt | BinOp::Lte | BinOp::Gte => {
            let decided: Option<bool> = match (&l, &r) {
                (Value::String(x), Value::String(y)) => Some(
                    match op {
                        BinOp::Lt => name_less(x.as_str(), y.as_str()),
                        BinOp::Gt => name_less(y.as_str(), x.as_str()),
                        BinOp::Lte => !name_less(y.as_str(), x.as_str()),
                        _ => !name_less(x.as_str(), y.as_str()),
                    },
                ),
                (Value::Integer(x), Value::Integer(y)) => {
                    if -9007199254740992 <= *x && *x <= 9007199254740992 && -9007199254740992 <= *y && *y
                        <= 9007199254740992 {
                        Some(
                            match op {
                                BinOp::Lt => *x < *y,
                                BinOp::Gt => *x > *y,
                                BinOp::Lte => *x <= *y,
                                _ => *x >= *y,
                            },
                        )
                    } else {
                        None
                    }
                },
                _ => None,
            };
            match decided {
                Some(t) => Ok(Value::Boolean(t)),
                None => {
                    if is_number_value(&l) && is_number_value(&r) {
                        let fo = ordering_step(op);
                        call_float_step(float_step, fo, l, r)
                    } else {
                        Err(())
                    }
                },
            }
        },
        BinOp::Add | BinOp::Sub | BinOp::Mul | BinOp::Div => {
            match (&l, &r) {
                (Value::Integer(x), Value::Integer(y)) => {
                    let (x, y) = (*x, *y);
                    match op {
                        BinOp::Add => Ok(Value::Integer(x.wrapping_add(y))),
                        BinOp::Sub => Ok(Value::Integer(x.wrapping_sub(y))),
                        BinOp::Mul => Ok(Value::Integer(x.wrapping_mul(y))),
                        _ => match x.checked_div(y) {
                            Some(q) => Ok(Value::Integer(q)),
                            None => Err(()),
                        },
                    }
                },
                _ => {
                    if is_number_value(&l) && is_number_value(&r) {
                        let fo = arith_step(op);
                        call_float_step(float_step, fo, l, r)
                    } else {
                        Err(())
                    }
                },
            }
        },
        BinOp::StartsWith => match (&l, &r) {
            (Value::String(s), Value::String(p)) => Ok(Value::Boolean(starts_with(s.as_str(), p.as_str()))),
            _ => Err(()),
        },
        BinOp::EndsWith => match (&l, &r) {
            (Value::String(s), Value::String(p)) => Ok(Value::Boolean(ends_with(s.as_str(), p.as_str()))),
            _ => Err(()),
        },
        BinOp::Contains => match (&l, &r) {
            (Value::String(s), Value::String(p)) => Ok(Value::Boolean(contains_text(s.as_str(), p.as_str()))),
            _ => Err(()),
        },
        BinOp::Matches { pattern } => match (&l, &r) {
            (Value::String(s), Value::String(_)) => match regex_match(pattern.as_str(), s.as_str()) {
                Some(m) => Ok(Value::Boolean(m)),
                None => Err(()),
            },
            _ => Err(()),
        },
    }
}

fn call_predicate<G: Fn(&str, &Value) -> bool>(
    registry: &FunctionRegistry,
    predicate: &G,
    name: &str,
    v: &Value,
) -> (r: Option<bool>)
    requires
        predicate_step_total(*predicate),
        predicate_step_deterministic(*predicate),
    ensures
        r == predicate_fn(registry@, *predicate)(name@, v@),
{
    match registry.get_predicate(name) {
        Some(_) => {
            let t = predicate(name, v);
            proof {
                lemma_predicate_answer(*predicate, name, v, t);
            }
            Some(t)
        },
        None => None,
    }
}

/// Applies a unary predicate to a value (see `spec_unary`); user-defined
/// predicates are looked up in `registry` and applied by `predicate`.
pub fn eval_unary<G: Fn(&str, &Value) -> bool>(
    op: &UnaryOp,
    v: &Value,
    registry: &FunctionRegistry,
    predicate: &G,
) -> (r: Result<Value, ()>)
    requires
        predicate_step_total(*predicate),
        predicate_step_deterministic(*predicate),
    ensures
        eval_view(r) == spec_unary(op@, v@, predicate_fn(registry@, *predicate)),
{
    match op {
        UnaryOp::StringQ => Ok(Value::Boolean(matches!(v, Value::String(_)))),
        UnaryOp::IntegerQ => Ok(Value::Boolean(matches!(v, Value::Integer(_)))),
        UnaryOp::FloatQ => Ok(Value::Boolean(matches!(v, Value::Float(_)))),
        UnaryOp::BooleanQ => Ok(Value::Boolean(matches!(v, Value::Boolean(_)))),
        UnaryOp::NilQ => Ok(Value::Boolean(matches!(v, Value::Null))),
        UnaryOp::Udf(name) => match call_predicate(registry, predicate, name.as_str(), v) {
            Some(t) => Ok(Value::Boolean(t)),
            None => Err(()),
        },
    }
}

/// Evaluates an expression against one row of bindings (see `spec_eval`).
pub fn eval_expr<F: Fn(FloatOp, Value, Value) -> Result<Value, ()>, G: Fn(&str, &Value) -> bool>(
    expr: &Expr,
    binding: &Bindings,
    registry: &FunctionRegistry,
    float_step: &F,
    predicate: &G,
) -> (r: Result<Value, ()>)
    requires
        float_step_total(*float_step),
        float_step_deterministic(*float_step),
        predicate_step_total(*predicate),
        predicate_step_deterministic(*predicate),
    ensures
        eval_view(r) == spec_eval(
            expr@,
            binding@,
            float_fn(*float_step),
            predicate_fn(registry@, *predicate),
        ),
    decreases expr,
{
    match expr {
        Expr::Var(name) => match binding.get(name.as_str()) {
            Some(v) => Ok(value_clone(v)),
            None => Err(()),
        },
        Expr::Lit(v) => Ok(value_clone(v)),
        Expr::Slot(_) => Err(()),
        Expr::UnaryOp(op, arg) => match eval_expr(arg, binding, registry, float_step, predicate) {
            Ok(v) => eval_unary(op, &v, registry, predicate),
            Err(_) => Err(()),
        },
        Expr::BinOp(op, lhs, rhs) => match eval_expr(lhs, binding, registry, float_step, predicate) {
            Ok(lv) => match eval_expr(rhs, binding, registry, float_step, predicate) {
                Ok(rv) => eval_binop(op, lv, rv, float_step),
                Err(_) => Err(()),
            },
            Err(_) => Err(()),
        },
    }
}

// ===================== expression clauses over rows =====================

/// The models of rows of bindings.
pub open spec fn rows_view(s: Seq<Bindings>) -> Seq<Map<Seq<char>, ValueView>> {
    s.map_values(|b: Bindings| b@)
}

/// What an expression clause makes of one row: with an output variable the
/// row extended by the value; without, the row itself where the value is
/// truthy; nothing where evaluation fails or the value is not truthy.
pub open spec fn expr_row(
    row: Map<Seq<char>, ValueView>,
    e: ExprView,
    out: Option<Seq<char>>,
    fl: spec_fn(FloatOp, ValueView, ValueView) -> Result<ValueView, ()>,
    pr: spec_fn(Seq<char>, ValueView) -> Option<bool>,
) -> Option<Map<Seq<char>, ValueView>> {
    match spec_eval(e, row, fl, pr) {
        Ok(v) => match out {
            Some(var) => Some(row.insert(var, v)),
            None => if truthy(v, fl) {
                Some(row)
            } else {
                None
            },
        },
        Err(_) => None,
    }
}

/// An expression clause applied to rows, keeping their order.
pub open spec fn expr_rows(
    rows: Seq<Map<Seq<char>, ValueView>>,
    e: ExprView,
    out: Option<Seq<char>>,
    fl: spec_fn(FloatOp, ValueView, ValueView) -> Result<ValueView, ()>,
    pr: spec_fn(Seq<char>, ValueView) -> Option<bool>,
) -> Seq<Map<Seq<char>, ValueView>>
    decreases rows.len(),
{
    if rows.len() == 0 {
        Seq::empty()
    } else {
        let prev = expr_rows(rows.drop_last(), e, out, fl, pr);
        match expr_row(rows.last(), e, out, fl, pr) {
            Some(m) => prev.push(m),
            None => prev,
        }
    }
}

/// The expression clauses of a clause list applied in order; other clauses
/// leave the rows as they are.
pub open spec fn spec_apply_exprs(
    rows: Seq<Map<Seq<char>, ValueView>>,
    cs: Seq<ClauseView>,
    fl: spec_fn(FloatOp, ValueView, ValueView) -> Result<ValueView, ()>,
    pr: spec_fn(Seq<char>, ValueView) -> Option<bool>,
) -> Seq<Map<Seq<char>, ValueView>>
    decreases cs.len(),
{
    if cs.len() == 0 {
        rows
    } else {
        let next = match cs[0] {
            ClauseView::Expr { expr, binding } => expr_rows(rows, expr, binding, fl, pr),
            _ => rows,
        };
        spec_apply_exprs(next, cs.drop_first(), fl, pr)
    }
}

/// The first expression clause, in order, that is a user-defined predicate
/// applied directly whose name is not registered.
pub open spec fn first_unknown_predicate(cs: Seq<ClauseView>, reg: RegistryView) -> Option<Seq<char>>
    decreases cs.len(),
{
    if cs.len() == 0 {
        None
    } else {
        match cs[0] {
            ClauseView::Expr { expr: ExprView::UnaryOp(UnaryOpView::Udf(n), _), .. } => if !user_predicate(reg, n) {
                Some(n)
            } else {
                first_unknown_predicate(cs.drop_first(), reg)
            },
            _ => first_unknown_predicate(cs.drop_first(), reg),
        }
    }
}

/// The message for an expression clause naming a predicate that is not registered.
pub open spec fn unknown_predicate_message(n: Seq<char>) -> Seq<char> {
    "unknown predicate: '"@ + n + "'"@
}

/// The model of the result of applying expression clauses.
pub open spec fn rows_result_view(r: Result<Vec<Bindings>, String>) -> Result<Seq<Map<Seq<char>, ValueView>>, Seq<char>> {
    match r {
        Ok(rows) => Ok(rows_view(rows@)),
        Err(e) => Err(e@),
    }
}

pub(crate) fn apply_expr_clause<F: Fn(FloatOp, Value, Value) -> Result<Value, ()>, G: Fn(&str, &Value) -> bool>(
    rows: Vec<Bindings>,
    expr: &Expr,
    out: &Option<String>,
    registry: &FunctionRegistry,
    float_step: &F,
    predicate: &G,
) -> (res: Vec<Bindings>)
    requires
        float_step_total(*float_step),
        float_step_deterministic(*float_step),
        predicate_step_total(*predicate),
        predicate_step_deterministic(*predicate),
    ensures
        rows_view(res@) == expr_rows(
            rows_view(rows@),
            expr@,
            opt_str_view(*out),
            float_fn(*float_step),
            predicate_fn(registry@, *predicate),
        ),
{
    let ghost fl = float_fn(*float_step);
    let ghost pr = predicate_fn(registry@, *predicate);
    let ghost all = rows_view(rows@);
    let mut res: Vec<Bindings> = Vec::new();
    for row in iter: rows.into_iter()
        invariant
            float_step_total(*float_step),
            float_step_deterministic(*float_step),
            predicate_step_total(*predicate),
            predicate_step_deterministic(*predicate),
            fl == float_fn(*float_step),
            pr == predicate_fn(registry@, *predicate),
            iter.seq() == rows@,
            all == rows_view(rows@),
            rows_view(res@) == expr_rows(all.take(iter.index() as int), expr@, opt_str_view(*out), fl, pr),
    {
        let ghost k = iter.index() as int;
        proof {
            assert(all.take(k + 1).drop_last() =~= all.take(k));
            assert(all.take(k + 1).last() == row@);
        }
        let mut row = row;
        match eval_expr(expr, &row, registry, float_step, predicate) {
            Ok(v) => match out {
                Some(var) => {
                    row.insert(var.clone(), v);
                    res.push(row);
                    proof {
                        assert(rows_view(res@) =~= rows_view(res@.drop_last()).push(res@.last()@));
                    }
                },
                None => {
                    if is_truthy(&v, float_step) {
                        res.push(row);
                        proof {
                            assert(rows_view(res@) =~= rows_view(res@.drop_last()).push(res@.last()@));
                        }
                    }
                },
            },
            Err(_) => {},
        }
    }
    proof {
        assert(all.take(all.len() as int) =~= all);
    }
    res
}

/// Refuses the first expression clause among `where_clauses` that applies
/// a user-defined predicate not registered in `registry`.
pub fn check_udf_predicates(where_clauses: &Vec<WhereClause>, registry: &FunctionRegistry) -> (r: Result<(), String>)
    ensures
        match r {
            Ok(_) => first_unknown_predicate(clauses_view(where_clauses@), registry@) is None,
            Err(m) => first_unknown_predicate(clauses_view(where_clauses@), registry@) matches Some(n)
                && m@ == unknown_predicate_message(n),
        },
{
    let ghost cs = clauses_view(where_clauses@);
    proof {
        lemma_clauses_view(where_clauses@);
    }
    proof {
        assert(cs.subrange(0, cs.len() as int) =~= cs);
    }
    let mut i: usize = 0;
    while i < where_clauses.len()
        invariant
            i <= where_clauses@.len(),
            cs == clauses_view(where_clauses@),
            cs.len() == where_clauses@.len(),
            forall|j: int| 0 <= j < cs.len() ==> #[trigger] cs[j] == where_clauses@[j]@,
            first_unknown_predicate(cs, registry@) == first_unknown_predicate(cs.subrange(i as int, cs.len() as int), registry@),
        decreases where_clauses@.len() - i,
    {
        let ghost rest = cs.subrange(i as int, cs.len() as int);
        proof {
            assert(rest.drop_first() =~= cs.subrange(i + 1, cs.len() as int));
            assert(rest[0] == where_clauses@[i as int]@);
        }
        match &where_clauses[i] {
            WhereClause::Expr { expr: Expr::UnaryOp(UnaryOp::Udf(name), _), .. } => {
                if registry.get_predicate(name.as_str()).is_none() {
                    let mut msg = concat("unknown predicate: '", name.as_str());
                    msg.append("'");
                    return Err(msg);
                }
            },
            _ => {},
        }
        i = i + 1;
    }
    proof {
        assert(cs.subrange(cs.len() as int, cs.len() as int) =~= Seq::<ClauseView>::empty());
    }
    Ok(())
}

/// Applies the expression clauses among `where_clauses`, in order, to rows
/// of bindings: a filter clause keeps the rows on which its expression is
/// truthy, a binding clause extends each row with the value; a row on which
/// evaluation fails is dropped. A clause that applies a user-defined
/// predicate not registered in `registry` is refused before any row is looked at.
pub fn apply_expr_clauses<F: Fn(FloatOp, Value, Value) -> Result<Value, ()>, G: Fn(&str, &Value) -> bool>(
    bindings: Vec<Bindings>,
    where_clauses: &Vec<WhereClause>,
    registry: &FunctionRegistry,
    float_step: &F,
    predicate: &G,
) -> (r: Result<Vec<Bindings>, String>)
    requires
        float_step_total(*float_step),
        float_step_deterministic(*float_step),
        predicate_step_total(*predicate),
        predicate_step_deterministic(*predicate),
    ensures
        rows_result_view(r) == match first_unknown_predicate(clauses_view(where_clauses@), registry@) {
            Some(n) => Err(unknown_predicate_message(n)),
            None => Ok(
                spec_apply_exprs(
                    rows_view(bindings@),
                    clauses_view(where_clauses@),
                    float_fn(*float_step),
                    predicate_fn(registry@, *predicate),
                ),
            ),
        },
{
    match check_udf_predicates(where_clauses, registry) {
        Err(m) => {
            return Err(m);
        },
        Ok(_) => {},
    }
    Ok(apply_exprs(bindings, where_clauses, registry, float_step, predicate))
}

/// Applies the expression clauses among `where_clauses`, in order, to rows
/// of bindings (see `spec_apply_exprs`); no predicate name is checked.
pub fn apply_exprs<F: Fn(FloatOp, Value, Value) -> Result<Value, ()>, G: Fn(&str, &Value) -> bool>(
    bindings: Vec<Bindings>,
    where_clauses: &Vec<WhereClause>,
    registry: &FunctionRegistry,
    float_step: &F,
    predicate: &G,
) -> (r: Vec<Bindings>)
    requires
        float_step_total(*float_step),
        float_step_deterministic(*float_step),
        predicate_step_total(*predicate),
        predicate_step_deterministic(*predicate),
    ensures
        rows_view(r@) == spec_apply_exprs(
            rows_view(bindings@),
            clauses_view(where_clauses@),
            float_fn(*float_step),
            predicate_fn(registry@, *predicate),
        ),
{
    let ghost cs = clauses_view(where_clauses@);
    proof {
        lemma_clauses_view(where_clauses@);
    }
    let ghost fl = float_fn(*float_step);
    let ghost pr = predicate_fn(registry@, *predicate);
    let mut rows = bindings;
    proof {
        assert(cs.subrange(0, cs.len() as int) =~= cs);
    }
    let mut i: usize = 0;
    while i < where_clauses.len()
        invariant
            float_step_total(*float_step),
            float_step_deterministic(*float_step),
            predicate_step_total(*predicate),
            predicate_step_deterministic(*predicate),
            fl == float_fn(*float_step),
            pr == predicate_fn(registry@, *predicate),
            i <= where_clauses@.len(),
            cs == clauses_view(where_clauses@),
            cs.len() == where_clauses@.len(),
            forall|j: int| 0 <= j < cs.len() ==> #[trigger] cs[j] == where_clauses@[j]@,
            spec_apply_exprs(rows_view(bindings@), cs, fl, pr) == spec_apply_exprs(
                rows_view(rows@),
                cs.subrange(i as int, cs.len() as int),
                fl,
                pr,
            ),
        decreases where_clauses@.len() - i,
    {
        let ghost rest = cs.subrange(i as int, cs.len() as int);
        proof {
            assert(rest.drop_first() =~= cs.subrange(i + 1, cs.len() as int));
            assert(rest[0] == where_clauses@[i as int]@);
        }
        match &where_clauses[i] {
            WhereClause::Expr { expr, binding } => {
                rows = apply_expr_clause(rows, expr, binding, registry, float_step, predicate);
            },
            _ => {},
        }
        i = i + 1;
    }
    proof {
        assert(cs.subrange(cs.len() as int, cs.len() as int) =~= Seq::<ClauseView>::empty());
    }
    rows
}

} // verus!
