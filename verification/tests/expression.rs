use minigraf::evaluator::Bindings;
use minigraf::functions::{FunctionRegistry, PredicateDesc};
use minigraf::expression::{apply_expr_clauses, eval_binop, eval_expr, FloatOp};
use minigraf::types::{value_clone, BinOp, Expr, UnaryOp, Value, WhereClause};

/// The float step the engine uses: both operands as `f64`, IEEE arithmetic,
/// a NaN sum, difference or product and a zero or NaN divisor are errors.
fn float_step(op: FloatOp, l: Value, r: Value) -> Result<Value, ()> {
    fn num(v: &Value) -> Result<f64, ()> {
        match v {
            Value::Integer(i) => Ok(*i as f64),
            Value::Float(t) => t.parse::<f64>().map_err(|_| ()),
            _ => Err(()),
        }
    }
    let a = num(&l)?;
    let b = num(&r)?;
    let float = |x: f64| {
        if x.is_nan() {
            Err(())
        } else {
            Ok(Value::Float(format!("{:?}", x)))
        }
    };
    match op {
        FloatOp::Lt => Ok(Value::Boolean(a < b)),
        FloatOp::Gt => Ok(Value::Boolean(a > b)),
        FloatOp::Lte => Ok(Value::Boolean(a <= b)),
        FloatOp::Gte => Ok(Value::Boolean(a >= b)),
        FloatOp::Eq => Ok(Value::Boolean(a == b)),
        FloatOp::Neq => Ok(Value::Boolean(a != b)),
        FloatOp::Add => float(a + b),
        FloatOp::Sub => float(a - b),
        FloatOp::Mul => float(a * b),
        FloatOp::Div => {
            if b == 0.0 || b.is_nan() {
                Err(())
            } else {
                Ok(Value::Float(format!("{:?}", a / b)))
            }
        }
    }
}

fn no_predicate(_n: &str, _v: &Value) -> bool {
    false
}

fn b(pairs: &[(&str, Value)]) -> Bindings {
    let mut m = Bindings::new();
    for (k, v) in pairs {
        m.insert(k.to_string(), value_clone(v));
    }
    m
}

fn eval(e: &Expr, binding: &Bindings) -> Result<Value, ()> {
    eval_expr(e, binding, &FunctionRegistry::with_builtins(), &float_step, &no_predicate)
}

fn lit(v: Value) -> Box<Expr> {
    Box::new(Expr::Lit(v))
}

fn float(t: &str) -> Value {
    Value::Float(t.to_string())
}

fn string(t: &str) -> Value {
    Value::String(t.to_string())
}

#[test]
fn test_eval_lit() {
    let e = Expr::Lit(Value::Integer(42));
    assert_eq!(eval(&e, &Bindings::new()), Ok(Value::Integer(42)));
}

#[test]
fn test_eval_var_bound() {
    let e = Expr::Var("?x".to_string());
    let binding = b(&[("?x", Value::Integer(10))]);
    assert_eq!(eval(&e, &binding), Ok(Value::Integer(10)));
}

#[test]
fn test_eval_var_unbound_is_err() {
    let e = Expr::Var("?x".to_string());
    assert_eq!(eval(&e, &Bindings::new()), Err(()));
}

#[test]
fn test_eval_lt_true() {
    let e = Expr::BinOp(BinOp::Lt, Box::new(Expr::Var("?v".to_string())), lit(Value::Integer(100)));
    let binding = b(&[("?v", Value::Integer(50))]);
    assert_eq!(eval(&e, &binding), Ok(Value::Boolean(true)));
}

#[test]
fn test_eval_lt_false() {
    let e = Expr::BinOp(BinOp::Lt, Box::new(Expr::Var("?v".to_string())), lit(Value::Integer(100)));
    let binding = b(&[("?v", Value::Integer(150))]);
    assert_eq!(eval(&e, &binding), Ok(Value::Boolean(false)));
}

#[test]
fn test_eval_add_integers() {
    let e = Expr::BinOp(
        BinOp::Add,
        Box::new(Expr::Var("?a".to_string())),
        Box::new(Expr::Var("?b".to_string())),
    );
    let binding = b(&[("?a", Value::Integer(3)), ("?b", Value::Integer(4))]);
    assert_eq!(eval(&e, &binding), Ok(Value::Integer(7)));
}

#[test]
fn test_eval_add_int_float_promotes() {
    let e = Expr::BinOp(BinOp::Add, lit(Value::Integer(1)), lit(float("1.5")));
    assert_eq!(eval(&e, &Bindings::new()), Ok(float("2.5")));
}

#[test]
fn test_eval_div_integer_truncates() {
    let e = Expr::BinOp(BinOp::Div, lit(Value::Integer(5)), lit(Value::Integer(2)));
    assert_eq!(eval(&e, &Bindings::new()), Ok(Value::Integer(2)));
}

#[test]
fn test_eval_div_by_zero_is_err() {
    let e = Expr::BinOp(BinOp::Div, lit(Value::Integer(5)), lit(Value::Integer(0)));
    assert_eq!(eval(&e, &Bindings::new()), Err(()));
}

#[test]
fn test_eval_eq_strings() {
    let e = Expr::BinOp(BinOp::Eq, lit(string("Alice")), lit(string("Alice")));
    assert_eq!(eval(&e, &Bindings::new()), Ok(Value::Boolean(true)));
}

#[test]
fn test_eval_eq_int_float_false() {
    let e = Expr::BinOp(BinOp::Eq, lit(Value::Integer(1)), lit(float("1.0")));
    assert_eq!(eval(&e, &Bindings::new()), Ok(Value::Boolean(false)));
}

#[test]
fn test_eval_type_mismatch_comparison_is_err() {
    let e = Expr::BinOp(BinOp::Lt, lit(string("hello")), lit(Value::Integer(100)));
    assert_eq!(eval(&e, &Bindings::new()), Err(()));
}

fn eval_str_cmp(op: BinOp, a: &str, c: &str) -> Result<Value, ()> {
    eval(&Expr::BinOp(op, lit(string(a)), lit(string(c))), &Bindings::new())
}

#[test]
fn test_eval_string_comparison_is_lexicographic() {
    assert_eq!(eval_str_cmp(BinOp::Lt, "apple", "banana"), Ok(Value::Boolean(true)));
    assert_eq!(eval_str_cmp(BinOp::Lt, "banana", "apple"), Ok(Value::Boolean(false)));
    assert_eq!(eval_str_cmp(BinOp::Gt, "banana", "apple"), Ok(Value::Boolean(true)));
}

#[test]
fn test_eval_string_comparison_equal_operands() {
    assert_eq!(eval_str_cmp(BinOp::Lt, "same", "same"), Ok(Value::Boolean(false)));
    assert_eq!(eval_str_cmp(BinOp::Gt, "same", "same"), Ok(Value::Boolean(false)));
    assert_eq!(eval_str_cmp(BinOp::Lte, "same", "same"), Ok(Value::Boolean(true)));
    assert_eq!(eval_str_cmp(BinOp::Gte, "same", "same"), Ok(Value::Boolean(true)));
}

#[test]
fn test_eval_string_comparison_totality() {
    let lt = eval_str_cmp(BinOp::Lt, "2025-05-06", "2026-01-01");
    let gte = eval_str_cmp(BinOp::Gte, "2025-05-06", "2026-01-01");
    assert_eq!(lt, Ok(Value::Boolean(true)), "earlier date sorts first");
    assert_eq!(gte, Ok(Value::Boolean(false)), "and not the other way");
}

#[test]
fn test_eval_nan_comparison_is_false() {
    let e = Expr::BinOp(BinOp::Lt, lit(float("NaN")), lit(float("1.0")));
    assert_eq!(eval(&e, &Bindings::new()), Ok(Value::Boolean(false)));
    let e = Expr::BinOp(BinOp::Gte, lit(float("NaN")), lit(float("1.0")));
    assert_eq!(eval(&e, &Bindings::new()), Ok(Value::Boolean(false)));
}

#[test]
fn test_eval_string_q_true() {
    let e = Expr::UnaryOp(UnaryOp::StringQ, lit(string("hi")));
    assert_eq!(eval(&e, &Bindings::new()), Ok(Value::Boolean(true)));
}

#[test]
fn test_eval_string_q_false() {
    let e = Expr::UnaryOp(UnaryOp::StringQ, lit(Value::Integer(1)));
    assert_eq!(eval(&e, &Bindings::new()), Ok(Value::Boolean(false)));
}

#[test]
fn test_eval_starts_with_true() {
    let e = Expr::BinOp(BinOp::StartsWith, lit(string("foobar")), lit(string("foo")));
    assert_eq!(eval(&e, &Bindings::new()), Ok(Value::Boolean(true)));
}

#[test]
fn test_eval_ends_with_true() {
    let e = Expr::BinOp(BinOp::EndsWith, lit(string("foobar")), lit(string("bar")));
    assert_eq!(eval(&e, &Bindings::new()), Ok(Value::Boolean(true)));
}

#[test]
fn test_eval_contains_true() {
    let e = Expr::BinOp(BinOp::Contains, lit(string("engineer at co")), lit(string("engineer")));
    assert_eq!(eval(&e, &Bindings::new()), Ok(Value::Boolean(true)));
}

#[test]
fn test_eval_matches_true() {
    let e = Expr::BinOp(
        BinOp::Matches { pattern: "^[^@]+@[^@]+$".to_string() },
        lit(string("test@example.com")),
        lit(string("^[^@]+@[^@]+$")),
    );
    assert_eq!(eval(&e, &Bindings::new()), Ok(Value::Boolean(true)));
}

#[test]
fn test_eval_float_div_by_zero_is_err() {
    let e = Expr::BinOp(BinOp::Div, lit(float("5.0")), lit(float("0.0")));
    assert_eq!(eval(&e, &Bindings::new()), Err(()));
}

#[test]
fn test_eval_float_div_succeeds() {
    let e = Expr::BinOp(BinOp::Div, lit(float("6.0")), lit(float("2.0")));
    assert_eq!(eval(&e, &Bindings::new()), Ok(float("3.0")));
}

#[test]
fn test_eval_float_sub() {
    let e = Expr::BinOp(BinOp::Sub, lit(float("5.0")), lit(float("2.0")));
    assert_eq!(eval(&e, &Bindings::new()), Ok(float("3.0")));
}

#[test]
fn test_eval_float_mul() {
    let e = Expr::BinOp(BinOp::Mul, lit(float("3.0")), lit(float("4.0")));
    assert_eq!(eval(&e, &Bindings::new()), Ok(float("12.0")));
}

fn apply(rows: Vec<Bindings>, clauses: &Vec<WhereClause>) -> Result<Vec<Bindings>, String> {
    apply_expr_clauses(rows, clauses, &FunctionRegistry::with_builtins(), &float_step, &no_predicate)
}

#[test]
fn test_apply_expr_filter_keeps_truthy() {
    let expr = Expr::BinOp(BinOp::Lt, Box::new(Expr::Var("?v".to_string())), lit(Value::Integer(100)));
    let clauses = vec![WhereClause::Expr { expr, binding: None }];
    let bindings = vec![b(&[("?v", Value::Integer(50))]), b(&[("?v", Value::Integer(150))])];
    let result = apply(bindings, &clauses).unwrap();
    assert_eq!(result.len(), 1);
    assert_eq!(result[0].get("?v"), Some(&Value::Integer(50)));
}

#[test]
fn test_apply_expr_binding_extends_row() {
    let expr = Expr::BinOp(
        BinOp::Add,
        Box::new(Expr::Var("?a".to_string())),
        Box::new(Expr::Var("?b".to_string())),
    );
    let clauses = vec![WhereClause::Expr { expr, binding: Some("?sum".to_string()) }];
    let bindings = vec![b(&[("?a", Value::Integer(3)), ("?b", Value::Integer(4))])];
    let result = apply(bindings, &clauses).unwrap();
    assert_eq!(result.len(), 1);
    assert_eq!(result[0].get("?sum"), Some(&Value::Integer(7)));
}

#[test]
fn test_apply_expr_type_mismatch_drops_row() {
    let expr = Expr::BinOp(BinOp::Lt, Box::new(Expr::Var("?v".to_string())), lit(Value::Integer(100)));
    let clauses = vec![WhereClause::Expr { expr, binding: None }];
    let bindings = vec![b(&[("?v", string("hello"))])];
    let result = apply(bindings, &clauses).unwrap();
    assert_eq!(result.len(), 0);
}

// ----- further cases -----

#[test]
fn integer_arithmetic_wraps() {
    let r = eval_binop(&BinOp::Add, Value::Integer(i64::MAX), Value::Integer(1), &float_step);
    assert_eq!(r, Ok(Value::Integer(i64::MIN)));
    let r = eval_binop(&BinOp::Mul, Value::Integer(i64::MAX), Value::Integer(2), &float_step);
    assert_eq!(r, Ok(Value::Integer(-2)));
    let r = eval_binop(&BinOp::Sub, Value::Integer(i64::MIN), Value::Integer(1), &float_step);
    assert_eq!(r, Ok(Value::Integer(i64::MAX)));
}

#[test]
fn integer_division_truncates_toward_zero() {
    let r = eval_binop(&BinOp::Div, Value::Integer(-7), Value::Integer(2), &float_step);
    assert_eq!(r, Ok(Value::Integer(-3)));
    let r = eval_binop(&BinOp::Div, Value::Integer(i64::MIN), Value::Integer(-1), &float_step);
    assert_eq!(r, Err(()));
}

#[test]
fn large_integers_compare_as_floats() {
    // 2^53 + 1 and 2^53 are the same f64.
    let big = Value::Integer(9007199254740993);
    let r = eval_binop(&BinOp::Gt, big, Value::Integer(9007199254740992), &float_step);
    assert_eq!(r, Ok(Value::Boolean(false)));
    let r = eval_binop(&BinOp::Gt, Value::Integer(9007199254740992), Value::Integer(9007199254740991), &float_step);
    assert_eq!(r, Ok(Value::Boolean(true)));
}

#[test]
fn float_equality_goes_by_value() {
    let r = eval_binop(&BinOp::Eq, float("1.50"), float("1.5"), &float_step);
    assert_eq!(r, Ok(Value::Boolean(true)));
    let r = eval_binop(&BinOp::Neq, float("1.50"), float("1.5"), &float_step);
    assert_eq!(r, Ok(Value::Boolean(false)));
    let r = eval_binop(&BinOp::Neq, Value::Integer(1), string("1"), &float_step);
    assert_eq!(r, Ok(Value::Boolean(true)));
}

#[test]
fn string_predicates_need_strings() {
    let r = eval_binop(&BinOp::EndsWith, string("foobar"), string("foo"), &float_step);
    assert_eq!(r, Ok(Value::Boolean(false)));
    let r = eval_binop(&BinOp::Contains, string("abc"), string(""), &float_step);
    assert_eq!(r, Ok(Value::Boolean(true)));
    let r = eval_binop(&BinOp::Contains, string("héllo wörld"), string("ö"), &float_step);
    assert_eq!(r, Ok(Value::Boolean(true)));
    let r = eval_binop(&BinOp::Contains, string("ab"), string("abc"), &float_step);
    assert_eq!(r, Ok(Value::Boolean(false)));
    let r = eval_binop(&BinOp::StartsWith, Value::Integer(1), string("1"), &float_step);
    assert_eq!(r, Err(()));
}

#[test]
fn regex_match_and_mismatch() {
    let op = BinOp::Matches { pattern: "^a+b$".to_string() };
    assert_eq!(eval_binop(&op, string("aaab"), string("^a+b$"), &float_step), Ok(Value::Boolean(true)));
    let op = BinOp::Matches { pattern: "^a+b$".to_string() };
    assert_eq!(eval_binop(&op, string("aaac"), string("^a+b$"), &float_step), Ok(Value::Boolean(false)));
    let op = BinOp::Matches { pattern: "(".to_string() };
    assert_eq!(eval_binop(&op, string("x"), string("("), &float_step), Err(()));
}

#[test]
fn nested_expressions_and_unfilled_slots() {
    // (< (+ ?x 0.5) 2)
    let e = Expr::BinOp(
        BinOp::Lt,
        Box::new(Expr::BinOp(BinOp::Add, Box::new(Expr::Var("?x".to_string())), lit(float("0.5")))),
        lit(Value::Integer(2)),
    );
    assert_eq!(eval(&e, &b(&[("?x", Value::Integer(1))])), Ok(Value::Boolean(true)));
    assert_eq!(eval(&e, &b(&[("?x", Value::Integer(2))])), Ok(Value::Boolean(false)));
    let e = Expr::Slot("x".to_string());
    assert_eq!(eval(&e, &Bindings::new()), Err(()));
    let e = Expr::UnaryOp(UnaryOp::NilQ, lit(Value::Null));
    assert_eq!(eval(&e, &Bindings::new()), Ok(Value::Boolean(true)));
}

#[test]
fn user_predicates_are_looked_up_by_name() {
    let mut reg = FunctionRegistry::with_builtins();
    reg.register_predicate_desc("even?".to_string(), PredicateDesc { is_builtin: false }).unwrap();
    reg.register_predicate_desc("positive?".to_string(), PredicateDesc { is_builtin: false }).unwrap();
    let pred = |n: &str, v: &Value| match v {
        Value::Integer(i) => if n == "even?" { i % 2 == 0 } else { *i > 0 },
        _ => false,
    };
    let e = Expr::UnaryOp(UnaryOp::Udf("positive?".to_string()), lit(Value::Integer(3)));
    assert_eq!(eval_expr(&e, &Bindings::new(), &reg, &float_step, &pred), Ok(Value::Boolean(true)));
    let e = Expr::UnaryOp(UnaryOp::Udf("even?".to_string()), lit(Value::Integer(3)));
    assert_eq!(eval_expr(&e, &Bindings::new(), &reg, &float_step, &pred), Ok(Value::Boolean(false)));
    let e = Expr::UnaryOp(UnaryOp::Udf("odd?".to_string()), lit(Value::Integer(3)));
    assert_eq!(eval_expr(&e, &Bindings::new(), &reg, &float_step, &pred), Err(()));
    // a built-in name is a sentinel, never applied through the registry
    let e = Expr::UnaryOp(UnaryOp::Udf("string?".to_string()), lit(Value::Integer(3)));
    assert_eq!(eval_expr(&e, &Bindings::new(), &reg, &float_step, &pred), Err(()));
}

#[test]
fn unknown_predicate_is_refused() {
    let clauses = vec![WhereClause::Expr {
        expr: Expr::UnaryOp(UnaryOp::Udf("mystery?".to_string()), Box::new(Expr::Var("?v".to_string()))),
        binding: None,
    }];
    let rows = vec![b(&[("?v", Value::Integer(1))])];
    assert_eq!(apply(rows, &clauses).err(), Some("unknown predicate: 'mystery?'".to_string()));
}

#[test]
fn expression_clauses_apply_in_order() {
    // [(* ?v 2) ?d] [(> ?d 5)]
    let clauses = vec![
        WhereClause::Expr {
            expr: Expr::BinOp(BinOp::Mul, Box::new(Expr::Var("?v".to_string())), lit(Value::Integer(2))),
            binding: Some("?d".to_string()),
        },
        WhereClause::Expr {
            expr: Expr::BinOp(BinOp::Gt, Box::new(Expr::Var("?d".to_string())), lit(Value::Integer(5))),
            binding: None,
        },
    ];
    let rows = vec![
        b(&[("?v", Value::Integer(1))]),
        b(&[("?v", Value::Integer(3))]),
        b(&[("?v", Value::Integer(4))]),
    ];
    let out = apply(rows, &clauses).unwrap();
    assert_eq!(out.len(), 2);
    assert_eq!(out[0].get("?d"), Some(&Value::Integer(6)));
    assert_eq!(out[1].get("?d"), Some(&Value::Integer(8)));
}
