use minigraf::expression::FloatOp;
use minigraf::functions::{
    apply_builtin_aggregate, value_cmp, value_lt, AggImpl, AggregateDesc, Aggregated, FunctionRegistry, PredicateDesc,
};
use std::cmp::Ordering;
use minigraf::types::Value;

#[test]
fn apply_builtin_count() {
    let vals = vec![Value::Integer(1), Value::Integer(2), Value::Integer(3)];
    let result = apply_builtin_aggregate("count", &vals, &float_step).unwrap();
    assert_eq!(result, Aggregated::Value(Value::Integer(3)));
}

#[test]
fn apply_builtin_sum_integers() {
    let vals = vec![Value::Integer(10), Value::Integer(20), Value::Integer(30)];
    let result = apply_builtin_aggregate("sum", &vals, &float_step).unwrap();
    assert_eq!(result, Aggregated::Value(Value::Integer(60)));
}

#[test]
fn apply_builtin_min() {
    let vals = vec![Value::Integer(30), Value::Integer(10), Value::Integer(20)];
    let result = apply_builtin_aggregate("min", &vals, &float_step).unwrap();
    assert_eq!(result, Aggregated::Value(Value::Integer(10)));
}

#[test]
fn apply_builtin_max() {
    let vals = vec![Value::Integer(30), Value::Integer(10), Value::Integer(20)];
    let result = apply_builtin_aggregate("max", &vals, &float_step).unwrap();
    assert_eq!(result, Aggregated::Value(Value::Integer(30)));
}

#[test]
fn apply_builtin_count_distinct() {
    let vals = vec![Value::Integer(1), Value::Integer(2), Value::Integer(1)];
    let result = apply_builtin_aggregate("count-distinct", &vals, &float_step).unwrap();
    assert_eq!(result, Aggregated::Value(Value::Integer(2)));
}

#[test]
fn apply_builtin_min_empty_errors() {
    let result = apply_builtin_aggregate("min", &vec![], &float_step);
    assert!(result.is_err());
    assert!(result.unwrap_err().contains("no non-null values"));
}

#[test]
fn sum_with_a_float_hands_back_the_values() {
    let vals = vec![Value::Float("1.5".to_string()), Value::Integer(2)];
    let result = apply_builtin_aggregate("sum", &vals, &float_step).unwrap();
    assert_eq!(result, Aggregated::FloatSum(vals));
}

#[test]
fn sum_distinct_drops_repeats() {
    let vals = vec![Value::Integer(5), Value::Integer(5), Value::Integer(7)];
    let result = apply_builtin_aggregate("sum-distinct", &vals, &float_step).unwrap();
    assert_eq!(result, Aggregated::Value(Value::Integer(12)));
}

#[test]
fn sum_of_nothing_is_zero() {
    let result = apply_builtin_aggregate("sum", &vec![], &float_step).unwrap();
    assert_eq!(result, Aggregated::Value(Value::Integer(0)));
}

#[test]
fn sum_saturates() {
    let vals = vec![Value::Integer(i64::MAX), Value::Integer(1)];
    let result = apply_builtin_aggregate("sum", &vals, &float_step).unwrap();
    assert_eq!(result, Aggregated::Value(Value::Integer(i64::MAX)));
}

#[test]
fn sum_rejects_strings() {
    let vals = vec![Value::Integer(1), Value::String("x".to_string())];
    let err = apply_builtin_aggregate("sum", &vals, &float_step).unwrap_err();
    assert_eq!(err, "INT-041: sum requires integer or float values, got String");
}

#[test]
fn min_max_of_strings_is_lexicographic() {
    let vals = vec![
        Value::String("pear".to_string()),
        Value::String("apple".to_string()),
        Value::String("fig".to_string()),
    ];
    assert_eq!(
        apply_builtin_aggregate("min", &vals, &float_step).unwrap(),
        Aggregated::Value(Value::String("apple".to_string()))
    );
    assert_eq!(
        apply_builtin_aggregate("max", &vals, &float_step).unwrap(),
        Aggregated::Value(Value::String("pear".to_string()))
    );
}

#[test]
fn min_of_mixed_types_is_an_error() {
    let vals = vec![Value::Integer(1), Value::String("x".to_string())];
    let err = apply_builtin_aggregate("min", &vals, &float_step).unwrap_err();
    assert_eq!(err, "INT-043: min: values of different types: Integer and String");
}

#[test]
fn max_of_booleans_is_an_error() {
    let vals = vec![Value::Boolean(true)];
    let err = apply_builtin_aggregate("max", &vals, &float_step).unwrap_err();
    assert_eq!(err, "INT-044: max: values of type Boolean cannot be compared");
}

#[test]
fn avg_hands_back_the_numbers_and_skips_others() {
    let vals = vec![Value::Integer(10), Value::String("x".to_string()), Value::Integer(20)];
    let result = apply_builtin_aggregate("avg", &vals, &float_step).unwrap();
    assert_eq!(result, Aggregated::FloatMean(vec![Value::Integer(10), Value::Integer(20)]));
    let none = apply_builtin_aggregate("avg", &vec![Value::Boolean(true)], &float_step).unwrap();
    assert_eq!(none, Aggregated::Value(Value::Null));
}

#[test]
fn unknown_aggregate_is_an_error() {
    let err = apply_builtin_aggregate("median", &vec![], &float_step).unwrap_err();
    assert_eq!(err, "INT-029: unknown aggregate function: median");
}

/// Float comparisons as the engine makes them.
fn float_step(op: FloatOp, l: Value, r: Value) -> Result<Value, ()> {
    fn num(v: &Value) -> Result<f64, ()> {
        match v {
            Value::Integer(i) => Ok(*i as f64),
            Value::Float(t) => t.parse::<f64>().map_err(|_| ()),
            _ => Err(()),
        }
    }
    let (a, b) = (num(&l)?, num(&r)?);
    match op {
        FloatOp::Lt => Ok(Value::Boolean(a < b)),
        FloatOp::Gt => Ok(Value::Boolean(a > b)),
        FloatOp::Eq => Ok(Value::Boolean(a == b)),
        FloatOp::Neq => Ok(Value::Boolean(a != b)),
        _ => Err(()),
    }
}

/// The caller's completion of a float aggregate.
fn finish(a: Aggregated) -> Value {
    fn num(v: &Value) -> f64 {
        match v {
            Value::Integer(i) => *i as f64,
            Value::Float(t) => t.parse::<f64>().unwrap(),
            _ => 0.0,
        }
    }
    match a {
        Aggregated::Value(v) => v,
        Aggregated::FloatSum(vs) => Value::Float(format!("{:?}", vs.iter().map(num).sum::<f64>())),
        Aggregated::FloatMean(vs) => {
            Value::Float(format!("{:?}", vs.iter().map(num).sum::<f64>() / vs.len() as f64))
        }
        Aggregated::FloatExtreme { .. } => Value::Null,
        Aggregated::RunningSum(_) => Value::Null,
    }
}

#[test]
fn apply_builtin_sum_floats() {
    let vals = vec![Value::Float("1.5".to_string()), Value::Float("2.5".to_string())];
    let result = apply_builtin_aggregate("sum", &vals, &float_step).unwrap();
    assert_eq!(finish(result), Value::Float("4.0".to_string()));
}

#[test]
fn apply_builtin_avg() {
    let vals = vec![Value::Integer(10), Value::Integer(20), Value::Integer(30)];
    let result = apply_builtin_aggregate("avg", &vals, &float_step).unwrap();
    assert_eq!(finish(result), Value::Float("20.0".to_string()));
}

#[test]
fn value_lt_integers() {
    assert!(value_lt(&Value::Integer(1), &Value::Integer(2), &float_step));
    assert!(!value_lt(&Value::Integer(2), &Value::Integer(1), &float_step));
    assert!(!value_lt(&Value::Integer(1), &Value::Integer(1), &float_step));
}

#[test]
fn value_lt_strings() {
    assert!(value_lt(&Value::String("a".into()), &Value::String("b".into()), &float_step));
    assert!(!value_lt(&Value::String("b".into()), &Value::String("a".into()), &float_step));
}

#[test]
fn value_order_crosses_integer_and_float() {
    let half = Value::Float("0.5".to_string());
    assert!(value_lt(&half, &Value::Integer(1), &float_step));
    assert_eq!(value_cmp(&Value::Integer(1), &half, &float_step), Ordering::Greater);
    assert_eq!(value_cmp(&Value::Float("NaN".to_string()), &half, &float_step), Ordering::Equal);
    assert_eq!(value_cmp(&Value::String("a".into()), &Value::Integer(1), &float_step), Ordering::Equal);
    assert!(!value_lt(&Value::Boolean(false), &Value::Boolean(true), &float_step));
    assert_eq!(value_cmp(&Value::String("b".into()), &Value::String("a".into()), &float_step), Ordering::Greater);
}

#[test]
fn registry_knows_all_builtins() {
    let reg = FunctionRegistry::with_builtins();
    for name in ["count", "count-distinct", "sum", "sum-distinct", "min", "max", "avg"] {
        assert!(reg.is_known(name), "expected '{}' to be registered", name);
    }
}

#[test]
fn window_compatible_flags() {
    let reg = FunctionRegistry::with_builtins();
    for name in ["count", "sum", "min", "max", "avg"] {
        assert!(reg.is_window_compatible(name), "'{}' should be window-compatible", name);
    }
    for name in ["count-distinct", "sum-distinct"] {
        assert!(!reg.is_window_compatible(name), "'{}' should NOT be window-compatible", name);
    }
}

#[test]
fn unknown_name_returns_none() {
    let reg = FunctionRegistry::with_builtins();
    assert!(reg.get("nonexistent").is_none());
    assert!(!reg.is_known("nonexistent"));
}

fn udf() -> AggregateDesc {
    AggregateDesc { impl_: AggImpl::Udf, is_builtin: false }
}

#[test]
fn register_udf_aggregate_is_known() {
    let mut reg = FunctionRegistry::with_builtins();
    reg.register_aggregate_desc("myfn".to_string(), udf()).expect("register should succeed");
    assert!(reg.is_known("myfn"));
    assert!(reg.is_window_compatible("myfn"));
    assert_eq!(reg.get("myfn"), Some(udf()));
}

#[test]
fn register_udf_duplicate_rejected() {
    let mut reg = FunctionRegistry::with_builtins();
    reg.register_aggregate_desc("myfn".to_string(), udf()).expect("first ok");
    assert!(reg.register_aggregate_desc("myfn".to_string(), udf()).is_err());
}

#[test]
fn register_builtin_name_rejected() {
    let mut reg = FunctionRegistry::with_builtins();
    let result = reg.register_aggregate_desc("sum".to_string(), udf());
    assert_eq!(result, Err("INT-040: aggregate function 'sum' is already registered".to_string()));
    assert_eq!(reg.get("sum"), Some(AggregateDesc { impl_: AggImpl::Builtin, is_builtin: true }));
}

#[test]
fn register_predicate_works_and_rejects_duplicate() {
    let mut reg = FunctionRegistry::with_builtins();
    reg.register_predicate_desc("email?".to_string(), PredicateDesc { is_builtin: false })
        .expect("first registration ok");
    assert!(reg.get_predicate("email?").is_some());
    let second = reg.register_predicate_desc("email?".to_string(), PredicateDesc { is_builtin: false });
    assert!(second.is_err());
}

#[test]
fn register_builtin_predicate_name_rejected() {
    let mut reg = FunctionRegistry::with_builtins();
    let result = reg.register_predicate_desc("string?".to_string(), PredicateDesc { is_builtin: false });
    assert_eq!(result, Err("INT-040: predicate 'string?' is already registered".to_string()));
    assert!(reg.get_predicate("string?").is_none());
}

#[test]
fn distinct_aggregates_compare_floats_by_value() {
    let vals = vec![
        Value::Float("1.0".to_string()),
        Value::Float("1.00".to_string()),
        Value::Integer(1),
        Value::Float("2.5".to_string()),
    ];
    let result = apply_builtin_aggregate("count-distinct", &vals, &float_step).unwrap();
    assert_eq!(result, Aggregated::Value(Value::Integer(3)));
    let result = apply_builtin_aggregate("sum-distinct", &vals, &float_step).unwrap();
    assert_eq!(
        result,
        Aggregated::FloatSum(vec![Value::Float("1.0".to_string()), Value::Integer(1), Value::Float("2.5".to_string())])
    );
}
