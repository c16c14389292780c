use minigraf::edn::EdnValue;
use minigraf::evaluator::{substitute_pattern, substitute_variable, Bindings};
use minigraf::executor::{extract_predicate, is_truthy};
use minigraf::expression::FloatOp;
use minigraf::types::{Pattern, Rule};
use minigraf::types::Value;

/// The engine's float comparison, in `f64`.
fn float_step(op: FloatOp, l: Value, r: Value) -> Result<Value, ()> {
    fn num(v: &Value) -> Result<f64, ()> {
        match v {
            Value::Integer(i) => Ok(*i as f64),
            Value::Float(t) => t.parse::<f64>().map_err(|_| ()),
            _ => Err(()),
        }
    }
    let (a, b) = (num(&l)?, num(&r)?);
    match op {
        FloatOp::Eq => Ok(Value::Boolean(a == b)),
        FloatOp::Neq => Ok(Value::Boolean(a != b)),
        _ => Err(()),
    }
}

fn truthy(v: Value) -> bool {
    is_truthy(&v, &float_step)
}

#[test]
fn test_is_truthy() {
    assert!(truthy(Value::Boolean(true)));
    assert!(!truthy(Value::Boolean(false)));
    assert!(truthy(Value::Integer(1)));
    assert!(!truthy(Value::Integer(0)));
    assert!(truthy(Value::Float("0.1".to_string())));
    assert!(!truthy(Value::Float("0.0".to_string())));
    assert!(!truthy(Value::Float("-0.0".to_string())));
    assert!(!truthy(Value::Null));
    assert!(!truthy(Value::String("hi".to_string())));
}

#[test]
fn non_finite_floats_are_truthy_and_underflow_is_not() {
    assert!(truthy(Value::Float("inf".to_string())));
    assert!(truthy(Value::Float("NaN".to_string())));
    assert!(!truthy(Value::Float("1e-400".to_string())));
}

#[test]
fn rule_predicate_is_the_head_symbol() {
    let rule = Rule {
        head: vec![EdnValue::Symbol("reachable".to_string()), EdnValue::Symbol("?x".to_string())],
        body: vec![],
    };
    assert_eq!(extract_predicate(&rule), Ok("reachable".to_string()));
    let empty = Rule { head: vec![], body: vec![] };
    assert_eq!(extract_predicate(&empty), Err("Rule head cannot be empty".to_string()));
    let bad = Rule { head: vec![EdnValue::Integer(1)], body: vec![] };
    assert_eq!(
        extract_predicate(&bad),
        Err("Rule head must start with a symbol (predicate name)".to_string())
    );
}

#[test]
fn head_arguments_take_bound_values() {
    let mut b = Bindings::new();
    b.insert("?x".to_string(), Value::Integer(4));
    b.insert("?n".to_string(), Value::Null);
    assert_eq!(substitute_variable(&EdnValue::Symbol("?x".to_string()), &b), Ok(EdnValue::Integer(4)));
    assert_eq!(
        substitute_variable(&EdnValue::Symbol("?n".to_string()), &b),
        Ok(EdnValue::Symbol("nil".to_string()))
    );
    assert_eq!(
        substitute_variable(&EdnValue::Symbol("?y".to_string()), &b),
        Err("Unbound variable in rule head: ?y".to_string())
    );
    assert_eq!(substitute_variable(&EdnValue::Keyword(":k".to_string()), &b), Ok(EdnValue::Keyword(":k".to_string())));
}

#[test]
fn substituting_a_pattern_twice_is_substituting_it_once() {
    let mut b = Bindings::new();
    b.insert("?e".to_string(), Value::Integer(7));
    b.insert("?v".to_string(), Value::Null);
    let p = Pattern::new(
        EdnValue::Symbol("?e".to_string()),
        EdnValue::Keyword(":a".to_string()),
        EdnValue::Symbol("?v".to_string()),
    );
    let once = substitute_pattern(&p, &b);
    let twice = substitute_pattern(&once, &b);
    assert_eq!(once, twice);
    assert_eq!(once.entity, EdnValue::Integer(7));
    assert_eq!(once.value, EdnValue::Symbol("nil".to_string()));
}
