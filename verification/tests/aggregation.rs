use minigraf::evaluator::Bindings;
use minigraf::expression::FloatOp;
use minigraf::functions::{AggImpl, AggregateDesc, Aggregated, FunctionRegistry};
use minigraf::types::{value_clone, FindSpec, Order, Value, WindowFunc, WindowSpec};
use minigraf::window::apply_post_processing;

fn num(v: &Value) -> Option<f64> {
    match v {
        Value::Integer(i) => Some(*i as f64),
        Value::Float(t) => t.parse::<f64>().ok(),
        _ => None,
    }
}

fn float_step(op: FloatOp, l: Value, r: Value) -> Result<Value, ()> {
    let (a, b) = (num(&l).ok_or(())?, num(&r).ok_or(())?);
    match op {
        FloatOp::Lt => Ok(Value::Boolean(a < b)),
        FloatOp::Gt => Ok(Value::Boolean(a > b)),
        FloatOp::Lte => Ok(Value::Boolean(a <= b)),
        FloatOp::Gte => Ok(Value::Boolean(a >= b)),
        FloatOp::Eq => Ok(Value::Boolean(a == b)),
        FloatOp::Neq => Ok(Value::Boolean(a != b)),
        _ => Err(()),
    }
}

/// The caller's completion of float aggregates, in `f64`.
fn finish(a: Aggregated) -> Value {
    let float = |x: f64| Value::Float(format!("{:?}", x));
    match a {
        Aggregated::Value(v) => v,
        Aggregated::FloatSum(vs) => float(vs.iter().filter_map(num).sum()),
        Aggregated::FloatMean(vs) => float(vs.iter().filter_map(num).sum::<f64>() / vs.len() as f64),
        Aggregated::FloatExtreme { values, min } => {
            let mut best: Option<f64> = None;
            for x in values.iter().filter_map(num) {
                best = match best {
                    None => Some(x),
                    Some(b) => Some(if (min && x < b) || (!min && x > b) { x } else { b }),
                };
            }
            best.map(float).unwrap_or(Value::Null)
        }
        Aggregated::RunningSum(vs) => {
            let total: f64 = vs.iter().filter_map(num).sum();
            if vs.iter().any(|v| matches!(v, Value::Float(_))) {
                float(total)
            } else {
                Value::Integer(total as i64)
            }
        }
    }
}

/// User-defined aggregates: `total` adds up integers; `rows` counts values.
fn udf(name: &str, vs: &Vec<Value>) -> Value {
    match name {
        "total" => Value::Integer(vs.iter().map(|v| if let Value::Integer(i) = v { *i } else { 0 }).sum()),
        "rows" => Value::Integer(vs.len() as i64),
        _ => Value::Null,
    }
}

fn binding(pairs: &[(&str, Value)]) -> Bindings {
    let mut m = Bindings::new();
    for (k, v) in pairs {
        m.insert(k.to_string(), value_clone(v));
    }
    m
}

fn agg(func: &str, var: &str) -> FindSpec {
    FindSpec::Aggregate { func: func.to_string(), var: var.to_string() }
}

fn post(bindings: Vec<Bindings>, find_specs: &Vec<FindSpec>, with: &Vec<String>) -> Result<Vec<Vec<Value>>, String> {
    apply_post_processing(bindings, find_specs, with, &FunctionRegistry::with_builtins(), &float_step, &finish, &udf)
}

fn s(t: &str) -> Value {
    Value::String(t.to_string())
}

#[test]
fn test_apply_aggregation_count_basic() {
    let bindings = vec![
        binding(&[("?e", Value::Integer(1))]),
        binding(&[("?e", Value::Integer(2))]),
        binding(&[("?e", Value::Integer(3))]),
    ];
    let results = post(bindings, &vec![agg("count", "?e")], &vec![]).unwrap();
    assert_eq!(results.len(), 1);
    assert_eq!(results[0][0], Value::Integer(3));
}

#[test]
fn test_apply_aggregation_count_with_grouping() {
    let bindings = vec![
        binding(&[("?dept", s("eng")), ("?e", Value::Integer(1))]),
        binding(&[("?dept", s("eng")), ("?e", Value::Integer(2))]),
        binding(&[("?dept", s("hr")), ("?e", Value::Integer(3))]),
    ];
    let find_specs = vec![FindSpec::Variable("?dept".to_string()), agg("count", "?e")];
    let mut results = post(bindings, &find_specs, &vec![]).unwrap();
    results.sort_by_key(|r| match &r[0] {
        Value::String(s) => s.clone(),
        _ => String::new(),
    });
    assert_eq!(results.len(), 2);
    assert_eq!(results[0], vec![s("eng"), Value::Integer(2)]);
    assert_eq!(results[1], vec![s("hr"), Value::Integer(1)]);
}

#[test]
fn test_apply_aggregation_count_distinct() {
    let bindings = vec![
        binding(&[("?v", Value::Integer(1))]),
        binding(&[("?v", Value::Integer(1))]),
        binding(&[("?v", Value::Integer(2))]),
    ];
    let results = post(bindings, &vec![agg("count-distinct", "?v")], &vec![]).unwrap();
    assert_eq!(results[0][0], Value::Integer(2));
}

#[test]
fn test_apply_aggregation_count_empty_no_grouping_vars() {
    let results = post(vec![], &vec![agg("count", "?e")], &vec![]).unwrap();
    assert_eq!(results.len(), 1, "should return one row with 0");
    assert_eq!(results[0][0], Value::Integer(0));
}

#[test]
fn test_apply_aggregation_count_empty_with_grouping_var() {
    let find_specs = vec![FindSpec::Variable("?dept".to_string()), agg("count", "?e")];
    let results = post(vec![], &find_specs, &vec![]).unwrap();
    assert_eq!(results.len(), 0, "should return empty set");
}

#[test]
fn test_apply_aggregation_sum_integers() {
    let bindings = vec![
        binding(&[("?v", Value::Integer(10))]),
        binding(&[("?v", Value::Integer(20))]),
        binding(&[("?v", Value::Integer(30))]),
    ];
    let results = post(bindings, &vec![agg("sum", "?v")], &vec![]).unwrap();
    assert_eq!(results[0][0], Value::Integer(60));
}

#[test]
fn test_apply_aggregation_sum_widens_to_float() {
    let bindings = vec![binding(&[("?v", Value::Integer(10))]), binding(&[("?v", Value::Float("0.5".to_string()))])];
    let results = post(bindings, &vec![agg("sum", "?v")], &vec![]).unwrap();
    assert_eq!(results[0][0], Value::Float("10.5".to_string()));
}

#[test]
fn test_apply_aggregation_sum_distinct_deduplicates() {
    let bindings = vec![
        binding(&[("?v", Value::Integer(5))]),
        binding(&[("?v", Value::Integer(5))]),
        binding(&[("?v", Value::Integer(10))]),
    ];
    let results = post(bindings, &vec![agg("sum-distinct", "?v")], &vec![]).unwrap();
    assert_eq!(results[0][0], Value::Integer(15));
}

#[test]
fn test_apply_aggregation_sum_type_error() {
    let bindings = vec![binding(&[("?v", s("bad"))])];
    let result = post(bindings, &vec![agg("sum", "?v")], &vec![]);
    assert!(result.is_err(), "sum of string should fail");
}

#[test]
fn test_apply_aggregation_min_integers() {
    let bindings = vec![
        binding(&[("?v", Value::Integer(30))]),
        binding(&[("?v", Value::Integer(10))]),
        binding(&[("?v", Value::Integer(20))]),
    ];
    let results = post(bindings, &vec![agg("min", "?v")], &vec![]).unwrap();
    assert_eq!(results[0][0], Value::Integer(10));
}

#[test]
fn test_apply_aggregation_max_strings() {
    let bindings = vec![
        binding(&[("?v", s("apple"))]),
        binding(&[("?v", s("zebra"))]),
        binding(&[("?v", s("mango"))]),
    ];
    let results = post(bindings, &vec![agg("max", "?v")], &vec![]).unwrap();
    assert_eq!(results[0][0], s("zebra"));
}

#[test]
fn test_apply_aggregation_min_type_error_boolean() {
    let bindings = vec![binding(&[("?v", Value::Boolean(true))])];
    let result = post(bindings, &vec![agg("min", "?v")], &vec![]);
    assert!(result.is_err(), "min of boolean should fail");
}

#[test]
fn test_apply_aggregation_min_mixed_int_float_error() {
    let bindings = vec![binding(&[("?v", Value::Integer(1))]), binding(&[("?v", Value::Float("2.0".to_string()))])];
    let result = post(bindings, &vec![agg("min", "?v")], &vec![]);
    assert!(result.is_err(), "min of mixed Integer/Float should fail");
}

#[test]
fn test_apply_aggregation_skips_nulls_in_sum() {
    let bindings = vec![
        binding(&[("?v", Value::Integer(10))]),
        binding(&[("?v", Value::Null)]),
        binding(&[("?v", Value::Integer(20))]),
    ];
    let results = post(bindings, &vec![agg("sum", "?v")], &vec![]).unwrap();
    assert_eq!(results[0][0], Value::Integer(30));
}

#[test]
fn test_apply_aggregation_skips_nulls_in_count() {
    let bindings = vec![
        binding(&[("?v", Value::Integer(1))]),
        binding(&[("?v", Value::Null)]),
        binding(&[("?v", Value::Integer(2))]),
    ];
    let results = post(bindings, &vec![agg("count", "?v")], &vec![]).unwrap();
    assert_eq!(results[0][0], Value::Integer(2));
}

#[test]
fn test_apply_aggregation_sum_empty_bindings() {
    let results = post(vec![], &vec![agg("sum", "?v")], &vec![]).unwrap();
    assert_eq!(results.len(), 0, "sum on empty should return empty set");
}

fn salary_rows() -> Vec<Bindings> {
    vec![
        binding(&[("?dept", s("eng")), ("?salary", Value::Integer(50)), ("?e", Value::Integer(1))]),
        binding(&[("?dept", s("eng")), ("?salary", Value::Integer(50)), ("?e", Value::Integer(2))]),
    ]
}

#[test]
fn test_apply_aggregation_with_var_grouping() {
    let find_specs = vec![FindSpec::Variable("?dept".to_string()), agg("sum", "?salary")];
    let results_no_with = post(salary_rows(), &find_specs, &vec![]).unwrap();
    assert_eq!(results_no_with.len(), 1);
    assert_eq!(results_no_with[0][1], Value::Integer(100));
    let results_with = post(salary_rows(), &find_specs, &vec!["?e".to_string()]).unwrap();
    assert_eq!(results_with.len(), 2);
    assert_eq!(results_with[0][1], Value::Integer(50));
}

// ----- further cases -----

#[test]
fn plain_variables_are_projected_and_incomplete_rows_dropped() {
    let bindings = vec![
        binding(&[("?a", Value::Integer(1)), ("?b", Value::Integer(2))]),
        binding(&[("?a", Value::Integer(3))]),
    ];
    let find_specs = vec![FindSpec::Variable("?b".to_string()), FindSpec::Variable("?a".to_string())];
    let results = post(bindings, &find_specs, &vec![]).unwrap();
    assert_eq!(results, vec![vec![Value::Integer(2), Value::Integer(1)]]);
}

#[test]
fn min_over_an_all_null_group_leaves_the_group_out() {
    let bindings = vec![
        binding(&[("?d", s("a")), ("?v", Value::Null)]),
        binding(&[("?d", s("b")), ("?v", Value::Integer(4))]),
    ];
    let find_specs = vec![FindSpec::Variable("?d".to_string()), agg("min", "?v")];
    let results = post(bindings, &find_specs, &vec![]).unwrap();
    assert_eq!(results, vec![vec![s("b"), Value::Integer(4)]]);
}

#[test]
fn unknown_and_user_defined_aggregates() {
    let bindings = vec![binding(&[("?v", Value::Integer(2))]), binding(&[("?v", Value::Integer(5))])];
    let err = post(bindings, &vec![agg("median", "?v")], &vec![]).unwrap_err();
    assert_eq!(err, "unknown aggregate function: 'median'");
    let mut reg = FunctionRegistry::with_builtins();
    reg.register_aggregate_desc("total".to_string(), AggregateDesc { impl_: AggImpl::Udf, is_builtin: false })
        .unwrap();
    let bindings = vec![binding(&[("?v", Value::Integer(2))]), binding(&[("?v", Value::Integer(5))])];
    let out = apply_post_processing(bindings, &vec![agg("total", "?v")], &vec![], &reg, &float_step, &finish, &udf)
        .unwrap();
    assert_eq!(out, vec![vec![Value::Integer(7)]]);
}

fn window(func: WindowFunc, var: Option<&str>, partition: Option<&str>, order: Order) -> FindSpec {
    FindSpec::Window(WindowSpec {
        func,
        var: var.map(|v| v.to_string()),
        partition_by: partition.map(|v| v.to_string()),
        order_by: "?t".to_string(),
        order,
    })
}

fn timeline() -> Vec<Bindings> {
    vec![
        binding(&[("?g", s("x")), ("?t", Value::Integer(3)), ("?v", Value::Integer(30))]),
        binding(&[("?g", s("y")), ("?t", Value::Integer(1)), ("?v", Value::Integer(5))]),
        binding(&[("?g", s("x")), ("?t", Value::Integer(1)), ("?v", Value::Integer(10))]),
        binding(&[("?g", s("x")), ("?t", Value::Integer(2)), ("?v", Value::Integer(20))]),
    ]
}

#[test]
fn row_number_and_running_sum_per_partition() {
    let find_specs = vec![
        FindSpec::Variable("?v".to_string()),
        window(WindowFunc::RowNumber, None, Some("?g"), Order::Asc),
        window(WindowFunc::Sum, Some("?v"), Some("?g"), Order::Asc),
    ];
    let out = post(timeline(), &find_specs, &vec![]).unwrap();
    assert_eq!(
        out,
        vec![
            vec![Value::Integer(30), Value::Integer(3), Value::Integer(60)],
            vec![Value::Integer(5), Value::Integer(1), Value::Integer(5)],
            vec![Value::Integer(10), Value::Integer(1), Value::Integer(10)],
            vec![Value::Integer(20), Value::Integer(2), Value::Integer(30)],
        ]
    );
}

#[test]
fn rank_shares_ties_and_descending_order_reverses() {
    let rows = vec![
        binding(&[("?t", Value::Integer(5))]),
        binding(&[("?t", Value::Integer(7))]),
        binding(&[("?t", Value::Integer(5))]),
        binding(&[("?t", Value::Integer(9))]),
    ];
    let find_specs = vec![FindSpec::Variable("?t".to_string()), window(WindowFunc::Rank, None, None, Order::Desc)];
    let out = post(rows, &find_specs, &vec![]).unwrap();
    let ranks: Vec<Value> = out.iter().map(|r| value_clone(&r[1])).collect();
    assert_eq!(ranks, vec![Value::Integer(3), Value::Integer(2), Value::Integer(3), Value::Integer(1)]);
}

#[test]
fn running_min_max_count_and_avg() {
    let specs = |f: WindowFunc| vec![window(f, Some("?v"), None, Order::Asc)];
    let out = post(timeline(), &specs(WindowFunc::Min), &vec![]).unwrap();
    // order by ?t: (1,5) (1,10) (2,20) (3,30) -- stable, so the earlier row with t=1 comes first
    assert_eq!(out[0][0], Value::Integer(5));
    let out = post(timeline(), &specs(WindowFunc::Max), &vec![]).unwrap();
    assert_eq!(out[0][0], Value::Integer(30));
    assert_eq!(out[2][0], Value::Integer(10));
    let out = post(timeline(), &specs(WindowFunc::Count), &vec![]).unwrap();
    assert_eq!(out[3][0], Value::Integer(3));
    let out = post(timeline(), &specs(WindowFunc::Avg), &vec![]).unwrap();
    assert_eq!(out[1][0], Value::Float("5.0".to_string()));
    assert_eq!(out[2][0], Value::Float("7.5".to_string()));
}

#[test]
fn unregistered_window_function_is_an_error() {
    let find_specs = vec![window(WindowFunc::Udf("median".to_string()), Some("?v"), None, Order::Asc)];
    let err = post(timeline(), &find_specs, &vec![]).unwrap_err();
    assert!(err.starts_with("unknown window function 'median'"));
    let mut reg = FunctionRegistry::with_builtins();
    reg.register_aggregate_desc("rows".to_string(), AggregateDesc { impl_: AggImpl::Udf, is_builtin: false })
        .unwrap();
    let find_specs = vec![window(WindowFunc::Udf("rows".to_string()), Some("?v"), None, Order::Asc)];
    let out = apply_post_processing(timeline(), &find_specs, &vec![], &reg, &float_step, &finish, &udf).unwrap();
    assert_eq!(out[0][0], Value::Integer(4));
    assert_eq!(out[1][0], Value::Integer(1));
}
