use minigraf::command::parse_datalog_command;
use minigraf::edn::EdnValue;
use minigraf::evaluator::Bindings;
use minigraf::execution::{execute_query, execute_query_with_rules};
use minigraf::recursion::DerivedFact;
use minigraf::stratification::RuleRegistry;
use minigraf::expression::FloatOp;
use minigraf::functions::{Aggregated, FunctionRegistry};
use minigraf::types::{value_clone, AttributeSpec, DatalogCommand, DatalogQuery, Pattern, Rule, Value, WhereClause};

fn query(text: &str) -> DatalogQuery {
    match parse_datalog_command(text).unwrap() {
        DatalogCommand::Query(q) => q,
        _ => panic!("expected a query"),
    }
}

fn facts() -> Vec<(u128, &'static str, Value)> {
    vec![
        (1, ":name", Value::String("alice".to_string())),
        (1, ":age", Value::Integer(30)),
        (2, ":name", Value::String("bob".to_string())),
        (2, ":age", Value::Integer(20)),
    ]
}

fn leak(s: &str) -> &'static str {
    Box::leak(s.to_string().into_boxed_str())
}

fn copy(b: &Bindings) -> Bindings {
    let mut r = Bindings::new();
    for n in b.names() {
        r.insert(n.clone(), value_clone(b.get(&n).unwrap()));
    }
    r
}

/// Unifies one position of a pattern with a value; false on a mismatch.
fn unify(row: &mut Bindings, term: &EdnValue, v: &Value) -> bool {
    match term {
        EdnValue::Symbol(s) if s.starts_with('?') => match row.get(s) {
            Some(bound) => bound == v,
            None => {
                row.insert(s.clone(), value_clone(v));
                true
            }
        },
        EdnValue::Integer(i) => *v == Value::Integer(*i),
        EdnValue::String(s) => *v == Value::String(s.clone()),
        EdnValue::Uuid(u) => *v == Value::Ref(*u),
        EdnValue::Keyword(k) => *v == Value::Keyword(k.clone()),
        _ => false,
    }
}

/// A stand-in matcher over `facts()` and the derived facts: each pattern
/// joins the rows with the facts it matches.
fn match_patterns(derived: &Vec<DerivedFact>, patterns: &Vec<Pattern>, seed: &Vec<Bindings>) -> Vec<Bindings> {
    let mut all = facts();
    for f in derived.iter() {
        all.push((f.entity, leak(&f.attribute), value_clone(&f.value)));
    }
    let mut rows: Vec<Bindings> = seed.iter().map(copy).collect();
    for p in patterns {
        let attr = match &p.attribute {
            AttributeSpec::Real(EdnValue::Keyword(k)) => k.clone(),
            _ => return vec![],
        };
        let mut out = Vec::new();
        for row in rows.iter() {
            for (e, a, v) in all.iter() {
                if *a != attr {
                    continue;
                }
                let mut r = copy(row);
                if unify(&mut r, &p.entity, &Value::Ref(*e)) && unify(&mut r, &p.value, v) {
                    out.push(r);
                }
            }
        }
        rows = out;
    }
    rows
}

fn to_entity(e: &EdnValue) -> Result<u128, String> {
    match e {
        EdnValue::Uuid(u) => Ok(*u),
        _ => Err(format!("not an entity: {:?}", e)),
    }
}

fn to_value(e: &EdnValue) -> Result<Value, String> {
    match e {
        EdnValue::Uuid(u) => Ok(Value::Ref(*u)),
        EdnValue::Integer(i) => Ok(Value::Integer(*i)),
        EdnValue::String(s) => Ok(Value::String(s.clone())),
        EdnValue::Keyword(k) => Ok(Value::Keyword(k.clone())),
        EdnValue::Boolean(b) => Ok(Value::Boolean(*b)),
        _ => Err(format!("not a value: {:?}", e)),
    }
}

fn float_step(_op: FloatOp, _l: Value, _r: Value) -> Result<Value, ()> {
    Err(())
}

fn no_predicate(_n: &str, _v: &Value) -> bool {
    false
}

fn finish(a: Aggregated) -> Value {
    match a {
        Aggregated::Value(v) => v,
        _ => Value::Null,
    }
}

fn no_udf(_n: &str, _vs: &Vec<Value>) -> Value {
    Value::Null
}

fn run(text: &str) -> Result<Vec<Vec<Value>>, String> {
    let registry = FunctionRegistry::with_builtins();
    execute_query(&query(text), &registry, &vec![], &match_patterns, &float_step, &no_predicate, &finish, &no_udf)
}

fn s(x: &str) -> Value {
    Value::String(x.to_string())
}

#[test]
fn patterns_and_a_filter_select_rows() {
    let rows = run("(query [:find ?n :where [?e :name ?n] [?e :age ?a] [(> ?a 25)]])").unwrap();
    assert_eq!(rows, vec![vec![s("alice")]]);
}

#[test]
fn a_negation_removes_the_rows_its_body_matches() {
    let rows = run("(query [:find ?n :where [?e :name ?n] (not [?e :age 20])])").unwrap();
    assert_eq!(rows, vec![vec![s("alice")]]);
}

#[test]
fn or_keeps_rows_either_branch_matches() {
    let rows = run("(query [:find ?n :where [?e :name ?n] (or [?e :age 30] [?e :age 20])])").unwrap();
    assert_eq!(rows, vec![vec![s("alice")], vec![s("bob")]]);
}

#[test]
fn an_aggregate_collapses_the_rows() {
    let rows = run("(query [:find (count ?e) :where [?e :name ?n]])").unwrap();
    assert_eq!(rows, vec![vec![Value::Integer(2)]]);
}

#[test]
fn per_fact_pseudo_attributes_are_refused_outside_any_valid_time() {
    let err = run("(query [:find ?e ?f :where [?e :db/valid-from ?f]])").unwrap_err();
    assert!(err.starts_with("temporal pseudo-attributes"), "{}", err);
}

fn sym(x: &str) -> EdnValue {
    EdnValue::Symbol(x.to_string())
}

fn connected(a: &str, b: &str) -> WhereClause {
    WhereClause::Pattern(Pattern::new(sym(a), EdnValue::Keyword(":connected".to_string()), sym(b)))
}

fn invoke(pred: &str, a: &str, b: &str) -> WhereClause {
    WhereClause::RuleInvocation { predicate: pred.to_string(), args: vec![sym(a), sym(b)] }
}

/// reach(x, y) :- [x :connected y].   reach(x, z) :- reach(x, y), [y :connected z].
fn reach_rules() -> RuleRegistry {
    let mut r = RuleRegistry::new();
    r.register_rule_unchecked(
        "reach".to_string(),
        Rule { head: vec![sym("reach"), sym("?x"), sym("?y")], body: vec![connected("?x", "?y")] },
    );
    r.register_rule_unchecked(
        "reach".to_string(),
        Rule {
            head: vec![sym("reach"), sym("?x"), sym("?z")],
            body: vec![invoke("reach", "?x", "?y"), connected("?y", "?z")],
        },
    );
    r
}

fn edge(e: u128, v: u128, a: &str) -> DerivedFact {
    DerivedFact { entity: e, attribute: a.to_string(), value: Value::Ref(v) }
}

fn run_with_rules(text: &str, rules: &RuleRegistry) -> Result<Vec<Vec<Value>>, String> {
    let registry = FunctionRegistry::with_builtins();
    let base = vec![edge(1, 2, ":connected"), edge(2, 3, ":connected")];
    execute_query_with_rules(
        &query(text),
        rules,
        &registry,
        &base,
        1000,
        1000,
        &match_patterns,
        &float_step,
        &no_predicate,
        &finish,
        &no_udf,
        &to_entity,
        &to_value,
    )
}

#[test]
fn a_rule_invocation_reads_the_derived_facts() {
    let mut rows = run_with_rules("(query [:find ?x ?y :where (reach ?x ?y)])", &reach_rules()).unwrap();
    rows.sort_by_key(|r| format!("{:?}", r));
    assert_eq!(
        rows,
        vec![
            vec![Value::Ref(1), Value::Ref(2)],
            vec![Value::Ref(1), Value::Ref(3)],
            vec![Value::Ref(2), Value::Ref(3)],
        ]
    );
}

#[test]
fn a_query_over_unstratifiable_rules_is_refused() {
    let mut r = RuleRegistry::new();
    r.register_rule_unchecked(
        "p".to_string(),
        Rule { head: vec![sym("p"), sym("?x")], body: vec![WhereClause::Not(vec![invoke("q", "?x", "?x")])] },
    );
    r.register_rule_unchecked(
        "q".to_string(),
        Rule { head: vec![sym("q"), sym("?x")], body: vec![WhereClause::Not(vec![invoke("p", "?x", "?x")])] },
    );
    let err = run_with_rules("(query [:find ?x :where (p ?x ?x)])", &r).unwrap_err();
    assert!(err.starts_with("INT-054"), "{}", err);
}

#[test]
fn a_rule_with_negation_reads_the_finished_lower_stratum() {
    let mut r = reach_rules();
    r.register_rule_unchecked(
        "cut".to_string(),
        Rule {
            head: vec![sym("cut"), sym("?x"), sym("?y")],
            body: vec![connected("?x", "?a"), connected("?y", "?b"), WhereClause::Not(vec![invoke("reach", "?x", "?y")])],
        },
    );
    let mut rows = run_with_rules("(query [:find ?x ?y :where (cut ?x ?y)])", &r).unwrap();
    rows.sort_by_key(|r| format!("{:?}", r));
    assert_eq!(
        rows,
        vec![
            vec![Value::Ref(1), Value::Ref(1)],
            vec![Value::Ref(2), Value::Ref(1)],
            vec![Value::Ref(2), Value::Ref(2)],
        ]
    );
}
