use minigraf::edn::EdnValue;
use minigraf::evaluator::Bindings;
use minigraf::execution::{execute_query, execute_query_with_rules};
use minigraf::expression::FloatOp;
use minigraf::functions::{Aggregated, FunctionRegistry};
use minigraf::recursion::DerivedFact;
use minigraf::stratification::RuleRegistry;
use minigraf::types::{value_clone, AttributeSpec, DatalogQuery, FindSpec, Pattern, Rule, Value, WhereClause};

fn copy(b: &Bindings) -> Bindings {
    let mut r = Bindings::new();
    for n in b.names() {
        r.insert(n.clone(), value_clone(b.get(&n).unwrap()));
    }
    r
}

fn unify(row: &mut Bindings, term: &EdnValue, v: &Value) -> bool {
    match term {
        EdnValue::Symbol(s) if s.starts_with('?') => match row.get(s) {
            Some(bound) => bound == v,
            None => {
                row.insert(s.clone(), value_clone(v));
                true
            }
        },
        EdnValue::Boolean(b) => *v == Value::Boolean(*b),
        EdnValue::Uuid(u) => *v == Value::Ref(*u),
        _ => false,
    }
}

/// A stand-in matcher over the facts it is given.
fn matcher(facts: &Vec<DerivedFact>, patterns: &Vec<Pattern>, seed: &Vec<Bindings>) -> Vec<Bindings> {
    let mut rows: Vec<Bindings> = seed.iter().map(copy).collect();
    for p in patterns {
        let attr = match &p.attribute {
            AttributeSpec::Real(EdnValue::Keyword(k)) => k.clone(),
            _ => return vec![],
        };
        let mut out = Vec::new();
        for row in rows.iter() {
            for f in facts.iter().filter(|f| f.attribute == attr) {
                let mut r = copy(row);
                if unify(&mut r, &p.entity, &Value::Ref(f.entity)) && unify(&mut r, &p.value, &f.value) {
                    out.push(r);
                }
            }
        }
        rows = out;
    }
    rows
}

fn float_step(_op: FloatOp, _l: Value, _r: Value) -> Result<Value, ()> {
    Err(())
}

fn no_predicate(_n: &str, _v: &Value) -> bool {
    false
}

fn finish(a: Aggregated) -> Value {
    match a {
        Aggregated::Value(v) => v,
        _ => Value::Null,
    }
}

fn no_udf(_n: &str, _vs: &Vec<Value>) -> Value {
    Value::Null
}

fn to_entity(e: &EdnValue) -> Result<u128, String> {
    match e {
        EdnValue::Uuid(u) => Ok(*u),
        _ => Err("not an entity".to_string()),
    }
}

fn to_value(e: &EdnValue) -> Result<Value, String> {
    match e {
        EdnValue::Uuid(u) => Ok(Value::Ref(*u)),
        EdnValue::Boolean(b) => Ok(Value::Boolean(*b)),
        _ => Err("not a value".to_string()),
    }
}

fn fact(e: u128, a: &str, v: Value) -> DerivedFact {
    DerivedFact { entity: e, attribute: a.to_string(), value: v }
}

fn sym(s: &str) -> EdnValue {
    EdnValue::Symbol(s.to_string())
}

fn kw(s: &str) -> EdnValue {
    EdnValue::Keyword(s.to_string())
}

fn pat(e: EdnValue, a: &str, v: EdnValue) -> WhereClause {
    WhereClause::Pattern(Pattern::new(e, kw(a), v))
}

fn run(query: &DatalogQuery, facts: &Vec<DerivedFact>) -> Vec<Vec<Value>> {
    let registry = FunctionRegistry::with_builtins();
    execute_query(query, &registry, facts, &matcher, &float_step, &no_predicate, &finish, &no_udf).unwrap()
}

fn run_with_rules(query: &DatalogQuery, rules: &RuleRegistry, base: &Vec<DerivedFact>) -> Vec<Vec<Value>> {
    let registry = FunctionRegistry::with_builtins();
    execute_query_with_rules(
        query,
        rules,
        &registry,
        base,
        100000,
        100000,
        &matcher,
        &float_step,
        &no_predicate,
        &finish,
        &no_udf,
        &to_entity,
        &to_value,
    )
    .unwrap()
}

fn reachable_rule(attr: &str, from: &str, to: &str) -> RuleRegistry {
    let mut rules = RuleRegistry::new();
    rules.register_rule_unchecked(
        "reachable".to_string(),
        Rule { head: vec![sym("reachable"), sym(from), sym(to)], body: vec![pat(sym(from), attr, sym(to))] },
    );
    rules
}

#[test]
fn test_execute_query_not_as_pure_filter() {
    let (alice, bob) = (1u128, 2u128);
    let facts = vec![
        fact(alice, ":applied", Value::Boolean(true)),
        fact(alice, ":rejected", Value::Boolean(true)),
        fact(bob, ":applied", Value::Boolean(true)),
    ];
    let query = DatalogQuery::new(
        vec![FindSpec::Variable("?e".to_string())],
        vec![
            pat(sym("?e"), ":applied", EdnValue::Boolean(true)),
            WhereClause::Not(vec![pat(sym("?e"), ":rejected", EdnValue::Boolean(true))]),
        ],
    );
    let results = run(&query, &facts);
    assert_eq!(results.len(), 1, "only bob should pass (alice is rejected)");
    assert_eq!(results[0], vec![Value::Ref(bob)]);
}

#[test]
fn test_execute_query_with_rules_not_in_query_body() {
    let (a, b, c) = (1u128, 2u128, 3u128);
    let base = vec![
        fact(a, ":connected", Value::Ref(b)),
        fact(a, ":connected", Value::Ref(c)),
        fact(c, ":blocked", Value::Boolean(true)),
    ];
    let rules = reachable_rule(":connected", "?from", "?to");
    let query = DatalogQuery::new(
        vec![FindSpec::Variable("?x".to_string())],
        vec![
            WhereClause::RuleInvocation { predicate: "reachable".to_string(), args: vec![sym("?_a"), sym("?x")] },
            WhereClause::Not(vec![pat(sym("?x"), ":blocked", EdnValue::Boolean(true))]),
        ],
    );
    let results = run_with_rules(&query, &rules, &base);
    assert_eq!(results.len(), 1, "c should be excluded (blocked), only b passes");
    assert_eq!(results[0], vec![Value::Ref(b)]);
}

#[test]
fn test_execute_query_not_join_basic() {
    let (alice, bob, dep1) = (1u128, 2u128, 3u128);
    let facts = vec![
        fact(alice, ":submitted", Value::Boolean(true)),
        fact(alice, ":has-dep", Value::Ref(dep1)),
        fact(dep1, ":blocked", Value::Boolean(true)),
        fact(bob, ":submitted", Value::Boolean(true)),
    ];
    let query = DatalogQuery::new(
        vec![FindSpec::Variable("?x".to_string())],
        vec![
            pat(sym("?x"), ":submitted", EdnValue::Boolean(true)),
            WhereClause::NotJoin {
                join_vars: vec!["?x".to_string()],
                clauses: vec![
                    pat(sym("?x"), ":has-dep", sym("?d")),
                    pat(sym("?d"), ":blocked", EdnValue::Boolean(true)),
                ],
            },
        ],
    );
    let results = run(&query, &facts);
    assert_eq!(results.len(), 1, "only bob should be returned");
    assert_eq!(results[0], vec![Value::Ref(bob)]);
}

#[test]
fn test_execute_query_with_rules_not_join_in_query_body() {
    let (root, a, b, dep1) = (1u128, 2u128, 3u128, 4u128);
    let base = vec![
        fact(root, ":edge", Value::Ref(a)),
        fact(root, ":edge", Value::Ref(b)),
        fact(a, ":has-dep", Value::Ref(dep1)),
        fact(dep1, ":blocked", Value::Boolean(true)),
    ];
    let rules = reachable_rule(":edge", "?x", "?y");
    let query = DatalogQuery::new(
        vec![FindSpec::Variable("?y".to_string())],
        vec![
            WhereClause::RuleInvocation {
                predicate: "reachable".to_string(),
                args: vec![EdnValue::Uuid(root), sym("?y")],
            },
            WhereClause::NotJoin {
                join_vars: vec!["?y".to_string()],
                clauses: vec![pat(sym("?y"), ":has-dep", sym("?d")), pat(sym("?d"), ":blocked", EdnValue::Boolean(true))],
            },
        ],
    );
    let results = run_with_rules(&query, &rules, &base);
    assert_eq!(results.len(), 1, "only b should pass");
    assert_eq!(results[0], vec![Value::Ref(b)]);
}
