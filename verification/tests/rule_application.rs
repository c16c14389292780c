use minigraf::command::parse_datalog_command;
use minigraf::edn::EdnValue;
use minigraf::evaluator::Bindings;
use minigraf::expression::FloatOp;
use minigraf::functions::FunctionRegistry;
use minigraf::negation::{evaluate_not_join, not_body_matches};
use minigraf::recursion::{DerivedFact, RuleLimits};
use minigraf::rule_application::{
    apply_rule_once, evaluate_rule, evaluate_rules_recursively, evaluate_stratified_rules, instantiate_head,
};
use minigraf::stratification::RuleRegistry;
use minigraf::types::{rule_clone, value_clone, AttributeSpec, BinOp, DatalogCommand, Expr, Pattern, Rule, Value, WhereClause};

fn copy(b: &Bindings) -> Bindings {
    let mut r = Bindings::new();
    for n in b.names() {
        r.insert(n.clone(), value_clone(b.get(&n).unwrap()));
    }
    r
}

fn unify(row: &mut Bindings, term: &EdnValue, v: &Value) -> bool {
    match term {
        EdnValue::Symbol(s) if s == "_" => true,
        EdnValue::Symbol(s) if s.starts_with('?') => match row.get(s) {
            Some(bound) => bound == v,
            None => {
                row.insert(s.clone(), value_clone(v));
                true
            }
        },
        EdnValue::Integer(i) => *v == Value::Integer(*i),
        EdnValue::Boolean(b) => *v == Value::Boolean(*b),
        EdnValue::Uuid(u) => *v == Value::Ref(*u),
        EdnValue::Keyword(k) => *v == Value::Keyword(k.clone()),
        _ => false,
    }
}

/// A stand-in matcher: each pattern joins the rows with the facts it matches.
fn matcher(facts: &Vec<DerivedFact>, patterns: &Vec<Pattern>, seed: &Vec<Bindings>) -> Vec<Bindings> {
    let mut rows: Vec<Bindings> = seed.iter().map(copy).collect();
    for p in patterns {
        let attr = match &p.attribute {
            AttributeSpec::Real(EdnValue::Keyword(k)) => k.clone(),
            _ => return vec![],
        };
        let mut out = Vec::new();
        for row in rows.iter() {
            for f in facts.iter().filter(|f| f.attribute == attr) {
                let mut r = copy(row);
                if unify(&mut r, &p.entity, &Value::Ref(f.entity)) && unify(&mut r, &p.value, &f.value) {
                    out.push(r);
                }
            }
        }
        rows = out;
    }
    rows
}

fn float_step(_op: FloatOp, _l: Value, _r: Value) -> Result<Value, ()> {
    Err(())
}

fn no_predicate(_n: &str, _v: &Value) -> bool {
    false
}

fn to_entity(e: &EdnValue) -> Result<u128, String> {
    match e {
        EdnValue::Uuid(u) => Ok(*u),
        _ => Err("not an entity".to_string()),
    }
}

fn to_value(e: &EdnValue) -> Result<Value, String> {
    match e {
        EdnValue::Uuid(u) => Ok(Value::Ref(*u)),
        EdnValue::Integer(i) => Ok(Value::Integer(*i)),
        EdnValue::Boolean(b) => Ok(Value::Boolean(*b)),
        _ => Err("not a value".to_string()),
    }
}

fn fact(e: u128, a: &str, v: Value) -> DerivedFact {
    DerivedFact { entity: e, attribute: a.to_string(), value: v }
}

fn sym(s: &str) -> EdnValue {
    EdnValue::Symbol(s.to_string())
}

fn register(rules: &mut RuleRegistry, text: &str) {
    match parse_datalog_command(text).unwrap() {
        DatalogCommand::Rule(rule) => {
            let name = match &rule.head[0] {
                EdnValue::Symbol(s) => s.clone(),
                _ => panic!("expected a predicate"),
            };
            rules.register_rule_unchecked(name, rule);
        }
        _ => panic!("expected a rule"),
    }
}

fn limits(iterations: usize, derived: usize, results: usize) -> RuleLimits {
    RuleLimits { max_iterations: iterations, max_derived_facts: derived, max_results: results }
}

fn evaluate(rules: &RuleRegistry, preds: &[&str], base: &Vec<DerivedFact>, l: RuleLimits) -> Result<Vec<DerivedFact>, String> {
    let requested: Vec<String> = preds.iter().map(|p| p.to_string()).collect();
    let registry = FunctionRegistry::with_builtins();
    evaluate_stratified_rules(
        rules,
        &requested,
        base,
        l,
        &matcher,
        &registry,
        &float_step,
        &no_predicate,
        &to_entity,
        &to_value,
    )
}

fn connected() -> Vec<DerivedFact> {
    vec![fact(1, ":connected", Value::Ref(2)), fact(2, ":connected", Value::Ref(3))]
}

#[test]
fn test_head_requires_args() {
    let head = vec![sym("predicate")];
    let result = instantiate_head(&head, &Bindings::new(), &to_entity, &to_value);
    assert!(result.is_err(), "head with only predicate and no arg should fail");
}

#[test]
fn test_evaluate_rule_empty_body_returns_empty_derived() {
    let mut rules = RuleRegistry::new();
    rules.register_rule_unchecked("empty-body-pred".to_string(), Rule { head: vec![sym("empty-body-pred"), sym("?x")], body: vec![] });
    let result = evaluate(&rules, &["empty-body-pred"], &vec![], limits(1000, 100000, 100000));
    assert!(result.is_ok(), "empty body rule should not fail");
}

#[test]
fn test_evaluate_rule_expr_only_body() {
    let mut rules = RuleRegistry::new();
    rules.register_rule_unchecked(
        "expr-only-pred".to_string(),
        Rule {
            head: vec![sym("expr-only-pred"), sym("?x")],
            body: vec![WhereClause::Expr { expr: Expr::Lit(Value::Boolean(false)), binding: None }],
        },
    );
    let base = vec![fact(7, ":item/value", Value::Integer(42))];
    let result = evaluate(&rules, &["expr-only-pred"], &base, limits(1000, 100000, 100000));
    assert!(result.is_ok(), "expr-only rule body should not fail");
    let derived = result.unwrap();
    assert_eq!(derived.iter().filter(|f| f.attribute == ":expr-only-pred").count(), 0);
}

#[test]
fn test_evaluate_not_join_expr_only_body() {
    let facts = vec![fact(1, ":score", Value::Integer(100))];
    let mut binding = Bindings::new();
    binding.insert("?x".to_string(), Value::Integer(100));
    let expr_clause = WhereClause::Expr {
        expr: Expr::BinOp(BinOp::Gt, Box::new(Expr::Var("?x".to_string())), Box::new(Expr::Lit(Value::Integer(50)))),
        binding: None,
    };
    let result = evaluate_not_join(
        &vec!["?x".to_string()],
        &vec![expr_clause],
        &binding,
        &facts,
        &matcher,
        &FunctionRegistry::with_builtins(),
        &float_step,
        &no_predicate,
    );
    assert!(result, "not-join with expr (100 > 50) should return true (reject)");
}

#[test]
fn test_stratified_evaluator_empty_stratum_skipped() {
    let mut rules = RuleRegistry::new();
    register(&mut rules, "(rule [(a ?x) [?x :x ?v]])");
    let base = vec![fact(1, ":x", Value::Integer(1))];
    let result = evaluate(&rules, &["a", "nonexistent"], &base, limits(1000, 100000, 100000));
    assert!(result.is_ok(), "evaluation with missing predicate should succeed");
}

#[test]
fn test_stratified_evaluator_not_body_empty_patterns() {
    let mut rules = RuleRegistry::new();
    rules.register_rule_unchecked(
        "big".to_string(),
        Rule {
            head: vec![sym("big"), sym("?x")],
            body: vec![
                WhereClause::Pattern(Pattern::new(sym("?x"), EdnValue::Keyword(":val".to_string()), sym("?v"))),
                WhereClause::Not(vec![WhereClause::Expr {
                    expr: Expr::BinOp(
                        BinOp::Lt,
                        Box::new(Expr::Var("?v".to_string())),
                        Box::new(Expr::Lit(Value::Integer(100))),
                    ),
                    binding: None,
                }]),
            ],
        },
    );
    let base = vec![fact(1, ":val", Value::Integer(200)), fact(2, ":val", Value::Integer(50))];
    let result = evaluate(&rules, &["big"], &base, limits(1000, 100000, 100000));
    assert!(result.is_ok(), "stratified evaluation with expr-only not body should succeed");
    let big: Vec<&DerivedFact> = result.as_ref().unwrap().iter().filter(|f| f.attribute == ":big").collect();
    assert_eq!(big.len(), 1, "only entity with val=200 should be 'big'");
    assert_eq!(big[0].entity, 1);
    assert_eq!(big[0].value, Value::Boolean(true));
}

#[test]
fn test_stratified_max_results_limit() {
    let mut rules = RuleRegistry::new();
    register(&mut rules, "(rule [(all ?x) [?x :connected _]])");
    let result = evaluate(&rules, &["all"], &connected(), limits(100, 100000, 1));
    assert!(result.is_err(), "stratified should error when max_results exceeded");
}

#[test]
fn test_stratified_max_derived_facts_limit() {
    let mut rules = RuleRegistry::new();
    register(&mut rules, "(rule [(all ?x) [?x :connected _]])");
    let result = evaluate(&rules, &["all"], &connected(), limits(100, 1, 100000));
    assert!(result.is_err(), "stratified should error when max_derived_facts exceeded");
}

#[test]
fn test_max_derived_facts_exceeded_returns_int020() {
    let mut rules = RuleRegistry::new();
    register(&mut rules, "(rule [(reachable ?x ?y) [?x :connected ?y]])");
    register(&mut rules, "(rule [(reachable ?x ?y) [?x :connected ?z] (reachable ?z ?y)])");
    let err = evaluate(&rules, &["reachable"], &connected(), limits(1000, 0, 100000)).unwrap_err();
    assert!(err.starts_with("INT-020"), "{}", err);
}

#[test]
fn test_mixed_rule_with_expr_preserves_semantics() {
    let mut rules = RuleRegistry::new();
    register(&mut rules, "(rule [(eligible ?x) [?x :val ?v] [(> ?v 10)] (not [?x :blocked true])])");
    let base = vec![
        fact(1, ":val", Value::Integer(5)),
        fact(2, ":val", Value::Integer(20)),
        fact(3, ":val", Value::Integer(30)),
        fact(3, ":blocked", Value::Boolean(true)),
    ];
    let derived = evaluate(&rules, &["eligible"], &base, limits(1000, 100000, 100000)).unwrap();
    let eligible: Vec<&DerivedFact> = derived.iter().filter(|f| f.attribute.contains("eligible")).collect();
    assert_eq!(eligible.len(), 1, "only e2 is eligible (e3 is blocked)");
    assert_eq!(eligible[0].entity, 2);
}

#[test]
fn reachability_reaches_its_fixed_point_through_rule_application() {
    let mut rules = RuleRegistry::new();
    register(&mut rules, "(rule [(reachable ?x ?y) [?x :connected ?y]])");
    register(&mut rules, "(rule [(reachable ?x ?y) [?x :connected ?z] (reachable ?z ?y)])");
    let derived = evaluate(&rules, &["reachable"], &connected(), limits(1000, 100000, 100000)).unwrap();
    let mut pairs: Vec<(u128, Value)> = derived
        .iter()
        .filter(|f| f.attribute == ":reachable")
        .map(|f| (f.entity, value_clone(&f.value)))
        .collect();
    pairs.sort_by_key(|p| format!("{:?}", p));
    assert_eq!(pairs, vec![(1, Value::Ref(2)), (1, Value::Ref(3)), (2, Value::Ref(3))]);
}

#[test]
fn a_rule_with_negation_is_refused_by_the_positive_step() {
    let mut rules = RuleRegistry::new();
    register(&mut rules, "(rule [(eligible ?x) [?x :val ?v] (not [?x :blocked true])])");
    let rule = &rules.all_rules()[0].1[0];
    let registry = FunctionRegistry::with_builtins();
    let err = evaluate_rule(rule, &vec![], &matcher, &registry, &float_step, &no_predicate, &to_entity, &to_value)
        .unwrap_err();
    assert_eq!(err, "INT-021: WhereClause::Not in evaluate_rule: use StratifiedEvaluator for rules with negation");
    let ok = apply_rule_once(rule, &vec![], &matcher, &registry, &float_step, &no_predicate, &to_entity, &to_value);
    assert_eq!(ok, Ok(vec![]));
}

#[test]
fn a_head_that_cannot_be_converted_is_an_error_of_the_positive_step() {
    let rule = Rule { head: vec![sym("p"), EdnValue::Integer(5)], body: vec![WhereClause::Expr { expr: Expr::Lit(Value::Boolean(true)), binding: None }] };
    let registry = FunctionRegistry::with_builtins();
    let err = evaluate_rule(&rule, &vec![], &matcher, &registry, &float_step, &no_predicate, &to_entity, &to_value)
        .unwrap_err();
    assert_eq!(err, "INT-022: Failed to convert entity: not an entity");
}

#[test]
fn a_not_body_is_matched_with_the_row_substituted() {
    let facts = vec![fact(3, ":blocked", Value::Boolean(true))];
    let body = vec![WhereClause::Pattern(Pattern::new(sym("?x"), EdnValue::Keyword(":blocked".to_string()), EdnValue::Boolean(true)))];
    let registry = FunctionRegistry::with_builtins();
    let mut row = Bindings::new();
    row.insert("?x".to_string(), Value::Ref(3));
    assert!(not_body_matches(&body, &row, &facts, &matcher, &registry, &float_step, &no_predicate));
    row.insert("?x".to_string(), Value::Ref(2));
    assert!(!not_body_matches(&body, &row, &facts, &matcher, &registry, &float_step, &no_predicate));
}

#[test]
fn recursive_evaluation_with_the_positive_step_keeps_base_facts_first() {
    let mut rules = RuleRegistry::new();
    register(&mut rules, "(rule [(reachable ?x ?y) [?x :connected ?y]])");
    register(&mut rules, "(rule [(reachable ?x ?y) [?x :connected ?z] (reachable ?z ?y)])");
    let list: Vec<Rule> = rules.all_rules()[0].1.iter().map(rule_clone).collect();
    let registry = FunctionRegistry::with_builtins();
    let derived = evaluate_rules_recursively(
        &connected(),
        &list,
        limits(1000, 100000, 100000),
        &matcher,
        &registry,
        &float_step,
        &no_predicate,
        &to_entity,
        &to_value,
    )
    .unwrap();
    assert_eq!(derived.len(), 5);
    assert_eq!(derived[0], fact(1, ":connected", Value::Ref(2)));
    assert_eq!(derived[1], fact(2, ":connected", Value::Ref(3)));
    let mut pairs: Vec<(u128, Value)> = derived[2..].iter().map(|f| (f.entity, value_clone(&f.value))).collect();
    pairs.sort_by_key(|p| format!("{:?}", p));
    assert_eq!(pairs, vec![(1, Value::Ref(2)), (1, Value::Ref(3)), (2, Value::Ref(3))]);
    let too_few = evaluate_rules_recursively(
        &connected(),
        &list,
        limits(1, 100000, 100000),
        &matcher,
        &registry,
        &float_step,
        &no_predicate,
        &to_entity,
        &to_value,
    );
    assert!(too_few.unwrap_err().starts_with("INT-020: Max iterations (1) exceeded"));
}
