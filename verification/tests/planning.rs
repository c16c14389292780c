use minigraf::command::parse_datalog_command;
use minigraf::functions::FunctionRegistry;
use minigraf::expression::check_udf_predicates;
use minigraf::planning::{check_pseudo_attrs, plan_clauses, query_limits, valid_at_value};
use minigraf::types::{AttributeSpec, DatalogCommand, DatalogQuery, Expr, UnaryOp, ValidAt, Value, WhereClause};
use minigraf::edn::EdnValue;

fn query(text: &str) -> DatalogQuery {
    match parse_datalog_command(text).unwrap() {
        DatalogCommand::Query(q) => q,
        _ => panic!("expected a query"),
    }
}

#[test]
fn valid_at_binds_the_timestamp_null_or_now() {
    assert_eq!(valid_at_value(&Some(ValidAt::Timestamp(5)), 99), Ok(Value::Integer(5)));
    assert_eq!(valid_at_value(&Some(ValidAt::AnyValidTime), 99), Ok(Value::Null));
    assert_eq!(valid_at_value(&None, 99), Ok(Value::Integer(99)));
    assert_eq!(
        valid_at_value(&Some(ValidAt::Slot("t".to_string())), 99),
        Err("internal: unsubstituted :valid-at bind slot reached the executor".to_string())
    );
}

#[test]
fn per_fact_pseudo_attributes_need_any_valid_time() {
    let q = query("(query [:find ?e ?f :where [?e :db/valid-from ?f]])");
    assert_eq!(
        check_pseudo_attrs(&q),
        Err("temporal pseudo-attributes :db/valid-from, :db/valid-to, :db/tx-count, and :db/tx-id require :any-valid-time; add :any-valid-time to your query".to_string())
    );
    let q = query("(query [:find ?e ?f :valid-at :any-valid-time :where [?e :db/valid-from ?f]])");
    assert_eq!(check_pseudo_attrs(&q), Ok(()));
    let q = query("(query [:find ?e :where [?e :person/name ?n]])");
    assert_eq!(check_pseudo_attrs(&q), Ok(()));
}

#[test]
fn a_query_overrides_the_recursion_limits() {
    let q = query("(query [:find ?x :where [?x :a :b] :max-derived-facts 500])");
    let l = query_limits(&q, 100000, 7);
    assert_eq!((l.max_iterations, l.max_derived_facts, l.max_results), (1000, 500, 7));
    let q = query("(query [:find ?x :where [?x :a :b]])");
    let l = query_limits(&q, 100000, 7);
    assert_eq!((l.max_iterations, l.max_derived_facts, l.max_results), (1000, 100000, 7));
}

#[test]
fn an_unregistered_predicate_is_refused() {
    let clause = WhereClause::Expr {
        expr: Expr::UnaryOp(UnaryOp::Udf("my-check".to_string()), Box::new(Expr::Var("?x".to_string()))),
        binding: None,
    };
    let registry = FunctionRegistry::with_builtins();
    assert_eq!(check_udf_predicates(&vec![clause], &registry), Err("unknown predicate: 'my-check'".to_string()));
    assert_eq!(check_udf_predicates(&vec![], &registry), Ok(()));
}

#[test]
fn rule_invocations_are_planned_as_patterns_after_the_other_clauses() {
    let q = query("(query [:find ?a ?b :where (reach ?a ?b) [?a :name ?n] (or [?a :x 1] [?a :y 2])])");
    let planned = plan_clauses(&q).unwrap();
    assert_eq!(planned.len(), 2);
    match &planned[1] {
        WhereClause::Pattern(p) => {
            assert_eq!(p.attribute, AttributeSpec::Real(EdnValue::Keyword(":reach".to_string())));
            assert_eq!(p.value, EdnValue::Symbol("?b".to_string()));
        },
        _ => panic!("expected a pattern"),
    }
    let q = query("(query [:find ?a :where (reach ?a ?b ?c)])");
    assert_eq!(plan_clauses(&q).unwrap_err(), "Rule invocation 'reach' must have 1 or 2 arguments, got 3");
}
