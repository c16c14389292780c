use minigraf::edn::EdnValue;
use minigraf::substitute::{substitute, BindValue};
use minigraf::types::{AsOf, BinOp, DatalogQuery, Expr, FindSpec, Pattern, ValidAt, Value, WhereClause};

fn make_query_entity_slot() -> DatalogQuery {
    DatalogQuery::new(
        vec![FindSpec::Variable("?name".to_string())],
        vec![WhereClause::Pattern(Pattern::new(
            EdnValue::BindSlot("entity".to_string()),
            EdnValue::Keyword(":person/name".to_string()),
            EdnValue::Symbol("?name".to_string()),
        ))],
    )
}

fn make_query_value_slot() -> DatalogQuery {
    DatalogQuery::new(
        vec![FindSpec::Variable("?e".to_string())],
        vec![WhereClause::Pattern(Pattern::new(
            EdnValue::Symbol("?e".to_string()),
            EdnValue::Keyword(":person/name".to_string()),
            EdnValue::BindSlot("name".to_string()),
        ))],
    )
}

fn make_query_as_of_slot() -> DatalogQuery {
    let mut q = DatalogQuery::new(
        vec![FindSpec::Variable("?v".to_string())],
        vec![WhereClause::Pattern(Pattern::new(
            EdnValue::Symbol("?e".to_string()),
            EdnValue::Keyword(":score".to_string()),
            EdnValue::Symbol("?v".to_string()),
        ))],
    );
    q.as_of = Some(AsOf::Slot("tx".to_string()));
    q
}

fn make_query_valid_at_slot() -> DatalogQuery {
    let mut q = DatalogQuery::new(
        vec![FindSpec::Variable("?v".to_string())],
        vec![WhereClause::Pattern(Pattern::new(
            EdnValue::Symbol("?e".to_string()),
            EdnValue::Keyword(":score".to_string()),
            EdnValue::Symbol("?v".to_string()),
        ))],
    );
    q.valid_at = Some(ValidAt::Slot("date".to_string()));
    q
}

fn make_query_expr_slot() -> DatalogQuery {
    DatalogQuery::new(
        vec![FindSpec::Variable("?v".to_string())],
        vec![
            WhereClause::Pattern(Pattern::new(
                EdnValue::Symbol("?e".to_string()),
                EdnValue::Keyword(":score".to_string()),
                EdnValue::Symbol("?v".to_string()),
            )),
            WhereClause::Expr {
                expr: Expr::BinOp(
                    BinOp::Gte,
                    Box::new(Expr::Var("?v".to_string())),
                    Box::new(Expr::Slot("threshold".to_string())),
                ),
                binding: None,
            },
        ],
    )
}

fn one(name: &str, v: BindValue) -> Vec<(String, BindValue)> {
    vec![(name.to_string(), v)]
}

#[test]
fn test_substitute_entity_slot() {
    let q = make_query_entity_slot();
    let uuid = uuid::Uuid::from_u128(0x6f1c_2a3b_4c5d_4e6f_8a9b_0c1d_2e3f_4a5b).as_u128();
    let bindings = one("entity", BindValue::Entity(uuid));
    let filled = substitute(&q, &bindings).unwrap();
    match &filled.where_clauses[0] {
        WhereClause::Pattern(p) => {
            assert_eq!(p.entity, EdnValue::Uuid(uuid));
        }
        _ => panic!("expected Pattern"),
    }
}

#[test]
fn test_substitute_value_slot() {
    let q = make_query_value_slot();
    let bindings = one("name", BindValue::Val(Value::String("Alice".to_string())));
    let filled = substitute(&q, &bindings).unwrap();
    match &filled.where_clauses[0] {
        WhereClause::Pattern(p) => {
            assert_eq!(p.value, EdnValue::String("Alice".to_string()));
        }
        _ => panic!("expected Pattern"),
    }
}

#[test]
fn test_substitute_as_of_counter() {
    let q = make_query_as_of_slot();
    let bindings = one("tx", BindValue::TxCount(42));
    let filled = substitute(&q, &bindings).unwrap();
    assert!(matches!(filled.as_of, Some(AsOf::Counter(42))));
}

#[test]
fn test_substitute_as_of_timestamp() {
    let q = make_query_as_of_slot();
    let bindings = one("tx", BindValue::Timestamp(1_685_577_600_000));
    let filled = substitute(&q, &bindings).unwrap();
    assert!(matches!(filled.as_of, Some(AsOf::Timestamp(1_685_577_600_000))));
}

#[test]
fn test_substitute_valid_at_timestamp() {
    let q = make_query_valid_at_slot();
    let bindings = one("date", BindValue::Timestamp(1_685_577_600_000));
    let filled = substitute(&q, &bindings).unwrap();
    assert!(matches!(filled.valid_at, Some(ValidAt::Timestamp(1_685_577_600_000))));
}

#[test]
fn test_substitute_valid_at_any() {
    let q = make_query_valid_at_slot();
    let bindings = one("date", BindValue::AnyValidTime);
    let filled = substitute(&q, &bindings).unwrap();
    assert!(matches!(filled.valid_at, Some(ValidAt::AnyValidTime)));
}

#[test]
fn test_substitute_expr_slot() {
    let q = make_query_expr_slot();
    let bindings = one("threshold", BindValue::Val(Value::Integer(50)));
    let filled = substitute(&q, &bindings).unwrap();
    match &filled.where_clauses[1] {
        WhereClause::Expr {
            expr: Expr::BinOp(_, _, rhs),
            ..
        } => {
            assert!(matches!(rhs.as_ref(), Expr::Lit(Value::Integer(50))));
        }
        _ => panic!("expected BinOp Expr clause"),
    }
}

#[test]
fn test_substitute_type_mismatch_entity_gets_val() {
    let q = make_query_entity_slot();
    let bindings = one("entity", BindValue::Val(Value::String("Alice".to_string())));
    let result = substitute(&q, &bindings);
    assert!(result.is_err(), "expected type mismatch error");
    assert!(result.unwrap_err().contains("entity position"));
}

#[test]
fn test_substitute_type_mismatch_as_of_gets_val() {
    let q = make_query_as_of_slot();
    let bindings = one("tx", BindValue::Val(Value::Integer(42)));
    let result = substitute(&q, &bindings);
    assert!(result.is_err(), "expected type mismatch error");
    assert!(result.unwrap_err().contains(":as-of position"));
}

#[test]
fn test_substitute_type_mismatch_valid_at_gets_tx_count() {
    let q = make_query_valid_at_slot();
    let bindings = one("date", BindValue::TxCount(5));
    let result = substitute(&q, &bindings);
    assert!(result.is_err(), "expected type mismatch error");
    assert!(result.unwrap_err().contains(":valid-at position"));
}

#[test]
fn missing_binding_names_the_slot() {
    let q = make_query_value_slot();
    let err = substitute(&q, &vec![]).unwrap_err();
    assert_eq!(err, "missing bind value for slot '$name'");
}

#[test]
fn mismatch_message_names_the_kind() {
    let q = make_query_entity_slot();
    let err = substitute(&q, &one("entity", BindValue::TxCount(1))).unwrap_err();
    assert_eq!(err, "slot '$entity' in entity position requires Entity, got TxCount");
}

#[test]
fn last_binding_of_a_name_wins() {
    let q = make_query_value_slot();
    let bindings = vec![
        ("name".to_string(), BindValue::Val(Value::Integer(1))),
        ("name".to_string(), BindValue::Val(Value::Integer(2))),
    ];
    let filled = substitute(&q, &bindings).unwrap();
    match &filled.where_clauses[0] {
        WhereClause::Pattern(p) => assert_eq!(p.value, EdnValue::Integer(2)),
        _ => panic!("expected Pattern"),
    }
}

#[test]
fn null_value_fills_as_nil() {
    let q = make_query_value_slot();
    let filled = substitute(&q, &one("name", BindValue::Val(Value::Null))).unwrap();
    match &filled.where_clauses[0] {
        WhereClause::Pattern(p) => assert_eq!(p.value, EdnValue::Nil),
        _ => panic!("expected Pattern"),
    }
}

#[test]
fn slots_inside_negation_are_filled() {
    let q = DatalogQuery::new(
        vec![FindSpec::Variable("?e".to_string())],
        vec![
            WhereClause::Pattern(Pattern::new(
                EdnValue::Symbol("?e".to_string()),
                EdnValue::Keyword(":a".to_string()),
                EdnValue::Symbol("?v".to_string()),
            )),
            WhereClause::Not(vec![WhereClause::Pattern(Pattern::new(
                EdnValue::Symbol("?e".to_string()),
                EdnValue::Keyword(":b".to_string()),
                EdnValue::BindSlot("x".to_string()),
            ))]),
        ],
    );
    let filled = substitute(&q, &one("x", BindValue::Val(Value::Boolean(true)))).unwrap();
    match &filled.where_clauses[1] {
        WhereClause::Not(inner) => match &inner[0] {
            WhereClause::Pattern(p) => assert_eq!(p.value, EdnValue::Boolean(true)),
            _ => panic!("expected Pattern"),
        },
        _ => panic!("expected Not"),
    }
}
