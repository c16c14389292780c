use minigraf::edn::EdnValue;
use minigraf::prepared::{collect_slot_names, validate_no_attribute_slots};
use minigraf::types::{AsOf, BinOp, DatalogQuery, Expr, FindSpec, Pattern, ValidAt, WhereClause};


fn make_query_entity_slot() -> DatalogQuery {
    DatalogQuery::new(
        vec![FindSpec::Variable("?name".to_string())],
        vec![WhereClause::Pattern(Pattern::new(
            EdnValue::BindSlot("entity".to_string()),
            EdnValue::Keyword(":person/name".to_string()),
            EdnValue::Symbol("?name".to_string()),
        ))],
    )
}

fn make_query_value_slot() -> DatalogQuery {
    DatalogQuery::new(
        vec![FindSpec::Variable("?e".to_string())],
        vec![WhereClause::Pattern(Pattern::new(
            EdnValue::Symbol("?e".to_string()),
            EdnValue::Keyword(":person/name".to_string()),
            EdnValue::BindSlot("name".to_string()),
        ))],
    )
}

fn make_query_attr_slot() -> DatalogQuery {
    DatalogQuery::new(
        vec![FindSpec::Variable("?v".to_string())],
        vec![WhereClause::Pattern(Pattern::new(
            EdnValue::Symbol("?e".to_string()),
            EdnValue::BindSlot("attr".to_string()),
            EdnValue::Symbol("?v".to_string()),
        ))],
    )
}

fn make_query_as_of_slot() -> DatalogQuery {
    let mut q = DatalogQuery::new(
        vec![FindSpec::Variable("?v".to_string())],
        vec![WhereClause::Pattern(Pattern::new(
            EdnValue::Symbol("?e".to_string()),
            EdnValue::Keyword(":score".to_string()),
            EdnValue::Symbol("?v".to_string()),
        ))],
    );
    q.as_of = Some(AsOf::Slot("tx".to_string()));
    q
}

fn make_query_valid_at_slot() -> DatalogQuery {
    let mut q = DatalogQuery::new(
        vec![FindSpec::Variable("?v".to_string())],
        vec![WhereClause::Pattern(Pattern::new(
            EdnValue::Symbol("?e".to_string()),
            EdnValue::Keyword(":score".to_string()),
            EdnValue::Symbol("?v".to_string()),
        ))],
    );
    q.valid_at = Some(ValidAt::Slot("date".to_string()));
    q
}

fn make_query_expr_slot() -> DatalogQuery {
    DatalogQuery::new(
        vec![FindSpec::Variable("?v".to_string())],
        vec![
            WhereClause::Pattern(Pattern::new(
                EdnValue::Symbol("?e".to_string()),
                EdnValue::Keyword(":score".to_string()),
                EdnValue::Symbol("?v".to_string()),
            )),
            WhereClause::Expr {
                expr: Expr::BinOp(
                    BinOp::Gte,
                    Box::new(Expr::Var("?v".to_string())),
                    Box::new(Expr::Slot("threshold".to_string())),
                ),
                binding: None,
            },
        ],
    )
}

#[test]
fn test_validate_rejects_attribute_slot() {
    let q = make_query_attr_slot();
    let result = validate_no_attribute_slots(&q);
    assert!(result.is_err(), "expected error for attribute slot");
    assert!(
        result
            .unwrap_err()
            .contains("attribute position")
    );
}

#[test]
fn test_validate_accepts_entity_slot() {
    let q = make_query_entity_slot();
    assert!(validate_no_attribute_slots(&q).is_ok());
}

#[test]
fn test_validate_accepts_value_slot() {
    let q = make_query_value_slot();
    assert!(validate_no_attribute_slots(&q).is_ok());
}

#[test]
fn test_collect_entity_slot_name() {
    let q = make_query_entity_slot();
    let names = collect_slot_names(&q);
    assert_eq!(names, vec!["entity"]);
}

#[test]
fn test_collect_value_slot_name() {
    let q = make_query_value_slot();
    let names = collect_slot_names(&q);
    assert_eq!(names, vec!["name"]);
}

#[test]
fn test_collect_as_of_slot_name() {
    let q = make_query_as_of_slot();
    let names = collect_slot_names(&q);
    assert!(names.contains(&"tx".to_string()));
}

#[test]
fn test_collect_valid_at_slot_name() {
    let q = make_query_valid_at_slot();
    let names = collect_slot_names(&q);
    assert!(names.contains(&"date".to_string()));
}

#[test]
fn test_collect_expr_slot_name() {
    let q = make_query_expr_slot();
    let names = collect_slot_names(&q);
    assert!(names.contains(&"threshold".to_string()));
}

#[test]
fn test_collect_deduplicates() {
    let q = DatalogQuery::new(
        vec![
            FindSpec::Variable("?name".to_string()),
            FindSpec::Variable("?age".to_string()),
        ],
        vec![
            WhereClause::Pattern(Pattern::new(
                EdnValue::BindSlot("entity".to_string()),
                EdnValue::Keyword(":person/name".to_string()),
                EdnValue::Symbol("?name".to_string()),
            )),
            WhereClause::Pattern(Pattern::new(
                EdnValue::BindSlot("entity".to_string()),
                EdnValue::Keyword(":person/age".to_string()),
                EdnValue::Symbol("?age".to_string()),
            )),
        ],
    );
    let names = collect_slot_names(&q);
    assert_eq!(names.len(), 1);
    assert_eq!(names[0], "entity");
}
