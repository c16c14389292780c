use minigraf::edn::{parse_edn, tokenize, EdnValue, Token, MAX_KEYWORD_LENGTH, MAX_STRING_LENGTH, MAX_SYMBOL_LENGTH};
use minigraf::command::parse_datalog_command;
use minigraf::types::{
    AsOf, AttributeSpec, DatalogCommand, Expr, FindSpec, Order, UnaryOp, ValidAt, WhereClause, WindowFunc,
};

#[test]
fn test_tokenize_basic() {
    let input = "(query [:find ?x])";
    let tokens = tokenize(input).unwrap();
    assert_eq!(tokens[0], Token::LeftParen);
    assert_eq!(tokens[1], Token::Symbol("query".to_string()));
    assert_eq!(tokens[2], Token::LeftBracket);
    assert_eq!(tokens[3], Token::Keyword(":find".to_string()));
    assert_eq!(tokens[4], Token::Symbol("?x".to_string()));
    assert_eq!(tokens[5], Token::RightBracket);
    assert_eq!(tokens[6], Token::RightParen);
}

#[test]
fn test_tokenize_numbers() {
    let tokens = tokenize("42 4.5 -5 -2.5").unwrap();
    assert_eq!(tokens[0], Token::Integer(42));
    assert_eq!(tokens[1], Token::Float("4.5".to_string()));
    assert_eq!(tokens[2], Token::Integer(-5));
    assert_eq!(tokens[3], Token::Float("-2.5".to_string()));
}

#[test]
fn test_tokenize_strings() {
    let tokens = tokenize(r#""hello" "world\"test""#).unwrap();
    assert_eq!(tokens[0], Token::String("hello".to_string()));
    assert_eq!(tokens[1], Token::String("world\"test".to_string()));
}

#[test]
fn test_tokenize_string_length_limit() {
    let long_string = "\"".to_string() + &"x".repeat(MAX_STRING_LENGTH + 1);
    let result = tokenize(&long_string);
    assert!(result.is_err());
    assert!(result.unwrap_err().contains("exceeds maximum length"));
}

#[test]
fn test_tokenize_keyword_length_limit() {
    let long_keyword = ":".to_string() + &"x".repeat(MAX_KEYWORD_LENGTH + 1);
    let result = tokenize(&long_keyword);
    assert!(result.is_err());
    assert!(result.unwrap_err().contains("exceeds maximum length"));
}

#[test]
fn test_tokenize_keyword_with_question_mark() {
    // Regression: '?' ended the keyword, so ":attended?" lexed as
    // Keyword(":attended") + Symbol("?"), turning a three-element fact into
    // four and reporting the value as a bogus fourth element.
    let tokens = tokenize("[:a :attended? true]").unwrap();
    assert_eq!(tokens.len(), 5, "expected 5 tokens");
    assert_eq!(tokens[2], Token::Keyword(":attended?".to_string()));
}

#[test]
fn test_tokenize_keyword_question_mark_positions() {
    // Leading, infix, trailing and namespaced forms all stay in one token.
    let tokens = tokenize(":?x :att?end :alive? :person/alive?").unwrap();
    assert_eq!(tokens[0], Token::Keyword(":?x".to_string()));
    assert_eq!(tokens[1], Token::Keyword(":att?end".to_string()));
    assert_eq!(tokens[2], Token::Keyword(":alive?".to_string()));
    assert_eq!(tokens[3], Token::Keyword(":person/alive?".to_string()));
}

#[test]
fn test_tokenize_variable_still_lexes_as_symbol() {
    // A '?' that does not follow ':' still starts a query variable.
    let tokens = tokenize("[?e :alive? ?v]").unwrap();
    assert_eq!(tokens[1], Token::Symbol("?e".to_string()));
    assert_eq!(tokens[2], Token::Keyword(":alive?".to_string()));
    assert_eq!(tokens[3], Token::Symbol("?v".to_string()));
}

#[test]
fn test_tokenize_symbol_length_limit() {
    let long_symbol = "x".repeat(MAX_SYMBOL_LENGTH + 1);
    let result = tokenize(&long_symbol);
    assert!(result.is_err());
    assert!(result.unwrap_err().contains("exceeds maximum length"));
}

#[test]
fn test_tokenize_tagged_literal_length_limit() {
    let long_tag = "#".to_string() + &"x".repeat(MAX_SYMBOL_LENGTH + 1);
    let result = tokenize(&long_tag);
    assert!(result.is_err());
    assert!(result.unwrap_err().contains("exceeds maximum length"));
}

#[test]
fn test_tokenize_booleans() {
    let tokens = tokenize("true false nil").unwrap();
    assert_eq!(tokens[0], Token::Boolean(true));
    assert_eq!(tokens[1], Token::Boolean(false));
    assert_eq!(tokens[2], Token::Nil);
}

#[test]
fn test_parse_edn_vector() {
    let result = parse_edn("[1 2 3]").unwrap();
    match result {
        EdnValue::Vector(v) => {
            assert_eq!(v.len(), 3);
            assert_eq!(v[0], EdnValue::Integer(1));
        }
        _ => panic!("Expected vector"),
    }
}

#[test]
fn test_parse_edn_list() {
    let result = parse_edn("(query :find ?x)").unwrap();
    match result {
        EdnValue::List(l) => {
            assert_eq!(l.len(), 3);
            assert_eq!(l[0], EdnValue::Symbol("query".to_string()));
            assert_eq!(l[1], EdnValue::Keyword(":find".to_string()));
        }
        _ => panic!("Expected list"),
    }
}

#[test]
fn test_parse_simple_query() {
    let input = r#"(query [:find ?name :where [?e :person/name ?name]])"#;
    let cmd = parse_datalog_command(input).unwrap();

    match cmd {
        DatalogCommand::Query(q) => {
            assert_eq!(q.find, vec![FindSpec::Variable("?name".to_string())]);
            let patterns = q.get_patterns();
            assert_eq!(patterns.len(), 1);
            assert_eq!(
                patterns[0].attribute,
                AttributeSpec::Real(EdnValue::Keyword(":person/name".to_string()))
            );
        }
        _ => panic!("Expected Query command"),
    }
}

#[test]
fn test_parse_transact() {
    let input = r#"(transact [[:alice :person/name "Alice"] [:alice :person/age 30]])"#;
    let cmd = parse_datalog_command(input).unwrap();

    match cmd {
        DatalogCommand::Transact(tx) => {
            assert_eq!(tx.facts.len(), 2);
            assert_eq!(tx.facts[0].entity, EdnValue::Keyword(":alice".to_string()));
            assert_eq!(tx.facts[0].value, EdnValue::String("Alice".to_string()));
            assert_eq!(tx.facts[1].value, EdnValue::Integer(30));
        }
        _ => panic!("Expected Transact command"),
    }
}

#[test]
fn test_parse_uuid() {
    let uuid_str = "550e8400-e29b-41d4-a716-446655440000";
    let input = format!(r#"#uuid "{}""#, uuid_str);
    let result = parse_edn(&input).unwrap();

    match result {
        EdnValue::Uuid(uuid) => {
            assert_eq!(uuid::Uuid::from_u128(uuid).to_string(), uuid_str);
        }
        _ => panic!("Expected UUID"),
    }
}

#[test]
fn test_parse_complex_query() {
    let input =
        r#"(query [:find ?name ?age :where [?e :person/name ?name] [?e :person/age ?age]])"#;
    let cmd = parse_datalog_command(input).unwrap();

    match cmd {
        DatalogCommand::Query(q) => {
            assert_eq!(
                q.find,
                vec![
                    FindSpec::Variable("?name".to_string()),
                    FindSpec::Variable("?age".to_string()),
                ]
            );
            assert_eq!(q.get_patterns().len(), 2);
        }
        _ => panic!("Expected Query command"),
    }
}

#[test]
fn test_parse_retract() {
    let input = r#"(retract [[:alice :person/age 30]])"#;
    let cmd = parse_datalog_command(input).unwrap();

    match cmd {
        DatalogCommand::Retract(tx) => {
            assert_eq!(tx.facts.len(), 1);
        }
        _ => panic!("Expected Retract command"),
    }
}

#[test]
fn test_parse_simple_rule() {
    let input = r#"(rule [(reachable ?x ?y) [?x :connected ?y]])"#;
    let cmd = parse_datalog_command(input).unwrap();

    match cmd {
        DatalogCommand::Rule(rule) => {
            // Verify head: (reachable ?x ?y)
            assert_eq!(rule.head.len(), 3);
            assert_eq!(rule.head[0], EdnValue::Symbol("reachable".to_string()));
            assert_eq!(rule.head[1], EdnValue::Symbol("?x".to_string()));
            assert_eq!(rule.head[2], EdnValue::Symbol("?y".to_string()));

            // Verify body has one pattern
            assert_eq!(rule.body.len(), 1);
        }
        _ => panic!("Expected Rule command"),
    }
}

#[test]
fn test_parse_recursive_rule() {
    let input = r#"(rule [(reachable ?x ?y) [?x :connected ?z] (reachable ?z ?y)])"#;
    let cmd = parse_datalog_command(input).unwrap();

    match cmd {
        DatalogCommand::Rule(rule) => {
            // Verify head
            assert_eq!(rule.head.len(), 3);
            assert_eq!(rule.head[0], EdnValue::Symbol("reachable".to_string()));

            // Verify body has two clauses: pattern + rule invocation
            assert_eq!(rule.body.len(), 2);

            // First clause should be a Pattern
            assert!(matches!(rule.body[0], WhereClause::Pattern(_)));

            // Second clause should be a RuleInvocation
            assert!(matches!(rule.body[1], WhereClause::RuleInvocation { .. }));
        }
        _ => panic!("Expected Rule command"),
    }
}

#[test]
fn test_parse_rule_with_multiple_patterns() {
    let input = r#"(rule [(ancestor ?a ?d) [?a :parent ?p] [?p :parent ?d]])"#;
    let cmd = parse_datalog_command(input).unwrap();

    match cmd {
        DatalogCommand::Rule(rule) => {
            assert_eq!(rule.head[0], EdnValue::Symbol("ancestor".to_string()));
            // Two patterns in body
            assert_eq!(rule.body.len(), 2);
            assert!(matches!(rule.body[0], WhereClause::Pattern(_)));
            assert!(matches!(rule.body[1], WhereClause::Pattern(_)));
        }
        _ => panic!("Expected Rule command"),
    }
}

#[test]
fn test_parse_rule_empty_body_fails() {
    let input = r#"(rule [(reachable ?x ?y)])"#;
    let result = parse_datalog_command(input);
    assert!(result.is_err());
}

#[test]
fn test_parse_rule_invalid_head_fails() {
    // Head must be a list, not a vector
    let input = r#"(rule [[reachable ?x ?y] [?x :connected ?y]])"#;
    let result = parse_datalog_command(input);
    assert!(result.is_err());
}

#[test]
fn test_parse_query_with_rule_invocation() {
    let input = r#"(query [:find ?to :where (reachable :alice ?to)])"#;
    let cmd = parse_datalog_command(input).unwrap();

    match cmd {
        DatalogCommand::Query(q) => {
            assert_eq!(q.find, vec![FindSpec::Variable("?to".to_string())]);
            assert_eq!(q.where_clauses.len(), 1);

            // Check it's a rule invocation
            assert!(q.uses_rules());

            let rule_invocations = q.get_rule_invocations();
            assert_eq!(rule_invocations.len(), 1);
            assert_eq!(rule_invocations[0].0, "reachable");
            assert_eq!(rule_invocations[0].1.len(), 2);
        }
        _ => panic!("Expected Query command"),
    }
}

#[test]
fn test_parse_query_mixed_pattern_and_rule() {
    let input = r#"(query [:find ?name :where (reachable :alice ?person) [?person :person/name ?name]])"#;
    let cmd = parse_datalog_command(input).unwrap();

    match cmd {
        DatalogCommand::Query(q) => {
            assert_eq!(q.find, vec![FindSpec::Variable("?name".to_string())]);
            assert_eq!(q.where_clauses.len(), 2);

            // Should have both rule and pattern
            assert!(q.uses_rules());
            assert_eq!(q.get_rule_invocations().len(), 1);
            assert_eq!(q.get_patterns().len(), 1);
        }
        _ => panic!("Expected Query command"),
    }
}

#[test]
fn test_parse_query_multiple_rule_invocations() {
    let input = r#"(query [:find ?z :where (reachable :alice ?x) (reachable ?x ?z)])"#;
    let cmd = parse_datalog_command(input).unwrap();

    match cmd {
        DatalogCommand::Query(q) => {
            assert_eq!(q.find, vec![FindSpec::Variable("?z".to_string())]);
            assert_eq!(q.where_clauses.len(), 2);
            assert_eq!(q.get_rule_invocations().len(), 2);
        }
        _ => panic!("Expected Query command"),
    }
}

#[test]
fn test_parse_query_pattern_only_no_rules() {
    let input = r#"(query [:find ?name :where [?e :person/name ?name]])"#;
    let cmd = parse_datalog_command(input).unwrap();

    match cmd {
        DatalogCommand::Query(q) => {
            assert!(!q.uses_rules());
            assert_eq!(q.get_rule_invocations().len(), 0);
            assert_eq!(q.get_patterns().len(), 1);
        }
        _ => panic!("Expected Query command"),
    }
}

#[test]
fn test_parse_rule_invocation_empty_fails() {
    let input = r#"(query [:find ?x :where ()])"#;
    let result = parse_datalog_command(input);
    assert!(result.is_err());
}

#[test]
fn test_parse_edn_map() {
    let result = parse_edn(r#"{:valid-from "2023-01-01" :valid-to "2023-06-30"}"#);
    let map = match result.unwrap() {
        EdnValue::Mapping(pairs) => pairs,
        _ => panic!("expected map"),
    };
    assert_eq!(map.len(), 2);
    assert_eq!(map[0].0, EdnValue::Keyword(":valid-from".to_string()));
    assert_eq!(map[0].1, EdnValue::String("2023-01-01".to_string()));
}

#[test]
fn test_parse_empty_map() {
    let result = parse_edn("{}");
    assert!(matches!(result.unwrap(), EdnValue::Mapping(pairs) if pairs.is_empty()));
}


#[test]
fn test_parse_as_of_counter() {
    let cmd =
        parse_datalog_command("(query [:find ?name :as-of 50 :where [?e :person/name ?name]])")
            .unwrap();
    let query = match cmd {
        DatalogCommand::Query(q) => q,
        _ => panic!("expected Query"),
    };
    assert_eq!(query.as_of, Some(AsOf::Counter(50)));
}

#[test]
fn test_parse_as_of_timestamp() {
    let cmd = parse_datalog_command(
        r#"(query [:find ?name :as-of "2024-01-15T10:00:00Z" :where [?e :person/name ?name]])"#,
    )
    .unwrap();
    let query = match cmd {
        DatalogCommand::Query(q) => q,
        _ => panic!("expected Query"),
    };
    assert!(matches!(query.as_of, Some(AsOf::Timestamp(_))));
}

#[test]
fn test_parse_as_of_negative_counter_is_error() {
    let result =
        parse_datalog_command("(query [:find ?n :as-of -1 :where [?e :person/name ?n]])");
    assert!(result.is_err());
    assert!(result.unwrap_err().contains("non-negative"));
}

#[test]
fn test_parse_valid_at_timestamp() {
    let cmd = parse_datalog_command(
        r#"(query [:find ?s :valid-at "2023-06-01" :where [:alice :employment/status ?s]])"#,
    )
    .unwrap();
    let query = match cmd {
        DatalogCommand::Query(q) => q,
        _ => panic!("expected Query"),
    };
    assert!(matches!(query.valid_at, Some(ValidAt::Timestamp(_))));
}

#[test]
fn test_parse_valid_at_any() {
    let cmd = parse_datalog_command(
        "(query [:find ?name :valid-at :any-valid-time :where [?e :person/name ?name]])",
    )
    .unwrap();
    let query = match cmd {
        DatalogCommand::Query(q) => q,
        _ => panic!("expected Query"),
    };
    assert_eq!(query.valid_at, Some(ValidAt::AnyValidTime));
}

#[test]
fn test_parse_transact_with_tx_level_valid_time() {
    let cmd = parse_datalog_command(
        r#"(transact {:valid-from "2023-01-01" :valid-to "2023-06-30"} [[:alice :employment/status :active]])"#,
    )
    .unwrap();
    let tx = match cmd {
        DatalogCommand::Transact(t) => t,
        _ => panic!("expected Transact"),
    };
    assert!(tx.valid_from.is_some());
    assert!(tx.valid_to.is_some());
}

#[test]
fn test_parse_transact_with_per_fact_valid_time() {
    let cmd = parse_datalog_command(
        r#"(transact {:valid-from "2023-01-01"} [[:alice :employment/status :active {:valid-to "2023-06-30"}] [:alice :person/name "Alice"]])"#,
    )
    .unwrap();
    let tx = match cmd {
        DatalogCommand::Transact(t) => t,
        _ => panic!("expected Transact"),
    };
    assert_eq!(tx.facts.len(), 2);
    // First fact has per-fact valid_to + tx-level valid_from
    assert!(tx.facts[0].valid_from.is_some());
    assert!(tx.facts[0].valid_to.is_some());
    // Second fact inherits tx-level valid_from only
    assert!(tx.facts[1].valid_from.is_some());
    assert!(tx.facts[1].valid_to.is_none());
}

#[test]
fn test_parse_reject_timezone_offset_in_as_of() {
    let result = parse_datalog_command(
        r#"(query [:find ?n :as-of "2024-01-15T10:00:00+05:30" :where [?e :person/name ?n]])"#,
    );
    assert!(result.is_err());
    let msg = result.unwrap_err();
    assert!(
        msg.contains("timezone offsets are not supported"),
        "error was: {}",
        msg
    );
}

#[test]
fn test_parse_transact_no_map_backward_compatible() {
    // Old syntax without map should still work
    let cmd = parse_datalog_command(
        r#"(transact [[:alice :person/name "Alice"] [:alice :person/age 30]])"#,
    )
    .unwrap();
    let tx = match cmd {
        DatalogCommand::Transact(t) => t,
        _ => panic!("expected Transact"),
    };
    assert_eq!(tx.facts.len(), 2);
    assert!(tx.valid_from.is_none());
    assert!(tx.valid_to.is_none());
}

#[test]
fn test_parse_as_of_and_valid_at_together() {
    let cmd = parse_datalog_command(
        r#"(query [:find ?status :as-of 100 :valid-at "2023-06-01" :where [:alice :employment/status ?status]])"#,
    )
    .unwrap();
    let query = match cmd {
        DatalogCommand::Query(q) => q,
        _ => panic!("expected Query"),
    };
    assert!(matches!(query.as_of, Some(AsOf::Counter(100))));
    assert!(matches!(query.valid_at, Some(ValidAt::Timestamp(_))));
}

#[test]
fn test_parse_max_derived_facts_valid() {
    let input = r#"(query [:find ?x :where [?x :a :b] :max-derived-facts 500000])"#;
    let result = parse_datalog_command(input);
    assert!(result.is_ok(), "should parse :max-derived-facts");
    match result.unwrap() {
        DatalogCommand::Query(q) => {
            assert_eq!(q.max_derived_facts, Some(500_000));
            assert_eq!(q.max_results, None);
        }
        _ => panic!("expected Query"),
    }
}

#[test]
fn test_parse_max_results_valid() {
    let input = r#"(query [:find ?x :where [?x :a :b] :max-results 9999])"#;
    let result = parse_datalog_command(input);
    assert!(result.is_ok(), "should parse :max-results");
    match result.unwrap() {
        DatalogCommand::Query(q) => {
            assert_eq!(q.max_derived_facts, None);
            assert_eq!(q.max_results, Some(9_999));
        }
        _ => panic!("expected Query"),
    }
}

#[test]
fn test_parse_both_limits_valid() {
    let input =
        r#"(query [:find ?x :where [?x :a :b] :max-derived-facts 1000000 :max-results 100])"#;
    let result = parse_datalog_command(input);
    assert!(result.is_ok(), "should parse both limit keys");
    match result.unwrap() {
        DatalogCommand::Query(q) => {
            assert_eq!(q.max_derived_facts, Some(1_000_000));
            assert_eq!(q.max_results, Some(100));
        }
        _ => panic!("expected Query"),
    }
}

#[test]
fn test_parse_max_derived_facts_zero_rejected() {
    let input = r#"(query [:find ?x :where [?x :a :b] :max-derived-facts 0])"#;
    let result = parse_datalog_command(input);
    assert!(result.is_err(), "0 should be rejected");
    let msg = result.unwrap_err();
    assert!(
        msg.contains(":max-derived-facts must be >= 1"),
        "wrong error: {}",
        msg
    );
}

#[test]
fn test_parse_max_results_zero_rejected() {
    let input = r#"(query [:find ?x :where [?x :a :b] :max-results 0])"#;
    let result = parse_datalog_command(input);
    assert!(result.is_err(), "0 should be rejected");
    let msg = result.unwrap_err();
    assert!(
        msg.contains(":max-results must be >= 1"),
        "wrong error: {}",
        msg
    );
}

#[test]
fn test_parse_max_derived_facts_duplicate_rejected() {
    let input =
        r#"(query [:find ?x :where [?x :a :b] :max-derived-facts 100 :max-derived-facts 200])"#;
    let result = parse_datalog_command(input);
    assert!(result.is_err(), "duplicate key should be rejected");
    let msg = result.unwrap_err();
    assert!(
        msg.contains("duplicate :max-derived-facts"),
        "wrong error: {}",
        msg
    );
}

#[test]
fn test_parse_max_results_duplicate_rejected() {
    let input = r#"(query [:find ?x :where [?x :a :b] :max-results 100 :max-results 200])"#;
    let result = parse_datalog_command(input);
    assert!(result.is_err(), "duplicate key should be rejected");
    let msg = result.unwrap_err();
    assert!(
        msg.contains("duplicate :max-results"),
        "wrong error: {}",
        msg
    );
}

#[test]
fn test_parse_max_derived_facts_non_integer_rejected() {
    let input = r#"(query [:find ?x :where [?x :a :b] :max-derived-facts "a lot"])"#;
    let result = parse_datalog_command(input);
    assert!(result.is_err(), "non-integer should be rejected");
    let msg = result.unwrap_err();
    assert!(
        msg.contains(":max-derived-facts must be a positive integer"),
        "wrong error: {}",
        msg
    );
}

#[test]
fn test_parse_max_results_non_integer_rejected() {
    let input = r#"(query [:find ?x :where [?x :a :b] :max-results "a lot"])"#;
    let result = parse_datalog_command(input);
    assert!(result.is_err(), "non-integer should be rejected");
    let msg = result.unwrap_err();
    assert!(
        msg.contains(":max-results must be a positive integer"),
        "wrong error: {}",
        msg
    );
}

#[test]
fn test_parse_limits_order_independent() {
    // :max-derived-facts before :find — order should not matter
    let input = r#"(query [:max-derived-facts 42 :find ?x :where [?x :a :b]])"#;
    let result = parse_datalog_command(input);
    assert!(result.is_ok(), "order should not matter");
    match result.unwrap() {
        DatalogCommand::Query(q) => assert_eq!(q.max_derived_facts, Some(42)),
        _ => panic!("expected Query"),
    }
}

#[test]
fn test_parse_not_with_pattern_in_query() {
    let input =
        r#"(query [:find ?person :where [?person :name ?n] (not [?person :banned true])])"#;
    let cmd = parse_datalog_command(input).unwrap();
    match cmd {
        DatalogCommand::Query(q) => {
            assert_eq!(q.where_clauses.len(), 2);
            assert!(matches!(q.where_clauses[0], WhereClause::Pattern(_)));
            match &q.where_clauses[1] {
                WhereClause::Not(inner) => {
                    assert_eq!(inner.len(), 1);
                    assert!(matches!(inner[0], WhereClause::Pattern(_)));
                }
                _ => panic!("Expected Not clause"),
            }
        }
        _ => panic!("Expected Query"),
    }
}

#[test]
fn test_parse_not_with_rule_invocation_in_query() {
    let input = r#"(query [:find ?person :where [?person :name ?n] (not (blocked ?person))])"#;
    let cmd = parse_datalog_command(input).unwrap();
    match cmd {
        DatalogCommand::Query(q) => match &q.where_clauses[1] {
            WhereClause::Not(inner) => {
                assert!(matches!(inner[0], WhereClause::RuleInvocation { .. }));
            }
            _ => panic!("Expected Not clause"),
        },
        _ => panic!("Expected Query"),
    }
}

#[test]
fn test_parse_not_in_rule_body() {
    let input = r#"(rule [(eligible ?x) [?x :applied true] (not (rejected ?x))])"#;
    let cmd = parse_datalog_command(input).unwrap();
    match cmd {
        DatalogCommand::Rule(rule) => {
            assert_eq!(rule.body.len(), 2);
            assert!(matches!(rule.body[0], WhereClause::Pattern(_)));
            assert!(matches!(rule.body[1], WhereClause::Not(_)));
        }
        _ => panic!("Expected Rule"),
    }
}

#[test]
fn test_parse_not_empty_body_is_error() {
    let input = r#"(query [:find ?x :where [?x :a ?v] (not)])"#;
    let result = parse_datalog_command(input);
    assert!(result.is_err());
    let msg = result.unwrap_err();
    assert!(msg.contains("requires at least one clause"));
}

#[test]
fn test_parse_nested_not_is_error() {
    let input = r#"(query [:find ?x :where [?x :a ?v] (not (not [?x :banned true]))])"#;
    let result = parse_datalog_command(input);
    assert!(result.is_err());
    let msg = result.unwrap_err();
    assert!(msg.contains("cannot appear inside another"));
}

#[test]
fn test_parse_not_unbound_variable_is_error() {
    // ?y is only in the not body, not in any outer clause
    let input = r#"(query [:find ?x :where [?x :a ?v] (not [?y :banned true])])"#;
    let result = parse_datalog_command(input);
    assert!(result.is_err());
    let msg = result.unwrap_err();
    assert!(msg.contains("not bound"));
}

#[test]
fn test_parse_not_unbound_variable_in_rule_body_is_error() {
    // ?y only in not, not in head or non-not body
    let input = r#"(rule [(eligible ?x) [?x :applied true] (not [?y :banned true])])"#;
    let result = parse_datalog_command(input);
    assert!(result.is_err());
    let msg = result.unwrap_err();
    assert!(msg.contains("not bound"));
}

#[test]
fn test_parse_not_with_multiple_clauses() {
    // (not [?person :role :admin] [?person :active false])
    let input = r#"(query [:find ?person :where [?person :name ?n] (not [?person :role :admin] [?person :active false])])"#;
    let cmd = parse_datalog_command(input).unwrap();
    match cmd {
        DatalogCommand::Query(q) => match &q.where_clauses[1] {
            WhereClause::Not(inner) => {
                assert_eq!(inner.len(), 2);
                assert!(matches!(inner[0], WhereClause::Pattern(_)));
                assert!(matches!(inner[1], WhereClause::Pattern(_)));
            }
            _ => panic!("Expected Not clause with 2 items"),
        },
        _ => panic!("Expected Query"),
    }
}

#[test]
fn test_parse_not_join_basic() {
    // (query [:find ?e :where [?e :name ?n] (not-join [?e] [?e :banned true])])
    let result = parse_datalog_command(
        "(query [:find ?e :where [?e :name ?n] (not-join [?e] [?e :banned true])])",
    );
    assert!(result.is_ok(), "basic not-join must parse OK");
    if let Ok(DatalogCommand::Query(q)) = result {
        assert_eq!(q.where_clauses.len(), 2);
        assert!(matches!(
            &q.where_clauses[1],
            WhereClause::NotJoin { join_vars, clauses }
            if join_vars == &["?e".to_string()] && clauses.len() == 1
        ));
    } else {
        panic!("expected Query");
    }
}

#[test]
fn test_parse_not_join_multiple_join_vars() {
    let result = parse_datalog_command(
        "(query [:find ?e :where [?e :name ?n] [?e :role ?r] \
         (not-join [?e ?r] [?e :has-role ?r] [?r :is-admin true])])",
    );
    assert!(result.is_ok(), "multi-join-var not-join must parse");
    if let Ok(DatalogCommand::Query(q)) = result {
        if let WhereClause::NotJoin { join_vars, clauses } = &q.where_clauses[2] {
            assert_eq!(join_vars.len(), 2);
            assert_eq!(clauses.len(), 2);
        } else {
            panic!("expected NotJoin");
        }
    }
}

#[test]
fn test_parse_not_join_inner_var_need_not_be_outer_bound() {
    // ?tag appears only in the not-join body — this is legal
    let result = parse_datalog_command(
        "(query [:find ?e :where [?e :name ?n] \
         (not-join [?e] [?e :has-tag ?tag] [?tag :is-bad true])])",
    );
    assert!(
        result.is_ok(),
        "inner-only var ?tag must be allowed in not-join"
    );
}

#[test]
fn test_parse_not_join_unbound_join_var_rejected() {
    // ?role is in join_vars but not bound by any outer clause
    let result = parse_datalog_command(
        "(query [:find ?e :where [?e :name ?n] \
         (not-join [?role] [?e :has-role ?role])])",
    );
    assert!(result.is_err(), "unbound join var must be rejected");
    let msg = result.unwrap_err();
    assert!(
        msg.contains("?role") && msg.contains("not bound"),
        "error must name the offending variable"
    );
}

#[test]
fn test_parse_not_join_missing_join_vars_vector_rejected() {
    // First arg is not a vector
    let result = parse_datalog_command(
        "(query [:find ?e :where [?e :name ?n] (not-join ?e [?e :banned true])])",
    );
    assert!(result.is_err(), "non-vector first arg must fail");
}

#[test]
fn test_parse_not_join_too_few_args_rejected() {
    // Only join-vars vector, no body clauses
    let result =
        parse_datalog_command("(query [:find ?e :where [?e :name ?n] (not-join [?e])])");
    assert!(result.is_err(), "not-join with no clauses must fail");
}

#[test]
fn test_parse_not_join_nested_inside_not_rejected() {
    let result = parse_datalog_command(
        "(query [:find ?e :where [?e :name ?n] \
         (not (not-join [?e] [?e :banned true]))])",
    );
    assert!(result.is_err(), "not-join nested inside not must fail");
}

#[test]
fn test_parse_not_join_in_rule_body() {
    let result = parse_datalog_command(
        "(rule [(eligible ?x) \
         [?x :applied true] \
         (not-join [?x] [?x :dep ?d] [?d :status :rejected])])",
    );
    assert!(result.is_ok(), "not-join in rule body must parse");
    if let Ok(DatalogCommand::Rule(rule)) = result {
        assert_eq!(rule.body.len(), 2);
        assert!(
            matches!(&rule.body[1], WhereClause::NotJoin { join_vars, .. }
            if join_vars == &["?x".to_string()])
        );
    }
}

#[test]
fn test_parse_not_join_rule_body_unbound_join_var_rejected() {
    // ?dep is in join_vars but never bound by outer body
    let result = parse_datalog_command(
        "(rule [(eligible ?x) \
         [?x :applied true] \
         (not-join [?dep] [?x :dep ?dep])])",
    );
    assert!(
        result.is_err(),
        "unbound join var in rule body not-join must fail"
    );
}

#[test]
fn test_parse_count_in_find() {
    let result =
        parse_datalog_command("(query [:find (count ?e) :where [?e :person/name ?n]])");
    let cmd = result.expect("parse failed");
    match cmd {
        DatalogCommand::Query(q) => {
            assert_eq!(q.find.len(), 1);
            assert_eq!(
                q.find[0],
                FindSpec::Aggregate {
                    func: "count".to_string(),
                    var: "?e".to_string()
                }
            );
        }
        _ => panic!("expected Query"),
    }
}

#[test]
fn test_parse_mixed_find_var_and_aggregate() {
    let result = parse_datalog_command(
        r#"(query [:find ?dept (count-distinct ?e) :where [?e :dept ?dept]])"#,
    );
    let cmd = result.expect("parse failed");
    match cmd {
        DatalogCommand::Query(q) => {
            assert_eq!(q.find.len(), 2);
            assert_eq!(q.find[0], FindSpec::Variable("?dept".to_string()));
            assert_eq!(
                q.find[1],
                FindSpec::Aggregate {
                    func: "count-distinct".to_string(),
                    var: "?e".to_string()
                }
            );
        }
        _ => panic!("expected Query"),
    }
}

#[test]
fn test_parse_all_aggregate_functions() {
    let cases = [
        "count",
        "count-distinct",
        "sum",
        "sum-distinct",
        "min",
        "max",
    ];
    for name in cases {
        let input = format!("(query [:find ({} ?v) :where [?e :a ?v]])", name);
        let cmd = parse_datalog_command(&input).expect("parse failed");
        match cmd {
            DatalogCommand::Query(q) => {
                assert_eq!(
                    q.find[0],
                    FindSpec::Aggregate {
                        func: name.to_string(),
                        var: "?v".to_string()
                    }
                );
            }
            _ => panic!("expected Query"),
        }
    }
}

#[test]
fn test_parse_with_clause_single_var() {
    let result = parse_datalog_command(
        r#"(query [:find ?dept (sum ?salary) :with ?e :where [?e :dept ?dept] [?e :salary ?salary]])"#,
    );
    let cmd = result.expect("parse failed");
    match cmd {
        DatalogCommand::Query(q) => {
            assert_eq!(q.with_vars, vec!["?e".to_string()]);
        }
        _ => panic!("expected Query"),
    }
}

#[test]
fn test_parse_with_clause_multiple_vars() {
    let result = parse_datalog_command(
        r#"(query [:find (count ?e) :with ?dept ?role :where [?e :dept ?dept] [?e :role ?role]])"#,
    );
    let cmd = result.expect("parse failed");
    match cmd {
        DatalogCommand::Query(q) => {
            assert_eq!(q.with_vars, vec!["?dept".to_string(), "?role".to_string()]);
        }
        _ => panic!("expected Query"),
    }
}

#[test]
fn test_parse_unknown_aggregate_as_udf() {
    // Unknown aggregate names are not rejected at parse time.
    // They are emitted as FindSpec::Aggregate and resolved at runtime as UDFs.
    let result = parse_datalog_command("(query [:find (average ?e) :where [?e :a ?v]])");
    assert!(result.is_ok(), "unknown aggregate should parse as UDF");
    if let Ok(DatalogCommand::Query(q)) = result {
        assert!(
            q.find
                .iter()
                .any(|s| matches!(s, FindSpec::Aggregate { func, .. } if func == "average")),
            "should have Aggregate with func='average'"
        );
    }
}

#[test]
fn test_parse_error_aggregate_arg_not_variable() {
    let result = parse_datalog_command("(query [:find (count :not-a-var) :where [?e :a ?v]])");
    assert!(result.is_err(), "non-variable aggregate arg should fail");
}

#[test]
fn test_parse_error_with_without_aggregate() {
    let result = parse_datalog_command(r#"(query [:find ?e :with ?x :where [?e :a ?x]])"#);
    assert!(result.is_err(), ":with without aggregate should fail");
    assert!(
        result
            .unwrap_err()
            .contains("requires at least one aggregate"),
        "wrong error message"
    );
}

#[test]
fn test_parse_error_aggregate_var_unbound() {
    let result = parse_datalog_command(r#"(query [:find (count ?unbound) :where [?e :a ?v]])"#);
    assert!(result.is_err(), "unbound aggregate var should fail");
    assert!(
        result.unwrap_err().contains("not bound in :where"),
        "wrong error message"
    );
}

// Helper used by parse_expr tests
fn parse(s: &str) -> Result<DatalogCommand, String> {
    parse_datalog_command(s)
}

#[test]
fn test_parse_expr_lt_filter() {
    // [(< ?v 100)] — filter clause
    let input = "(query [:find ?e :where [?e :item/price ?v] [(< ?v 100)]])";
    let result = parse(input);
    assert!(result.is_ok(), "parse failed");
    match result.unwrap() {
        DatalogCommand::Query(q) => {
            assert_eq!(q.where_clauses.len(), 2);
            assert!(matches!(
                q.where_clauses[1],
                WhereClause::Expr { binding: None, .. }
            ));
        }
        _ => panic!("expected query"),
    }
}

#[test]
fn test_parse_expr_add_binding() {
    // [(+ ?a ?b) ?sum] — binding clause
    let input = "(query [:find ?sum :where [?e :x ?a] [?e :y ?b] [(+ ?a ?b) ?sum]])";
    let result = parse(input);
    assert!(result.is_ok(), "parse failed");
    match result.unwrap() {
        DatalogCommand::Query(q) => {
            assert_eq!(q.where_clauses.len(), 3);
            assert!(matches!(
                q.where_clauses[2],
                WhereClause::Expr {
                    binding: Some(_),
                    ..
                }
            ));
        }
        _ => panic!("expected query"),
    }
}

#[test]
fn test_parse_expr_nested_arithmetic() {
    // [(+ (* ?a 2) ?b) ?result]
    let input =
        "(query [:find ?result :where [?e :x ?a] [?e :y ?b] [(+ (* ?a 2) ?b) ?result]])";
    let result = parse(input);
    assert!(result.is_ok(), "parse nested arithmetic");
}

#[test]
fn test_parse_expr_string_predicate() {
    let input = "(query [:find ?e :where [?e :item/tag ?tag] [(starts-with? ?tag \"work\")]])";
    let result = parse(input);
    assert!(result.is_ok(), "parse starts-with?");
}

#[test]
fn test_parse_expr_matches_valid_regex() {
    let input = "(query [:find ?e :where [?e :person/email ?addr] [(matches? ?addr \"^[^@]+@[^@]+$\")]])";
    let result = parse(input);
    assert!(result.is_ok(), "parse matches? with valid regex");
}

#[test]
fn test_parse_expr_matches_invalid_regex_is_error() {
    let input = "(query [:find ?e :where [?e :a ?v] [(matches? ?v \"[unclosed\")]])";
    let result = parse(input);
    assert!(result.is_err(), "invalid regex must be a parse error");
}

#[test]
fn test_parse_expr_unbound_variable_is_error() {
    // ?v is not bound by any pattern before the expr clause
    let input = "(query [:find ?e :where [?e :x ?a] [(< ?v 100)]])";
    let result = parse(input);
    // check_expr_safety rejects this: ?v is not bound by any earlier clause
    assert!(
        result.is_err(),
        "unbound variable in expr must be parse error"
    );
}

#[test]
fn test_parse_expr_three_element_vector_stays_pattern() {
    // [?e :a ?v] must still parse as a Pattern, not an Expr clause
    let input = "(query [:find ?v :where [?e :attr ?v]])";
    let result = parse(input);
    assert!(result.is_ok(), "three-element vector is a pattern");
    match result.unwrap() {
        DatalogCommand::Query(q) => {
            assert!(matches!(q.where_clauses[0], WhereClause::Pattern(_)));
        }
        _ => panic!(),
    }
}

#[test]
fn test_parse_pseudo_attr_in_where_clause() {
    let cmd = parse_datalog_command(
        "(query [:find ?vf :any-valid-time :where [?e :person/name _] [?e :db/valid-from ?vf]])"
    ).unwrap();
    match cmd {
        DatalogCommand::Query(q) => {
            let patterns = q.get_patterns();
            assert!(
                patterns
                    .iter()
                    .any(|p| matches!(p.attribute, AttributeSpec::Pseudo(_))),
                "expected a Pseudo attribute pattern"
            );
        }
        _ => panic!("expected Query"),
    }
}

#[test]
fn test_parse_error_pseudo_attr_entity_position() {
    let result = parse_datalog_command(
        "(query [:find ?v :any-valid-time :where [:db/valid-from :person/name ?v]])",
    );
    assert!(
        result.is_err(),
        "pseudo-attr in entity position should error"
    );
}

#[test]
fn test_parse_error_pseudo_attr_value_position() {
    let result = parse_datalog_command(
        "(query [:find ?e :any-valid-time :where [?e :person/name :db/valid-from]])",
    );
    assert!(
        result.is_err(),
        "pseudo-attr in value position should error"
    );
}

#[test]
fn test_tokenize_bind_slot() {
    let result = parse_edn("$entity");
    assert!(
        matches!(result, Ok(EdnValue::BindSlot(ref s)) if s == "entity"),
        "expected BindSlot"
    );
}

#[test]
fn test_tokenize_bind_slot_hyphenated() {
    let result = parse_edn("$min-level");
    assert!(
        matches!(result, Ok(EdnValue::BindSlot(ref s)) if s == "min-level"),
        "expected BindSlot(min-level)"
    );
}

#[test]
fn test_parse_bind_slot_in_entity_position() {
    let cmd =
        parse_datalog_command("(query [:find ?name :where [$entity :person/name ?name]])");
    assert!(cmd.is_ok(), "parse failed");
    match cmd.unwrap() {
        DatalogCommand::Query(q) => match &q.where_clauses[0] {
            WhereClause::Pattern(p) => {
                assert!(matches!(&p.entity, EdnValue::BindSlot(s) if s == "entity"));
            }
            _ => panic!("expected Pattern"),
        },
        _ => panic!("expected Query"),
    }
}

#[test]
fn test_parse_bind_slot_in_value_position() {
    let cmd = parse_datalog_command("(query [:find ?e :where [?e :person/name $name]])");
    assert!(cmd.is_ok(), "parse failed");
    match cmd.unwrap() {
        DatalogCommand::Query(q) => match &q.where_clauses[0] {
            WhereClause::Pattern(p) => {
                assert!(matches!(&p.value, EdnValue::BindSlot(s) if s == "name"));
            }
            _ => panic!("expected Pattern"),
        },
        _ => panic!("expected Query"),
    }
}

#[test]
fn test_parse_as_of_slot() {
    let cmd = parse_datalog_command("(query [:find ?v :as-of $tx :where [?e :score ?v]])");
    assert!(cmd.is_ok(), "parse failed");
    match cmd.unwrap() {
        DatalogCommand::Query(q) => {
            assert!(matches!(q.as_of, Some(AsOf::Slot(ref s)) if s == "tx"));
        }
        _ => panic!("expected Query"),
    }
}

#[test]
fn test_parse_valid_at_slot() {
    let cmd = parse_datalog_command("(query [:find ?v :valid-at $date :where [?e :score ?v]])");
    assert!(cmd.is_ok(), "parse failed");
    match cmd.unwrap() {
        DatalogCommand::Query(q) => {
            assert!(matches!(q.valid_at, Some(ValidAt::Slot(ref s)) if s == "date"));
        }
        _ => panic!("expected Query"),
    }
}

#[test]
fn test_parse_expr_bind_slot_in_binop() {
    let cmd = parse_datalog_command(
        "(query [:any-valid-time :find ?v :where [?e :score ?v] [(>= ?v $threshold)]])",
    );
    assert!(cmd.is_ok(), "parse failed");
    match cmd.unwrap() {
        DatalogCommand::Query(q) => {
            let expr_clause = q
                .where_clauses
                .iter()
                .find(|c| matches!(c, WhereClause::Expr { .. }));
            assert!(expr_clause.is_some(), "no Expr clause found");
            match expr_clause.unwrap() {
                WhereClause::Expr {
                    expr: Expr::BinOp(_, _, rhs),
                    ..
                } => {
                    assert!(matches!(rhs.as_ref(), Expr::Slot(s) if s == "threshold"));
                }
                _other => panic!("expected BinOp Expr clause"),
            }
        }
        _ => panic!("expected Query"),
    }
}

#[test]
fn test_parse_bind_slot_empty_name_is_error() {
    let result = parse_edn("$");
    assert!(result.is_err(), "bare '$' should be a parse error");
}

#[test]
fn test_integer_overflow_returns_error() {
    let result = tokenize("99999999999999999999999999999");
    assert!(result.is_err(), "i64 overflow must return error, not panic");
    let err = result.unwrap_err();
    assert!(
        err.contains("out of range"),
        "error should mention out of range"
    );
}

#[test]
fn test_negative_integer_overflow_returns_error() {
    let result = tokenize("-99999999999999999999999999999");
    assert!(result.is_err(), "negative i64 overflow must return error");
}

#[test]
fn test_float_overflow_returns_error() {
    // f64::MAX is ~1.8e308, so 1e999 overflows to infinity
    let result = tokenize("1.0e999");
    // f64 parse of very large exponent may produce infinity rather than error;
    // our code rejects it if parse() itself errors. For f64, parse() succeeds
    // with infinity, so this may not error. The critical fix is for integers.
    // Just ensure no panic occurs.
    let _ = result;
}

#[test]
fn test_overflow_in_transact_returns_error() {
    let result = parse_datalog_command("(transact [[:e :a 99999999999999999999999999999]])");
    assert!(
        result.is_err(),
        "overflow in transact should be parse error"
    );
}


#[test]
fn test_parse_or_two_branches() {
    let cmd = parse_datalog_command(
        r#"(query [:find ?e
                   :where [?e :a ?v]
                          (or [?e :b ?v] [?e :c ?v])])"#,
    );
    assert!(cmd.is_ok(), "parse failed");
    if let Ok(DatalogCommand::Query(q)) = cmd {
        assert_eq!(q.where_clauses.len(), 2);
        assert!(matches!(q.where_clauses[1], WhereClause::Or(_)));
    }
}

#[test]
fn test_parse_or_with_and_grouping() {
    let cmd = parse_datalog_command(
        r#"(query [:find ?e
                   :where [?e :name ?n]
                          (or (and [?e :tag ?t]) [?e :label ?t])])"#,
    );
    assert!(cmd.is_ok(), "parse with and grouping failed");
    if let Ok(DatalogCommand::Query(q)) = cmd {
        let or_clause = &q.where_clauses[1];
        if let WhereClause::Or(branches) = or_clause {
            assert_eq!(branches.len(), 2);
            assert_eq!(branches[0].len(), 1);
            assert_eq!(branches[1].len(), 1);
        } else {
            panic!("expected Or clause");
        }
    }
}

#[test]
fn test_parse_or_join_basic() {
    let cmd = parse_datalog_command(
        r#"(query [:find ?e
                   :where [?e :name ?n]
                          (or-join [?e]
                            [?e :tag :red]
                            [?e :tag :blue])])"#,
    );
    assert!(cmd.is_ok(), "or-join parse failed");
    if let Ok(DatalogCommand::Query(q)) = cmd {
        assert!(matches!(q.where_clauses[1], WhereClause::OrJoin { .. }));
    }
}

#[test]
fn test_parse_or_safety_mismatched_new_vars_is_error() {
    let cmd = parse_datalog_command(
        r#"(query [:find ?e
                   :where [?e :name ?n]
                          (or [?e :a ?x] [?e :b ?y])])"#,
    );
    assert!(
        cmd.is_err(),
        "should fail: branches introduce different vars"
    );
    let err = cmd.unwrap_err();
    assert!(err.contains("same set of new variables"));
}

#[test]
fn test_parse_or_join_unbound_join_var_is_error() {
    let cmd = parse_datalog_command(
        r#"(query [:find ?e
                   :where [?e :name ?n]
                          (or-join [?unbound]
                            [?unbound :tag :red])])"#,
    );
    assert!(cmd.is_err(), "should fail: unbound join var");
    let err = cmd.unwrap_err();
    assert!(err.contains("not bound"));
}

#[test]
fn test_or_inside_not_is_parse_error() {
    let cmd = parse_datalog_command(
        r#"(query [:find ?e
                   :where [?e :name ?n]
                          (not (or [?e :a true] [?e :b true]))])"#,
    );
    assert!(cmd.is_err(), "or inside not should be a parse error");
    let err = cmd.unwrap_err();
    assert!(err.contains("or") || err.contains("not"));
}


#[test]
fn parse_window_sum_no_partition() {
    let cmd = parse_datalog_command(
        r#"(query [:find ?name (sum ?salary :over (:order-by ?salary))
                   :where [?e :employee/name ?name]
                          [?e :employee/salary ?salary]])"#,
    );
    assert!(cmd.is_ok(), "parse failed");
    if let Ok(DatalogCommand::Query(q)) = cmd {
        assert_eq!(q.find.len(), 2);
        assert!(matches!(&q.find[1], FindSpec::Window(ws) if
            ws.func == WindowFunc::Sum &&
            ws.var == Some("?salary".to_string()) &&
            ws.partition_by.is_none() &&
            ws.order_by == "?salary" &&
            ws.order == Order::Asc
        ));
    } else {
        panic!("expected Query command");
    }
}

#[test]
fn parse_window_rank_desc() {
    let cmd = parse_datalog_command(
        r#"(query [:find (rank :over (:order-by ?score :desc))
                   :where [?e :item/score ?score]])"#,
    );
    assert!(cmd.is_ok(), "parse failed");
    if let Ok(DatalogCommand::Query(q)) = cmd {
        assert!(matches!(&q.find[0], FindSpec::Window(ws) if
            ws.func == WindowFunc::Rank &&
            ws.var.is_none() &&
            ws.order == Order::Desc
        ));
    } else {
        panic!("expected Query");
    }
}

#[test]
fn parse_window_with_partition_by() {
    let cmd = parse_datalog_command(
        r#"(query [:find ?dept (sum ?salary :over (:partition-by ?dept :order-by ?salary))
                   :where [?e :employee/dept ?dept]
                          [?e :employee/salary ?salary]])"#,
    );
    assert!(cmd.is_ok(), "parse failed");
    if let Ok(DatalogCommand::Query(q)) = cmd {
        assert!(matches!(&q.find[1], FindSpec::Window(ws) if
            ws.partition_by == Some("?dept".to_string())
        ));
    } else {
        panic!("expected Query");
    }
}

#[test]
fn parse_lag_rejected() {
    let result = parse_datalog_command(
        r#"(query [:find (lag ?v :over (:order-by ?v)) :where [?e :x ?v]])"#,
    );
    assert!(result.is_err());
    assert!(result.unwrap_err().contains("not supported"));
}

#[test]
fn parse_window_order_by_missing_rejected() {
    let result = parse_datalog_command(
        r#"(query [:find (sum ?v :over (:partition-by ?p)) :where [?e :x ?v] [?e :y ?p]])"#,
    );
    assert!(result.is_err());
    assert!(result.unwrap_err().contains("order-by"));
}

#[test]
fn parse_non_window_compatible_in_over_rejected() {
    let result = parse_datalog_command(
        r#"(query [:find (count-distinct ?v :over (:order-by ?v)) :where [?e :x ?v]])"#,
    );
    assert!(result.is_err());
    assert!(result.unwrap_err().to_lowercase().contains("window"));
}

#[test]
fn parse_existing_aggregate_still_works() {
    let cmd = parse_datalog_command(r#"(query [:find (count ?e) :where [?e :person/name _]])"#);
    assert!(cmd.is_ok(), "parse failed");
    if let Ok(DatalogCommand::Query(q)) = cmd {
        assert!(matches!(&q.find[0], FindSpec::Aggregate { func, .. } if func == "count"));
    } else {
        panic!("expected Query");
    }
}

#[test]
fn parse_row_number_no_var() {
    let cmd = parse_datalog_command(
        r#"(query [:find (row-number :over (:order-by ?v)) :where [?e :x ?v]])"#,
    );
    assert!(cmd.is_ok(), "parse failed");
    if let Ok(DatalogCommand::Query(q)) = cmd {
        assert!(matches!(&q.find[0], FindSpec::Window(ws) if
            ws.func == WindowFunc::RowNumber &&
            ws.var.is_none()
        ));
    } else {
        panic!("expected Query");
    }
}

#[test]
fn parse_unknown_window_func_as_udf() {
    let result = parse_datalog_command(
        r#"(query [:find (frobnicate ?v :over (:order-by ?v)) :where [?e :x ?v]])"#,
    );
    assert!(
        result.is_ok(),
        "unknown window function should parse as UDF"
    );
    if let Ok(DatalogCommand::Query(q)) = result {
        if let FindSpec::Window(ws) = &q.find[0] {
            assert_eq!(ws.func, WindowFunc::Udf("frobnicate".to_string()));
        } else {
            panic!("expected Window find spec");
        }
    }
}

#[test]
fn parse_lead_rejected() {
    let result = parse_datalog_command(
        r#"(query [:find (lead ?v :over (:order-by ?v)) :where [?e :x ?v]])"#,
    );
    assert!(result.is_err());
    assert!(result.unwrap_err().contains("not supported"));
}

#[test]
fn parse_mixed_aggregate_and_window_allowed() {
    let cmd = parse_datalog_command(
        r#"(query [:find (count ?e) (sum ?v :over (:order-by ?v))
                   :where [?e :x ?v]])"#,
    );
    assert!(cmd.is_ok(), "parse failed");
    if let Ok(DatalogCommand::Query(q)) = cmd {
        assert_eq!(q.find.len(), 2);
        assert!(matches!(&q.find[0], FindSpec::Aggregate { func, .. } if func == "count"));
        assert!(matches!(&q.find[1], FindSpec::Window(ws) if ws.func == WindowFunc::Sum));
    } else {
        panic!("expected Query");
    }
}

#[test]
fn parse_udf_window_function() {
    // A name not in the built-in list should produce WindowFunc::Udf
    let result = parse_datalog_command(
        r#"(query [:find (geomean ?score :over (:order-by ?score))
                 :where [?e :item/score ?score]])"#,
    );
    assert!(result.is_ok(), "UDF window function should parse");
    if let Ok(DatalogCommand::Query(q)) = result {
        assert_eq!(q.find.len(), 1);
        if let FindSpec::Window(ws) = &q.find[0] {
            assert_eq!(ws.func, WindowFunc::Udf("geomean".to_string()));
        } else {
            panic!("expected Window find spec");
        }
    }
}

#[test]
fn parse_udf_predicate_clause() {
    // Unknown 1-arg predicate should produce UnaryOp::Udf
    let result = parse_datalog_command(
        r#"(query [:find ?e :where [?e :person/email ?addr] [(email? ?addr)]])"#,
    );
    assert!(result.is_ok(), "UDF predicate should parse");
    if let Ok(DatalogCommand::Query(q)) = result {
        let has_udf = q.where_clauses.iter().any(|c| {
            matches!(c, WhereClause::Expr { expr: Expr::UnaryOp(UnaryOp::Udf(name), _), .. }
                if name == "email?")
        });
        assert!(has_udf, "should have UnaryOp::Udf(\"email?\") clause");
    }
}

#[test]
fn parse_unknown_two_arg_predicate_rejected() {
    // Unknown 2-arg form should still be a parse error
    let result =
        parse_datalog_command(r#"(query [:find ?e :where [?e :x ?v] [(myfn? ?v ?v)]])"#);
    assert!(result.is_err(), "unknown 2-arg form should be rejected");
}


#[test]
fn keyword_command_heads_are_refused() {
    assert!(parse_datalog_command("(:query [:find ?x :where [?x :a ?y]])").is_err());
    assert!(parse_datalog_command("(:transact [[:alice :name \"Alice\"]])").is_err());
    assert!(parse_edn("$").is_err());
    assert_eq!(parse_edn("$a_1-b").unwrap(), EdnValue::BindSlot("a_1-b".to_string()));
}

#[test]
fn ascii_words_tokenize() {
    assert_eq!(tokenize("ab").unwrap(), vec![Token::Symbol("ab".to_string())]);
    assert_eq!(tokenize("42").unwrap(), vec![Token::Integer(42)]);
}

#[test]
fn invalid_regex_message_quotes_the_pattern_as_debug_does() {
    let input = r#"(query [:find ?e :where [?e :a ?v] [(matches? ?v "[unclosed")]])"#;
    let err = parse(input).unwrap_err();
    assert!(err.starts_with("invalid regex pattern \"[unclosed\": "), "{}", err);
    let input = r#"(query [:find ?e :where [?e :a ?v] [(matches? ?v "\\d[")]])"#;
    let err = parse(input).unwrap_err();
    assert!(err.starts_with("invalid regex pattern \"\\\\d[\": "), "{}", err);
}
