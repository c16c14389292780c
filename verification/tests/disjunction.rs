use minigraf::disjunction::apply_or_clauses;
use minigraf::edn::EdnValue;
use minigraf::evaluator::Bindings;
use minigraf::recursion::DerivedFact;
use minigraf::types::{value_clone, AttributeSpec, Pattern, Value, WhereClause};

fn sym(s: &str) -> EdnValue {
    EdnValue::Symbol(s.to_string())
}

fn pattern(attr: &str) -> WhereClause {
    WhereClause::Pattern(Pattern::new(sym("?p"), EdnValue::Keyword(attr.to_string()), sym("?v")))
}

fn row(pairs: &[(&str, i64)]) -> Bindings {
    let mut b = Bindings::new();
    for (k, v) in pairs {
        b.insert(k.to_string(), Value::Integer(*v));
    }
    b
}

fn copy(b: &Bindings) -> Bindings {
    let mut r = Bindings::new();
    for n in b.names() {
        r.insert(n.clone(), value_clone(b.get(&n).unwrap()));
    }
    r
}

fn ints(rows: &Vec<Bindings>, name: &str) -> Vec<Option<i64>> {
    rows.iter()
        .map(|b| match b.get(name) {
            Some(Value::Integer(i)) => Some(*i),
            _ => None,
        })
        .collect()
}

/// A stand-in matcher: each branch is known by the attribute of its first
/// pattern; a branch with a `not` keeps the seed rows whose `?p` is not 2.
fn eval_branch(_facts: &Vec<DerivedFact>, branch: &Vec<WhereClause>, seed: &Vec<Bindings>) -> Result<Vec<Bindings>, String> {
    if branch.iter().any(|c| matches!(c, WhereClause::Not(_))) {
        return Ok(seed.iter().filter(|b| b.get("?p") != Some(&Value::Integer(2))).map(copy).collect());
    }
    let attr = match &branch[0] {
        WhereClause::Pattern(p) => match &p.attribute {
            AttributeSpec::Real(EdnValue::Keyword(k)) => k.clone(),
            _ => String::new(),
        },
        _ => String::new(),
    };
    match attr.as_str() {
        ":a" => Ok(vec![row(&[("?p", 1)]), row(&[("?p", 2)])]),
        ":b" => Ok(vec![row(&[("?p", 2)]), row(&[("?p", 3)])]),
        ":c" => Ok(vec![row(&[("?p", 1), ("?c", 10)]), row(&[("?p", 1), ("?c", 11)])]),
        ":j" => Ok(vec![row(&[("?p", 1), ("?q", 5)]), row(&[("?p", 2), ("?q", 6)]), row(&[("?q", 7)])]),
        _ => Err("boom".to_string()),
    }
}

fn incoming(ps: &[i64]) -> Vec<Bindings> {
    ps.iter().map(|p| row(&[("?p", *p)])).collect()
}

#[test]
fn or_keeps_the_incoming_rows_some_branch_matches() {
    let clauses = vec![WhereClause::Or(vec![vec![pattern(":a")], vec![pattern(":b")]])];
    let out = apply_or_clauses(&clauses, incoming(&[1, 2, 3, 4]), &vec![], &eval_branch).ok().unwrap();
    assert_eq!(ints(&out, "?p"), vec![Some(1), Some(2), Some(3)]);
}

#[test]
fn or_adds_the_variables_a_branch_introduces() {
    let clauses = vec![WhereClause::Or(vec![vec![pattern(":c")]])];
    let out = apply_or_clauses(&clauses, incoming(&[1, 2]), &vec![], &eval_branch).ok().unwrap();
    assert_eq!(ints(&out, "?p"), vec![Some(1), Some(1)]);
    assert_eq!(ints(&out, "?c"), vec![Some(10), Some(11)]);
}

#[test]
fn or_stops_once_every_incoming_row_is_covered() {
    let clauses = vec![WhereClause::Or(vec![vec![pattern(":a")], vec![pattern(":boom")]])];
    let out = apply_or_clauses(&clauses, incoming(&[1, 2]), &vec![], &eval_branch).ok().unwrap();
    assert_eq!(ints(&out, "?p"), vec![Some(1), Some(2)]);
}

#[test]
fn an_error_of_a_branch_is_returned() {
    let clauses = vec![WhereClause::Or(vec![vec![pattern(":a")], vec![pattern(":boom")]])];
    let err = apply_or_clauses(&clauses, incoming(&[3]), &vec![], &eval_branch).err().unwrap();
    assert_eq!(err, "boom");
}

#[test]
fn or_with_a_negation_seeds_each_branch_with_the_incoming_rows() {
    let branch = vec![pattern(":a"), WhereClause::Not(vec![pattern(":b")])];
    let clauses = vec![WhereClause::Or(vec![branch])];
    let out = apply_or_clauses(&clauses, incoming(&[1, 2, 3]), &vec![], &eval_branch).ok().unwrap();
    assert_eq!(ints(&out, "?p"), vec![Some(1), Some(3)]);
}

#[test]
fn or_on_the_empty_row_gives_the_union() {
    let clauses = vec![WhereClause::Or(vec![vec![pattern(":a")], vec![pattern(":b")]])];
    let out = apply_or_clauses(&clauses, vec![Bindings::new()], &vec![], &eval_branch).ok().unwrap();
    assert_eq!(ints(&out, "?p"), vec![Some(1), Some(2), Some(3)]);
}

#[test]
fn or_join_projects_out_branch_variables() {
    let clauses = vec![WhereClause::OrJoin { join_vars: vec!["?p".to_string()], branches: vec![vec![pattern(":j")]] }];
    let out = apply_or_clauses(&clauses, incoming(&[2, 1, 9]), &vec![], &eval_branch).ok().unwrap();
    assert_eq!(ints(&out, "?p"), vec![Some(2), Some(1)]);
    assert_eq!(ints(&out, "?q"), vec![None, None]);
}

#[test]
fn or_join_refuses_a_join_variable_nothing_binds() {
    let clauses = vec![WhereClause::OrJoin { join_vars: vec!["?x".to_string()], branches: vec![vec![pattern(":j")]] }];
    let err = apply_or_clauses(&clauses, incoming(&[1]), &vec![], &eval_branch).err().unwrap();
    assert_eq!(err, "or-join variable ?x is not bound in the incoming scope");
}

#[test]
fn other_clauses_leave_the_rows_alone() {
    let clauses = vec![pattern(":boom")];
    let out = apply_or_clauses(&clauses, incoming(&[4, 5]), &vec![], &eval_branch).ok().unwrap();
    assert_eq!(ints(&out, "?p"), vec![Some(4), Some(5)]);
}
