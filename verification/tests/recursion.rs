use minigraf::edn::EdnValue;
use minigraf::recursion::{evaluate_recursive_rules, DerivedFact, RuleLimits};
use minigraf::types::{Rule, Value};

fn fact(e: u128, a: &str, v: u128) -> DerivedFact {
    DerivedFact { entity: e, attribute: a.to_string(), value: Value::Ref(v) }
}

fn target(f: &DerivedFact) -> u128 {
    match f.value {
        Value::Ref(v) => v,
        _ => u128::MAX,
    }
}

fn sym(s: &str) -> EdnValue {
    EdnValue::Symbol(s.to_string())
}

/// reachable(x, y) :- connected(x, y).
fn base_rule() -> Rule {
    Rule { head: vec![sym("reachable"), sym("?x"), sym("?y")], body: vec![] }
}

/// reachable(x, z) :- reachable(x, y), connected(y, z).
fn step_rule() -> Rule {
    Rule { head: vec![sym("reachable"), sym("?x"), sym("?z")], body: vec![] }
}

/// Applies one of the two reachability rules once to the facts so far.
fn apply_rule(rule: &Rule, facts: &Vec<DerivedFact>) -> Result<Vec<DerivedFact>, String> {
    let mut out = Vec::new();
    if rule.head[2] == sym("?y") {
        for c in facts.iter().filter(|f| f.attribute == ":connected") {
            out.push(fact(c.entity, ":reachable", target(c)));
        }
    } else {
        for r in facts.iter().filter(|f| f.attribute == ":reachable") {
            for c in facts.iter().filter(|f| f.attribute == ":connected" && f.entity == target(r)) {
                out.push(fact(r.entity, ":reachable", target(c)));
            }
        }
    }
    Ok(out)
}

fn reachability_rules() -> Vec<Rule> {
    vec![base_rule(), step_rule()]
}

fn limits(iterations: usize, derived: usize, results: usize) -> RuleLimits {
    RuleLimits { max_iterations: iterations, max_derived_facts: derived, max_results: results }
}

fn reachable_pairs(facts: &Vec<DerivedFact>) -> Vec<(u128, u128)> {
    let mut v: Vec<(u128, u128)> =
        facts.iter().filter(|f| f.attribute == ":reachable").map(|f| (f.entity, target(f))).collect();
    v.sort();
    v
}

#[test]
fn reachability_reaches_a_fixed_point() {
    let base = vec![fact(1, ":connected", 2), fact(2, ":connected", 3), fact(3, ":connected", 4)];
    let out = evaluate_recursive_rules(&base, &reachability_rules(), limits(100, 1000, 1000), &apply_rule).unwrap();
    assert_eq!(&out[..3], &base[..]);
    assert_eq!(reachable_pairs(&out), vec![(1, 2), (1, 3), (1, 4), (2, 3), (2, 4), (3, 4)]);
    for rule in reachability_rules().iter() {
        let again = apply_rule(rule, &out).unwrap();
        assert!(again.iter().all(|f| out.contains(f)));
    }
}

#[test]
fn a_cycle_terminates() {
    let base = vec![fact(1, ":connected", 2), fact(2, ":connected", 1)];
    let out = evaluate_recursive_rules(&base, &reachability_rules(), limits(100, 1000, 1000), &apply_rule).unwrap();
    assert_eq!(reachable_pairs(&out), vec![(1, 1), (1, 2), (2, 1), (2, 2)]);
}

#[test]
fn limits_are_coded_int_020() {
    let base = vec![fact(1, ":connected", 2), fact(2, ":connected", 3), fact(3, ":connected", 4)];
    let err = evaluate_recursive_rules(&base, &reachability_rules(), limits(1, 1000, 1000), &apply_rule).unwrap_err();
    assert_eq!(err, "INT-020: Max iterations (1) exceeded. Possible infinite recursion or cycle in rules.");
    let err = evaluate_recursive_rules(&base, &reachability_rules(), limits(100, 2, 1000), &apply_rule).unwrap_err();
    assert!(err.starts_with("INT-020: Max derived facts per iteration (2)"));
    let err = evaluate_recursive_rules(&base, &reachability_rules(), limits(100, 1000, 4), &apply_rule).unwrap_err();
    assert_eq!(err, "INT-020: Max query results (4) exceeded.");
}
