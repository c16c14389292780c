use minigraf::edn::EdnValue;
use minigraf::recursion::{DerivedFact, RuleLimits};
use minigraf::stratification::RuleRegistry;
use minigraf::stratified::{all_predicates, evaluate_stratified};
use minigraf::types::{Pattern, Rule, Value, WhereClause};

fn sym(s: &str) -> EdnValue {
    EdnValue::Symbol(s.to_string())
}

fn fact(e: u128, a: &str, v: u128) -> DerivedFact {
    DerivedFact { entity: e, attribute: a.to_string(), value: Value::Ref(v) }
}

fn target(f: &DerivedFact) -> u128 {
    match f.value {
        Value::Ref(v) => v,
        _ => u128::MAX,
    }
}

fn invoke(pred: &str, a: &str, b: &str) -> WhereClause {
    WhereClause::RuleInvocation { predicate: pred.to_string(), args: vec![sym(a), sym(b)] }
}

fn connected(a: &str, b: &str) -> WhereClause {
    WhereClause::Pattern(Pattern::new(sym(a), EdnValue::Keyword(":connected".to_string()), sym(b)))
}

/// reachable(x, y) :- [x :connected y].
/// reachable(x, z) :- reachable(x, y), [y :connected z].
/// blocked(x, y)   :- [x :connected _], [y :connected _], not reachable(x, y).
fn registry() -> RuleRegistry {
    let mut r = RuleRegistry::new();
    r.register_rule_unchecked(
        "reachable".to_string(),
        Rule { head: vec![sym("reachable"), sym("?x"), sym("?y")], body: vec![connected("?x", "?y")] },
    );
    r.register_rule_unchecked(
        "reachable".to_string(),
        Rule {
            head: vec![sym("reachable"), sym("?x"), sym("?z")],
            body: vec![invoke("reachable", "?x", "?y"), connected("?y", "?z")],
        },
    );
    r.register_rule_unchecked(
        "blocked".to_string(),
        Rule {
            head: vec![sym("blocked"), sym("?x"), sym("?y")],
            body: vec![
                connected("?x", "?a"),
                connected("?y", "?b"),
                WhereClause::Not(vec![invoke("reachable", "?x", "?y")]),
            ],
        },
    );
    r
}

fn sources(facts: &Vec<DerivedFact>) -> Vec<u128> {
    let mut v: Vec<u128> = facts.iter().filter(|f| f.attribute == ":connected").map(|f| f.entity).collect();
    v.sort();
    v.dedup();
    v
}

/// Applies one rule of `registry()` once to the facts so far.
fn apply_rule(rule: &Rule, facts: &Vec<DerivedFact>) -> Result<Vec<DerivedFact>, String> {
    let mut out = Vec::new();
    if rule.head[0] == sym("blocked") {
        let nodes = sources(facts);
        for x in nodes.iter() {
            for y in nodes.iter() {
                let reached = facts
                    .iter()
                    .any(|f| f.attribute == ":reachable" && f.entity == *x && target(f) == *y);
                if !reached {
                    out.push(fact(*x, ":blocked", *y));
                }
            }
        }
    } else if rule.head[2] == sym("?y") {
        for c in facts.iter().filter(|f| f.attribute == ":connected") {
            out.push(fact(c.entity, ":reachable", target(c)));
        }
    } else {
        for r in facts.iter().filter(|f| f.attribute == ":reachable") {
            for c in facts.iter().filter(|f| f.attribute == ":connected" && f.entity == target(r)) {
                out.push(fact(r.entity, ":reachable", target(c)));
            }
        }
    }
    Ok(out)
}

fn limits() -> RuleLimits {
    RuleLimits { max_iterations: 100, max_derived_facts: 1000, max_results: 1000 }
}

fn pairs(facts: &Vec<DerivedFact>, attribute: &str) -> Vec<(u128, u128)> {
    let mut v: Vec<(u128, u128)> =
        facts.iter().filter(|f| f.attribute == attribute).map(|f| (f.entity, target(f))).collect();
    v.sort();
    v
}

#[test]
fn requested_predicates_pull_in_their_dependencies() {
    let all = all_predicates(&registry(), &vec!["blocked".to_string()]);
    assert_eq!(all, vec!["blocked".to_string(), "reachable".to_string()]);
}

#[test]
fn negation_reads_the_finished_lower_stratum() {
    let base = vec![fact(1, ":connected", 2), fact(2, ":connected", 3), fact(3, ":connected", 1), fact(4, ":connected", 1)];
    let out = evaluate_stratified(&registry(), &vec!["blocked".to_string()], &base, limits(), &apply_rule).unwrap();
    assert_eq!(&out[..4], &base[..]);
    let reachable = pairs(&out, ":reachable");
    assert_eq!(reachable.len(), 12);
    assert!(reachable.contains(&(4, 3)));
    assert!(!reachable.contains(&(1, 4)));
    assert_eq!(pairs(&out, ":blocked"), vec![(1, 4), (2, 4), (3, 4), (4, 4)]);
}

#[test]
fn a_negative_cycle_is_refused_before_any_rule_runs() {
    let mut r = RuleRegistry::new();
    r.register_rule_unchecked(
        "p".to_string(),
        Rule { head: vec![sym("p"), sym("?x")], body: vec![WhereClause::Not(vec![invoke("q", "?x", "?x")])] },
    );
    r.register_rule_unchecked(
        "q".to_string(),
        Rule { head: vec![sym("q"), sym("?x")], body: vec![WhereClause::Not(vec![invoke("p", "?x", "?x")])] },
    );
    let refuse = |_: &Rule, _: &Vec<DerivedFact>| -> Result<Vec<DerivedFact>, String> { Err("ran".to_string()) };
    let err = evaluate_stratified(&r, &vec!["p".to_string()], &vec![], limits(), &refuse).unwrap_err();
    assert!(err.starts_with("INT-054"), "{}", err);
}

#[test]
fn an_error_of_a_rule_is_returned() {
    let base = vec![fact(1, ":connected", 2)];
    let refuse = |_: &Rule, _: &Vec<DerivedFact>| -> Result<Vec<DerivedFact>, String> { Err("boom".to_string()) };
    let err = evaluate_stratified(&registry(), &vec!["reachable".to_string()], &base, limits(), &refuse).unwrap_err();
    assert_eq!(err, "boom");
}
