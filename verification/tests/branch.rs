use minigraf::branch::evaluate_branch;
use minigraf::command::parse_datalog_command;
use minigraf::edn::EdnValue;
use minigraf::evaluator::Bindings;
use minigraf::expression::FloatOp;
use minigraf::functions::FunctionRegistry;
use minigraf::recursion::DerivedFact;
use minigraf::types::{value_clone, AttributeSpec, DatalogCommand, Pattern, Value, WhereClause};

fn copy(b: &Bindings) -> Bindings {
    let mut r = Bindings::new();
    for n in b.names() {
        r.insert(n.clone(), value_clone(b.get(&n).unwrap()));
    }
    r
}

fn unify(row: &mut Bindings, term: &EdnValue, v: &Value) -> bool {
    match term {
        EdnValue::Symbol(s) if s.starts_with('?') => match row.get(s) {
            Some(bound) => bound == v,
            None => {
                row.insert(s.clone(), value_clone(v));
                true
            }
        },
        EdnValue::Integer(i) => *v == Value::Integer(*i),
        EdnValue::Boolean(b) => *v == Value::Boolean(*b),
        EdnValue::Uuid(u) => *v == Value::Ref(*u),
        _ => false,
    }
}

/// A stand-in matcher: each pattern joins the rows with the facts it matches.
fn matcher(facts: &Vec<DerivedFact>, patterns: &Vec<Pattern>, seed: &Vec<Bindings>) -> Vec<Bindings> {
    let mut rows: Vec<Bindings> = seed.iter().map(copy).collect();
    for p in patterns {
        let attr = match &p.attribute {
            AttributeSpec::Real(EdnValue::Keyword(k)) => k.clone(),
            _ => return vec![],
        };
        let mut out = Vec::new();
        for row in rows.iter() {
            for f in facts.iter().filter(|f| f.attribute == attr) {
                let mut r = copy(row);
                if unify(&mut r, &p.entity, &Value::Ref(f.entity)) && unify(&mut r, &p.value, &f.value) {
                    out.push(r);
                }
            }
        }
        rows = out;
    }
    rows
}

fn float_step(_op: FloatOp, _l: Value, _r: Value) -> Result<Value, ()> {
    Err(())
}

fn no_predicate(_n: &str, _v: &Value) -> bool {
    false
}

fn facts() -> Vec<DerivedFact> {
    vec![
        DerivedFact { entity: 1, attribute: ":age".to_string(), value: Value::Integer(30) },
        DerivedFact { entity: 2, attribute: ":age".to_string(), value: Value::Integer(20) },
        DerivedFact { entity: 3, attribute: ":age".to_string(), value: Value::Integer(40) },
        DerivedFact { entity: 2, attribute: ":blocked".to_string(), value: Value::Boolean(true) },
    ]
}

fn clauses(where_text: &str) -> Vec<WhereClause> {
    match parse_datalog_command(&format!("(query [:find ?e :where {}])", where_text)).unwrap() {
        DatalogCommand::Query(q) => q.where_clauses,
        _ => panic!("expected a query"),
    }
}

fn rows_for(entities: &[u128]) -> Vec<Bindings> {
    entities
        .iter()
        .map(|e| {
            let mut b = Bindings::new();
            b.insert("?e".to_string(), Value::Ref(*e));
            b
        })
        .collect()
}

fn entities(rows: &[Bindings]) -> Vec<Value> {
    rows.iter().map(|r| value_clone(r.get("?e").unwrap())).collect()
}

fn run(where_text: &str, incoming: &[u128]) -> Result<Vec<Bindings>, String> {
    let registry = FunctionRegistry::with_builtins();
    evaluate_branch(&facts(), &clauses(where_text), &rows_for(incoming), &matcher, &registry, &float_step, &no_predicate)
}

#[test]
fn a_branch_matches_its_patterns_seeded_with_the_incoming_rows() {
    let rows = run("[?e :age 30]", &[1, 2, 3]).unwrap();
    assert_eq!(entities(&rows), vec![Value::Ref(1)]);
}

#[test]
fn a_branch_under_no_rows_gives_none() {
    assert_eq!(run("[?e :age 30]", &[]).unwrap().len(), 0);
}

#[test]
fn a_branch_applies_nested_or_then_not() {
    let rows = run("(or [?e :age 30] [?e :age 20]) (not [?e :blocked true])", &[1, 2, 3]).unwrap();
    assert_eq!(entities(&rows), vec![Value::Ref(1)]);
}

#[test]
fn a_branch_negation_filters_the_matched_rows() {
    let rows = run("[?e :age ?a] (not [?e :blocked true])", &[1, 2, 3]).unwrap();
    assert_eq!(entities(&rows), vec![Value::Ref(1), Value::Ref(3)]);
}
