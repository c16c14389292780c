//! Pieces of query execution that only look at the parsed query and the
//! bindings: which clauses need per-fact pseudo-attributes, the patterns a
//! query reads, truthiness of values, and projecting bindings to rows.
use vstd::prelude::*;
use crate::types::{
    Value, ValueView, Pattern, PatternView, AttributeSpec, AttributeView, WhereClause, ClauseView, FindSpec,
    FindSpecView, DatalogQuery, PseudoAttr, clauses_view, branches_view, patterns_view, finds_view,
    lemma_clauses_view, lemma_branches_view, pattern_clone, value_clone,
};
use crate::evaluator::Bindings;
use crate::expression::{FloatOp, float_fn, float_step_total, float_step_deterministic, call_float_step};
use crate::edn::{EdnValue, EdnView, edns_view, lemma_edns_view};
use crate::types::Rule;
use crate::text::{owned, concat, push_u64_text, nat_text};

verus! {

/// The outcome of executing a command.
#[derive(Debug, PartialEq)]
pub enum QueryResult {
    /// A transaction was applied; its id (milliseconds since the epoch).
    Transacted(u64),
    /// A retraction was applied; its id.
    Retracted(u64),
    /// Rows of values, one column per `:find` element, named by `vars`.
    QueryResults { vars: Vec<String>, results: Vec<Vec<Value>> },
    /// A command that produces no data.
    Acknowledged,
}

// ===================== per-fact pseudo-attributes =====================

/// A clause (at any depth) has a pattern over a per-fact pseudo-attribute.
pub open spec fn per_fact_clause(c: ClauseView) -> bool
    decreases c,
{
    match c {
        ClauseView::Pattern(p) => match p.attribute {
            AttributeView::Pseudo(a) => !(a is ValidAt),
            AttributeView::Real(_) => false,
        },
        ClauseView::Not(inner) => per_fact_clauses(inner),
        ClauseView::NotJoin { clauses, .. } => per_fact_clauses(clauses),
        ClauseView::Or(bs) => per_fact_branches(bs),
        ClauseView::OrJoin { branches, .. } => per_fact_branches(branches),
        _ => false,
    }
}

/// Some clause of a sequence has a per-fact pseudo-attribute pattern.
pub open spec fn per_fact_clauses(cs: Seq<ClauseView>) -> bool
    decreases cs,
{
    if cs.len() == 0 {
        false
    } else {
        per_fact_clauses(cs.drop_last()) || per_fact_clause(cs.last())
    }
}

/// Some branch has a per-fact pseudo-attribute pattern.
pub open spec fn per_fact_branches(bs: Seq<Seq<ClauseView>>) -> bool
    decreases bs,
{
    if bs.len() == 0 {
        false
    } else {
        per_fact_branches(bs.drop_last()) || per_fact_clauses(bs.last())
    }
}

fn per_fact_clause_exec(c: &WhereClause) -> (r: bool)
    ensures
        r == per_fact_clause(c@),
    decreases c,
{
    match c {
        WhereClause::Pattern(p) => match &p.attribute {
            AttributeSpec::Pseudo(a) => a.is_per_fact(),
            AttributeSpec::Real(_) => false,
        },
        WhereClause::Not(inner) => per_fact_clauses_exec(inner),
        WhereClause::NotJoin { clauses: inner, .. } => per_fact_clauses_exec(inner),
        WhereClause::Or(bs) => per_fact_branches_exec(bs),
        WhereClause::OrJoin { branches, .. } => per_fact_branches_exec(branches),
        _ => false,
    }
}

fn per_fact_clauses_exec(cs: &Vec<WhereClause>) -> (r: bool)
    ensures
        r == per_fact_clauses(clauses_view(cs@)),
    decreases cs,
{
    proof {
        lemma_clauses_view(cs@);
    }
    let ghost cv = clauses_view(cs@);
    let mut found = false;
    let mut k: usize = 0;
    assert(cv.subrange(0, 0) =~= Seq::<ClauseView>::empty());
    while k < cs.len()
        invariant
            k <= cs@.len(),
            cv == clauses_view(cs@),
            cv.len() == cs@.len(),
            forall|i: int| 0 <= i < cs@.len() ==> #[trigger] cv[i] == cs@[i]@,
            found == per_fact_clauses(cv.subrange(0, k as int)),
        decreases cs@.len() - k,
    {
        assert(cv.subrange(0, k + 1).drop_last() =~= cv.subrange(0, k as int));
        assert(cv.subrange(0, k + 1).last() == cs@[k as int]@);
        let here = per_fact_clause_exec(&cs[k]);
        found = found || here;
        k = k + 1;
    }
    assert(cv.subrange(0, cs@.len() as int) =~= cv);
    found
}

fn per_fact_branches_exec(bs: &Vec<Vec<WhereClause>>) -> (r: bool)
    ensures
        r == per_fact_branches(branches_view(bs@)),
    decreases bs,
{
    proof {
        lemma_branches_view(bs@);
    }
    let ghost bv = branches_view(bs@);
    let mut found = false;
    let mut k: usize = 0;
    assert(bv.subrange(0, 0) =~= Seq::<Seq<ClauseView>>::empty());
    while k < bs.len()
        invariant
            k <= bs@.len(),
            bv == branches_view(bs@),
            bv.len() == bs@.len(),
            forall|i: int| 0 <= i < bs@.len() ==> #[trigger] bv[i] == clauses_view(bs@[i]@),
            found == per_fact_branches(bv.subrange(0, k as int)),
        decreases bs@.len() - k,
    {
        assert(bv.subrange(0, k + 1).drop_last() =~= bv.subrange(0, k as int));
        assert(bv.subrange(0, k + 1).last() == clauses_view(bs@[k as int]@));
        let here = per_fact_clauses_exec(&bs[k]);
        found = found || here;
        k = k + 1;
    }
    assert(bv.subrange(0, bs@.len() as int) =~= bv);
    found
}

/// Whether any `:where` clause, at any depth, has a pattern over a per-fact
/// pseudo-attribute (valid-from, valid-to, tx-count, tx-id), which needs
/// `:any-valid-time`.
pub fn query_uses_per_fact_pseudo_attr(query: &DatalogQuery) -> (r: bool)
    ensures
        r == per_fact_clauses(query@.where_clauses),
{
    per_fact_clauses_exec(&query.where_clauses)
}

// ===================== all patterns =====================

/// The patterns of a clause, including those nested in negations and
/// disjunctions, in order.
pub open spec fn clause_patterns(c: ClauseView) -> Seq<PatternView>
    decreases c,
{
    match c {
        ClauseView::Pattern(p) => seq![p],
        ClauseView::Not(inner) => clauses_patterns(inner),
        ClauseView::NotJoin { clauses, .. } => clauses_patterns(clauses),
        ClauseView::Or(bs) => branches_patterns(bs),
        ClauseView::OrJoin { branches, .. } => branches_patterns(branches),
        _ => Seq::empty(),
    }
}

/// The patterns of a sequence of clauses, in order.
pub open spec fn clauses_patterns(cs: Seq<ClauseView>) -> Seq<PatternView>
    decreases cs,
{
    if cs.len() == 0 {
        Seq::empty()
    } else {
        clauses_patterns(cs.drop_last()) + clause_patterns(cs.last())
    }
}

/// The patterns of the branches of a disjunction, in order.
pub open spec fn branches_patterns(bs: Seq<Seq<ClauseView>>) -> Seq<PatternView>
    decreases bs,
{
    if bs.len() == 0 {
        Seq::empty()
    } else {
        branches_patterns(bs.drop_last()) + clauses_patterns(bs.last())
    }
}

fn append_patterns(out: &mut Vec<Pattern>, more: Vec<Pattern>)
    ensures
        patterns_view(final(out)@) == patterns_view(old(out)@) + patterns_view(more@),
{
    let mut k: usize = 0;
    let ghost start = out@;
    assert(patterns_view(more@.subrange(0, 0)) =~= Seq::<PatternView>::empty());
    assert(patterns_view(out@) =~= patterns_view(start) + patterns_view(more@.subrange(0, 0)));
    while k < more.len()
        invariant
            k <= more@.len(),
            patterns_view(out@) == patterns_view(start) + patterns_view(more@.subrange(0, k as int)),
            start == old(out)@,
        decreases more@.len() - k,
    {
        let ghost prev = out@;
        out.push(pattern_clone(&more[k]));
        assert(patterns_view(out@) =~= patterns_view(prev).push(more@[k as int]@));
        assert(patterns_view(more@.subrange(0, k + 1)) =~= patterns_view(more@.subrange(0, k as int)).push(
            more@[k as int]@,
        ));
        k = k + 1;
    }
    assert(more@.subrange(0, more@.len() as int) =~= more@);
}

fn clause_patterns_exec(c: &WhereClause) -> (r: Vec<Pattern>)
    ensures
        patterns_view(r@) == clause_patterns(c@),
    decreases c,
{
    match c {
        WhereClause::Pattern(p) => {
            let mut v: Vec<Pattern> = Vec::new();
            v.push(pattern_clone(p));
            assert(patterns_view(v@) =~= seq![p@]);
            v
        },
        WhereClause::Not(inner) => collect_all_patterns(inner),
        WhereClause::NotJoin { clauses: inner, .. } => collect_all_patterns(inner),
        WhereClause::Or(bs) => branches_patterns_exec(bs),
        WhereClause::OrJoin { branches, .. } => branches_patterns_exec(branches),
        _ => {
            let v: Vec<Pattern> = Vec::new();
            assert(patterns_view(v@) =~= Seq::<PatternView>::empty());
            v
        },
    }
}

fn branches_patterns_exec(bs: &Vec<Vec<WhereClause>>) -> (r: Vec<Pattern>)
    ensures
        patterns_view(r@) == branches_patterns(branches_view(bs@)),
    decreases bs,
{
    proof {
        lemma_branches_view(bs@);
    }
    let ghost bv = branches_view(bs@);
    let mut out: Vec<Pattern> = Vec::new();
    let mut k: usize = 0;
    assert(bv.subrange(0, 0) =~= Seq::<Seq<ClauseView>>::empty());
    assert(patterns_view(out@) =~= Seq::<PatternView>::empty());
    while k < bs.len()
        invariant
            k <= bs@.len(),
            bv == branches_view(bs@),
            bv.len() == bs@.len(),
            forall|i: int| 0 <= i < bs@.len() ==> #[trigger] bv[i] == clauses_view(bs@[i]@),
            patterns_view(out@) == branches_patterns(bv.subrange(0, k as int)),
        decreases bs@.len() - k,
    {
        assert(bv.subrange(0, k + 1).drop_last() =~= bv.subrange(0, k as int));
        assert(bv.subrange(0, k + 1).last() == clauses_view(bs@[k as int]@));
        let more = collect_all_patterns(&bs[k]);
        append_patterns(&mut out, more);
        k = k + 1;
    }
    assert(bv.subrange(0, bs@.len() as int) =~= bv);
    out
}

/// All patterns of a sequence of clauses, including those nested inside
/// negations and disjunctions, in order (see `clauses_patterns`).
pub fn collect_all_patterns(clauses: &Vec<WhereClause>) -> (r: Vec<Pattern>)
    ensures
        patterns_view(r@) == clauses_patterns(clauses_view(clauses@)),
    decreases clauses,
{
    proof {
        lemma_clauses_view(clauses@);
    }
    let ghost cv = clauses_view(clauses@);
    let mut out: Vec<Pattern> = Vec::new();
    let mut k: usize = 0;
    assert(cv.subrange(0, 0) =~= Seq::<ClauseView>::empty());
    assert(patterns_view(out@) =~= Seq::<PatternView>::empty());
    while k < clauses.len()
        invariant
            k <= clauses@.len(),
            cv == clauses_view(clauses@),
            cv.len() == clauses@.len(),
            forall|i: int| 0 <= i < clauses@.len() ==> #[trigger] cv[i] == clauses@[i]@,
            patterns_view(out@) == clauses_patterns(cv.subrange(0, k as int)),
        decreases clauses@.len() - k,
    {
        assert(cv.subrange(0, k + 1).drop_last() =~= cv.subrange(0, k as int));
        assert(cv.subrange(0, k + 1).last() == clauses@[k as int]@);
        let more = clause_patterns_exec(&clauses[k]);
        append_patterns(&mut out, more);
        k = k + 1;
    }
    assert(cv.subrange(0, clauses@.len() as int) =~= cv);
    out
}

// ===================== values =====================

/// Truthiness of a value: `true`, a non-zero integer or a non-zero float;
/// every other value is false. Whether a float is non-zero is the float
/// step's answer to `float != 0` (so infinities and NaN are truthy under
/// IEEE comparison, and a literal that rounds to zero is not).
pub open spec fn truthy(v: ValueView, fl: spec_fn(FloatOp, ValueView, ValueView) -> Result<ValueView, ()>) -> bool {
    match v {
        ValueView::Boolean(b) => b,
        ValueView::Integer(i) => i != 0,
        ValueView::Float(_) => fl(FloatOp::Neq, v, ValueView::Integer(0)) == Ok::<ValueView, ()>(
            ValueView::Boolean(true),
        ),
        _ => false,
    }
}

/// Whether a value is truthy (see `truthy`); a float is asked of the
/// caller's float step.
pub fn is_truthy<F: Fn(FloatOp, Value, Value) -> Result<Value, ()>>(v: &Value, float_step: &F) -> (r: bool)
    requires
        float_step_total(*float_step),
        float_step_deterministic(*float_step),
    ensures
        r == truthy(v@, float_fn(*float_step)),
{
    match v {
        Value::Boolean(b) => *b,
        Value::Integer(i) => *i != 0,
        Value::Float(_) => {
            let res = call_float_step(float_step, FloatOp::Neq, value_clone(v), Value::Integer(0));
            match res {
                Ok(Value::Boolean(b)) => b,
                _ => false,
            }
        },
        _ => false,
    }
}

/// The name of a value's type, for messages.
pub open spec fn value_kind_name(v: ValueView) -> Seq<char> {
    match v {
        ValueView::Str(_) => "String"@,
        ValueView::Integer(_) => "Integer"@,
        ValueView::Float(_) => "Float"@,
        ValueView::Boolean(_) => "Boolean"@,
        ValueView::Ref(_) => "Ref"@,
        ValueView::Keyword(_) => "Keyword"@,
        ValueView::Null => "Null"@,
    }
}

/// The name of a value's type (see `value_kind_name`).
pub fn value_type_name(v: &Value) -> (r: &'static str)
    ensures
        r@ == value_kind_name(v@),
{
    match v {
        Value::String(_) => "String",
        Value::Integer(_) => "Integer",
        Value::Float(_) => "Float",
        Value::Boolean(_) => "Boolean",
        Value::Ref(_) => "Ref",
        Value::Keyword(_) => "Keyword",
        Value::Null => "Null",
    }
}

// ===================== projection =====================

/// The binding key of `:find` element `i`: the variable itself, or the slot
/// where the aggregate or window value of column `i` was stored.
pub open spec fn find_key(f: FindSpecView, i: nat) -> Seq<char> {
    match f {
        FindSpecView::Variable(v) => v,
        FindSpecView::Aggregate { .. } => "__agg_"@ + nat_text(i),
        FindSpecView::Window(_) => "__win_"@ + nat_text(i),
    }
}

/// The row of a binding for `:find` elements `j..`, after `acc`, or nothing
/// when some element has no value in the binding.
pub open spec fn row_of(b: Map<Seq<char>, ValueView>, fs: Seq<FindSpecView>, j: int, acc: Seq<ValueView>) -> Option<
    Seq<ValueView>,
>
    decreases fs.len() - j,
{
    if j < 0 || j >= fs.len() {
        Some(acc)
    } else if b.contains_key(find_key(fs[j], j as nat)) {
        row_of(b, fs, j + 1, acc.push(b[find_key(fs[j], j as nat)]))
    } else {
        None
    }
}

/// The rows of bindings `..k`, skipping bindings that lack a column.
pub open spec fn project(bs: Seq<Map<Seq<char>, ValueView>>, fs: Seq<FindSpecView>) -> Seq<Seq<ValueView>>
    decreases bs.len(),
{
    if bs.len() == 0 {
        Seq::empty()
    } else {
        match row_of(bs.last(), fs, 0, Seq::empty()) {
            Some(r) => project(bs.drop_last(), fs).push(r),
            None => project(bs.drop_last(), fs),
        }
    }
}

/// The models of rows.
pub open spec fn rows_view(rs: Seq<Vec<Value>>) -> Seq<Seq<ValueView>> {
    rs.map_values(|r: Vec<Value>| r@.map_values(|v: Value| v@))
}

fn find_key_exec(f: &FindSpec, i: usize) -> (r: String)
    ensures
        r@ == find_key(f@, i as nat),
{
    match f {
        FindSpec::Variable(v) => v.clone(),
        FindSpec::Aggregate { .. } => {
            let mut k = owned("__agg_");
            push_u64_text(&mut k, i as u64);
            k
        },
        FindSpec::Window(_) => {
            let mut k = owned("__win_");
            push_u64_text(&mut k, i as u64);
            k
        },
    }
}

fn row_exec(b: &Bindings, fs: &Vec<FindSpec>) -> (r: Option<Vec<Value>>)
    ensures
        match r {
            Some(row) => row_of(b@, finds_view(fs@), 0, Seq::empty()) == Some(row@.map_values(|v: Value| v@)),
            None => row_of(b@, finds_view(fs@), 0, Seq::empty()) is None,
        },
{
    let ghost fv = finds_view(fs@);
    let mut row: Vec<Value> = Vec::new();
    let mut i: usize = 0;
    assert(row@.map_values(|v: Value| v@) =~= Seq::<ValueView>::empty());
    while i < fs.len()
        invariant
            i <= fs@.len(),
            fv == finds_view(fs@),
            fv.len() == fs@.len(),
            row_of(b@, fv, 0, Seq::empty()) == row_of(b@, fv, i as int, row@.map_values(|v: Value| v@)),
        decreases fs@.len() - i,
    {
        assert(fv[i as int] == fs@[i as int]@);
        let key = find_key_exec(&fs[i], i);
        match b.get(key.as_str()) {
            Some(v) => {
                let ghost prev = row@;
                row.push(value_clone(v));
                assert(row@.map_values(|v: Value| v@) =~= prev.map_values(|v: Value| v@).push(v@));
            },
            None => {
                return None;
            },
        }
        i = i + 1;
    }
    Some(row)
}

/// Projects bindings to rows in `:find` order; a binding that lacks the
/// value of some column gives no row (see `project`).
pub fn project_find_specs(bindings: &Vec<Bindings>, find_specs: &Vec<FindSpec>) -> (r: Vec<Vec<Value>>)
    ensures
        rows_view(r@) == project(crate::expression::rows_view(bindings@), finds_view(find_specs@)),
{
    let ghost bv = crate::expression::rows_view(bindings@);
    let mut out: Vec<Vec<Value>> = Vec::new();
    let mut k: usize = 0;
    assert(bv.subrange(0, 0) =~= Seq::<Map<Seq<char>, ValueView>>::empty());
    assert(rows_view(out@) =~= Seq::<Seq<ValueView>>::empty());
    while k < bindings.len()
        invariant
            k <= bindings@.len(),
            bv == crate::expression::rows_view(bindings@),
            bv.len() == bindings@.len(),
            rows_view(out@) == project(bv.subrange(0, k as int), finds_view(find_specs@)),
        decreases bindings@.len() - k,
    {
        assert(bv.subrange(0, k + 1).drop_last() =~= bv.subrange(0, k as int));
        assert(bv.subrange(0, k + 1).last() == bindings@[k as int]@);
        match row_exec(&bindings[k], find_specs) {
            Some(row) => {
                let ghost prev = out@;
                out.push(row);
                assert(rows_view(out@) =~= rows_view(prev).push(row@.map_values(|v: Value| v@)));
            },
            None => {},
        }
        k = k + 1;
    }
    assert(bv.subrange(0, bindings@.len() as int) =~= bv);
    out
}

// ===================== rules =====================

/// The predicate a rule defines: the symbol at the head of its head list.
pub open spec fn rule_predicate(head: Seq<EdnView>) -> Result<Seq<char>, Seq<char>> {
    if head.len() == 0 {
        Err("Rule head cannot be empty"@)
    } else {
        match head[0] {
            EdnView::Symbol(s) => Ok(s),
            _ => Err("Rule head must start with a symbol (predicate name)"@),
        }
    }
}

/// The predicate a rule defines (see `rule_predicate`).
pub fn extract_predicate(rule: &Rule) -> (r: Result<String, String>)
    ensures
        match r {
            Ok(p) => rule_predicate(edns_view(rule.head@)) == Ok::<Seq<char>, Seq<char>>(p@),
            Err(m) => rule_predicate(edns_view(rule.head@)) == Err::<Seq<char>, Seq<char>>(m@),
        },
{
    proof {
        lemma_edns_view(rule.head@);
    }
    if rule.head.len() == 0 {
        return Err(owned("Rule head cannot be empty"));
    }
    match &rule.head[0] {
        EdnValue::Symbol(s) => Ok(s.clone()),
        _ => Err(owned("Rule head must start with a symbol (predicate name)")),
    }
}

} // verus!
