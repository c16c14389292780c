//! Running a read query: the checks made before any fact is matched, the
//! planned clauses in order (patterns by the caller's matcher, negations
//! and expression clauses here), the `or` and `or-join` clauses, then
//! aggregation, window functions and projection. For a query that invokes
//! rules, the rules are first evaluated stratum by stratum, each applied by
//! `rule_application::apply_rule_once`, and the query reads the derived
//! facts.
use vstd::prelude::*;
use crate::aggregation::{finish_deterministic, finish_fn, finish_total, udf_deterministic, udf_fn, udf_total};
use crate::disjunction::{
    BranchFn, Row, empty_seed, seed_row,
    seq_set, spec_or_clauses,
};
use crate::branch::{apply_or_with_branches, library_branches};
use crate::evaluator::Bindings;
use crate::edn::{EdnValue, EdnView, edns_view};
use crate::recursion::{DerivedFact, FactView, facts_result_view, facts_view};
use crate::stratification::RuleRegistry;
use crate::stratified::stratified_outcome;
use crate::expression::{
    FloatOp, apply_exprs, check_udf_predicates, spec_apply_exprs, first_unknown_predicate, float_fn,
    float_step_deterministic, float_step_total, predicate_fn, predicate_step_deterministic, predicate_step_total,
    rows_view, unknown_predicate_message,
};
use crate::functions::{Aggregated, AggregatedView, FunctionRegistry, RegistryView};
use crate::negation::{
    MatchFn, apply_not_clause, apply_not_join_clause, keep_not, keep_not_join, matcher_deterministic, matcher_fn,
    matcher_total, rows_where, run_matcher,
};
use crate::planning::{
    check_pseudo_attrs, plan_clauses, pseudo_attr_message, pseudo_attr_refused, query_limits, spec_plan_clauses,
    spec_query_limits,
};
use crate::rule_application::{
    conv_deterministic, conv_total, evaluate_stratified_rules, lemma_names_seq_set, rule_spec_of,
};
use crate::text::owned;
use crate::types::{
    ClauseView, DatalogQuery, Pattern, QueryView, ValidAt, ValidAtView, Value, ValueView, WhereClause, clause_view,
    clauses_view, invocations_of, lemma_clauses_view, pattern_clone, patterns_view, strs_view,
};
use crate::window::{apply_post_processing, result_rows_view, spec_post_processing};

verus! {

/// The patterns among the planned clauses applied in order to the rows by
/// the matcher `mf` over the facts `fs`.
pub open spec fn pattern_phase(cs: Seq<ClauseView>, rows: Seq<Row>, fs: Seq<FactView>, mf: MatchFn) -> Seq<Row>
    decreases cs.len(),
{
    if cs.len() == 0 {
        rows
    } else {
        let r = pattern_phase(cs.drop_last(), rows, fs, mf);
        match cs.last() {
            ClauseView::Pattern(p) => mf(fs, seq![p], r),
            _ => r,
        }
    }
}

/// The negations among the planned clauses applied in order: each keeps the
/// rows for which its body cannot be satisfied.
pub open spec fn negation_phase(
    cs: Seq<ClauseView>,
    rows: Seq<Row>,
    fs: Seq<FactView>,
    mf: MatchFn,
    fl: spec_fn(FloatOp, ValueView, ValueView) -> Result<ValueView, ()>,
    pr: spec_fn(Seq<char>, ValueView) -> Option<bool>,
) -> Seq<Row>
    decreases cs.len(),
{
    if cs.len() == 0 {
        rows
    } else {
        let r = negation_phase(cs.drop_last(), rows, fs, mf, fl, pr);
        match cs.last() {
            ClauseView::Not(body) => rows_where(r, keep_not(body, fs, mf, fl, pr)),
            ClauseView::NotJoin { join_vars, clauses } => rows_where(
                r,
                keep_not_join(seq_set(join_vars), clauses, fs, mf, fl, pr),
            ),
            _ => r,
        }
    }
}

/// A read query's result rows: an unsubstituted `:valid-at` slot, a
/// per-fact pseudo-attribute outside `:any-valid-time`, an unregistered
/// predicate and a rule invocation of the wrong arity are refused in that
/// order; then, from the empty row, the planned patterns are matched, the
/// expression clauses filter or extend the rows, the `or` and `or-join`
/// clauses follow, then the negations, each once every variable the
/// clauses before it bind is bound; the rows are aggregated, annotated by
/// window functions and projected onto `:find`.
pub open spec fn spec_execute_query(
    q: QueryView,
    reg: RegistryView,
    fs: Seq<FactView>,
    mf: MatchFn,
    ef: BranchFn,
    fl: spec_fn(FloatOp, ValueView, ValueView) -> Result<ValueView, ()>,
    pr: spec_fn(Seq<char>, ValueView) -> Option<bool>,
    fin: spec_fn(AggregatedView) -> ValueView,
    ud: spec_fn(Seq<char>, Seq<ValueView>) -> ValueView,
) -> Result<Seq<Seq<ValueView>>, Seq<char>> {
    if q.valid_at matches Some(ValidAtView::Slot(_)) {
        Err("internal: unsubstituted :valid-at bind slot reached the executor"@)
    } else if pseudo_attr_refused(q) {
        Err(pseudo_attr_message())
    } else {
        match first_unknown_predicate(q.where_clauses, reg) {
            Some(n) => Err(unknown_predicate_message(n)),
            None => match spec_plan_clauses(q) {
                Err(m) => Err(m),
                Ok(planned) => match spec_or_clauses(
                    q.where_clauses,
                    spec_apply_exprs(pattern_phase(planned, empty_seed(), fs, mf), planned, fl, pr),
                    ef,
                ) {
                    Err(m) => Err(m),
                    Ok(rows2) => spec_post_processing(
                        negation_phase(planned, rows2, fs, mf, fl, pr),
                        q.find,
                        q.with_vars,
                        reg,
                        fl,
                        fin,
                        ud,
                    ),
                },
            },
        }
    }
}

/// Runs a read query (see `spec_execute_query`): `matcher` matches
/// patterns against its facts and the derived `facts`, `or` branches are
/// evaluated by `branch::evaluate_branch`; `float_step`, `predicate`,
/// `finish` and `udf` are the steps of expression evaluation and
/// aggregation.
pub fn execute_query<
    M: Fn(&Vec<DerivedFact>, &Vec<Pattern>, &Vec<Bindings>) -> Vec<Bindings>,
    F: Fn(FloatOp, Value, Value) -> Result<Value, ()>,
    G: Fn(&str, &Value) -> bool,
    H: Fn(Aggregated) -> Value,
    U: Fn(&str, &Vec<Value>) -> Value,
>(
    query: &DatalogQuery,
    registry: &FunctionRegistry,
    facts: &Vec<DerivedFact>,
    matcher: &M,
    float_step: &F,
    predicate: &G,
    finish: &H,
    udf: &U,
) -> (r: Result<Vec<Vec<Value>>, String>)
    requires
        matcher_total(*matcher),
        matcher_deterministic(*matcher),
        float_step_total(*float_step),
        float_step_deterministic(*float_step),
        predicate_step_total(*predicate),
        predicate_step_deterministic(*predicate),
        finish_total(*finish),
        finish_deterministic(*finish),
        udf_total(*udf),
        udf_deterministic(*udf),
    ensures
        result_rows_view(r) == spec_execute_query(
            query@,
            registry@,
            facts_view(facts@),
            matcher_fn(*matcher),
            library_branches(facts_view(facts@), matcher_fn(*matcher), float_fn(*float_step), predicate_fn(registry@, *predicate), registry@),
            float_fn(*float_step),
            predicate_fn(registry@, *predicate),
            finish_fn(*finish),
            udf_fn(*udf),
        ),
{
    let ghost fs = facts_view(facts@);
    let ghost mf = matcher_fn(*matcher);
    let ghost fl = float_fn(*float_step);
    let ghost pr = predicate_fn(registry@, *predicate);
    match &query.valid_at {
        Some(ValidAt::Slot(_)) => {
            return Err(owned("internal: unsubstituted :valid-at bind slot reached the executor"));
        },
        _ => {},
    }
    match check_pseudo_attrs(query) {
        Err(m) => {
            return Err(m);
        },
        Ok(_) => {},
    }
    match check_udf_predicates(&query.where_clauses, registry) {
        Err(m) => {
            return Err(m);
        },
        Ok(_) => {},
    }
    let planned = match plan_clauses(query) {
        Err(m) => {
            return Err(m);
        },
        Ok(p) => p,
    };
    let ghost pv = clauses_view(planned@);
    proof {
        lemma_clauses_view(planned@);
    }
    let mut rows = seed_row();
    let mut i: usize = 0;
    assert(pv.subrange(0, 0) =~= Seq::<ClauseView>::empty());
    while i < planned.len()
        invariant
            i <= planned@.len(),
            matcher_total(*matcher),
            matcher_deterministic(*matcher),
            fs == facts_view(facts@),
            mf == matcher_fn(*matcher),
            pv == clauses_view(planned@),
            pv.len() == planned@.len(),
            forall|q: int| 0 <= q < planned@.len() ==> #[trigger] pv[q] == clause_view(planned@[q]),
            pattern_phase(pv.subrange(0, i as int), empty_seed(), fs, mf) == rows_view(rows@),
        decreases planned@.len() - i,
    {
        assert(pv.subrange(0, i + 1).drop_last() =~= pv.subrange(0, i as int));
        assert(pv.subrange(0, i + 1).last() == pv[i as int]);
        match &planned[i] {
            WhereClause::Pattern(p) => {
                let mut one: Vec<Pattern> = Vec::new();
                one.push(pattern_clone(p));
                assert(patterns_view(one@) =~= seq![p@]);
                rows = run_matcher(matcher, facts, &one, &rows);
            },
            _ => {},
        }
        i = i + 1;
    }
    assert(pv.subrange(0, planned@.len() as int) =~= pv);
    let rows1 = apply_exprs(rows, &planned, registry, float_step, predicate);
    let mut rows2 = match apply_or_with_branches(&query.where_clauses, rows1, facts, matcher, registry, float_step, predicate) {
        Err(m) => {
            return Err(m);
        },
        Ok(r) => r,
    };
    let ghost after_or = rows_view(rows2@);
    let mut i: usize = 0;
    while i < planned.len()
        invariant
            i <= planned@.len(),
            matcher_total(*matcher),
            matcher_deterministic(*matcher),
            float_step_total(*float_step),
            float_step_deterministic(*float_step),
            predicate_step_total(*predicate),
            predicate_step_deterministic(*predicate),
            fs == facts_view(facts@),
            mf == matcher_fn(*matcher),
            fl == float_fn(*float_step),
            pr == predicate_fn(registry@, *predicate),
            pv == clauses_view(planned@),
            pv.len() == planned@.len(),
            forall|q: int| 0 <= q < planned@.len() ==> #[trigger] pv[q] == clause_view(planned@[q]),
            negation_phase(pv.subrange(0, i as int), after_or, fs, mf, fl, pr) == rows_view(rows2@),
        decreases planned@.len() - i,
    {
        assert(pv.subrange(0, i + 1).drop_last() =~= pv.subrange(0, i as int));
        assert(pv.subrange(0, i + 1).last() == pv[i as int]);
        match &planned[i] {
            WhereClause::Not(body) => {
                rows2 = apply_not_clause(rows2, body, facts, matcher, registry, float_step, predicate);
            },
            WhereClause::NotJoin { join_vars, clauses } => {
                proof {
                    lemma_names_seq_set(join_vars@);
                }
                rows2 = apply_not_join_clause(rows2, join_vars, clauses, facts, matcher, registry, float_step, predicate);
            },
            _ => {},
        }
        i = i + 1;
    }
    assert(pv.subrange(0, planned@.len() as int) =~= pv);
    apply_post_processing(rows2, &query.find, &query.with_vars, registry, float_step, finish, udf)
}

/// The predicates a query invokes, in order.
pub open spec fn invoked_predicates(cs: Seq<ClauseView>) -> Seq<Seq<char>> {
    invocations_of(cs).map_values(|x: (Seq<char>, Seq<EdnView>)| x.0)
}

/// Runs a read query that invokes rules: an unsubstituted `:valid-at` slot
/// and a per-fact pseudo-attribute outside `:any-valid-time` are refused
/// first; then the invoked predicates are evaluated over the base facts by
/// stratified evaluation with the query's recursion limits, each rule
/// applied by `apply_rule_once` (see
/// `rule_application::evaluate_stratified_rules`), and the query runs as
/// `execute_query` does over the derived facts (an error of the evaluation
/// is returned as it is).
pub fn execute_query_with_rules<
    M: Fn(&Vec<DerivedFact>, &Vec<Pattern>, &Vec<Bindings>) -> Vec<Bindings>,
    F: Fn(FloatOp, Value, Value) -> Result<Value, ()>,
    G: Fn(&str, &Value) -> bool,
    H: Fn(Aggregated) -> Value,
    U: Fn(&str, &Vec<Value>) -> Value,
    C: Fn(&EdnValue) -> Result<u128, String>,
    D: Fn(&EdnValue) -> Result<Value, String>,
>(
    query: &DatalogQuery,
    rules: &RuleRegistry,
    registry: &FunctionRegistry,
    base: &Vec<DerivedFact>,
    max_derived: usize,
    max_results: usize,
    matcher: &M,
    float_step: &F,
    predicate: &G,
    finish: &H,
    udf: &U,
    to_entity: &C,
    to_value: &D,
) -> (r: Result<Vec<Vec<Value>>, String>)
    requires
        matcher_total(*matcher),
        matcher_deterministic(*matcher),
        float_step_total(*float_step),
        float_step_deterministic(*float_step),
        predicate_step_total(*predicate),
        predicate_step_deterministic(*predicate),
        finish_total(*finish),
        finish_deterministic(*finish),
        udf_total(*udf),
        udf_deterministic(*udf),
        conv_total(*to_entity),
        conv_deterministic(*to_entity),
        conv_total(*to_value),
        conv_deterministic(*to_value),
    ensures
        query@.valid_at matches Some(ValidAtView::Slot(_)) ==> result_rows_view(r) == Err::<
            Seq<Seq<ValueView>>,
            Seq<char>,
        >("internal: unsubstituted :valid-at bind slot reached the executor"@),
        !(query@.valid_at matches Some(ValidAtView::Slot(_))) && pseudo_attr_refused(query@) ==> result_rows_view(r)
            == Err::<Seq<Seq<ValueView>>, Seq<char>>(pseudo_attr_message()),
        !(query@.valid_at matches Some(ValidAtView::Slot(_))) && !pseudo_attr_refused(query@) ==> exists|
            d: Result<Seq<FactView>, Seq<char>>,
        |
            stratified_outcome(
                rules@,
                invoked_predicates(query@.where_clauses),
                facts_view(base@),
                spec_query_limits(query@, max_derived, max_results),
                rule_spec_of(matcher, registry, float_step, predicate, to_entity, to_value),
                d,
            ) && result_rows_view(r) == match d {
                Err(m) => Err(m),
                Ok(fs) => spec_execute_query(
                    query@,
                    registry@,
                    fs,
                    matcher_fn(*matcher),
                    library_branches(fs, matcher_fn(*matcher), float_fn(*float_step), predicate_fn(registry@, *predicate), registry@),
                    float_fn(*float_step),
                    predicate_fn(registry@, *predicate),
                    finish_fn(*finish),
                    udf_fn(*udf),
                ),
            },
{
    match &query.valid_at {
        Some(ValidAt::Slot(_)) => {
            return Err(owned("internal: unsubstituted :valid-at bind slot reached the executor"));
        },
        _ => {},
    }
    match check_pseudo_attrs(query) {
        Err(m) => {
            return Err(m);
        },
        Ok(_) => {},
    }
    let limits = query_limits(query, max_derived, max_results);
    let invs = query.get_rule_invocations();
    let ghost iv = invs@.map_values(|x: (String, Vec<EdnValue>)| (x.0@, edns_view(x.1@)));
    let mut preds: Vec<String> = Vec::new();
    let mut k: usize = 0;
    while k < invs.len()
        invariant
            k <= invs@.len(),
            iv == invs@.map_values(|x: (String, Vec<EdnValue>)| (x.0@, edns_view(x.1@))),
            strs_view(preds@) == iv.subrange(0, k as int).map_values(|x: (Seq<char>, Seq<EdnView>)| x.0),
        decreases invs@.len() - k,
    {
        let ghost prev = preds@;
        preds.push(owned(invs[k].0.as_str()));
        proof {
            assert(strs_view(preds@) =~= strs_view(prev).push(invs@[k as int].0@));
            assert(iv.subrange(0, k + 1).map_values(|x: (Seq<char>, Seq<EdnView>)| x.0) =~= iv.subrange(
                0,
                k as int,
            ).map_values(|x: (Seq<char>, Seq<EdnView>)| x.0).push(iv[k as int].0));
        }
        k = k + 1;
    }
    assert(iv.subrange(0, invs@.len() as int) =~= iv);
    assert(strs_view(preds@) == invoked_predicates(query@.where_clauses));
    let derived = evaluate_stratified_rules(
        rules,
        &preds,
        base,
        limits,
        matcher,
        registry,
        float_step,
        predicate,
        to_entity,
        to_value,
    );
    let ghost d = facts_result_view(derived);
    match derived {
        Err(m) => Err(m),
        Ok(facts) => execute_query(
            query,
            registry,
            &facts,
            matcher,
            float_step,
            predicate,
            finish,
            udf,
        ),
    }
}
} // verus!
