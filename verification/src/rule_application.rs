//! Applying a rule once to the facts so far: the body's patterns (rule
//! invocations read as patterns over the derived facts) are matched by the
//! caller's matcher, expression clauses filter or extend the rows, `or`
//! clauses, `not` and `not-join` filter them, and the head is instantiated
//! under each row. This is the rule step of `recursion` and `stratified`.
use vstd::prelude::*;
use crate::disjunction::{
    BranchFn, Row, empty_seed, names_set,
    seed_row, seq_set, spec_or_clauses,
};
use crate::branch::{apply_or_with_branches, library_branches};
use crate::edn::{EdnValue, EdnView, edns_view, lemma_edns_view};
use crate::evaluator::{Bindings, invocation_pattern, rule_invocation_to_pattern, spec_head_arg, substitute_variable};
use crate::expression::{
    FloatOp, apply_exprs, float_fn, float_step_deterministic, float_step_total, predicate_fn,
    predicate_step_deterministic, predicate_step_total, rows_view, spec_apply_exprs,
};
use crate::functions::FunctionRegistry;
use crate::negation::{
    MatchFn, evaluate_not_join, matcher_deterministic, matcher_fn, matcher_total, not_body_matches, run_matcher,
    spec_not_join, spec_not_violated,
};
use crate::recursion::{
    DerivedFact, FactView, RuleFn, RuleLimits, evaluate_recursive_rules_with, facts_result_view, facts_view, round_fn,
    spec_evaluate_recursive,
};
use crate::stratified::{evaluate_stratified_with, has_negation, has_negation_exec, stratified_outcome};
use crate::stratification::{RuleRegistry, rules_view};
use crate::text::{concat, owned};
use crate::types::{
    ClauseView, Pattern, PatternView, Rule, RuleView, Value, ValueView, WhereClause, clause_view, clauses_view,
    lemma_clauses_view, pattern_clone, patterns_view, strs_view,
};

verus! {

// ===================== the caller's conversions =====================

/// The model of a conversion's result.
pub open spec fn conv_view<T: View>(r: Result<T, String>) -> Result<T::V, Seq<char>> {
    match r {
        Ok(x) => Ok(x@),
        Err(m) => Err(m@),
    }
}

/// A conversion from EDN answers alike for equal models.
pub open spec fn conv_deterministic<T: View, C: Fn(&EdnValue) -> Result<T, String>>(c: C) -> bool {
    forall|e1: &EdnValue, o1: Result<T, String>, e2: &EdnValue, o2: Result<T, String>|
        #![trigger call_ensures(c, (e1,), o1), call_ensures(c, (e2,), o2)]
        e1@ == e2@ && call_ensures(c, (e1,), o1) && call_ensures(c, (e2,), o2) ==> conv_view(o1) == conv_view(o2)
}

/// A conversion from EDN can be called on any value.
pub open spec fn conv_total<T: View, C: Fn(&EdnValue) -> Result<T, String>>(c: C) -> bool {
    forall|e: &EdnValue| call_requires(c, (e,))
}

/// What a conversion gives for a value with model `e`.
pub open spec fn conv_answer<T: View, C: Fn(&EdnValue) -> Result<T, String>>(c: C, e: EdnView) -> Result<T::V, Seq<char>> {
    let (_, o) = choose|x: &EdnValue, o: Result<T, String>| x@ == e && #[trigger] call_ensures(c, (x,), o);
    conv_view(o)
}

/// A conversion as a function on models.
pub open spec fn conv_fn<T: View, C: Fn(&EdnValue) -> Result<T, String>>(c: C) -> spec_fn(EdnView) -> Result<
    T::V,
    Seq<char>,
> {
    |e: EdnView| conv_answer(c, e)
}

/// Calls a conversion.
fn run_conv<T: View, C: Fn(&EdnValue) -> Result<T, String>>(c: &C, e: &EdnValue) -> (r: Result<T, String>)
    requires
        conv_total(*c),
        conv_deterministic(*c),
    ensures
        conv_view(r) == conv_fn(*c)(e@),
{
    let r = c(e);
    proof {
        let (x2, o2) = choose|x2: &EdnValue, o2: Result<T, String>| x2@ == e@ && #[trigger] call_ensures(*c, (x2,), o2);
        assert(call_ensures(*c, (x2,), o2) && call_ensures(*c, (e,), r));
    }
    r
}

// ===================== the head =====================

/// The fact a rule head gives under a row: the predicate (the head's first
/// element, a symbol) as the attribute `:predicate`, the second element as
/// the entity and the third, if any, as the value (else `true`), each
/// substituted and converted by the caller's conversions.
pub open spec fn spec_instantiate(
    head: Seq<EdnView>,
    b: Row,
    ce: spec_fn(EdnView) -> Result<u128, Seq<char>>,
    cv: spec_fn(EdnView) -> Result<ValueView, Seq<char>>,
) -> Result<FactView, Seq<char>> {
    if head.len() < 2 {
        Err("INT-022: Rule head must have at least 2 elements: (predicate ?arg1)"@)
    } else {
        match head[0] {
            EdnView::Symbol(pred) => match spec_head_arg(head[1], b) {
                Err(m) => Err(m),
                Ok(ee) => match ce(ee) {
                    Err(e) => Err("INT-022: Failed to convert entity: "@ + e),
                    Ok(ent) => {
                        let value: Result<ValueView, Seq<char>> = if head.len() >= 3 {
                            match spec_head_arg(head[2], b) {
                                Err(m) => Err(m),
                                Ok(ve) => match cv(ve) {
                                    Err(e) => Err("INT-022: Failed to convert value: "@ + e),
                                    Ok(v) => Ok(v),
                                },
                            }
                        } else {
                            Ok(ValueView::Boolean(true))
                        };
                        match value {
                            Err(m) => Err(m),
                            Ok(v) => Ok(FactView { entity: ent, attribute: ":"@ + pred, value: v }),
                        }
                    },
                },
            },
            _ => Err("INT-022: Rule head must start with predicate name (symbol)"@),
        }
    }
}

/// Instantiates a rule head under a row (see `spec_instantiate`).
pub fn instantiate_head<C: Fn(&EdnValue) -> Result<u128, String>, D: Fn(&EdnValue) -> Result<Value, String>>(
    head: &Vec<EdnValue>,
    binding: &Bindings,
    to_entity: &C,
    to_value: &D,
) -> (r: Result<DerivedFact, String>)
    requires
        conv_total(*to_entity),
        conv_deterministic(*to_entity),
        conv_total(*to_value),
        conv_deterministic(*to_value),
    ensures
        facts_one_view(r) == spec_instantiate(edns_view(head@), binding@, conv_fn(*to_entity), conv_fn(*to_value)),
{
    proof {
        lemma_edns_view(head@);
    }
    if head.len() < 2 {
        return Err(owned("INT-022: Rule head must have at least 2 elements: (predicate ?arg1)"));
    }
    let pred = match &head[0] {
        EdnValue::Symbol(s) => s,
        _ => {
            return Err(owned("INT-022: Rule head must start with predicate name (symbol)"));
        },
    };
    let ee = match substitute_variable(&head[1], binding) {
        Ok(e) => e,
        Err(m) => {
            return Err(m);
        },
    };
    let ent: u128 = match run_conv(to_entity, &ee) {
        Ok(u) => u,
        Err(e) => {
            return Err(concat("INT-022: Failed to convert entity: ", e.as_str()));
        },
    };
    let value = if head.len() >= 3 {
        let ve = match substitute_variable(&head[2], binding) {
            Ok(e) => e,
            Err(m) => {
                return Err(m);
            },
        };
        match run_conv(to_value, &ve) {
            Ok(v) => v,
            Err(e) => {
                return Err(concat("INT-022: Failed to convert value: ", e.as_str()));
            },
        }
    } else {
        Value::Boolean(true)
    };
    Ok(DerivedFact { entity: ent, attribute: concat(":", pred.as_str()), value })
}

/// The model of one fact or an error.
pub open spec fn facts_one_view(r: Result<DerivedFact, String>) -> Result<FactView, Seq<char>> {
    match r {
        Ok(f) => Ok(f@),
        Err(m) => Err(m@),
    }
}

// ===================== the model of a rule =====================

/// The message for a clause a rule without negation cannot hold.
pub open spec fn positive_refusal(c: ClauseView) -> Seq<char> {
    match c {
        ClauseView::Not(_) => "INT-021: WhereClause::Not in evaluate_rule: use StratifiedEvaluator for rules with negation"@,
        ClauseView::NotJoin { .. } => "INT-021: WhereClause::NotJoin in evaluate_rule: use StratifiedEvaluator for rules with negation"@,
        _ => "INT-021: WhereClause::Or/OrJoin in evaluate_rule: not yet implemented"@,
    }
}

/// The patterns of a rule body without negation, in order: its patterns and
/// its rule invocations read as patterns; an invocation of another arity, a
/// negation or an `or` is an error.
pub open spec fn positive_parts(body: Seq<ClauseView>) -> Result<Seq<PatternView>, Seq<char>>
    decreases body.len(),
{
    if body.len() == 0 {
        Ok(Seq::empty())
    } else {
        match positive_parts(body.drop_last()) {
            Err(m) => Err(m),
            Ok(ps) => match body.last() {
                ClauseView::Pattern(p) => Ok(ps.push(p)),
                ClauseView::RuleInvocation { predicate, args } => match invocation_pattern(predicate, args) {
                    Ok(p) => Ok(ps.push(p)),
                    Err(m) => Err(m),
                },
                ClauseView::Expr { .. } => Ok(ps),
                c => Err(positive_refusal(c)),
            },
        }
    }
}

/// A body holds an expression clause.
pub open spec fn has_expr(body: Seq<ClauseView>) -> bool {
    exists|i: int| 0 <= i < body.len() && #[trigger] body[i] is Expr
}

/// The head instantiated under each row, in order; the first failure is
/// the error.
pub open spec fn instantiate_all(
    head: Seq<EdnView>,
    rows: Seq<Row>,
    ce: spec_fn(EdnView) -> Result<u128, Seq<char>>,
    cv: spec_fn(EdnView) -> Result<ValueView, Seq<char>>,
) -> Result<Seq<FactView>, Seq<char>>
    decreases rows.len(),
{
    if rows.len() == 0 {
        Ok(Seq::empty())
    } else {
        match instantiate_all(head, rows.drop_last(), ce, cv) {
            Err(m) => Err(m),
            Ok(fs) => match spec_instantiate(head, rows.last(), ce, cv) {
                Err(m) => Err(m),
                Ok(f) => Ok(fs.push(f)),
            },
        }
    }
}

/// A rule without negation applied once: the rows matching its patterns
/// (the empty row when it has none), through its expression clauses, each
/// giving the head's fact; a body with neither patterns nor expressions
/// derives nothing.
pub open spec fn spec_evaluate_rule(
    r: RuleView,
    fs: Seq<FactView>,
    mf: MatchFn,
    fl: spec_fn(FloatOp, ValueView, ValueView) -> Result<ValueView, ()>,
    pr: spec_fn(Seq<char>, ValueView) -> Option<bool>,
    ce: spec_fn(EdnView) -> Result<u128, Seq<char>>,
    cv: spec_fn(EdnView) -> Result<ValueView, Seq<char>>,
) -> Result<Seq<FactView>, Seq<char>> {
    match positive_parts(r.body) {
        Err(m) => Err(m),
        Ok(ps) => if ps.len() == 0 && !has_expr(r.body) {
            Ok(Seq::empty())
        } else {
            let rows0 = if ps.len() == 0 {
                empty_seed()
            } else {
                mf(fs, ps, empty_seed())
            };
            instantiate_all(r.head, spec_apply_exprs(rows0, r.body, fl, pr), ce, cv)
        },
    }
}

/// The patterns of a rule body with negation: its patterns and its rule
/// invocations of one or two arguments read as patterns, in order.
pub open spec fn mixed_patterns(body: Seq<ClauseView>) -> Seq<PatternView>
    decreases body.len(),
{
    if body.len() == 0 {
        Seq::empty()
    } else {
        let ps = mixed_patterns(body.drop_last());
        match body.last() {
            ClauseView::Pattern(p) => ps.push(p),
            ClauseView::RuleInvocation { predicate, args } => if args.len() == 1 || args.len() == 2 {
                match invocation_pattern(predicate, args) {
                    Ok(p) => ps.push(p),
                    Err(_) => ps,
                }
            } else {
                ps
            },
            _ => ps,
        }
    }
}

/// A row passes a clause: a `not` whose body cannot be satisfied, a
/// `not-join` whose body cannot be satisfied, or any other clause.
pub open spec fn clause_passes(
    c: ClauseView,
    b: Row,
    fs: Seq<FactView>,
    mf: MatchFn,
    fl: spec_fn(FloatOp, ValueView, ValueView) -> Result<ValueView, ()>,
    pr: spec_fn(Seq<char>, ValueView) -> Option<bool>,
) -> bool {
    match c {
        ClauseView::Not(inner) => !spec_not_violated(inner, b, fs, mf, fl, pr),
        ClauseView::NotJoin { join_vars, clauses } => !spec_not_join(seq_set(join_vars), clauses, b, fs, mf, fl, pr),
        _ => true,
    }
}

/// A row passes every negation of a body.
pub open spec fn passes_negations(
    body: Seq<ClauseView>,
    b: Row,
    fs: Seq<FactView>,
    mf: MatchFn,
    fl: spec_fn(FloatOp, ValueView, ValueView) -> Result<ValueView, ()>,
    pr: spec_fn(Seq<char>, ValueView) -> Option<bool>,
) -> bool {
    forall|i: int| 0 <= i < body.len() ==> #[trigger] clause_passes(body[i], b, fs, mf, fl, pr)
}

/// The facts of the rows that pass every negation, in order; a row whose
/// head cannot be instantiated gives none.
pub open spec fn derive_heads(
    head: Seq<EdnView>,
    rows: Seq<Row>,
    body: Seq<ClauseView>,
    fs: Seq<FactView>,
    mf: MatchFn,
    fl: spec_fn(FloatOp, ValueView, ValueView) -> Result<ValueView, ()>,
    pr: spec_fn(Seq<char>, ValueView) -> Option<bool>,
    ce: spec_fn(EdnView) -> Result<u128, Seq<char>>,
    cv: spec_fn(EdnView) -> Result<ValueView, Seq<char>>,
) -> Seq<FactView>
    decreases rows.len(),
{
    if rows.len() == 0 {
        Seq::empty()
    } else {
        let prev = derive_heads(head, rows.drop_last(), body, fs, mf, fl, pr, ce, cv);
        if passes_negations(body, rows.last(), fs, mf, fl, pr) {
            match spec_instantiate(head, rows.last(), ce, cv) {
                Ok(f) => prev.push(f),
                Err(_) => prev,
            }
        } else {
            prev
        }
    }
}

/// A rule with negation or `or` applied once: the rows matching its
/// patterns, through its expression clauses and its `or` clauses, filtered
/// by its negations, each giving the head's fact.
pub open spec fn spec_mixed_rule(
    r: RuleView,
    fs: Seq<FactView>,
    mf: MatchFn,
    ef: BranchFn,
    fl: spec_fn(FloatOp, ValueView, ValueView) -> Result<ValueView, ()>,
    pr: spec_fn(Seq<char>, ValueView) -> Option<bool>,
    ce: spec_fn(EdnView) -> Result<u128, Seq<char>>,
    cv: spec_fn(EdnView) -> Result<ValueView, Seq<char>>,
) -> Result<Seq<FactView>, Seq<char>> {
    let ps = mixed_patterns(r.body);
    let rows0 = if ps.len() == 0 {
        empty_seed()
    } else {
        mf(fs, ps, empty_seed())
    };
    match spec_or_clauses(r.body, spec_apply_exprs(rows0, r.body, fl, pr), ef) {
        Err(m) => Err(m),
        Ok(rows) => Ok(derive_heads(r.head, rows, r.body, fs, mf, fl, pr, ce, cv)),
    }
}

/// A rule applied once: with negation or `or` as `spec_mixed_rule`, else as
/// `spec_evaluate_rule`.
pub open spec fn spec_apply_rule(
    r: RuleView,
    fs: Seq<FactView>,
    mf: MatchFn,
    ef: BranchFn,
    fl: spec_fn(FloatOp, ValueView, ValueView) -> Result<ValueView, ()>,
    pr: spec_fn(Seq<char>, ValueView) -> Option<bool>,
    ce: spec_fn(EdnView) -> Result<u128, Seq<char>>,
    cv: spec_fn(EdnView) -> Result<ValueView, Seq<char>>,
) -> Result<Seq<FactView>, Seq<char>> {
    if has_negation(r) {
        spec_mixed_rule(r, fs, mf, ef, fl, pr, ce, cv)
    } else {
        spec_evaluate_rule(r, fs, mf, fl, pr, ce, cv)
    }
}

// ===================== applying a rule =====================

pub(crate) proof fn lemma_names_seq_set(v: Seq<String>)
    ensures
        names_set(v) == seq_set(strs_view(v)),
{
    assert(names_set(v) =~= seq_set(strs_view(v))) by {
        assert forall|k: Seq<char>| names_set(v).contains(k) implies seq_set(strs_view(v)).contains(k) by {
            let j = choose|j: int| 0 <= j < v.len() && v[j]@ == k;
            assert(strs_view(v)[j] == k);
        }
        assert forall|k: Seq<char>| seq_set(strs_view(v)).contains(k) implies names_set(v).contains(k) by {
            let j = choose|j: int| 0 <= j < strs_view(v).len() && strs_view(v)[j] == k;
            assert(v[j]@ == k);
        }
    }
}

proof fn lemma_positive_err(cs: Seq<ClauseView>, i: int)
    requires
        0 <= i <= cs.len(),
        positive_parts(cs.subrange(0, i)) is Err,
    ensures
        positive_parts(cs) == positive_parts(cs.subrange(0, i)),
    decreases cs.len() - i,
{
    if i < cs.len() {
        assert(cs.subrange(0, i + 1).drop_last() =~= cs.subrange(0, i));
        lemma_positive_err(cs, i + 1);
    } else {
        assert(cs.subrange(0, i) =~= cs);
    }
}

proof fn lemma_instantiate_err(
    head: Seq<EdnView>,
    rows: Seq<Row>,
    ce: spec_fn(EdnView) -> Result<u128, Seq<char>>,
    cv: spec_fn(EdnView) -> Result<ValueView, Seq<char>>,
    i: int,
)
    requires
        0 <= i <= rows.len(),
        instantiate_all(head, rows.subrange(0, i), ce, cv) is Err,
    ensures
        instantiate_all(head, rows, ce, cv) == instantiate_all(head, rows.subrange(0, i), ce, cv),
    decreases rows.len() - i,
{
    if i < rows.len() {
        assert(rows.subrange(0, i + 1).drop_last() =~= rows.subrange(0, i));
        lemma_instantiate_err(head, rows, ce, cv, i + 1);
    } else {
        assert(rows.subrange(0, i) =~= rows);
    }
}

/// The patterns of a rule body without negation (see `positive_parts`).
fn positive_parts_exec(body: &Vec<WhereClause>) -> (r: Result<Vec<Pattern>, String>)
    ensures
        match r {
            Ok(ps) => positive_parts(clauses_view(body@)) == Ok::<Seq<PatternView>, Seq<char>>(patterns_view(ps@)),
            Err(m) => positive_parts(clauses_view(body@)) == Err::<Seq<PatternView>, Seq<char>>(m@),
        },
{
    let ghost cv = clauses_view(body@);
    proof {
        lemma_clauses_view(body@);
    }
    let mut r: Vec<Pattern> = Vec::new();
    let mut i: usize = 0;
    assert(cv.subrange(0, 0) =~= Seq::<ClauseView>::empty());
    assert(patterns_view(r@) =~= Seq::<PatternView>::empty());
    while i < body.len()
        invariant
            i <= body@.len(),
            cv == clauses_view(body@),
            cv.len() == body@.len(),
            forall|q: int| 0 <= q < body@.len() ==> #[trigger] cv[q] == clause_view(body@[q]),
            positive_parts(cv.subrange(0, i as int)) == Ok::<Seq<PatternView>, Seq<char>>(patterns_view(r@)),
        decreases body@.len() - i,
    {
        assert(cv.subrange(0, i + 1).drop_last() =~= cv.subrange(0, i as int));
        assert(cv.subrange(0, i + 1).last() == cv[i as int]);
        let ghost prev = r@;
        match &body[i] {
            WhereClause::Pattern(p) => {
                r.push(pattern_clone(p));
                assert(patterns_view(r@) =~= patterns_view(prev).push(r@.last()@));
            },
            WhereClause::RuleInvocation { predicate, args } => {
                match rule_invocation_to_pattern(predicate.as_str(), args) {
                    Ok(p) => {
                        r.push(p);
                        assert(patterns_view(r@) =~= patterns_view(prev).push(r@.last()@));
                    },
                    Err(m) => {
                        proof {
                            lemma_positive_err(cv, i as int + 1);
                        }
                        return Err(m);
                    },
                }
            },
            WhereClause::Expr { .. } => {},
            WhereClause::Not(_) => {
                proof {
                    lemma_positive_err(cv, i as int + 1);
                }
                return Err(
                    owned("INT-021: WhereClause::Not in evaluate_rule: use StratifiedEvaluator for rules with negation"),
                );
            },
            WhereClause::NotJoin { .. } => {
                proof {
                    lemma_positive_err(cv, i as int + 1);
                }
                return Err(
                    owned(
                        "INT-021: WhereClause::NotJoin in evaluate_rule: use StratifiedEvaluator for rules with negation",
                    ),
                );
            },
            _ => {
                proof {
                    lemma_positive_err(cv, i as int + 1);
                }
                return Err(owned("INT-021: WhereClause::Or/OrJoin in evaluate_rule: not yet implemented"));
            },
        }
        i = i + 1;
    }
    assert(cv.subrange(0, body@.len() as int) =~= cv);
    Ok(r)
}

/// Whether a body holds an expression clause.
fn body_has_expr(body: &Vec<WhereClause>) -> (r: bool)
    ensures
        r == has_expr(clauses_view(body@)),
{
    proof {
        lemma_clauses_view(body@);
    }
    let mut i: usize = 0;
    while i < body.len()
        invariant
            i <= body@.len(),
            clauses_view(body@).len() == body@.len(),
            forall|q: int| 0 <= q < body@.len() ==> #[trigger] clauses_view(body@)[q] == clause_view(body@[q]),
            forall|q: int| 0 <= q < i ==> !(#[trigger] clauses_view(body@)[q] is Expr),
        decreases body@.len() - i,
    {
        match &body[i] {
            WhereClause::Expr { .. } => {
                assert(clauses_view(body@)[i as int] is Expr);
                return true;
            },
            _ => {},
        }
        i = i + 1;
    }
    false
}

/// The head instantiated under each row (see `instantiate_all`).
fn instantiate_all_exec<C: Fn(&EdnValue) -> Result<u128, String>, D: Fn(&EdnValue) -> Result<Value, String>>(
    head: &Vec<EdnValue>,
    rows: &Vec<Bindings>,
    to_entity: &C,
    to_value: &D,
) -> (r: Result<Vec<DerivedFact>, String>)
    requires
        conv_total(*to_entity),
        conv_deterministic(*to_entity),
        conv_total(*to_value),
        conv_deterministic(*to_value),
    ensures
        facts_result_view(r) == instantiate_all(
            edns_view(head@),
            rows_view(rows@),
            conv_fn(*to_entity),
            conv_fn(*to_value),
        ),
{
    let ghost rv = rows_view(rows@);
    let ghost hv = edns_view(head@);
    let ghost ce = conv_fn(*to_entity);
    let ghost cvf = conv_fn(*to_value);
    let mut out: Vec<DerivedFact> = Vec::new();
    let mut k: usize = 0;
    assert(rv.subrange(0, 0) =~= Seq::<Row>::empty());
    assert(facts_view(out@) =~= Seq::<FactView>::empty());
    while k < rows.len()
        invariant
            k <= rows@.len(),
            conv_total(*to_entity),
            conv_deterministic(*to_entity),
            conv_total(*to_value),
            conv_deterministic(*to_value),
            rv == rows_view(rows@),
            hv == edns_view(head@),
            ce == conv_fn(*to_entity),
            cvf == conv_fn(*to_value),
            instantiate_all(hv, rv.subrange(0, k as int), ce, cvf) == Ok::<Seq<FactView>, Seq<char>>(
                facts_view(out@),
            ),
        decreases rows@.len() - k,
    {
        assert(rv.subrange(0, k + 1).drop_last() =~= rv.subrange(0, k as int));
        assert(rv.subrange(0, k + 1).last() == rows@[k as int]@);
        match instantiate_head(head, &rows[k], to_entity, to_value) {
            Ok(f) => {
                let ghost prev = out@;
                out.push(f);
                assert(facts_view(out@) =~= facts_view(prev).push(out@.last()@));
            },
            Err(m) => {
                proof {
                    lemma_instantiate_err(hv, rv, ce, cvf, k as int + 1);
                }
                return Err(m);
            },
        }
        k = k + 1;
    }
    assert(rv.subrange(0, rows@.len() as int) =~= rv);
    Ok(out)
}

/// The patterns of a rule body with negation (see `mixed_patterns`).
pub(crate) fn mixed_patterns_exec(body: &Vec<WhereClause>) -> (r: Vec<Pattern>)
    ensures
        patterns_view(r@) == mixed_patterns(clauses_view(body@)),
{
    let ghost cv = clauses_view(body@);
    proof {
        lemma_clauses_view(body@);
    }
    let mut r: Vec<Pattern> = Vec::new();
    let mut i: usize = 0;
    assert(cv.subrange(0, 0) =~= Seq::<ClauseView>::empty());
    assert(patterns_view(r@) =~= Seq::<PatternView>::empty());
    while i < body.len()
        invariant
            i <= body@.len(),
            cv == clauses_view(body@),
            cv.len() == body@.len(),
            forall|q: int| 0 <= q < body@.len() ==> #[trigger] cv[q] == clause_view(body@[q]),
            patterns_view(r@) == mixed_patterns(cv.subrange(0, i as int)),
        decreases body@.len() - i,
    {
        assert(cv.subrange(0, i + 1).drop_last() =~= cv.subrange(0, i as int));
        assert(cv.subrange(0, i + 1).last() == cv[i as int]);
        let ghost prev = r@;
        match &body[i] {
            WhereClause::Pattern(p) => {
                r.push(pattern_clone(p));
                assert(patterns_view(r@) =~= patterns_view(prev).push(r@.last()@));
            },
            WhereClause::RuleInvocation { predicate, args } => {
                proof {
                    lemma_edns_view(args@);
                }
                if args.len() == 1 || args.len() == 2 {
                    match rule_invocation_to_pattern(predicate.as_str(), args) {
                        Ok(p) => {
                            r.push(p);
                            assert(patterns_view(r@) =~= patterns_view(prev).push(r@.last()@));
                        },
                        Err(_) => {},
                    }
                }
            },
            _ => {},
        }
        i = i + 1;
    }
    assert(cv.subrange(0, body@.len() as int) =~= cv);
    r
}

/// Whether a row passes every negation of a body (see `passes_negations`).
fn passes_negations_exec<
    M: Fn(&Vec<DerivedFact>, &Vec<Pattern>, &Vec<Bindings>) -> Vec<Bindings>,
    F: Fn(FloatOp, Value, Value) -> Result<Value, ()>,
    G: Fn(&str, &Value) -> bool,
>(
    body: &Vec<WhereClause>,
    b: &Bindings,
    facts: &Vec<DerivedFact>,
    matcher: &M,
    registry: &FunctionRegistry,
    float_step: &F,
    predicate: &G,
) -> (r: bool)
    requires
        matcher_total(*matcher),
        matcher_deterministic(*matcher),
        float_step_total(*float_step),
        float_step_deterministic(*float_step),
        predicate_step_total(*predicate),
        predicate_step_deterministic(*predicate),
    ensures
        r == passes_negations(
            clauses_view(body@),
            b@,
            facts_view(facts@),
            matcher_fn(*matcher),
            float_fn(*float_step),
            predicate_fn(registry@, *predicate),
        ),
{
    let ghost cv = clauses_view(body@);
    let ghost fs = facts_view(facts@);
    let ghost mf = matcher_fn(*matcher);
    let ghost fl = float_fn(*float_step);
    let ghost pr = predicate_fn(registry@, *predicate);
    proof {
        lemma_clauses_view(body@);
    }
    let mut i: usize = 0;
    while i < body.len()
        invariant
            i <= body@.len(),
            matcher_total(*matcher),
            matcher_deterministic(*matcher),
            float_step_total(*float_step),
            float_step_deterministic(*float_step),
            predicate_step_total(*predicate),
            predicate_step_deterministic(*predicate),
            cv == clauses_view(body@),
            fs == facts_view(facts@),
            mf == matcher_fn(*matcher),
            fl == float_fn(*float_step),
            pr == predicate_fn(registry@, *predicate),
            cv.len() == body@.len(),
            forall|q: int| 0 <= q < body@.len() ==> #[trigger] cv[q] == clause_view(body@[q]),
            forall|q: int| 0 <= q < i ==> #[trigger] clause_passes(cv[q], b@, fs, mf, fl, pr),
        decreases body@.len() - i,
    {
        assert(cv[i as int] == clause_view(body@[i as int]));
        match &body[i] {
            WhereClause::Not(inner) => {
                if not_body_matches(inner, b, facts, matcher, registry, float_step, predicate) {
                    assert(!clause_passes(cv[i as int], b@, fs, mf, fl, pr));
                    return false;
                }
            },
            WhereClause::NotJoin { join_vars, clauses } => {
                proof {
                    lemma_names_seq_set(join_vars@);
                }
                if evaluate_not_join(join_vars, clauses, b, facts, matcher, registry, float_step, predicate) {
                    assert(!clause_passes(cv[i as int], b@, fs, mf, fl, pr));
                    return false;
                }
            },
            _ => {},
        }
        assert(clause_passes(cv[i as int], b@, fs, mf, fl, pr));
        i = i + 1;
    }
    true
}

/// The facts of the rows that pass every negation (see `derive_heads`).
fn derive_heads_exec<
    M: Fn(&Vec<DerivedFact>, &Vec<Pattern>, &Vec<Bindings>) -> Vec<Bindings>,
    F: Fn(FloatOp, Value, Value) -> Result<Value, ()>,
    G: Fn(&str, &Value) -> bool,
    C: Fn(&EdnValue) -> Result<u128, String>,
    D: Fn(&EdnValue) -> Result<Value, String>,
>(
    rule: &Rule,
    rows: &Vec<Bindings>,
    facts: &Vec<DerivedFact>,
    matcher: &M,
    registry: &FunctionRegistry,
    float_step: &F,
    predicate: &G,
    to_entity: &C,
    to_value: &D,
) -> (r: Vec<DerivedFact>)
    requires
        matcher_total(*matcher),
        matcher_deterministic(*matcher),
        float_step_total(*float_step),
        float_step_deterministic(*float_step),
        predicate_step_total(*predicate),
        predicate_step_deterministic(*predicate),
        conv_total(*to_entity),
        conv_deterministic(*to_entity),
        conv_total(*to_value),
        conv_deterministic(*to_value),
    ensures
        facts_view(r@) == derive_heads(
            rule@.head,
            rows_view(rows@),
            rule@.body,
            facts_view(facts@),
            matcher_fn(*matcher),
            float_fn(*float_step),
            predicate_fn(registry@, *predicate),
            conv_fn(*to_entity),
            conv_fn(*to_value),
        ),
{
    let ghost rv = rows_view(rows@);
    let ghost fs = facts_view(facts@);
    let ghost mf = matcher_fn(*matcher);
    let ghost fl = float_fn(*float_step);
    let ghost pr = predicate_fn(registry@, *predicate);
    let ghost ce = conv_fn(*to_entity);
    let ghost cvf = conv_fn(*to_value);
    let mut out: Vec<DerivedFact> = Vec::new();
    let mut k: usize = 0;
    assert(rv.subrange(0, 0) =~= Seq::<Row>::empty());
    assert(facts_view(out@) =~= Seq::<FactView>::empty());
    while k < rows.len()
        invariant
            k <= rows@.len(),
            matcher_total(*matcher),
            matcher_deterministic(*matcher),
            float_step_total(*float_step),
            float_step_deterministic(*float_step),
            predicate_step_total(*predicate),
            predicate_step_deterministic(*predicate),
            conv_total(*to_entity),
            conv_deterministic(*to_entity),
            conv_total(*to_value),
            conv_deterministic(*to_value),
            rv == rows_view(rows@),
            fs == facts_view(facts@),
            mf == matcher_fn(*matcher),
            fl == float_fn(*float_step),
            pr == predicate_fn(registry@, *predicate),
            ce == conv_fn(*to_entity),
            cvf == conv_fn(*to_value),
            facts_view(out@) == derive_heads(rule@.head, rv.subrange(0, k as int), rule@.body, fs, mf, fl, pr, ce, cvf),
        decreases rows@.len() - k,
    {
        assert(rv.subrange(0, k + 1).drop_last() =~= rv.subrange(0, k as int));
        assert(rv.subrange(0, k + 1).last() == rows@[k as int]@);
        if passes_negations_exec(&rule.body, &rows[k], facts, matcher, registry, float_step, predicate) {
            match instantiate_head(&rule.head, &rows[k], to_entity, to_value) {
                Ok(f) => {
                    let ghost prev = out@;
                    out.push(f);
                    assert(facts_view(out@) =~= facts_view(prev).push(out@.last()@));
                },
                Err(_) => {},
            }
        }
        k = k + 1;
    }
    assert(rv.subrange(0, rows@.len() as int) =~= rv);
    out
}

/// Applies a rule without negation once (see `spec_evaluate_rule`).
pub fn evaluate_rule<
    M: Fn(&Vec<DerivedFact>, &Vec<Pattern>, &Vec<Bindings>) -> Vec<Bindings>,
    F: Fn(FloatOp, Value, Value) -> Result<Value, ()>,
    G: Fn(&str, &Value) -> bool,
    C: Fn(&EdnValue) -> Result<u128, String>,
    D: Fn(&EdnValue) -> Result<Value, String>,
>(
    rule: &Rule,
    facts: &Vec<DerivedFact>,
    matcher: &M,
    registry: &FunctionRegistry,
    float_step: &F,
    predicate: &G,
    to_entity: &C,
    to_value: &D,
) -> (r: Result<Vec<DerivedFact>, String>)
    requires
        matcher_total(*matcher),
        matcher_deterministic(*matcher),
        float_step_total(*float_step),
        float_step_deterministic(*float_step),
        predicate_step_total(*predicate),
        predicate_step_deterministic(*predicate),
        conv_total(*to_entity),
        conv_deterministic(*to_entity),
        conv_total(*to_value),
        conv_deterministic(*to_value),
    ensures
        facts_result_view(r) == spec_evaluate_rule(
            rule@,
            facts_view(facts@),
            matcher_fn(*matcher),
            float_fn(*float_step),
            predicate_fn(registry@, *predicate),
            conv_fn(*to_entity),
            conv_fn(*to_value),
        ),
{
    let ps = match positive_parts_exec(&rule.body) {
        Ok(ps) => ps,
        Err(m) => {
            return Err(m);
        },
    };
    let has_x = body_has_expr(&rule.body);
    if ps.len() == 0 && !has_x {
        let out: Vec<DerivedFact> = Vec::new();
        assert(facts_view(out@) =~= Seq::<FactView>::empty());
        return Ok(out);
    }
    let seed = seed_row();
    let rows0 = if ps.len() == 0 {
        seed
    } else {
        run_matcher(matcher, facts, &ps, &seed)
    };
    let rows = apply_exprs(rows0, &rule.body, registry, float_step, predicate);
    instantiate_all_exec(&rule.head, &rows, to_entity, to_value)
}

/// Applies a rule with negation or `or` once (see `spec_mixed_rule`);
/// the branches of its `or` clauses are evaluated by `branch::evaluate_branch`.
pub fn apply_mixed_rule<
    M: Fn(&Vec<DerivedFact>, &Vec<Pattern>, &Vec<Bindings>) -> Vec<Bindings>,
    F: Fn(FloatOp, Value, Value) -> Result<Value, ()>,
    G: Fn(&str, &Value) -> bool,
    C: Fn(&EdnValue) -> Result<u128, String>,
    D: Fn(&EdnValue) -> Result<Value, String>,
>(
    rule: &Rule,
    facts: &Vec<DerivedFact>,
    matcher: &M,
    registry: &FunctionRegistry,
    float_step: &F,
    predicate: &G,
    to_entity: &C,
    to_value: &D,
) -> (r: Result<Vec<DerivedFact>, String>)
    requires
        matcher_total(*matcher),
        matcher_deterministic(*matcher),
        float_step_total(*float_step),
        float_step_deterministic(*float_step),
        predicate_step_total(*predicate),
        predicate_step_deterministic(*predicate),
        conv_total(*to_entity),
        conv_deterministic(*to_entity),
        conv_total(*to_value),
        conv_deterministic(*to_value),
    ensures
        facts_result_view(r) == spec_mixed_rule(
            rule@,
            facts_view(facts@),
            matcher_fn(*matcher),
            library_branches(facts_view(facts@), matcher_fn(*matcher), float_fn(*float_step), predicate_fn(registry@, *predicate), registry@),
            float_fn(*float_step),
            predicate_fn(registry@, *predicate),
            conv_fn(*to_entity),
            conv_fn(*to_value),
        ),
{
    let ps = mixed_patterns_exec(&rule.body);
    let seed = seed_row();
    let rows0 = if ps.len() == 0 {
        seed
    } else {
        run_matcher(matcher, facts, &ps, &seed)
    };
    let rows1 = apply_exprs(rows0, &rule.body, registry, float_step, predicate);
    let rows = match apply_or_with_branches(&rule.body, rows1, facts, matcher, registry, float_step, predicate) {
        Ok(rows) => rows,
        Err(m) => {
            return Err(m);
        },
    };
    Ok(derive_heads_exec(rule, &rows, facts, matcher, registry, float_step, predicate, to_entity, to_value))
}

/// Applies a rule once to the facts so far (see `spec_apply_rule`): a rule
/// with `not`, `not-join` or `or` as `apply_mixed_rule`, any other as
/// `evaluate_rule`. The matcher matches patterns against `facts`;
/// `or` branches are evaluated by `branch::evaluate_branch`; `to_entity` and `to_value` turn
/// the head's EDN into a fact's entity and value.
pub fn apply_rule_once<
    M: Fn(&Vec<DerivedFact>, &Vec<Pattern>, &Vec<Bindings>) -> Vec<Bindings>,
    F: Fn(FloatOp, Value, Value) -> Result<Value, ()>,
    G: Fn(&str, &Value) -> bool,
    C: Fn(&EdnValue) -> Result<u128, String>,
    D: Fn(&EdnValue) -> Result<Value, String>,
>(
    rule: &Rule,
    facts: &Vec<DerivedFact>,
    matcher: &M,
    registry: &FunctionRegistry,
    float_step: &F,
    predicate: &G,
    to_entity: &C,
    to_value: &D,
) -> (r: Result<Vec<DerivedFact>, String>)
    requires
        matcher_total(*matcher),
        matcher_deterministic(*matcher),
        float_step_total(*float_step),
        float_step_deterministic(*float_step),
        predicate_step_total(*predicate),
        predicate_step_deterministic(*predicate),
        conv_total(*to_entity),
        conv_deterministic(*to_entity),
        conv_total(*to_value),
        conv_deterministic(*to_value),
    ensures
        facts_result_view(r) == spec_apply_rule(
            rule@,
            facts_view(facts@),
            matcher_fn(*matcher),
            library_branches(facts_view(facts@), matcher_fn(*matcher), float_fn(*float_step), predicate_fn(registry@, *predicate), registry@),
            float_fn(*float_step),
            predicate_fn(registry@, *predicate),
            conv_fn(*to_entity),
            conv_fn(*to_value),
        ),
{
    if has_negation_exec(rule) {
        apply_mixed_rule(rule, facts, matcher, registry, float_step, predicate, to_entity, to_value)
    } else {
        evaluate_rule(rule, facts, matcher, registry, float_step, predicate, to_entity, to_value)
    }
}

/// The caller's matcher, steps and conversions can be called on anything
/// and answer alike for equal models.
pub open spec fn steps_ready<
    M: Fn(&Vec<DerivedFact>, &Vec<Pattern>, &Vec<Bindings>) -> Vec<Bindings>,
    F: Fn(FloatOp, Value, Value) -> Result<Value, ()>,
    G: Fn(&str, &Value) -> bool,
    C: Fn(&EdnValue) -> Result<u128, String>,
    D: Fn(&EdnValue) -> Result<Value, String>,
>(matcher: &M, float_step: &F, predicate: &G, to_entity: &C, to_value: &D) -> bool {
    &&& matcher_total(*matcher)
    &&& matcher_deterministic(*matcher)
    &&& float_step_total(*float_step)
    &&& float_step_deterministic(*float_step)
    &&& predicate_step_total(*predicate)
    &&& predicate_step_deterministic(*predicate)
    &&& conv_total(*to_entity)
    &&& conv_deterministic(*to_entity)
    &&& conv_total(*to_value)
    &&& conv_deterministic(*to_value)
}

/// `spec_apply_rule` with the caller's matcher, steps and conversions and
/// the library's branch evaluator, as a rule step on models.
pub open spec fn rule_spec_of<
    M: Fn(&Vec<DerivedFact>, &Vec<Pattern>, &Vec<Bindings>) -> Vec<Bindings>,
    F: Fn(FloatOp, Value, Value) -> Result<Value, ()>,
    G: Fn(&str, &Value) -> bool,
    C: Fn(&EdnValue) -> Result<u128, String>,
    D: Fn(&EdnValue) -> Result<Value, String>,
>(
    matcher: &M,
    registry: &FunctionRegistry,
    float_step: &F,
    predicate: &G,
    to_entity: &C,
    to_value: &D,
) -> RuleFn {
    |rv: RuleView, fs: Seq<FactView>|
        spec_apply_rule(
            rv,
            fs,
            matcher_fn(*matcher),
            library_branches(fs, matcher_fn(*matcher), float_fn(*float_step), predicate_fn(registry@, *predicate), registry@),
            float_fn(*float_step),
            predicate_fn(registry@, *predicate),
            conv_fn(*to_entity),
            conv_fn(*to_value),
        )
}

/// Evaluates the requested predicates of a rule registry over the base
/// facts by stratified evaluation (see `stratified::evaluate_stratified`),
/// each rule applied by `apply_rule_once` with the given matcher, steps and
/// conversions.
pub fn evaluate_stratified_rules<
    M: Fn(&Vec<DerivedFact>, &Vec<Pattern>, &Vec<Bindings>) -> Vec<Bindings>,
    F: Fn(FloatOp, Value, Value) -> Result<Value, ()>,
    G: Fn(&str, &Value) -> bool,
    C: Fn(&EdnValue) -> Result<u128, String>,
    D: Fn(&EdnValue) -> Result<Value, String>,
>(
    rules: &RuleRegistry,
    requested: &Vec<String>,
    base: &Vec<DerivedFact>,
    limits: RuleLimits,
    matcher: &M,
    registry: &FunctionRegistry,
    float_step: &F,
    predicate: &G,
    to_entity: &C,
    to_value: &D,
) -> (r: Result<Vec<DerivedFact>, String>)
    requires
        matcher_total(*matcher),
        matcher_deterministic(*matcher),
        float_step_total(*float_step),
        float_step_deterministic(*float_step),
        predicate_step_total(*predicate),
        predicate_step_deterministic(*predicate),
        conv_total(*to_entity),
        conv_deterministic(*to_entity),
        conv_total(*to_value),
        conv_deterministic(*to_value),
    ensures
        stratified_outcome(
            rules@,
            strs_view(requested@),
            facts_view(base@),
            limits,
            rule_spec_of(matcher, registry, float_step, predicate, to_entity, to_value),
            facts_result_view(r),
        ),
{
    let ghost rf = rule_spec_of(matcher, registry, float_step, predicate, to_entity, to_value);
    let step = |y: &Rule, x: &Vec<DerivedFact>| -> (o: Result<Vec<DerivedFact>, String>)
        requires
            steps_ready(matcher, float_step, predicate, to_entity, to_value),
        ensures
            facts_result_view(o) == rule_spec_of(matcher, registry, float_step, predicate, to_entity, to_value)(
                y@,
                facts_view(x@),
            ),
        { apply_rule_once(y, x, matcher, registry, float_step, predicate, to_entity, to_value) };
    proof {
        assert forall|y: &Rule, x: &Vec<DerivedFact>| call_requires(step, (y, x)) by {}
        assert forall|y: &Rule, x: &Vec<DerivedFact>, o: Result<Vec<DerivedFact>, String>|
            #[trigger] call_ensures(step, (y, x), o) implies facts_result_view(o) == rf(y@, facts_view(x@)) by {}
    }
    evaluate_stratified_with(rules, requested, base, limits, &step, Ghost(rf))
}

/// `spec_evaluate_rule` with the caller's matcher, steps and conversions, as
/// a rule step on models.
pub open spec fn positive_rule_spec_of<
    M: Fn(&Vec<DerivedFact>, &Vec<Pattern>, &Vec<Bindings>) -> Vec<Bindings>,
    F: Fn(FloatOp, Value, Value) -> Result<Value, ()>,
    G: Fn(&str, &Value) -> bool,
    C: Fn(&EdnValue) -> Result<u128, String>,
    D: Fn(&EdnValue) -> Result<Value, String>,
>(matcher: &M, registry: &FunctionRegistry, float_step: &F, predicate: &G, to_entity: &C, to_value: &D) -> RuleFn {
    |rv: RuleView, fs: Seq<FactView>|
        spec_evaluate_rule(
            rv,
            fs,
            matcher_fn(*matcher),
            float_fn(*float_step),
            predicate_fn(registry@, *predicate),
            conv_fn(*to_entity),
            conv_fn(*to_value),
        )
}

/// The caller's matcher, steps and conversions can be called on anything
/// and answer alike for equal models.
pub open spec fn positive_steps_ready<
    M: Fn(&Vec<DerivedFact>, &Vec<Pattern>, &Vec<Bindings>) -> Vec<Bindings>,
    F: Fn(FloatOp, Value, Value) -> Result<Value, ()>,
    G: Fn(&str, &Value) -> bool,
    C: Fn(&EdnValue) -> Result<u128, String>,
    D: Fn(&EdnValue) -> Result<Value, String>,
>(matcher: &M, float_step: &F, predicate: &G, to_entity: &C, to_value: &D) -> bool {
    &&& matcher_total(*matcher)
    &&& matcher_deterministic(*matcher)
    &&& float_step_total(*float_step)
    &&& float_step_deterministic(*float_step)
    &&& predicate_step_total(*predicate)
    &&& predicate_step_deterministic(*predicate)
    &&& conv_total(*to_entity)
    &&& conv_deterministic(*to_entity)
    &&& conv_total(*to_value)
    &&& conv_deterministic(*to_value)
}

/// Evaluates rules without negation from the base facts by semi-naive
/// fixed-point iteration (see `recursion::evaluate_recursive_rules`), each
/// rule applied by `evaluate_rule` with the given matcher, steps and
/// conversions.
pub fn evaluate_rules_recursively<
    M: Fn(&Vec<DerivedFact>, &Vec<Pattern>, &Vec<Bindings>) -> Vec<Bindings>,
    F: Fn(FloatOp, Value, Value) -> Result<Value, ()>,
    G: Fn(&str, &Value) -> bool,
    C: Fn(&EdnValue) -> Result<u128, String>,
    D: Fn(&EdnValue) -> Result<Value, String>,
>(
    base: &Vec<DerivedFact>,
    rules: &Vec<Rule>,
    limits: RuleLimits,
    matcher: &M,
    registry: &FunctionRegistry,
    float_step: &F,
    predicate: &G,
    to_entity: &C,
    to_value: &D,
) -> (r: Result<Vec<DerivedFact>, String>)
    requires
        matcher_total(*matcher),
        matcher_deterministic(*matcher),
        float_step_total(*float_step),
        float_step_deterministic(*float_step),
        predicate_step_total(*predicate),
        predicate_step_deterministic(*predicate),
        conv_total(*to_entity),
        conv_deterministic(*to_entity),
        conv_total(*to_value),
        conv_deterministic(*to_value),
    ensures
        facts_result_view(r) == spec_evaluate_recursive(
            facts_view(base@),
            limits,
            round_fn(
                rules_view(rules@),
                positive_rule_spec_of(matcher, registry, float_step, predicate, to_entity, to_value),
            ),
        ),
{
    let ghost rf = positive_rule_spec_of(matcher, registry, float_step, predicate, to_entity, to_value);
    let step = |y: &Rule, x: &Vec<DerivedFact>| -> (o: Result<Vec<DerivedFact>, String>)
        requires
            positive_steps_ready(matcher, float_step, predicate, to_entity, to_value),
        ensures
            facts_result_view(o) == positive_rule_spec_of(matcher, registry, float_step, predicate, to_entity, to_value)(
                y@,
                facts_view(x@),
            ),
        { evaluate_rule(y, x, matcher, registry, float_step, predicate, to_entity, to_value) };
    proof {
        assert forall|y: &Rule, x: &Vec<DerivedFact>| call_requires(step, (y, x)) by {}
        assert forall|y: &Rule, x: &Vec<DerivedFact>, o: Result<Vec<DerivedFact>, String>|
            #[trigger] call_ensures(step, (y, x), o) implies facts_result_view(o) == rf(y@, facts_view(x@)) by {}
    }
    evaluate_recursive_rules_with(base, rules, limits, &step, Ghost(rf))
}

} // verus!
