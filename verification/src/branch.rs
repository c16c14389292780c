//! Evaluating one branch of an `or` / `or-join` under incoming rows: the
//! branch's patterns and rule invocations matched seeded with the rows, its
//! nested `or` clauses, its `not` / `not-join` filters, then its expression
//! clauses.
use vstd::prelude::*;
use crate::disjunction::{BranchFn, Row, apply_or_clauses_with, branch_agrees, row_clone};
use crate::evaluator::Bindings;
use crate::execution::negation_phase;
use crate::expression::{
    FloatOp, apply_expr_clauses, first_unknown_predicate, float_fn, float_step_deterministic, float_step_total,
    predicate_fn, predicate_step_deterministic, predicate_step_total, rows_result_view, rows_view, spec_apply_exprs,
    unknown_predicate_message,
};
use crate::functions::{FunctionRegistry, RegistryView};
use crate::negation::{
    MatchFn, apply_not_clause, apply_not_join_clause, matcher_deterministic, matcher_fn, matcher_total, run_matcher,
};
use crate::recursion::{DerivedFact, FactView, facts_view};
use crate::rule_application::{lemma_names_seq_set, mixed_patterns, mixed_patterns_exec};
use crate::text::owned;
use crate::types::{ClauseView, Pattern, Value, ValueView, WhereClause, clause_view, clauses_view, lemma_clauses_view};

verus! {

/// The message of `or` clauses nested deeper than the evaluator goes.
pub open spec fn too_deep_message() -> Seq<char> {
    "or clauses nested too deeply"@
}

/// What a branch with clauses `cs` gives under rows `rows` over facts `fs`,
/// nested `or` clauses evaluated `depth` levels deep: no rows give none;
/// the patterns and rule invocations (see `mixed_patterns`) are matched
/// seeded with the rows; rows left go through the nested `or` clauses, then
/// the negations in order, then the expression clauses (an unregistered
/// predicate among them is an error).
pub open spec fn spec_branch(
    cs: Seq<ClauseView>,
    rows: Seq<Row>,
    fs: Seq<FactView>,
    mf: MatchFn,
    fl: spec_fn(FloatOp, ValueView, ValueView) -> Result<ValueView, ()>,
    pr: spec_fn(Seq<char>, ValueView) -> Option<bool>,
    reg: RegistryView,
    depth: nat,
) -> Result<Seq<Row>, Seq<char>>
    decreases depth, 1int,
{
    if rows.len() == 0 {
        Ok(Seq::empty())
    } else {
        let ps = mixed_patterns(cs);
        let r1 = if ps.len() == 0 {
            rows
        } else {
            mf(fs, ps, rows)
        };
        if r1.len() == 0 {
            Ok(Seq::empty())
        } else {
            match crate::disjunction::spec_or_clauses(cs, r1, nested_branches(fs, mf, fl, pr, reg, depth)) {
                Err(m) => Err(m),
                Ok(r2) => if r2.len() == 0 {
                    Ok(Seq::empty())
                } else {
                    match first_unknown_predicate(cs, reg) {
                        Some(n) => Err(unknown_predicate_message(n)),
                        None => Ok(spec_apply_exprs(negation_phase(cs, r2, fs, mf, fl, pr), cs, fl, pr)),
                    }
                },
            }
        }
    }
}

/// The evaluator of nested `or` branches one level down: `spec_branch` at
/// `depth - 1`, or the too-deep error at depth 0.
pub open spec fn nested_branches(
    fs: Seq<FactView>,
    mf: MatchFn,
    fl: spec_fn(FloatOp, ValueView, ValueView) -> Result<ValueView, ()>,
    pr: spec_fn(Seq<char>, ValueView) -> Option<bool>,
    reg: RegistryView,
    depth: nat,
) -> BranchFn
    decreases depth, 0int,
{
    if depth == 0 {
        |c: Seq<ClauseView>, r: Seq<Row>| Err(too_deep_message())
    } else {
        |c: Seq<ClauseView>, r: Seq<Row>| spec_branch(c, r, fs, mf, fl, pr, reg, (depth - 1) as nat)
    }
}

/// How deep nested `or` clauses are evaluated.
pub open spec fn branch_depth() -> nat {
    u64::MAX as nat
}

/// The branch evaluator of the library as a branch step on models.
pub open spec fn library_branches(
    fs: Seq<FactView>,
    mf: MatchFn,
    fl: spec_fn(FloatOp, ValueView, ValueView) -> Result<ValueView, ()>,
    pr: spec_fn(Seq<char>, ValueView) -> Option<bool>,
    reg: RegistryView,
) -> BranchFn {
    |c: Seq<ClauseView>, r: Seq<Row>| spec_branch(c, r, fs, mf, fl, pr, reg, branch_depth())
}

/// The matcher and steps can be called on anything and answer alike for
/// equal models.
pub open spec fn branch_steps_ready<
    M: Fn(&Vec<DerivedFact>, &Vec<Pattern>, &Vec<Bindings>) -> Vec<Bindings>,
    F: Fn(FloatOp, Value, Value) -> Result<Value, ()>,
    G: Fn(&str, &Value) -> bool,
>(matcher: &M, float_step: &F, predicate: &G) -> bool {
    &&& matcher_total(*matcher)
    &&& matcher_deterministic(*matcher)
    &&& float_step_total(*float_step)
    &&& float_step_deterministic(*float_step)
    &&& predicate_step_total(*predicate)
    &&& predicate_step_deterministic(*predicate)
}

fn clone_rows(rows: &Vec<Bindings>) -> (r: Vec<Bindings>)
    ensures
        rows_view(r@) == rows_view(rows@),
{
    let mut r: Vec<Bindings> = Vec::new();
    let mut k: usize = 0;
    while k < rows.len()
        invariant
            k <= rows@.len(),
            rows_view(r@) == rows_view(rows@).subrange(0, k as int),
        decreases rows@.len() - k,
    {
        r.push(row_clone(&rows[k]));
        assert(rows_view(rows@).subrange(0, k + 1) =~= rows_view(rows@).subrange(0, k as int).push(rows@[k as int]@));
        k = k + 1;
    }
    assert(rows_view(rows@).subrange(0, rows@.len() as int) =~= rows_view(rows@));
    r
}

fn negation_filters<
    M: Fn(&Vec<DerivedFact>, &Vec<Pattern>, &Vec<Bindings>) -> Vec<Bindings>,
    F: Fn(FloatOp, Value, Value) -> Result<Value, ()>,
    G: Fn(&str, &Value) -> bool,
>(
    rows: Vec<Bindings>,
    clauses: &Vec<WhereClause>,
    facts: &Vec<DerivedFact>,
    matcher: &M,
    registry: &FunctionRegistry,
    float_step: &F,
    predicate: &G,
) -> (r: Vec<Bindings>)
    requires
        branch_steps_ready(matcher, float_step, predicate),
    ensures
        rows_view(r@) == negation_phase(
            clauses_view(clauses@),
            rows_view(rows@),
            facts_view(facts@),
            matcher_fn(*matcher),
            float_fn(*float_step),
            predicate_fn(registry@, *predicate),
        ),
{
    let ghost cv = clauses_view(clauses@);
    let ghost start = rows_view(rows@);
    proof {
        lemma_clauses_view(clauses@);
    }
    assert(cv.subrange(0, 0) =~= Seq::<ClauseView>::empty());
    let mut rows = rows;
    let mut i: usize = 0;
    while i < clauses.len()
        invariant
            i <= clauses@.len(),
            branch_steps_ready(matcher, float_step, predicate),
            cv == clauses_view(clauses@),
            cv.len() == clauses@.len(),
            forall|q: int| 0 <= q < clauses@.len() ==> #[trigger] cv[q] == clause_view(clauses@[q]),
            negation_phase(
                cv.subrange(0, i as int),
                start,
                facts_view(facts@),
                matcher_fn(*matcher),
                float_fn(*float_step),
                predicate_fn(registry@, *predicate),
            ) == rows_view(rows@),
        decreases clauses@.len() - i,
    {
        assert(cv.subrange(0, i + 1).drop_last() =~= cv.subrange(0, i as int));
        assert(cv.subrange(0, i + 1).last() == cv[i as int]);
        match &clauses[i] {
            WhereClause::Not(body) => {
                rows = apply_not_clause(rows, body, facts, matcher, registry, float_step, predicate);
            },
            WhereClause::NotJoin { join_vars, clauses: inner } => {
                proof {
                    lemma_names_seq_set(join_vars@);
                }
                rows = apply_not_join_clause(rows, join_vars, inner, facts, matcher, registry, float_step, predicate);
            },
            _ => {},
        }
        i = i + 1;
    }
    assert(cv.subrange(0, clauses@.len() as int) =~= cv);
    rows
}

fn evaluate_branch_at<
    M: Fn(&Vec<DerivedFact>, &Vec<Pattern>, &Vec<Bindings>) -> Vec<Bindings>,
    F: Fn(FloatOp, Value, Value) -> Result<Value, ()>,
    G: Fn(&str, &Value) -> bool,
>(
    facts: &Vec<DerivedFact>,
    branch: &Vec<WhereClause>,
    incoming: &Vec<Bindings>,
    matcher: &M,
    registry: &FunctionRegistry,
    float_step: &F,
    predicate: &G,
    depth: u64,
) -> (r: Result<Vec<Bindings>, String>)
    requires
        branch_steps_ready(matcher, float_step, predicate),
    ensures
        rows_result_view(r) == spec_branch(
            clauses_view(branch@),
            rows_view(incoming@),
            facts_view(facts@),
            matcher_fn(*matcher),
            float_fn(*float_step),
            predicate_fn(registry@, *predicate),
            registry@,
            depth as nat,
        ),
    decreases depth,
{
    let ghost fs = facts_view(facts@);
    let ghost mf = matcher_fn(*matcher);
    let ghost fl = float_fn(*float_step);
    let ghost pr = predicate_fn(registry@, *predicate);
    if incoming.len() == 0 {
        let out: Vec<Bindings> = Vec::new();
        assert(rows_view(out@) =~= Seq::<Row>::empty());
        return Ok(out);
    }
    let ps = mixed_patterns_exec(branch);
    let r1 = if ps.len() == 0 {
        clone_rows(incoming)
    } else {
        run_matcher(matcher, facts, &ps, incoming)
    };
    if r1.len() == 0 {
        let out: Vec<Bindings> = Vec::new();
        assert(rows_view(out@) =~= Seq::<Row>::empty());
        return Ok(out);
    }
    let r2 = if depth == 0 {
        let ghost ef = nested_branches(fs, mf, fl, pr, registry@, depth as nat);
        let deep = |f: &Vec<DerivedFact>, c: &Vec<WhereClause>, b: &Vec<Bindings>| -> (o: Result<
            Vec<Bindings>,
            String,
        >)
            ensures
                rows_result_view(o) == Err::<Seq<Row>, Seq<char>>(too_deep_message()),
            { Err(owned("or clauses nested too deeply")) };
        proof {
            assert forall|f: &Vec<DerivedFact>, c: &Vec<WhereClause>, b: &Vec<Bindings>| call_requires(deep, (f, c, b)) by {}
            assert(branch_agrees(deep, fs, ef));
        }
        apply_or_clauses_with(branch, r1, facts, &deep, Ghost(ef))
    } else {
        let ghost ef = nested_branches(fs, mf, fl, pr, registry@, depth as nat);
        let inner = |f: &Vec<DerivedFact>, c: &Vec<WhereClause>, b: &Vec<Bindings>| -> (o: Result<
            Vec<Bindings>,
            String,
        >)
            requires
                branch_steps_ready(matcher, float_step, predicate),
            ensures
                rows_result_view(o) == spec_branch(
                    clauses_view(c@),
                    rows_view(b@),
                    facts_view(f@),
                    matcher_fn(*matcher),
                    float_fn(*float_step),
                    predicate_fn(registry@, *predicate),
                    registry@,
                    (depth - 1) as nat,
                ),
            { evaluate_branch_at(f, c, b, matcher, registry, float_step, predicate, depth - 1) };
        proof {
            assert forall|f: &Vec<DerivedFact>, c: &Vec<WhereClause>, b: &Vec<Bindings>| call_requires(inner, (f, c, b)) by {}
            assert(branch_agrees(inner, fs, ef));
        }
        apply_or_clauses_with(branch, r1, facts, &inner, Ghost(ef))
    };
    let r2 = match r2 {
        Err(m) => {
            return Err(m);
        },
        Ok(r) => r,
    };
    if r2.len() == 0 {
        let out: Vec<Bindings> = Vec::new();
        assert(rows_view(out@) =~= Seq::<Row>::empty());
        return Ok(out);
    }
    let r3 = negation_filters(r2, branch, facts, matcher, registry, float_step, predicate);
    apply_expr_clauses(r3, branch, registry, float_step, predicate)
}

/// Evaluates the clauses of an `or` / `or-join` branch under incoming rows
/// (see `spec_branch`), nested `or` clauses to any depth below `u64::MAX`
/// (see `lemma_library_branches_exact`).
pub fn evaluate_branch<
    M: Fn(&Vec<DerivedFact>, &Vec<Pattern>, &Vec<Bindings>) -> Vec<Bindings>,
    F: Fn(FloatOp, Value, Value) -> Result<Value, ()>,
    G: Fn(&str, &Value) -> bool,
>(
    facts: &Vec<DerivedFact>,
    branch: &Vec<WhereClause>,
    incoming: &Vec<Bindings>,
    matcher: &M,
    registry: &FunctionRegistry,
    float_step: &F,
    predicate: &G,
) -> (r: Result<Vec<Bindings>, String>)
    requires
        branch_steps_ready(matcher, float_step, predicate),
    ensures
        rows_result_view(r) == library_branches(
            facts_view(facts@),
            matcher_fn(*matcher),
            float_fn(*float_step),
            predicate_fn(registry@, *predicate),
            registry@,
        )(clauses_view(branch@), rows_view(incoming@)),
{
    evaluate_branch_at(facts, branch, incoming, matcher, registry, float_step, predicate, u64::MAX)
}

/// Applies the `or` and `or-join` clauses among `clauses` to the rows (see
/// `disjunction::apply_or_clauses`), each branch evaluated by
/// `evaluate_branch`.
pub fn apply_or_with_branches<
    M: Fn(&Vec<DerivedFact>, &Vec<Pattern>, &Vec<Bindings>) -> Vec<Bindings>,
    F: Fn(FloatOp, Value, Value) -> Result<Value, ()>,
    G: Fn(&str, &Value) -> bool,
>(
    clauses: &Vec<WhereClause>,
    rows: Vec<Bindings>,
    facts: &Vec<DerivedFact>,
    matcher: &M,
    registry: &FunctionRegistry,
    float_step: &F,
    predicate: &G,
) -> (r: Result<Vec<Bindings>, String>)
    requires
        branch_steps_ready(matcher, float_step, predicate),
    ensures
        rows_result_view(r) == crate::disjunction::spec_or_clauses(
            clauses_view(clauses@),
            rows_view(rows@),
            library_branches(
                facts_view(facts@),
                matcher_fn(*matcher),
                float_fn(*float_step),
                predicate_fn(registry@, *predicate),
                registry@,
            ),
        ),
{
    let ghost ef = library_branches(
        facts_view(facts@),
        matcher_fn(*matcher),
        float_fn(*float_step),
        predicate_fn(registry@, *predicate),
        registry@,
    );
    let each = |f: &Vec<DerivedFact>, c: &Vec<WhereClause>, b: &Vec<Bindings>| -> (o: Result<Vec<Bindings>, String>)
        requires
            branch_steps_ready(matcher, float_step, predicate),
        ensures
            rows_result_view(o) == library_branches(
                facts_view(f@),
                matcher_fn(*matcher),
                float_fn(*float_step),
                predicate_fn(registry@, *predicate),
                registry@,
            )(clauses_view(c@), rows_view(b@)),
        { evaluate_branch(f, c, b, matcher, registry, float_step, predicate) };
    proof {
        assert forall|f: &Vec<DerivedFact>, c: &Vec<WhereClause>, b: &Vec<Bindings>| call_requires(each, (f, c, b)) by {}
        assert(branch_agrees(each, facts_view(facts@), ef));
    }
    apply_or_clauses_with(clauses, rows, facts, &each, Ghost(ef))
}

// ===================== how deep `or` clauses nest =====================

/// How deep `or` clauses nest in the first `i` clauses of `cs`.
pub open spec fn clauses_nesting(cs: Seq<ClauseView>, i: int) -> nat
    decreases cs, i,
{
    if i <= 0 || i > cs.len() {
        0
    } else {
        let a = clauses_nesting(cs, i - 1);
        let b = clause_nesting(cs[i - 1]);
        if a > b {
            a
        } else {
            b
        }
    }
}

/// How deep `or` clauses nest in a clause: one more than in its deepest
/// branch for `or` and `or-join`, none otherwise.
pub open spec fn clause_nesting(c: ClauseView) -> nat
    decreases c, 0int,
{
    match c {
        ClauseView::Or(bs) => 1 + branches_nesting(bs, bs.len() as int),
        ClauseView::OrJoin { join_vars, branches } => 1 + branches_nesting(branches, branches.len() as int),
        _ => 0,
    }
}

/// How deep `or` clauses nest in the first `i` branches.
pub open spec fn branches_nesting(bs: Seq<Seq<ClauseView>>, i: int) -> nat
    decreases bs, i,
{
    if i <= 0 || i > bs.len() {
        0
    } else {
        let a = branches_nesting(bs, i - 1);
        let b = clauses_nesting(bs[i - 1], bs[i - 1].len() as int);
        if a > b {
            a
        } else {
            b
        }
    }
}

/// How deep `or` clauses nest in a clause list.
pub open spec fn nesting(cs: Seq<ClauseView>) -> nat {
    clauses_nesting(cs, cs.len() as int)
}

proof fn lemma_clauses_nesting(cs: Seq<ClauseView>, i: int, j: int)
    requires
        0 <= j < i <= cs.len(),
    ensures
        clause_nesting(cs[j]) <= clauses_nesting(cs, i),
    decreases i,
{
    if j < i - 1 {
        lemma_clauses_nesting(cs, i - 1, j);
    }
}

proof fn lemma_branches_nesting(bs: Seq<Seq<ClauseView>>, i: int, j: int)
    requires
        0 <= j < i <= bs.len(),
    ensures
        nesting(bs[j]) <= branches_nesting(bs, i),
    decreases i,
{
    if j < i - 1 {
        lemma_branches_nesting(bs, i - 1, j);
    }
}

/// Two branch evaluators agree on every branch of `bs`, whatever the rows.
pub open spec fn agree_on_branches(bs: Seq<Seq<ClauseView>>, e1: BranchFn, e2: BranchFn) -> bool {
    forall|i: int, r: Seq<Row>| 0 <= i < bs.len() ==> #[trigger] e1(bs[i], r) == e2(bs[i], r)
}

proof fn lemma_seeded_agree(bs: Seq<Seq<ClauseView>>, rows: Seq<Row>, e1: BranchFn, e2: BranchFn)
    requires
        agree_on_branches(bs, e1, e2),
    ensures
        crate::disjunction::or_seeded(bs, rows, e1) == crate::disjunction::or_seeded(bs, rows, e2),
    decreases bs.len(),
{
    if bs.len() > 0 {
        let d = bs.drop_last();
        assert(agree_on_branches(d, e1, e2)) by {
            assert forall|i: int, r: Seq<Row>| 0 <= i < d.len() implies #[trigger] e1(d[i], r) == e2(d[i], r) by {
                assert(d[i] == bs[i]);
                assert(e1(bs[i], r) == e2(bs[i], r));
            }
        }
        lemma_seeded_agree(d, rows, e1, e2);
        assert(e1(bs[bs.len() - 1], rows) == e2(bs[bs.len() - 1], rows));
    }
}

proof fn lemma_union_agree(bs: Seq<Seq<ClauseView>>, inc: Seq<Row>, e1: BranchFn, e2: BranchFn)
    requires
        agree_on_branches(bs, e1, e2),
    ensures
        crate::disjunction::or_union(bs, inc, e1) == crate::disjunction::or_union(bs, inc, e2),
    decreases bs.len(),
{
    if bs.len() > 0 {
        let d = bs.drop_last();
        assert(agree_on_branches(d, e1, e2)) by {
            assert forall|i: int, r: Seq<Row>| 0 <= i < d.len() implies #[trigger] e1(d[i], r) == e2(d[i], r) by {
                assert(d[i] == bs[i]);
                assert(e1(bs[i], r) == e2(bs[i], r));
            }
        }
        lemma_union_agree(d, inc, e1, e2);
        assert(e1(bs[bs.len() - 1], crate::disjunction::empty_seed()) == e2(
            bs[bs.len() - 1],
            crate::disjunction::empty_seed(),
        ));
    }
}

proof fn lemma_join_union_agree(
    bs: Seq<Seq<ClauseView>>,
    inc: Seq<Row>,
    jvs: Set<Seq<char>>,
    outer: Set<Seq<char>>,
    e1: BranchFn,
    e2: BranchFn,
)
    requires
        agree_on_branches(bs, e1, e2),
    ensures
        crate::disjunction::or_join_union(bs, inc, jvs, outer, e1) == crate::disjunction::or_join_union(
            bs,
            inc,
            jvs,
            outer,
            e2,
        ),
    decreases bs.len(),
{
    if bs.len() > 0 {
        let d = bs.drop_last();
        assert(agree_on_branches(d, e1, e2)) by {
            assert forall|i: int, r: Seq<Row>| 0 <= i < d.len() implies #[trigger] e1(d[i], r) == e2(d[i], r) by {
                assert(d[i] == bs[i]);
                assert(e1(bs[i], r) == e2(bs[i], r));
            }
        }
        lemma_join_union_agree(d, inc, jvs, outer, e1, e2);
        assert(e1(bs[bs.len() - 1], crate::disjunction::empty_seed()) == e2(
            bs[bs.len() - 1],
            crate::disjunction::empty_seed(),
        ));
    }
}

/// Two branch evaluators that agree on the branches of every `or` and
/// `or-join` among the clauses give the same result on them.
proof fn lemma_or_clauses_agree(cs: Seq<ClauseView>, inc: Seq<Row>, e1: BranchFn, e2: BranchFn)
    requires
        forall|j: int|
            0 <= j < cs.len() ==> match #[trigger] cs[j] {
                ClauseView::Or(bs) => agree_on_branches(bs, e1, e2),
                ClauseView::OrJoin { join_vars, branches } => agree_on_branches(branches, e1, e2),
                _ => true,
            },
    ensures
        crate::disjunction::spec_or_clauses(cs, inc, e1) == crate::disjunction::spec_or_clauses(cs, inc, e2),
    decreases cs.len(),
{
    if cs.len() > 0 {
        let d = cs.drop_last();
        assert forall|j: int|
            0 <= j < d.len() implies match #[trigger] d[j] {
                ClauseView::Or(bs) => agree_on_branches(bs, e1, e2),
                ClauseView::OrJoin { join_vars, branches } => agree_on_branches(branches, e1, e2),
                _ => true,
            } by {
            assert(d[j] == cs[j]);
        }
        lemma_or_clauses_agree(d, inc, e1, e2);
        match crate::disjunction::spec_or_clauses(d, inc, e1) {
            Err(_) => {},
            Ok(rows) => {
                let last = cs[cs.len() - 1];
                match last {
                    ClauseView::Or(bs) => {
                        lemma_seeded_agree(bs, rows, e1, e2);
                        lemma_union_agree(bs, rows, e1, e2);
                    },
                    ClauseView::OrJoin { join_vars, branches } => {
                        let outer = crate::disjunction::all_keys(rows);
                        lemma_join_union_agree(
                            branches,
                            rows,
                            crate::disjunction::seq_set(join_vars),
                            outer,
                            e1,
                            e2,
                        );
                    },
                    _ => {},
                }
            },
        }
    }
}

/// Evaluating a branch at any depth beyond how deep its `or` clauses nest
/// gives the same result.
pub proof fn lemma_branch_depth(
    cs: Seq<ClauseView>,
    rows: Seq<Row>,
    fs: Seq<FactView>,
    mf: MatchFn,
    fl: spec_fn(FloatOp, ValueView, ValueView) -> Result<ValueView, ()>,
    pr: spec_fn(Seq<char>, ValueView) -> Option<bool>,
    reg: RegistryView,
    d1: nat,
    d2: nat,
)
    requires
        nesting(cs) < d1,
        nesting(cs) < d2,
    ensures
        spec_branch(cs, rows, fs, mf, fl, pr, reg, d1) == spec_branch(cs, rows, fs, mf, fl, pr, reg, d2),
    decreases d1,
{
    let e1 = nested_branches(fs, mf, fl, pr, reg, d1);
    let e2 = nested_branches(fs, mf, fl, pr, reg, d2);
    assert forall|j: int|
        0 <= j < cs.len() implies match #[trigger] cs[j] {
            ClauseView::Or(bs) => agree_on_branches(bs, e1, e2),
            ClauseView::OrJoin { join_vars, branches } => agree_on_branches(branches, e1, e2),
            _ => true,
        } by {
        lemma_clauses_nesting(cs, cs.len() as int, j);
        match cs[j] {
            ClauseView::Or(bs) => {
                assert forall|i: int, r: Seq<Row>| 0 <= i < bs.len() implies #[trigger] e1(bs[i], r) == e2(bs[i], r) by {
                    lemma_branches_nesting(bs, bs.len() as int, i);
                    lemma_branch_depth(bs[i], r, fs, mf, fl, pr, reg, (d1 - 1) as nat, (d2 - 1) as nat);
                }
            },
            ClauseView::OrJoin { join_vars, branches } => {
                assert forall|i: int, r: Seq<Row>| 0 <= i < branches.len() implies #[trigger] e1(branches[i], r) == e2(
                    branches[i],
                    r,
                ) by {
                    lemma_branches_nesting(branches, branches.len() as int, i);
                    lemma_branch_depth(branches[i], r, fs, mf, fl, pr, reg, (d1 - 1) as nat, (d2 - 1) as nat);
                }
            },
            _ => {},
        }
    }
    let ps = mixed_patterns(cs);
    let r1 = if ps.len() == 0 {
        rows
    } else {
        mf(fs, ps, rows)
    };
    lemma_or_clauses_agree(cs, r1, e1, e2);
}

/// The library's branch evaluator evaluates `or` clauses nested less than
/// `u64::MAX` deep in full: its result is `spec_branch` at one level more
/// than they nest.
pub proof fn lemma_library_branches_exact(
    cs: Seq<ClauseView>,
    rows: Seq<Row>,
    fs: Seq<FactView>,
    mf: MatchFn,
    fl: spec_fn(FloatOp, ValueView, ValueView) -> Result<ValueView, ()>,
    pr: spec_fn(Seq<char>, ValueView) -> Option<bool>,
    reg: RegistryView,
)
    requires
        nesting(cs) < branch_depth(),
    ensures
        library_branches(fs, mf, fl, pr, reg)(cs, rows) == spec_branch(cs, rows, fs, mf, fl, pr, reg, nesting(cs) + 1),
{
    lemma_branch_depth(cs, rows, fs, mf, fl, pr, reg, branch_depth(), nesting(cs) + 1);
}

} // verus!
