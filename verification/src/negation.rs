//! Negation: whether the body of a `(not ...)` or `(not-join [...] ...)`
//! clause can be satisfied for a row, and the filters that drop the rows for
//! which it can. Patterns are matched against the facts by the caller's
//! matcher; everything else (substitution, rule invocations read as
//! patterns, expression clauses, the join-variable restriction) is here.
use vstd::prelude::*;
use crate::disjunction::{Row, empty_seed, merge_rows, names_set, project_row, row_clone, seed_row};
use crate::edn::{EdnValue, EdnView, edns_view, lemma_edns_view};
use crate::evaluator::{
    Bindings, invocation_pattern, rule_invocation_to_pattern, subst, subst_pattern, substitute_pattern,
    substitute_value,
};
use crate::expression::{
    FloatOp, apply_exprs, float_fn, float_step_deterministic, float_step_total, predicate_fn,
    predicate_step_deterministic, predicate_step_total, rows_view, spec_apply_exprs,
};
use crate::functions::FunctionRegistry;
use crate::recursion::{DerivedFact, FactView, facts_view};
use crate::types::{
    ClauseView, Pattern, PatternView, Value, ValueView, WhereClause, clause_view, clauses_view, lemma_clauses_view,
    patterns_view,
};

verus! {

// ===================== the caller's matcher =====================

/// A matcher as a function on models: the rows that extend each seed row by
/// a match of all the patterns against the facts.
pub type MatchFn = spec_fn(Seq<FactView>, Seq<PatternView>, Seq<Row>) -> Seq<Row>;

/// The matcher answers alike for facts, patterns and seed rows with equal
/// models.
pub open spec fn matcher_deterministic<M: Fn(&Vec<DerivedFact>, &Vec<Pattern>, &Vec<Bindings>) -> Vec<Bindings>>(m: M) -> bool {
    forall|f1: &Vec<DerivedFact>, p1: &Vec<Pattern>, s1: &Vec<Bindings>, o1: Vec<Bindings>, f2: &Vec<DerivedFact>, p2: &Vec<Pattern>, s2: &Vec<Bindings>, o2: Vec<Bindings>|
        #![trigger call_ensures(m, (f1, p1, s1), o1), call_ensures(m, (f2, p2, s2), o2)]
        facts_view(f1@) == facts_view(f2@) && patterns_view(p1@) == patterns_view(p2@) && rows_view(s1@) == rows_view(
            s2@,
        ) && call_ensures(m, (f1, p1, s1), o1) && call_ensures(m, (f2, p2, s2), o2) ==> rows_view(o1@) == rows_view(
            o2@,
        )
}

/// The matcher can be called on any facts, patterns and seed rows.
pub open spec fn matcher_total<M: Fn(&Vec<DerivedFact>, &Vec<Pattern>, &Vec<Bindings>) -> Vec<Bindings>>(m: M) -> bool {
    forall|f: &Vec<DerivedFact>, p: &Vec<Pattern>, s: &Vec<Bindings>| call_requires(m, (f, p, s))
}

/// What the matcher gives for facts `fs`, patterns `ps` and seed rows `seed`.
pub open spec fn matcher_answer<M: Fn(&Vec<DerivedFact>, &Vec<Pattern>, &Vec<Bindings>) -> Vec<Bindings>>(
    m: M,
    fs: Seq<FactView>,
    ps: Seq<PatternView>,
    seed: Seq<Row>,
) -> Seq<Row> {
    let (_, _, _, o) = choose|z: &Vec<DerivedFact>, y: &Vec<Pattern>, x: &Vec<Bindings>, o: Vec<Bindings>|
        facts_view(z@) == fs && patterns_view(y@) == ps && rows_view(x@) == seed && #[trigger] call_ensures(
            m,
            (z, y, x),
            o,
        );
    rows_view(o@)
}

/// The matcher as a function on models.
pub open spec fn matcher_fn<M: Fn(&Vec<DerivedFact>, &Vec<Pattern>, &Vec<Bindings>) -> Vec<Bindings>>(m: M) -> MatchFn {
    |fs: Seq<FactView>, ps: Seq<PatternView>, seed: Seq<Row>| matcher_answer(m, fs, ps, seed)
}

pub(crate) proof fn lemma_matcher_answer<M: Fn(&Vec<DerivedFact>, &Vec<Pattern>, &Vec<Bindings>) -> Vec<Bindings>>(
    m: M,
    z: &Vec<DerivedFact>,
    y: &Vec<Pattern>,
    x: &Vec<Bindings>,
    o: Vec<Bindings>,
)
    requires
        matcher_deterministic(m),
        call_ensures(m, (z, y, x), o),
    ensures
        rows_view(o@) == matcher_fn(m)(facts_view(z@), patterns_view(y@), rows_view(x@)),
{
    let (z2, y2, x2, o2) = choose|z2: &Vec<DerivedFact>, y2: &Vec<Pattern>, x2: &Vec<Bindings>, o2: Vec<Bindings>|
        facts_view(z2@) == facts_view(z@) && patterns_view(y2@) == patterns_view(y@) && rows_view(x2@) == rows_view(
            x@,
        ) && #[trigger] call_ensures(m, (z2, y2, x2), o2);
    assert(call_ensures(m, (z2, y2, x2), o2) && call_ensures(m, (z, y, x), o));
}

/// Calls the matcher on facts, patterns and seed rows.
pub(crate) fn run_matcher<M: Fn(&Vec<DerivedFact>, &Vec<Pattern>, &Vec<Bindings>) -> Vec<Bindings>>(
    matcher: &M,
    facts: &Vec<DerivedFact>,
    patterns: &Vec<Pattern>,
    seed: &Vec<Bindings>,
) -> (r: Vec<Bindings>)
    requires
        matcher_total(*matcher),
        matcher_deterministic(*matcher),
    ensures
        rows_view(r@) == matcher_fn(*matcher)(facts_view(facts@), patterns_view(patterns@), rows_view(seed@)),
{
    let r = matcher(facts, patterns, seed);
    proof {
        lemma_matcher_answer(*matcher, facts, patterns, seed, r);
    }
    r
}

// ===================== the model =====================

/// The patterns of a negation body under a row: its patterns substituted,
/// and each rule invocation of one or two arguments read as a pattern over
/// the derived facts with its arguments substituted; other clauses give no
/// pattern.
pub open spec fn not_patterns(body: Seq<ClauseView>, b: Row) -> Seq<PatternView>
    decreases body.len(),
{
    if body.len() == 0 {
        Seq::empty()
    } else {
        let ps = not_patterns(body.drop_last(), b);
        match body.last() {
            ClauseView::Pattern(p) => ps.push(subst_pattern(p, b)),
            ClauseView::RuleInvocation { predicate, args } => {
                let sa = args.map_values(|a: EdnView| subst(a, b));
                if sa.len() == 1 || sa.len() == 2 {
                    match invocation_pattern(predicate, sa) {
                        Ok(p) => ps.push(subst_pattern(p, b)),
                        Err(_) => ps,
                    }
                } else {
                    ps
                }
            },
            _ => ps,
        }
    }
}

/// The patterns of a `not-join` body under the join-variable row `partial`:
/// each pattern, and each rule invocation read as a pattern, substituted.
pub open spec fn join_patterns(body: Seq<ClauseView>, partial: Row) -> Seq<PatternView>
    decreases body.len(),
{
    if body.len() == 0 {
        Seq::empty()
    } else {
        let ps = join_patterns(body.drop_last(), partial);
        match body.last() {
            ClauseView::Pattern(p) => ps.push(subst_pattern(p, partial)),
            ClauseView::RuleInvocation { predicate, args } => match invocation_pattern(predicate, args) {
                Ok(p) => ps.push(subst_pattern(p, partial)),
                Err(_) => ps,
            },
            _ => ps,
        }
    }
}

/// Each match row extended by the bindings of `b` it lacks.
pub open spec fn merged_with(nbs: Seq<Row>, b: Row) -> Seq<Row> {
    nbs.map_values(|nb: Row| b.union_prefer_right(nb))
}

/// A negation body holds for the row `b`: the match rows of its patterns
/// (or `b` itself when it has none), extended by `b`, leave some row after
/// its expression clauses.
pub open spec fn body_holds(
    ps: Seq<PatternView>,
    b: Row,
    body: Seq<ClauseView>,
    fs: Seq<FactView>,
    mf: MatchFn,
    fl: spec_fn(FloatOp, ValueView, ValueView) -> Result<ValueView, ()>,
    pr: spec_fn(Seq<char>, ValueView) -> Option<bool>,
) -> bool {
    let nbs = if ps.len() == 0 {
        seq![b]
    } else {
        merged_with(mf(fs, ps, empty_seed()), b)
    };
    spec_apply_exprs(nbs, body, fl, pr).len() > 0
}

/// The body of `(not ...)` can be satisfied for the row `b`.
pub open spec fn spec_not_violated(
    body: Seq<ClauseView>,
    b: Row,
    fs: Seq<FactView>,
    mf: MatchFn,
    fl: spec_fn(FloatOp, ValueView, ValueView) -> Result<ValueView, ()>,
    pr: spec_fn(Seq<char>, ValueView) -> Option<bool>,
) -> bool {
    body_holds(not_patterns(body, b), b, body, fs, mf, fl, pr)
}

/// The body of `(not-join [jvs] ...)` can be satisfied for the row `b`: with
/// `b` restricted to the join variables, some match of the substituted
/// patterns passes every expression clause.
pub open spec fn spec_not_join(
    jvs: Set<Seq<char>>,
    body: Seq<ClauseView>,
    b: Row,
    fs: Seq<FactView>,
    mf: MatchFn,
    fl: spec_fn(FloatOp, ValueView, ValueView) -> Result<ValueView, ()>,
    pr: spec_fn(Seq<char>, ValueView) -> Option<bool>,
) -> bool {
    let partial = b.restrict(jvs);
    body_holds(join_patterns(body, partial), partial, body, fs, mf, fl, pr)
}

/// The rows a `(not ...)` clause keeps: those for which its body cannot be
/// satisfied.
pub open spec fn keep_not(
    body: Seq<ClauseView>,
    fs: Seq<FactView>,
    mf: MatchFn,
    fl: spec_fn(FloatOp, ValueView, ValueView) -> Result<ValueView, ()>,
    pr: spec_fn(Seq<char>, ValueView) -> Option<bool>,
) -> spec_fn(Row) -> bool {
    |b: Row| !spec_not_violated(body, b, fs, mf, fl, pr)
}

/// The rows a `(not-join [jvs] ...)` clause keeps.
pub open spec fn keep_not_join(
    jvs: Set<Seq<char>>,
    body: Seq<ClauseView>,
    fs: Seq<FactView>,
    mf: MatchFn,
    fl: spec_fn(FloatOp, ValueView, ValueView) -> Result<ValueView, ()>,
    pr: spec_fn(Seq<char>, ValueView) -> Option<bool>,
) -> spec_fn(Row) -> bool {
    |b: Row| !spec_not_join(jvs, body, b, fs, mf, fl, pr)
}

/// The rows for which `keep` holds, in order.
pub open spec fn rows_where(rows: Seq<Row>, keep: spec_fn(Row) -> bool) -> Seq<Row>
    decreases rows.len(),
{
    if rows.len() == 0 {
        Seq::empty()
    } else if keep(rows.last()) {
        rows_where(rows.drop_last(), keep).push(rows.last())
    } else {
        rows_where(rows.drop_last(), keep)
    }
}

// ===================== evaluation =====================

/// The patterns of a `not` body under a row (see `not_patterns`).
fn not_patterns_exec(body: &Vec<WhereClause>, b: &Bindings) -> (r: Vec<Pattern>)
    ensures
        patterns_view(r@) == not_patterns(clauses_view(body@), b@),
{
    let ghost cv = clauses_view(body@);
    proof {
        lemma_clauses_view(body@);
    }
    let mut r: Vec<Pattern> = Vec::new();
    let mut i: usize = 0;
    assert(cv.subrange(0, 0) =~= Seq::<ClauseView>::empty());
    while i < body.len()
        invariant
            i <= body@.len(),
            cv == clauses_view(body@),
            cv.len() == body@.len(),
            forall|q: int| 0 <= q < body@.len() ==> #[trigger] cv[q] == clause_view(body@[q]),
            patterns_view(r@) == not_patterns(cv.subrange(0, i as int), b@),
        decreases body@.len() - i,
    {
        assert(cv.subrange(0, i + 1).drop_last() =~= cv.subrange(0, i as int));
        assert(cv.subrange(0, i + 1).last() == cv[i as int]);
        let ghost prev = r@;
        match &body[i] {
            WhereClause::Pattern(p) => {
                r.push(substitute_pattern(p, b));
                assert(patterns_view(r@) =~= patterns_view(prev).push(r@.last()@));
            },
            WhereClause::RuleInvocation { predicate, args } => {
                proof {
                    lemma_edns_view(args@);
                }
                let mut sa: Vec<EdnValue> = Vec::new();
                let mut k: usize = 0;
                while k < args.len()
                    invariant
                        k <= args@.len(),
                        edns_view(args@).len() == args@.len(),
                        forall|q: int| 0 <= q < args@.len() ==> #[trigger] edns_view(args@)[q] == args@[q]@,
                        sa@.len() == k,
                        forall|q: int| 0 <= q < k ==> #[trigger] sa@[q]@ == subst(args@[q]@, b@),
                    decreases args@.len() - k,
                {
                    sa.push(substitute_value(&args[k], b));
                    k = k + 1;
                }
                proof {
                    lemma_edns_view(sa@);
                    let target = edns_view(args@).map_values(|a: EdnView| subst(a, b@));
                    assert(edns_view(sa@).len() == target.len());
                    assert forall|q: int| 0 <= q < sa@.len() implies #[trigger] edns_view(sa@)[q] == target[q] by {
                        assert(edns_view(sa@)[q] == sa@[q]@);
                        assert(edns_view(args@)[q] == args@[q]@);
                    }
                    assert(edns_view(sa@) =~= target);
                }
                if sa.len() == 1 || sa.len() == 2 {
                    match rule_invocation_to_pattern(predicate.as_str(), &sa) {
                        Ok(p) => {
                            r.push(substitute_pattern(&p, b));
                            assert(patterns_view(r@) =~= patterns_view(prev).push(r@.last()@));
                        },
                        Err(_) => {},
                    }
                }
            },
            _ => {},
        }
        i = i + 1;
    }
    assert(cv.subrange(0, body@.len() as int) =~= cv);
    r
}

/// The patterns of a `not-join` body under the join-variable row (see
/// `join_patterns`).
fn join_patterns_exec(body: &Vec<WhereClause>, partial: &Bindings) -> (r: Vec<Pattern>)
    ensures
        patterns_view(r@) == join_patterns(clauses_view(body@), partial@),
{
    let ghost cv = clauses_view(body@);
    proof {
        lemma_clauses_view(body@);
    }
    let mut r: Vec<Pattern> = Vec::new();
    let mut i: usize = 0;
    assert(cv.subrange(0, 0) =~= Seq::<ClauseView>::empty());
    while i < body.len()
        invariant
            i <= body@.len(),
            cv == clauses_view(body@),
            cv.len() == body@.len(),
            forall|q: int| 0 <= q < body@.len() ==> #[trigger] cv[q] == clause_view(body@[q]),
            patterns_view(r@) == join_patterns(cv.subrange(0, i as int), partial@),
        decreases body@.len() - i,
    {
        assert(cv.subrange(0, i + 1).drop_last() =~= cv.subrange(0, i as int));
        assert(cv.subrange(0, i + 1).last() == cv[i as int]);
        let ghost prev = r@;
        match &body[i] {
            WhereClause::Pattern(p) => {
                r.push(substitute_pattern(p, partial));
                assert(patterns_view(r@) =~= patterns_view(prev).push(r@.last()@));
            },
            WhereClause::RuleInvocation { predicate, args } => {
                match rule_invocation_to_pattern(predicate.as_str(), args) {
                    Ok(p) => {
                        r.push(substitute_pattern(&p, partial));
                        assert(patterns_view(r@) =~= patterns_view(prev).push(r@.last()@));
                    },
                    Err(_) => {},
                }
            },
            _ => {},
        }
        i = i + 1;
    }
    assert(cv.subrange(0, body@.len() as int) =~= cv);
    r
}

/// Whether a negation body holds for a row, given its patterns (see
/// `body_holds`).
fn body_holds_exec<
    M: Fn(&Vec<DerivedFact>, &Vec<Pattern>, &Vec<Bindings>) -> Vec<Bindings>,
    F: Fn(FloatOp, Value, Value) -> Result<Value, ()>,
    G: Fn(&str, &Value) -> bool,
>(
    ps: &Vec<Pattern>,
    b: &Bindings,
    body: &Vec<WhereClause>,
    facts: &Vec<DerivedFact>,
    matcher: &M,
    registry: &FunctionRegistry,
    float_step: &F,
    predicate: &G,
) -> (r: bool)
    requires
        matcher_total(*matcher),
        matcher_deterministic(*matcher),
        float_step_total(*float_step),
        float_step_deterministic(*float_step),
        predicate_step_total(*predicate),
        predicate_step_deterministic(*predicate),
    ensures
        r == body_holds(
            patterns_view(ps@),
            b@,
            clauses_view(body@),
            facts_view(facts@),
            matcher_fn(*matcher),
            float_fn(*float_step),
            predicate_fn(registry@, *predicate),
        ),
{
    let nbs: Vec<Bindings> = if ps.len() == 0 {
        let mut v: Vec<Bindings> = Vec::new();
        v.push(row_clone(b));
        assert(rows_view(v@) =~= seq![b@]);
        v
    } else {
        let seed = seed_row();
        let found = run_matcher(matcher, facts, ps, &seed);
        let ghost fv = rows_view(found@);
        let mut v: Vec<Bindings> = Vec::new();
        let mut k: usize = 0;
        while k < found.len()
            invariant
                k <= found@.len(),
                fv == rows_view(found@),
                rows_view(v@) == merged_with(fv.subrange(0, k as int), b@),
            decreases found@.len() - k,
        {
            let ghost prev = v@;
            v.push(merge_rows(&found[k], b));
            proof {
                let want = merged_with(fv.subrange(0, k + 1), b@);
                assert(fv[k as int] == found@[k as int]@);
                assert(fv.len() == found@.len());
                assert(fv.subrange(0, k + 1).len() == k + 1);
                assert(want.len() == k + 1);
                assert(merged_with(fv.subrange(0, k as int), b@).len() == k);
                assert(rows_view(prev).len() == k);
                assert(rows_view(v@).len() == k + 1);
                assert forall|q: int| 0 <= q < want.len() implies #[trigger] rows_view(v@)[q] == want[q] by {
                    if q < k {
                        assert(rows_view(v@)[q] == rows_view(prev)[q]);
                        assert(merged_with(fv.subrange(0, k as int), b@)[q] == want[q]);
                    }
                }
                assert(rows_view(v@) =~= want);
            }
            k = k + 1;
        }
        assert(fv.subrange(0, found@.len() as int) =~= fv);
        v
    };
    let kept = apply_exprs(nbs, body, registry, float_step, predicate);
    kept.len() > 0
}

/// Whether the body of `(not ...)` can be satisfied for a row: its patterns
/// and rule invocations substituted with the row and matched against the
/// facts, each match extended by the row, some of them passing the body's
/// expression clauses (see `spec_not_violated`).
pub fn not_body_matches<
    M: Fn(&Vec<DerivedFact>, &Vec<Pattern>, &Vec<Bindings>) -> Vec<Bindings>,
    F: Fn(FloatOp, Value, Value) -> Result<Value, ()>,
    G: Fn(&str, &Value) -> bool,
>(
    body: &Vec<WhereClause>,
    binding: &Bindings,
    facts: &Vec<DerivedFact>,
    matcher: &M,
    registry: &FunctionRegistry,
    float_step: &F,
    predicate: &G,
) -> (r: bool)
    requires
        matcher_total(*matcher),
        matcher_deterministic(*matcher),
        float_step_total(*float_step),
        float_step_deterministic(*float_step),
        predicate_step_total(*predicate),
        predicate_step_deterministic(*predicate),
    ensures
        r == spec_not_violated(
            clauses_view(body@),
            binding@,
            facts_view(facts@),
            matcher_fn(*matcher),
            float_fn(*float_step),
            predicate_fn(registry@, *predicate),
        ),
{
    let ps = not_patterns_exec(body, binding);
    body_holds_exec(&ps, binding, body, facts, matcher, registry, float_step, predicate)
}

/// Whether the body of `(not-join [join_vars] ...)` can be satisfied for a
/// row: true means the row is to be rejected (see `spec_not_join`).
pub fn evaluate_not_join<
    M: Fn(&Vec<DerivedFact>, &Vec<Pattern>, &Vec<Bindings>) -> Vec<Bindings>,
    F: Fn(FloatOp, Value, Value) -> Result<Value, ()>,
    G: Fn(&str, &Value) -> bool,
>(
    join_vars: &Vec<String>,
    clauses: &Vec<WhereClause>,
    binding: &Bindings,
    facts: &Vec<DerivedFact>,
    matcher: &M,
    registry: &FunctionRegistry,
    float_step: &F,
    predicate: &G,
) -> (r: bool)
    requires
        matcher_total(*matcher),
        matcher_deterministic(*matcher),
        float_step_total(*float_step),
        float_step_deterministic(*float_step),
        predicate_step_total(*predicate),
        predicate_step_deterministic(*predicate),
    ensures
        r == spec_not_join(
            names_set(join_vars@),
            clauses_view(clauses@),
            binding@,
            facts_view(facts@),
            matcher_fn(*matcher),
            float_fn(*float_step),
            predicate_fn(registry@, *predicate),
        ),
{
    let partial = project_row(binding, join_vars);
    let ps = join_patterns_exec(clauses, &partial);
    body_holds_exec(&ps, &partial, clauses, facts, matcher, registry, float_step, predicate)
}

/// Keeps the rows for which the body of `(not ...)` cannot be satisfied.
pub fn apply_not_clause<
    M: Fn(&Vec<DerivedFact>, &Vec<Pattern>, &Vec<Bindings>) -> Vec<Bindings>,
    F: Fn(FloatOp, Value, Value) -> Result<Value, ()>,
    G: Fn(&str, &Value) -> bool,
>(
    rows: Vec<Bindings>,
    body: &Vec<WhereClause>,
    facts: &Vec<DerivedFact>,
    matcher: &M,
    registry: &FunctionRegistry,
    float_step: &F,
    predicate: &G,
) -> (r: Vec<Bindings>)
    requires
        matcher_total(*matcher),
        matcher_deterministic(*matcher),
        float_step_total(*float_step),
        float_step_deterministic(*float_step),
        predicate_step_total(*predicate),
        predicate_step_deterministic(*predicate),
    ensures
        rows_view(r@) == rows_where(
            rows_view(rows@),
            keep_not(
                clauses_view(body@),
                facts_view(facts@),
                matcher_fn(*matcher),
                float_fn(*float_step),
                predicate_fn(registry@, *predicate),
            ),
        ),
{
    let ghost keep = keep_not(
        clauses_view(body@),
        facts_view(facts@),
        matcher_fn(*matcher),
        float_fn(*float_step),
        predicate_fn(registry@, *predicate),
    );
    let ghost rv = rows_view(rows@);
    let mut r: Vec<Bindings> = Vec::new();
    let mut k: usize = 0;
    assert(rv.subrange(0, 0) =~= Seq::<Row>::empty());
    while k < rows.len()
        invariant
            k <= rows@.len(),
            matcher_total(*matcher),
            matcher_deterministic(*matcher),
            float_step_total(*float_step),
            float_step_deterministic(*float_step),
            predicate_step_total(*predicate),
            predicate_step_deterministic(*predicate),
            rv == rows_view(rows@),
            keep == keep_not(
                clauses_view(body@),
                facts_view(facts@),
                matcher_fn(*matcher),
                float_fn(*float_step),
                predicate_fn(registry@, *predicate),
            ),
            rows_view(r@) == rows_where(rv.subrange(0, k as int), keep),
        decreases rows@.len() - k,
    {
        assert(rv.subrange(0, k + 1).drop_last() =~= rv.subrange(0, k as int));
        assert(rv.subrange(0, k + 1).last() == rows@[k as int]@);
        let ghost prev = r@;
        if !not_body_matches(body, &rows[k], facts, matcher, registry, float_step, predicate) {
            r.push(row_clone(&rows[k]));
            assert(rows_view(r@) =~= rows_view(prev).push(rows@[k as int]@));
        }
        k = k + 1;
    }
    assert(rv.subrange(0, rows@.len() as int) =~= rv);
    r
}

/// Keeps the rows for which the body of `(not-join [join_vars] ...)` cannot
/// be satisfied.
pub fn apply_not_join_clause<
    M: Fn(&Vec<DerivedFact>, &Vec<Pattern>, &Vec<Bindings>) -> Vec<Bindings>,
    F: Fn(FloatOp, Value, Value) -> Result<Value, ()>,
    G: Fn(&str, &Value) -> bool,
>(
    rows: Vec<Bindings>,
    join_vars: &Vec<String>,
    body: &Vec<WhereClause>,
    facts: &Vec<DerivedFact>,
    matcher: &M,
    registry: &FunctionRegistry,
    float_step: &F,
    predicate: &G,
) -> (r: Vec<Bindings>)
    requires
        matcher_total(*matcher),
        matcher_deterministic(*matcher),
        float_step_total(*float_step),
        float_step_deterministic(*float_step),
        predicate_step_total(*predicate),
        predicate_step_deterministic(*predicate),
    ensures
        rows_view(r@) == rows_where(
            rows_view(rows@),
            keep_not_join(
                names_set(join_vars@),
                clauses_view(body@),
                facts_view(facts@),
                matcher_fn(*matcher),
                float_fn(*float_step),
                predicate_fn(registry@, *predicate),
            ),
        ),
{
    let ghost keep = keep_not_join(
        names_set(join_vars@),
        clauses_view(body@),
        facts_view(facts@),
        matcher_fn(*matcher),
        float_fn(*float_step),
        predicate_fn(registry@, *predicate),
    );
    let ghost rv = rows_view(rows@);
    let mut r: Vec<Bindings> = Vec::new();
    let mut k: usize = 0;
    assert(rv.subrange(0, 0) =~= Seq::<Row>::empty());
    while k < rows.len()
        invariant
            k <= rows@.len(),
            matcher_total(*matcher),
            matcher_deterministic(*matcher),
            float_step_total(*float_step),
            float_step_deterministic(*float_step),
            predicate_step_total(*predicate),
            predicate_step_deterministic(*predicate),
            rv == rows_view(rows@),
            keep == keep_not_join(
                names_set(join_vars@),
                clauses_view(body@),
                facts_view(facts@),
                matcher_fn(*matcher),
                float_fn(*float_step),
                predicate_fn(registry@, *predicate),
            ),
            rows_view(r@) == rows_where(rv.subrange(0, k as int), keep),
        decreases rows@.len() - k,
    {
        assert(rv.subrange(0, k + 1).drop_last() =~= rv.subrange(0, k as int));
        assert(rv.subrange(0, k + 1).last() == rows@[k as int]@);
        let ghost prev = r@;
        if !evaluate_not_join(join_vars, body, &rows[k], facts, matcher, registry, float_step, predicate) {
            r.push(row_clone(&rows[k]));
            assert(rows_view(r@) =~= rows_view(prev).push(rows@[k as int]@));
        }
        k = k + 1;
    }
    assert(rv.subrange(0, rows@.len() as int) =~= rv);
    r
}

} // verus!
