//! Semi-naive fixed-point evaluation of recursive rules: starting from the
//! base facts, the rules are applied again and again to everything derived
//! so far; each round keeps only the facts not seen before (the delta), and
//! evaluation stops at the first round that derives nothing new. Limits on
//! the number of rounds, on the facts one round may derive and on the
//! distinct facts in all bound the work.
//!
//! Applying one rule to a set of facts (matching its body and instantiating
//! its head) is the caller's step.
use vstd::prelude::*;
use crate::types::{Value, ValueView, value_clone};
use crate::text::{owned, push_u64_text, nat_text, str_eq};
use crate::functions::value_eq;
use crate::types::{Rule, RuleView};
use crate::stratification::rules_view;

verus! {

/// A fact as the rules see it: entity, attribute and value.
#[derive(Debug, PartialEq)]
pub struct DerivedFact {
    pub entity: u128,
    pub attribute: String,
    pub value: Value,
}

/// The model of a fact.
pub struct FactView {
    pub entity: u128,
    pub attribute: Seq<char>,
    pub value: ValueView,
}

impl View for DerivedFact {
    type V = FactView;

    open spec fn view(&self) -> FactView {
        FactView { entity: self.entity, attribute: self.attribute@, value: self.value@ }
    }
}

/// The models of a list of facts.
pub open spec fn facts_view(s: Seq<DerivedFact>) -> Seq<FactView> {
    s.map_values(|f: DerivedFact| f@)
}

/// The model of a list of facts or an error.
pub open spec fn facts_result_view(r: Result<Vec<DerivedFact>, String>) -> Result<Seq<FactView>, Seq<char>> {
    match r {
        Ok(fs) => Ok(facts_view(fs@)),
        Err(m) => Err(m@),
    }
}

/// The bounds on recursive evaluation.
#[derive(Clone, Copy)]
pub struct RuleLimits {
    /// Rounds of rule application.
    pub max_iterations: usize,
    /// Facts one round may derive.
    pub max_derived_facts: usize,
    /// Distinct facts in all, base facts included.
    pub max_results: usize,
}

// ===================== the caller's rule step =====================

/// The rule step answers alike for a rule and facts with equal models.
pub open spec fn rule_step_deterministic<A: Fn(&Rule, &Vec<DerivedFact>) -> Result<Vec<DerivedFact>, String>>(
    a: A,
) -> bool {
    forall|r1: &Rule, f1: &Vec<DerivedFact>, o1: Result<Vec<DerivedFact>, String>, r2: &Rule, f2: &Vec<DerivedFact>, o2: Result<Vec<DerivedFact>, String>|
        #![trigger call_ensures(a, (r1, f1), o1), call_ensures(a, (r2, f2), o2)]
        r1@ == r2@ && facts_view(f1@) == facts_view(f2@) && call_ensures(a, (r1, f1), o1) && call_ensures(
            a,
            (r2, f2),
            o2,
        ) ==> facts_result_view(o1) == facts_result_view(o2)
}

/// The rule step can be called on any rule and facts.
pub open spec fn rule_step_total<A: Fn(&Rule, &Vec<DerivedFact>) -> Result<Vec<DerivedFact>, String>>(a: A) -> bool {
    forall|r: &Rule, f: &Vec<DerivedFact>| call_requires(a, (r, f))
}

/// What the rule step derives with rule `r` from facts with models `fs`.
pub open spec fn rule_answer<A: Fn(&Rule, &Vec<DerivedFact>) -> Result<Vec<DerivedFact>, String>>(
    a: A,
    r: RuleView,
    fs: Seq<FactView>,
) -> Result<Seq<FactView>, Seq<char>> {
    let (_, _, o) = choose|y: &Rule, x: &Vec<DerivedFact>, o: Result<Vec<DerivedFact>, String>|
        y@ == r && facts_view(x@) == fs && #[trigger] call_ensures(a, (y, x), o);
    facts_result_view(o)
}

/// The rule step as a function on models.
pub open spec fn rule_fn<A: Fn(&Rule, &Vec<DerivedFact>) -> Result<Vec<DerivedFact>, String>>(a: A) -> spec_fn(
    RuleView,
    Seq<FactView>,
) -> Result<Seq<FactView>, Seq<char>> {
    |r: RuleView, fs: Seq<FactView>| rule_answer(a, r, fs)
}

/// A rule step as a function on models.
pub type RuleFn = spec_fn(RuleView, Seq<FactView>) -> Result<Seq<FactView>, Seq<char>>;

/// Every answer of the rule step is what `rf` gives for the models of its
/// arguments.
pub open spec fn step_agrees<A: Fn(&Rule, &Vec<DerivedFact>) -> Result<Vec<DerivedFact>, String>>(a: A, rf: RuleFn) -> bool {
    forall|y: &Rule, x: &Vec<DerivedFact>, o: Result<Vec<DerivedFact>, String>|
        #[trigger] call_ensures(a, (y, x), o) ==> facts_result_view(o) == rf(y@, facts_view(x@))
}

/// A deterministic rule step agrees with `rule_fn` of itself.
pub proof fn lemma_step_agrees<A: Fn(&Rule, &Vec<DerivedFact>) -> Result<Vec<DerivedFact>, String>>(a: A)
    requires
        rule_step_deterministic(a),
    ensures
        step_agrees(a, rule_fn(a)),
{
    assert forall|y: &Rule, x: &Vec<DerivedFact>, o: Result<Vec<DerivedFact>, String>|
        #[trigger] call_ensures(a, (y, x), o) implies facts_result_view(o) == rule_fn(a)(y@, facts_view(x@)) by {
        lemma_rule_answer(a, y, x, o);
    }
}

pub(crate) proof fn lemma_rule_answer<A: Fn(&Rule, &Vec<DerivedFact>) -> Result<Vec<DerivedFact>, String>>(
    a: A,
    y: &Rule,
    x: &Vec<DerivedFact>,
    o: Result<Vec<DerivedFact>, String>,
)
    requires
        rule_step_deterministic(a),
        call_ensures(a, (y, x), o),
    ensures
        facts_result_view(o) == rule_fn(a)(y@, facts_view(x@)),
{
    let (y2, x2, o2) = choose|y2: &Rule, x2: &Vec<DerivedFact>, o2: Result<Vec<DerivedFact>, String>|
        y2@ == y@ && facts_view(x2@) == facts_view(x@) && #[trigger] call_ensures(a, (y2, x2), o2);
    assert(call_ensures(a, (y2, x2), o2) && call_ensures(a, (y, x), o));
}

/// One round: every rule applied to the same facts, their results
/// concatenated in rule order; the first failing rule fails the round.
pub open spec fn round(
    rules: Seq<RuleView>,
    fs: Seq<FactView>,
    rf: spec_fn(RuleView, Seq<FactView>) -> Result<Seq<FactView>, Seq<char>>,
) -> Result<Seq<FactView>, Seq<char>>
    decreases rules.len(),
{
    if rules.len() == 0 {
        Ok(Seq::empty())
    } else {
        match round(rules.drop_last(), fs, rf) {
            Err(m) => Err(m),
            Ok(a) => match rf(rules.last(), fs) {
                Err(m) => Err(m),
                Ok(b) => Ok(a + b),
            },
        }
    }
}

pub(crate) proof fn lemma_round_err(
    rules: Seq<RuleView>,
    fs: Seq<FactView>,
    rf: spec_fn(RuleView, Seq<FactView>) -> Result<Seq<FactView>, Seq<char>>,
    i: int,
)
    requires
        0 <= i <= rules.len(),
        round(rules.subrange(0, i), fs, rf) is Err,
    ensures
        round(rules, fs, rf) == round(rules.subrange(0, i), fs, rf),
    decreases rules.len() - i,
{
    if i < rules.len() {
        assert(rules.subrange(0, i + 1).drop_last() =~= rules.subrange(0, i));
        lemma_round_err(rules, fs, rf, i + 1);
    } else {
        assert(rules.subrange(0, i) =~= rules);
    }
}

/// A round of `rules` as a function of the facts.
pub open spec fn round_fn(
    rules: Seq<RuleView>,
    rf: spec_fn(RuleView, Seq<FactView>) -> Result<Seq<FactView>, Seq<char>>,
) -> spec_fn(Seq<FactView>) -> Result<Seq<FactView>, Seq<char>> {
    |fs: Seq<FactView>| round(rules, fs, rf)
}

// ===================== the fixed point =====================

/// The facts of `fs` without repeats, each at its first occurrence.
pub open spec fn distinct_facts(fs: Seq<FactView>) -> Seq<FactView>
    decreases fs.len(),
{
    if fs.len() == 0 {
        Seq::empty()
    } else {
        let d = distinct_facts(fs.drop_last());
        if d.contains(fs.last()) {
            d
        } else {
            d.push(fs.last())
        }
    }
}

/// The message when the rounds run out.
pub open spec fn iterations_message(n: nat) -> Seq<char> {
    "INT-020: Max iterations ("@ + nat_text(n) + ") exceeded. Possible infinite recursion or cycle in rules."@
}

/// The message when one round derives too many facts.
pub open spec fn derived_message(n: nat) -> Seq<char> {
    "INT-020: Max derived facts per iteration ("@ + nat_text(n)
        + ") exceeded. Rule may be generating too many facts."@
}

/// The message when there are too many distinct facts.
pub open spec fn results_message(n: nat) -> Seq<char> {
    "INT-020: Max query results ("@ + nat_text(n) + ") exceeded."@
}

/// The facts of `new[k..]` not in `seen`, each once, added to `seen` and to
/// `delta`; a fact that would make `seen` pass `max_results` is an error.
pub open spec fn delta_of(
    seen: Seq<FactView>,
    new: Seq<FactView>,
    k: int,
    delta: Seq<FactView>,
    max_results: nat,
) -> Result<(Seq<FactView>, Seq<FactView>), Seq<char>>
    decreases new.len() - k,
{
    if k < 0 || k >= new.len() {
        Ok((seen, delta))
    } else if seen.contains(new[k]) {
        delta_of(seen, new, k + 1, delta, max_results)
    } else if seen.len() >= max_results {
        Err(results_message(max_results))
    } else {
        delta_of(seen.push(new[k]), new, k + 1, delta.push(new[k]), max_results)
    }
}

/// Rounds of rule application from `derived` (with its distinct facts
/// `seen`), `done` rounds having run: a round applies the step to all facts
/// so far; its new facts are appended; a round with nothing new ends the
/// evaluation with the facts so far.
pub open spec fn rounds(
    derived: Seq<FactView>,
    seen: Seq<FactView>,
    done: nat,
    lim: RuleLimits,
    st: spec_fn(Seq<FactView>) -> Result<Seq<FactView>, Seq<char>>,
) -> Result<Seq<FactView>, Seq<char>>
    decreases lim.max_iterations - done,
{
    if done >= lim.max_iterations {
        Err(iterations_message(lim.max_iterations as nat))
    } else {
        match st(derived) {
            Err(m) => Err(m),
            Ok(new) => if new.len() > lim.max_derived_facts {
                Err(derived_message(lim.max_derived_facts as nat))
            } else {
                match delta_of(seen, new, 0, Seq::empty(), lim.max_results as nat) {
                    Err(m) => Err(m),
                    Ok((seen2, d)) => if d.len() == 0 {
                        Ok(derived)
                    } else {
                        rounds(derived + d, seen2, done + 1, lim, st)
                    },
                }
            },
        }
    }
}

/// Recursive evaluation from the base facts (see `rounds`).
pub open spec fn spec_evaluate_recursive(
    base: Seq<FactView>,
    lim: RuleLimits,
    st: spec_fn(Seq<FactView>) -> Result<Seq<FactView>, Seq<char>>,
) -> Result<Seq<FactView>, Seq<char>> {
    rounds(base, distinct_facts(base), 0, lim, st)
}

// ===================== laws =====================

proof fn lemma_distinct_facts_same(fs: Seq<FactView>)
    ensures
        forall|f: FactView| #[trigger] distinct_facts(fs).contains(f) <==> fs.contains(f),
    decreases fs.len(),
{
    if fs.len() > 0 {
        let t = fs.drop_last();
        lemma_distinct_facts_same(t);
        assert forall|f: FactView| #[trigger] distinct_facts(fs).contains(f) <==> fs.contains(f) by {
            if fs.contains(f) {
                let j = choose|j: int| 0 <= j < fs.len() && fs[j] == f;
                if j < t.len() {
                    assert(t[j] == f);
                    assert(t.contains(f));
                } else {
                    assert(f == fs.last());
                }
            }
            if t.contains(f) {
                let j = choose|j: int| 0 <= j < t.len() && t[j] == f;
                assert(fs[j] == f);
            }
            let d = distinct_facts(t);
            if !d.contains(fs.last()) {
                if d.push(fs.last()).contains(f) {
                    let j = choose|j: int| 0 <= j < d.push(fs.last()).len() && d.push(fs.last())[j] == f;
                    if j < d.len() {
                        assert(d[j] == f);
                    }
                }
                if d.contains(f) {
                    let j = choose|j: int| 0 <= j < d.len() && d[j] == f;
                    assert(d.push(fs.last())[j] == f);
                }
                assert(d.push(fs.last())[d.len() as int] == fs.last());
            }
        }
    }
}

proof fn lemma_delta(
    seen0: Seq<FactView>,
    seen: Seq<FactView>,
    new: Seq<FactView>,
    k: int,
    delta: Seq<FactView>,
    max_results: nat,
)
    requires
        0 <= k <= new.len(),
        seen == seen0 + delta,
        forall|j: int| 0 <= j < k ==> seen.contains(#[trigger] new[j]),
    ensures
        delta_of(seen, new, k, delta, max_results) matches Ok((s2, d2)) ==> s2 == seen0 + d2 && d2.len() >= delta.len()
            && (d2.len() == delta.len() ==> s2 == seen) && forall|j: int|
            0 <= j < new.len() ==> s2.contains(#[trigger] new[j]),
    decreases new.len() - k,
{
    if k < new.len() {
        if seen.contains(new[k]) {
            lemma_delta(seen0, seen, new, k + 1, delta, max_results);
        } else if seen.len() < max_results {
            let s1 = seen.push(new[k]);
            assert(s1 =~= seen0 + delta.push(new[k]));
            assert forall|j: int| 0 <= j < k + 1 implies s1.contains(#[trigger] new[j]) by {
                if j < k {
                    let i = choose|i: int| 0 <= i < seen.len() && seen[i] == new[j];
                    assert(s1[i] == new[j]);
                } else {
                    assert(s1[seen.len() as int] == new[j]);
                }
            }
            lemma_delta(seen0, s1, new, k + 1, delta.push(new[k]), max_results);
        }
    } else {
        assert(delta_of(seen, new, k, delta, max_results) == Ok::<(Seq<FactView>, Seq<FactView>), Seq<char>>(
            (seen, delta),
        ));
    }
}

proof fn lemma_rounds_fixpoint(
    derived: Seq<FactView>,
    seen: Seq<FactView>,
    done: nat,
    lim: RuleLimits,
    st: spec_fn(Seq<FactView>) -> Result<Seq<FactView>, Seq<char>>,
)
    requires
        forall|f: FactView| #[trigger] seen.contains(f) <==> derived.contains(f),
    ensures
        rounds(derived, seen, done, lim, st) matches Ok(out) ==> derived.len() <= out.len() && out.subrange(
            0,
            derived.len() as int,
        ) == derived && (st(out) matches Ok(new) && forall|j: int| 0 <= j < new.len() ==> out.contains(#[trigger] new[j])),
    decreases lim.max_iterations - done,
{
    if done < lim.max_iterations {
        if let Ok(new) = st(derived) {
            if new.len() <= lim.max_derived_facts {
                lemma_delta(seen, seen, new, 0, Seq::empty(), lim.max_results as nat);
                assert(seen + Seq::<FactView>::empty() =~= seen);
                if let Ok((seen2, d)) = delta_of(seen, new, 0, Seq::empty(), lim.max_results as nat) {
                    if d.len() == 0 {
                        assert(derived.subrange(0, derived.len() as int) =~= derived);
                        assert forall|j: int| 0 <= j < new.len() implies derived.contains(#[trigger] new[j]) by {
                            assert(seen2.contains(new[j]));
                        }
                    } else {
                        let d2 = derived + d;
                        assert forall|f: FactView| #[trigger] seen2.contains(f) <==> d2.contains(f) by {
                            if seen2.contains(f) {
                                let i = choose|i: int| 0 <= i < seen2.len() && seen2[i] == f;
                                if i < seen.len() {
                                    assert(seen[i] == f);
                                    assert(seen.contains(f));
                                    let i2 = choose|i2: int| 0 <= i2 < derived.len() && derived[i2] == f;
                                    assert(d2[i2] == f);
                                } else {
                                    assert(d[i - seen.len()] == f);
                                    assert(d2[derived.len() + i - seen.len()] == f);
                                }
                            }
                            if d2.contains(f) {
                                let i = choose|i: int| 0 <= i < d2.len() && d2[i] == f;
                                if i < derived.len() {
                                    assert(derived[i] == f);
                                    assert(derived.contains(f));
                                    assert(seen.contains(f));
                                    let i2 = choose|i2: int| 0 <= i2 < seen.len() && seen[i2] == f;
                                    assert(seen2[i2] == f);
                                } else {
                                    assert(d[i - derived.len()] == f);
                                    assert(seen2[seen.len() + i - derived.len()] == f);
                                }
                            }
                        }
                        lemma_rounds_fixpoint(d2, seen2, done + 1, lim, st);
                        if let Ok(out) = rounds(d2, seen2, done + 1, lim, st) {
                            assert(out.subrange(0, derived.len() as int) =~= out.subrange(0, d2.len() as int).subrange(
                                0,
                                derived.len() as int,
                            ));
                            assert(d2.subrange(0, derived.len() as int) =~= derived);
                        }
                    }
                }
            }
        }
    }
}

/// What recursive evaluation gives back is a fixed point of the rules: it
/// starts with the base facts, and one more application of the rule step to
/// it derives only facts it already holds.
pub proof fn lemma_evaluation_is_fixpoint(
    base: Seq<FactView>,
    lim: RuleLimits,
    st: spec_fn(Seq<FactView>) -> Result<Seq<FactView>, Seq<char>>,
)
    ensures
        spec_evaluate_recursive(base, lim, st) matches Ok(out) ==> out.subrange(0, base.len() as int) == base
            && base.len() <= out.len() && (st(out) matches Ok(new) && forall|j: int|
            0 <= j < new.len() ==> out.contains(#[trigger] new[j])),
{
    lemma_distinct_facts_same(base);
    lemma_rounds_fixpoint(base, distinct_facts(base), 0, lim, st);
}

// ===================== evaluation =====================

pub(crate) fn fact_clone(f: &DerivedFact) -> (r: DerivedFact)
    ensures
        r@ == f@,
{
    DerivedFact { entity: f.entity, attribute: owned(f.attribute.as_str()), value: value_clone(&f.value) }
}

fn fact_eq(a: &DerivedFact, b: &DerivedFact) -> (r: bool)
    ensures
        r == (a@ == b@),
{
    a.entity == b.entity && str_eq(a.attribute.as_str(), b.attribute.as_str()) && value_eq(&a.value, &b.value)
}

pub(crate) fn contains_fact(fs: &Vec<DerivedFact>, f: &DerivedFact) -> (r: bool)
    ensures
        r == facts_view(fs@).contains(f@),
{
    let ghost v = facts_view(fs@);
    let mut k: usize = 0;
    while k < fs.len()
        invariant
            k <= fs@.len(),
            v == facts_view(fs@),
            forall|j: int| 0 <= j < k ==> v[j] != f@,
        decreases fs@.len() - k,
    {
        if fact_eq(&fs[k], f) {
            assert(v[k as int] == f@);
            return true;
        }
        k = k + 1;
    }
    false
}

pub(crate) fn push_fact(fs: &mut Vec<DerivedFact>, f: &DerivedFact)
    ensures
        facts_view(final(fs)@) == facts_view(old(fs)@).push(f@),
{
    fs.push(fact_clone(f));
    assert(facts_view(fs@) =~= facts_view(old(fs)@).push(f@));
}

fn distinct_exec(fs: &Vec<DerivedFact>) -> (r: Vec<DerivedFact>)
    ensures
        facts_view(r@) == distinct_facts(facts_view(fs@)),
{
    let ghost v = facts_view(fs@);
    let mut out: Vec<DerivedFact> = Vec::new();
    let mut k: usize = 0;
    assert(v.subrange(0, 0) =~= Seq::<FactView>::empty());
    assert(facts_view(out@) =~= Seq::<FactView>::empty());
    while k < fs.len()
        invariant
            k <= fs@.len(),
            v == facts_view(fs@),
            v.len() == fs@.len(),
            facts_view(out@) == distinct_facts(v.subrange(0, k as int)),
        decreases fs@.len() - k,
    {
        assert(v.subrange(0, k + 1).drop_last() =~= v.subrange(0, k as int));
        assert(v.subrange(0, k + 1).last() == fs@[k as int]@);
        if !contains_fact(&out, &fs[k]) {
            push_fact(&mut out, &fs[k]);
        }
        k = k + 1;
    }
    assert(v.subrange(0, fs@.len() as int) =~= v);
    out
}

fn limit_message(lead: &str, n: usize, tail: &str) -> (m: String)
    ensures
        m@ == lead@ + nat_text(n as nat) + tail@,
{
    let mut m = owned(lead);
    push_u64_text(&mut m, n as u64);
    m.append(tail);
    m
}

/// Applies every rule once to `facts` (see `round`).
pub fn apply_round<A: Fn(&Rule, &Vec<DerivedFact>) -> Result<Vec<DerivedFact>, String>>(
    rules: &Vec<Rule>,
    facts: &Vec<DerivedFact>,
    apply_rule: &A,
) -> (r: Result<Vec<DerivedFact>, String>)
    requires
        rule_step_total(*apply_rule),
        rule_step_deterministic(*apply_rule),
    ensures
        facts_result_view(r) == round(rules_view(rules@), facts_view(facts@), rule_fn(*apply_rule)),
{
    proof {
        lemma_step_agrees(*apply_rule);
    }
    apply_round_with(rules, facts, apply_rule, Ghost(rule_fn(*apply_rule)))
}

pub(crate) fn apply_round_with<A: Fn(&Rule, &Vec<DerivedFact>) -> Result<Vec<DerivedFact>, String>>(
    rules: &Vec<Rule>,
    facts: &Vec<DerivedFact>,
    apply_rule: &A,
    Ghost(rf): Ghost<RuleFn>,
) -> (r: Result<Vec<DerivedFact>, String>)
    requires
        rule_step_total(*apply_rule),
        step_agrees(*apply_rule, rf),
    ensures
        facts_result_view(r) == round(rules_view(rules@), facts_view(facts@), rf),
{
    let ghost rv = rules_view(rules@);
    let mut out: Vec<DerivedFact> = Vec::new();
    let mut k: usize = 0;
    assert(rv.subrange(0, 0) =~= Seq::<RuleView>::empty());
    assert(facts_view(out@) =~= Seq::<FactView>::empty());
    while k < rules.len()
        invariant
            rule_step_total(*apply_rule),
            step_agrees(*apply_rule, rf),
            rv == rules_view(rules@),
            k <= rules@.len(),
            round(rv.subrange(0, k as int), facts_view(facts@), rf) == Ok::<Seq<FactView>, Seq<char>>(
                facts_view(out@),
            ),
        decreases rules@.len() - k,
    {
        let rk = &rules[k];
        let res = apply_rule(rk, facts);
        proof {
            assert(facts_result_view(res) == rf(rk@, facts_view(facts@)));
            assert(rv.subrange(0, k + 1).drop_last() =~= rv.subrange(0, k as int));
            assert(rv.subrange(0, k + 1).last() == rules@[k as int]@);
        }
        match res {
            Err(m) => {
                proof {
                    lemma_round_err(rv, facts_view(facts@), rf, k + 1);
                }
                return Err(m);
            },
            Ok(more) => {
                let ghost before = facts_view(out@);
                let mut t: usize = 0;
                while t < more.len()
                    invariant
                        t <= more@.len(),
                        facts_view(out@) == before + facts_view(more@).subrange(0, t as int),
                    decreases more@.len() - t,
                {
                    push_fact(&mut out, &more[t]);
                    assert(facts_view(more@).subrange(0, t + 1) =~= facts_view(more@).subrange(0, t as int).push(
                        more@[t as int]@,
                    ));
                    assert(before + facts_view(more@).subrange(0, t + 1) =~= (before + facts_view(more@).subrange(
                        0,
                        t as int,
                    )).push(more@[t as int]@));
                    t = t + 1;
                }
                assert(facts_view(more@).subrange(0, more@.len() as int) =~= facts_view(more@));
            },
        }
        k = k + 1;
    }
    assert(rv.subrange(0, rules@.len() as int) =~= rv);
    Ok(out)
}

/// Evaluates recursive rules from the base facts by semi-naive fixed-point
/// iteration (see `spec_evaluate_recursive`), a round applying every rule
/// once to the facts so far (see `round`); `apply_rule` matches one rule's
/// body against facts and gives the facts its head derives. The result
/// holds the base facts and then, round by round, each newly derived fact
/// once.
pub fn evaluate_recursive_rules<A: Fn(&Rule, &Vec<DerivedFact>) -> Result<Vec<DerivedFact>, String>>(
    base: &Vec<DerivedFact>,
    rules: &Vec<Rule>,
    limits: RuleLimits,
    apply_rule: &A,
) -> (r: Result<Vec<DerivedFact>, String>)
    requires
        rule_step_total(*apply_rule),
        rule_step_deterministic(*apply_rule),
    ensures
        facts_result_view(r) == spec_evaluate_recursive(
            facts_view(base@),
            limits,
            round_fn(rules_view(rules@), rule_fn(*apply_rule)),
        ),
{
    proof {
        lemma_step_agrees(*apply_rule);
    }
    evaluate_recursive_rules_with(base, rules, limits, apply_rule, Ghost(rule_fn(*apply_rule)))
}

pub(crate) fn evaluate_recursive_rules_with<A: Fn(&Rule, &Vec<DerivedFact>) -> Result<Vec<DerivedFact>, String>>(
    base: &Vec<DerivedFact>,
    rules: &Vec<Rule>,
    limits: RuleLimits,
    apply_rule: &A,
    Ghost(rf): Ghost<RuleFn>,
) -> (r: Result<Vec<DerivedFact>, String>)
    requires
        rule_step_total(*apply_rule),
        step_agrees(*apply_rule, rf),
    ensures
        facts_result_view(r) == spec_evaluate_recursive(
            facts_view(base@),
            limits,
            round_fn(rules_view(rules@), rf),
        ),
{
    let ghost st = round_fn(rules_view(rules@), rf);
    let mut derived: Vec<DerivedFact> = Vec::new();
    let mut k: usize = 0;
    while k < base.len()
        invariant
            k <= base@.len(),
            facts_view(derived@) == facts_view(base@).subrange(0, k as int),
        decreases base@.len() - k,
    {
        push_fact(&mut derived, &base[k]);
        assert(facts_view(base@).subrange(0, k + 1) =~= facts_view(base@).subrange(0, k as int).push(base@[k as int]@));
        k = k + 1;
    }
    assert(facts_view(base@).subrange(0, base@.len() as int) =~= facts_view(base@));
    let mut seen = distinct_exec(base);
    let mut done: usize = 0;
    loop
        invariant
            rule_step_total(*apply_rule),
            step_agrees(*apply_rule, rf),
            st == round_fn(rules_view(rules@), rf),
            done <= limits.max_iterations,
            spec_evaluate_recursive(facts_view(base@), limits, st) == rounds(
                facts_view(derived@),
                facts_view(seen@),
                done as nat,
                limits,
                st,
            ),
        decreases limits.max_iterations - done,
    {
        if done >= limits.max_iterations {
            return Err(
                limit_message(
                    "INT-020: Max iterations (",
                    limits.max_iterations,
                    ") exceeded. Possible infinite recursion or cycle in rules.",
                ),
            );
        }
        let res = apply_round_with(rules, &derived, apply_rule, Ghost(rf));
        let new = match res {
            Ok(n) => n,
            Err(m) => {
                return Err(m);
            },
        };
        if new.len() > limits.max_derived_facts {
            return Err(
                limit_message(
                    "INT-020: Max derived facts per iteration (",
                    limits.max_derived_facts,
                    ") exceeded. Rule may be generating too many facts.",
                ),
            );
        }
        let ghost nv = facts_view(new@);
        let ghost seen0 = facts_view(seen@);
        let mut delta: Vec<DerivedFact> = Vec::new();
        let mut j: usize = 0;
        assert(facts_view(delta@) =~= Seq::<FactView>::empty());
        while j < new.len()
            invariant
                j <= new@.len(),
                st == round_fn(rules_view(rules@), rf),
                done < limits.max_iterations,
                spec_evaluate_recursive(facts_view(base@), limits, st) == rounds(
                    facts_view(derived@),
                    seen0,
                    done as nat,
                    limits,
                    st,
                ),
                st(facts_view(derived@)) == Ok::<Seq<FactView>, Seq<char>>(nv),
                nv.len() <= limits.max_derived_facts,
                nv == facts_view(new@),
                nv.len() == new@.len(),
                delta_of(seen0, nv, 0, Seq::empty(), limits.max_results as nat) == delta_of(
                    facts_view(seen@),
                    nv,
                    j as int,
                    facts_view(delta@),
                    limits.max_results as nat,
                ),
            decreases new@.len() - j,
        {
            assert(nv[j as int] == new@[j as int]@);
            if !contains_fact(&seen, &new[j]) {
                assert(facts_view(seen@).len() == seen@.len());
                if seen.len() >= limits.max_results {
                    return Err(limit_message("INT-020: Max query results (", limits.max_results, ") exceeded."));
                }
                push_fact(&mut seen, &new[j]);
                push_fact(&mut delta, &new[j]);
            }
            j = j + 1;
        }
        if delta.len() == 0 {
            return Ok(derived);
        }
        let ghost dv0 = facts_view(derived@);
        let mut t: usize = 0;
        while t < delta.len()
            invariant
                t <= delta@.len(),
                facts_view(derived@) == dv0 + facts_view(delta@).subrange(0, t as int),
            decreases delta@.len() - t,
        {
            push_fact(&mut derived, &delta[t]);
            assert(facts_view(delta@).subrange(0, t + 1) =~= facts_view(delta@).subrange(0, t as int).push(
                delta@[t as int]@,
            ));
            assert(dv0 + facts_view(delta@).subrange(0, t + 1) =~= (dv0 + facts_view(delta@).subrange(0, t as int)).push(
                delta@[t as int]@,
            ));
            t = t + 1;
        }
        assert(facts_view(delta@).subrange(0, delta@.len() as int) =~= facts_view(delta@));
        done = done + 1;
    }
}

} // verus!
