//! Stratified evaluation of a rule set: the requested predicates and every
//! predicate their rules depend on are evaluated stratum by stratum, lowest
//! first, so that a rule reading a predicate under negation only runs once
//! that predicate is complete. Within a stratum the rules without negation
//! or disjunction run to a fixed point (see `recursion`); the others then
//! run once each, over everything derived so far.
//!
//! Applying one rule to facts (matching its body, filtering by its
//! negations, instantiating its head) is the caller's step.
use vstd::prelude::*;
use vstd::set_lib::*;
use crate::types::{Rule, RuleView, ClauseView, WhereClause, strs_view, rule_clone, lemma_clauses_view};
use crate::stratification::{
    RuleRegistry, DependencyGraph, Strata, position, rules_view, rules_deps, add_name, add_deps, deps_view, graph_of,
    predicates, index_edges, respects, admissible, below, rules_entry, find_name, add_name_exec,
    lemma_position_bound,
};
use crate::recursion::{
    DerivedFact, FactView, RuleLimits, facts_view, facts_result_view, rule_fn, rule_step_total,
    rule_step_deterministic, round_fn, spec_evaluate_recursive, evaluate_recursive_rules, contains_fact,
    push_fact, lemma_rule_answer, RuleFn, step_agrees, lemma_step_agrees, evaluate_recursive_rules_with,
};

verus! {

// ===================== which predicates =====================

/// The predicate names of a registry, in order.
pub open spec fn reg_names(reg: Seq<(Seq<char>, Seq<RuleView>)>) -> Seq<Seq<char>> {
    reg.map_values(|e: (Seq<char>, Seq<RuleView>)| e.0)
}

/// The rules the registry holds for `p` (none when it has no entry).
pub open spec fn rules_of(reg: Seq<(Seq<char>, Seq<RuleView>)>, p: Seq<char>) -> Seq<RuleView> {
    let i = position(reg_names(reg), p);
    if i < reg.len() {
        reg[i].1
    } else {
        Seq::empty()
    }
}

/// Every predicate the registry's rules depend on, with repeats, in order.
pub open spec fn all_dep_names(reg: Seq<(Seq<char>, Seq<RuleView>)>) -> Seq<Seq<char>>
    decreases reg.len(),
{
    if reg.len() == 0 {
        Seq::empty()
    } else {
        all_dep_names(reg.drop_last()) + rules_deps(reg.last().1).map_values(|d: (Seq<char>, bool)| d.0)
    }
}

/// From position `i` of `list` on, each predicate's rule dependencies are
/// added to the list (those not yet in it, in order), until the list is
/// exhausted; `fuel` bounds the steps.
pub open spec fn discover(reg: Seq<(Seq<char>, Seq<RuleView>)>, list: Seq<Seq<char>>, i: int, fuel: nat) -> Seq<
    Seq<char>,
>
    decreases fuel,
{
    if fuel == 0 || i < 0 || i >= list.len() {
        list
    } else {
        discover(reg, add_deps(list, rules_deps(rules_of(reg, list[i]))), i + 1, (fuel - 1) as nat)
    }
}

/// The requested predicates followed by every predicate they depend on,
/// transitively, in order of discovery (the fuel is never the limit).
pub open spec fn spec_all_preds(reg: Seq<(Seq<char>, Seq<RuleView>)>, preds: Seq<Seq<char>>) -> Seq<Seq<char>> {
    discover(reg, preds, 0, preds.len() + all_dep_names(reg).len() + 1)
}

// ===================== strata =====================

/// The stratum of `p` (0 for a predicate the graph does not name).
pub open spec fn level_of(names: Seq<Seq<char>>, levels: Seq<int>, p: Seq<char>) -> int {
    let i = position(names, p);
    if i < names.len() {
        levels[i]
    } else {
        0
    }
}

/// The highest stratum among `all` (0 for none).
pub open spec fn max_level(all: Seq<Seq<char>>, names: Seq<Seq<char>>, levels: Seq<int>) -> int
    decreases all.len(),
{
    if all.len() == 0 {
        0
    } else {
        let m = max_level(all.drop_last(), names, levels);
        let l = level_of(names, levels, all.last());
        if l > m {
            l
        } else {
            m
        }
    }
}

/// A rule whose body holds a negation or a disjunction at its top level.
pub open spec fn has_negation(r: RuleView) -> bool {
    exists|i: int|
        0 <= i < r.body.len() && (#[trigger] r.body[i] is Not || r.body[i] is NotJoin || r.body[i] is Or
            || r.body[i] is OrJoin)
}

/// `rs` added, in order, to the positive rules `p` or the mixed ones `m`.
pub open spec fn split_rules(rs: Seq<RuleView>, p: Seq<RuleView>, m: Seq<RuleView>) -> (Seq<RuleView>, Seq<RuleView>)
    decreases rs.len(),
{
    if rs.len() == 0 {
        (p, m)
    } else {
        let (p2, m2) = split_rules(rs.drop_last(), p, m);
        if has_negation(rs.last()) {
            (p2, m2.push(rs.last()))
        } else {
            (p2.push(rs.last()), m2)
        }
    }
}

/// The rules of the predicates of `all` in stratum `s`, in order, split
/// into those without negation or disjunction and the others.
pub open spec fn stratum_rules(
    reg: Seq<(Seq<char>, Seq<RuleView>)>,
    all: Seq<Seq<char>>,
    names: Seq<Seq<char>>,
    levels: Seq<int>,
    s: int,
) -> (Seq<RuleView>, Seq<RuleView>)
    decreases all.len(),
{
    if all.len() == 0 {
        (Seq::empty(), Seq::empty())
    } else {
        let (p, m) = stratum_rules(reg, all.drop_last(), names, levels, s);
        if level_of(names, levels, all.last()) == s {
            split_rules(rules_of(reg, all.last()), p, m)
        } else {
            (p, m)
        }
    }
}

/// The facts of `d` not in `acc`, in order.
pub open spec fn fresh(d: Seq<FactView>, acc: Seq<FactView>) -> Seq<FactView>
    decreases d.len(),
{
    if d.len() == 0 {
        Seq::empty()
    } else if acc.contains(d.last()) {
        fresh(d.drop_last(), acc)
    } else {
        fresh(d.drop_last(), acc).push(d.last())
    }
}

/// The mixed rules applied one after another, each to all facts so far, its
/// facts appended.
pub open spec fn apply_mixed(
    mix: Seq<RuleView>,
    acc: Seq<FactView>,
    rf: spec_fn(RuleView, Seq<FactView>) -> Result<Seq<FactView>, Seq<char>>,
) -> Result<Seq<FactView>, Seq<char>>
    decreases mix.len(),
{
    if mix.len() == 0 {
        Ok(acc)
    } else {
        match apply_mixed(mix.drop_last(), acc, rf) {
            Err(m) => Err(m),
            Ok(a) => match rf(mix.last(), a) {
                Err(m) => Err(m),
                Ok(o) => Ok(a + o),
            },
        }
    }
}

/// One stratum: its positive rules run to a fixed point from the facts so
/// far, whose new facts are appended; then its mixed rules run once each.
pub open spec fn spec_stratum(
    reg: Seq<(Seq<char>, Seq<RuleView>)>,
    all: Seq<Seq<char>>,
    names: Seq<Seq<char>>,
    levels: Seq<int>,
    s: int,
    acc: Seq<FactView>,
    lim: RuleLimits,
    rf: spec_fn(RuleView, Seq<FactView>) -> Result<Seq<FactView>, Seq<char>>,
) -> Result<Seq<FactView>, Seq<char>> {
    let (pos, mix) = stratum_rules(reg, all, names, levels, s);
    let after: Result<Seq<FactView>, Seq<char>> = if pos.len() == 0 {
        Ok(acc)
    } else {
        match spec_evaluate_recursive(acc, lim, round_fn(pos, rf)) {
            Err(m) => Err(m),
            Ok(d) => Ok(acc + fresh(d, acc)),
        }
    };
    match after {
        Err(m) => Err(m),
        Ok(a) => apply_mixed(mix, a, rf),
    }
}

/// Strata `s..=top` in order, from the facts `acc`.
pub open spec fn strata_from(
    reg: Seq<(Seq<char>, Seq<RuleView>)>,
    all: Seq<Seq<char>>,
    names: Seq<Seq<char>>,
    levels: Seq<int>,
    s: int,
    top: int,
    acc: Seq<FactView>,
    lim: RuleLimits,
    rf: spec_fn(RuleView, Seq<FactView>) -> Result<Seq<FactView>, Seq<char>>,
) -> Result<Seq<FactView>, Seq<char>>
    decreases top + 1 - s,
{
    if s > top {
        Ok(acc)
    } else {
        match spec_stratum(reg, all, names, levels, s, acc, lim, rf) {
            Err(m) => Err(m),
            Ok(a) => strata_from(reg, all, names, levels, s + 1, top, a, lim, rf),
        }
    }
}

/// Evaluation with the given strata: the requested predicates and their
/// dependencies, stratum 0 up to the highest of theirs.
pub open spec fn spec_eval_with_strata(
    reg: Seq<(Seq<char>, Seq<RuleView>)>,
    names: Seq<Seq<char>>,
    levels: Seq<int>,
    preds: Seq<Seq<char>>,
    base: Seq<FactView>,
    lim: RuleLimits,
    rf: spec_fn(RuleView, Seq<FactView>) -> Result<Seq<FactView>, Seq<char>>,
) -> Result<Seq<FactView>, Seq<char>> {
    let all = spec_all_preds(reg, preds);
    strata_from(reg, all, names, levels, 0, max_level(all, names, levels), base, lim, rf)
}

/// `lv` is the stratification `stratify` finds for graph `g`: one level per
/// predicate, respecting every edge, and the least such.
pub open spec fn least_levels(g: Seq<(Seq<char>, Seq<(Seq<char>, bool)>)>, lv: Seq<int>) -> bool {
    &&& lv.len() == predicates(g).len()
    &&& respects(index_edges(g), lv)
    &&& forall|t: Seq<int>| #[trigger] admissible(index_edges(g), predicates(g).len() as int, t) ==> below(lv, t)
}

// ===================== proofs =====================

proof fn lemma_all_dep_names(reg: Seq<(Seq<char>, Seq<RuleView>)>, i: int, x: Seq<char>)
    requires
        0 <= i < reg.len(),
        rules_deps(reg[i].1).map_values(|d: (Seq<char>, bool)| d.0).contains(x),
    ensures
        all_dep_names(reg).contains(x),
    decreases reg.len(),
{
    let a = all_dep_names(reg.drop_last());
    let b = rules_deps(reg.last().1).map_values(|d: (Seq<char>, bool)| d.0);
    if i < reg.len() - 1 {
        assert(reg.drop_last()[i] == reg[i]);
        lemma_all_dep_names(reg.drop_last(), i, x);
        let k = choose|k: int| 0 <= k < a.len() && a[k] == x;
        assert((a + b)[k] == x);
    } else {
        let k = choose|k: int| 0 <= k < b.len() && b[k] == x;
        assert((a + b)[a.len() + k] == x);
    }
}

/// Adding dependencies to `pre + extra` keeps the shape: the requested
/// prefix, then distinct names drawn from `pool`.
proof fn lemma_add_deps_shape(
    pre: Seq<Seq<char>>,
    extra: Seq<Seq<char>>,
    deps: Seq<(Seq<char>, bool)>,
    pool: Seq<Seq<char>>,
) -> (e2: Seq<Seq<char>>)
    requires
        extra.no_duplicates(),
        forall|j: int| 0 <= j < extra.len() ==> pool.contains(#[trigger] extra[j]),
        forall|j: int| 0 <= j < deps.len() ==> pool.contains(#[trigger] deps[j].0),
    ensures
        add_deps(pre + extra, deps) == pre + e2,
        e2.no_duplicates(),
        forall|j: int| 0 <= j < e2.len() ==> pool.contains(#[trigger] e2[j]),
        e2.len() >= extra.len(),
    decreases deps.len(),
{
    if deps.len() == 0 {
        extra
    } else {
        let d = deps.drop_last();
        assert forall|j: int| 0 <= j < d.len() implies pool.contains(#[trigger] d[j].0) by {
            assert(d[j] == deps[j]);
        }
        let e1 = lemma_add_deps_shape(pre, extra, d, pool);
        let x = deps.last().0;
        assert(pool.contains(x)) by {
            assert(deps[deps.len() - 1] == deps.last());
        }
        if (pre + e1).contains(x) {
            e1
        } else {
            let e2 = e1.push(x);
            assert((pre + e1).push(x) =~= pre + e2);
            assert forall|a: int, b: int| 0 <= a < e2.len() && 0 <= b < e2.len() && a != b implies e2[a] != e2[b] by {
                if a == e1.len() {
                    assert((pre + e1)[pre.len() + b] == e1[b]);
                } else if b == e1.len() {
                    assert((pre + e1)[pre.len() + a] == e1[a]);
                }
            }
            assert forall|j: int| 0 <= j < e2.len() implies pool.contains(#[trigger] e2[j]) by {
                if j < e1.len() {
                    assert(e2[j] == e1[j]);
                }
            }
            e2
        }
    }
}

proof fn lemma_extra_bound(extra: Seq<Seq<char>>, pool: Seq<Seq<char>>)
    requires
        extra.no_duplicates(),
        forall|j: int| 0 <= j < extra.len() ==> pool.contains(#[trigger] extra[j]),
    ensures
        extra.len() <= pool.len(),
{
    extra.unique_seq_to_set();
    pool.lemma_cardinality_of_set();
    assert(extra.to_set().subset_of(pool.to_set())) by {
        assert forall|x: Seq<char>| extra.to_set().contains(x) implies pool.to_set().contains(x) by {
            let j = choose|j: int| 0 <= j < extra.len() && extra[j] == x;
            assert(pool.contains(extra[j]));
        }
    }
    lemma_len_subset(extra.to_set(), pool.to_set());
}

proof fn lemma_rules_of_deps(reg: Seq<(Seq<char>, Seq<RuleView>)>, p: Seq<char>)
    ensures
        forall|j: int|
            0 <= j < rules_deps(rules_of(reg, p)).len() ==> all_dep_names(reg).contains(
                #[trigger] rules_deps(rules_of(reg, p))[j].0,
            ),
{
    lemma_position_bound(reg_names(reg), p);
    let i = position(reg_names(reg), p);
    if i < reg.len() {
        let ds = rules_deps(reg[i].1);
        assert forall|j: int| 0 <= j < ds.len() implies all_dep_names(reg).contains(#[trigger] ds[j].0) by {
            let m = ds.map_values(|d: (Seq<char>, bool)| d.0);
            assert(m[j] == ds[j].0);
            lemma_all_dep_names(reg, i, ds[j].0);
        }
    }
}

// ===================== evaluation =====================

fn registry_names(entries: &Vec<(String, Vec<Rule>)>) -> (names: Vec<String>)
    ensures
        strs_view(names@) == entries@.map_values(|e: (String, Vec<Rule>)| e.0@),
{
    let ghost ev = entries@.map_values(|e: (String, Vec<Rule>)| e.0@);
    let mut names: Vec<String> = Vec::new();
    let mut k: usize = 0;
    while k < entries.len()
        invariant
            k <= entries@.len(),
            ev == entries@.map_values(|e: (String, Vec<Rule>)| e.0@),
            strs_view(names@) == ev.subrange(0, k as int),
        decreases entries@.len() - k,
    {
        let ghost prev = names@;
        names.push(crate::text::owned(entries[k].0.as_str()));
        assert(strs_view(names@) =~= strs_view(prev).push(entries@[k as int].0@));
        assert(ev.subrange(0, k + 1) =~= ev.subrange(0, k as int).push(ev[k as int]));
        k = k + 1;
    }
    assert(ev.subrange(0, entries@.len() as int) =~= ev);
    names
}

/// The requested predicates and everything they depend on (see
/// `spec_all_preds`).
pub fn all_predicates(registry: &RuleRegistry, preds: &Vec<String>) -> (r: Vec<String>)
    ensures
        strs_view(r@) == spec_all_preds(registry@, strs_view(preds@)),
{
    let ghost reg = registry@;
    let ghost pool = all_dep_names(reg);
    let ghost pre = strs_view(preds@);
    let ghost bound = pre.len() + pool.len();
    let ghost fuel = bound + 1;
    let entries = registry.all_rules();
    let names = registry_names(entries);
    proof {
        assert(strs_view(names@) =~= reg_names(reg));
    }
    let mut list = crate::safety::clone_strs(preds);
    let ghost mut extra: Seq<Seq<char>> = Seq::empty();
    proof {
        assert(pre + extra =~= pre);
    }
    let mut i: usize = 0;
    while i < list.len()
        invariant
            reg == registry@,
            entries@.map_values(|e: (String, Vec<Rule>)| (e.0@, rules_view(e.1@))) == reg,
            strs_view(names@) == reg_names(reg),
            pool == all_dep_names(reg),
            bound == pre.len() + pool.len(),
            fuel == bound + 1,
            pre == strs_view(preds@),
            strs_view(list@) == pre + extra,
            extra.no_duplicates(),
            forall|j: int| 0 <= j < extra.len() ==> pool.contains(#[trigger] extra[j]),
            i <= list@.len(),
            spec_all_preds(reg, pre) == discover(reg, strs_view(list@), i as int, (fuel - i) as nat),
        decreases bound - i,
    {
        proof {
            lemma_extra_bound(extra, pool);
        }
        let ghost lv = strs_view(list@);
        let idx = find_name(&names, list[i].as_str());
        proof {
            assert(lv[i as int] == list@[i as int]@);
            lemma_position_bound(reg_names(reg), lv[i as int]);
        }
        if idx < entries.len() {
            let deps = rules_entry(&entries[idx].1);
            proof {
                let ev = entries@.map_values(|e: (String, Vec<Rule>)| (e.0@, rules_view(e.1@)));
                assert(ev[idx as int] == (entries@[idx as int].0@, rules_view(entries@[idx as int].1@)));
                assert(rules_of(reg, lv[i as int]) == rules_view(entries@[idx as int].1@));
            }
            let mut t: usize = 0;
            let ghost base_list = strs_view(list@);
            while t < deps.len()
                invariant
                    t <= deps@.len(),
                    strs_view(list@) == add_deps(base_list, deps_view(deps@).subrange(0, t as int)),
                decreases deps@.len() - t,
            {
                let ghost before = strs_view(list@);
                add_name_exec(&mut list, &deps[t].0);
                proof {
                    let dv = deps_view(deps@);
                    assert(dv.subrange(0, t + 1).drop_last() =~= dv.subrange(0, t as int));
                    assert(dv.subrange(0, t + 1).last() == dv[t as int]);
                    assert(dv[t as int].0 == deps@[t as int].0@);
                }
                t = t + 1;
            }
            proof {
                let dv = deps_view(deps@);
                assert(dv.subrange(0, deps@.len() as int) =~= dv);
                lemma_rules_of_deps(reg, lv[i as int]);
                extra = lemma_add_deps_shape(pre, extra, dv, pool);
            }
        } else {
            proof {
                assert(rules_of(reg, lv[i as int]) == Seq::<RuleView>::empty());
                assert(rules_deps(Seq::<RuleView>::empty()) == Seq::<(Seq<char>, bool)>::empty());
                assert(add_deps(lv, Seq::<(Seq<char>, bool)>::empty()) == lv);
            }
        }
        proof {
            lemma_extra_bound(extra, pool);
        }
        i = i + 1;
    }
    list
}

fn level_exec(strata: &Strata, p: &str) -> (l: usize)
    requires
        strata.names_view().len() == strata.levels_view().len(),
    ensures
        l as int == level_of(strata.names_view(), strata.levels_view(), p@),
{
    match strata.get(p) {
        Some(l) => l,
        None => 0,
    }
}

pub(crate) fn has_negation_exec(r: &Rule) -> (b: bool)
    ensures
        b == has_negation(r@),
{
    let ghost bv = r@.body;
    proof {
        lemma_clauses_view(r.body@);
    }
    let mut k: usize = 0;
    while k < r.body.len()
        invariant
            k <= r.body@.len(),
            bv == r@.body,
            bv.len() == r.body@.len(),
            forall|i: int| 0 <= i < r.body@.len() ==> #[trigger] bv[i] == r.body@[i]@,
            forall|i: int|
                0 <= i < k ==> !(bv[i] is Not || bv[i] is NotJoin || bv[i] is Or || bv[i] is OrJoin),
        decreases r.body@.len() - k,
    {
        assert(bv[k as int] == r.body@[k as int]@);
        match &r.body[k] {
            WhereClause::Not(_) | WhereClause::NotJoin { .. } | WhereClause::Or(_) | WhereClause::OrJoin { .. } => {
                return true;
            },
            _ => {},
        }
        k = k + 1;
    }
    false
}

/// The rules of stratum `s`, split (see `stratum_rules`).
fn stratum_rules_exec(
    registry: &RuleRegistry,
    names: &Vec<String>,
    all: &Vec<String>,
    strata: &Strata,
    s: usize,
) -> (r: (Vec<Rule>, Vec<Rule>))
    requires
        strata.names_view().len() == strata.levels_view().len(),
        strs_view(names@) == reg_names(registry@),
    ensures
        (rules_view(r.0@), rules_view(r.1@)) == stratum_rules(
            registry@,
            strs_view(all@),
            strata.names_view(),
            strata.levels_view(),
            s as int,
        ),
{
    let ghost reg = registry@;
    let ghost av = strs_view(all@);
    let entries = registry.all_rules();
    let mut pos: Vec<Rule> = Vec::new();
    let mut mix: Vec<Rule> = Vec::new();
    let mut i: usize = 0;
    assert(av.subrange(0, 0) =~= Seq::<Seq<char>>::empty());
    assert(rules_view(pos@) =~= Seq::<RuleView>::empty());
    assert(rules_view(mix@) =~= Seq::<RuleView>::empty());
    while i < all.len()
        invariant
            strata.names_view().len() == strata.levels_view().len(),
            strs_view(names@) == reg_names(reg),
            reg == registry@,
            entries@.map_values(|e: (String, Vec<Rule>)| (e.0@, rules_view(e.1@))) == reg,
            av == strs_view(all@),
            i <= all@.len(),
            (rules_view(pos@), rules_view(mix@)) == stratum_rules(
                reg,
                av.subrange(0, i as int),
                strata.names_view(),
                strata.levels_view(),
                s as int,
            ),
        decreases all@.len() - i,
    {
        assert(av.subrange(0, i + 1).drop_last() =~= av.subrange(0, i as int));
        assert(av.subrange(0, i + 1).last() == all@[i as int]@);
        let l = level_exec(strata, all[i].as_str());
        if l == s {
            let idx = find_name(names, all[i].as_str());
            proof {
                lemma_position_bound(reg_names(reg), all@[i as int]@);
            }
            if idx < entries.len() {
                let rules = &entries[idx].1;
                let ghost rv = rules_view(rules@);
                let ghost p0 = rules_view(pos@);
                let ghost m0 = rules_view(mix@);
                proof {
                    let ev = entries@.map_values(|e: (String, Vec<Rule>)| (e.0@, rules_view(e.1@)));
                    assert(ev[idx as int] == (entries@[idx as int].0@, rules_view(entries@[idx as int].1@)));
                    assert(rules_of(reg, all@[i as int]@) == rv);
                    assert(rv.subrange(0, 0) =~= Seq::<RuleView>::empty());
                }
                let mut k: usize = 0;
                while k < rules.len()
                    invariant
                        k <= rules@.len(),
                        rv == rules_view(rules@),
                        (rules_view(pos@), rules_view(mix@)) == split_rules(rv.subrange(0, k as int), p0, m0),
                    decreases rules@.len() - k,
                {
                    assert(rv.subrange(0, k + 1).drop_last() =~= rv.subrange(0, k as int));
                    assert(rv.subrange(0, k + 1).last() == rules@[k as int]@);
                    let c = rule_clone(&rules[k]);
                    if has_negation_exec(&rules[k]) {
                        let ghost prev = mix@;
                        mix.push(c);
                        assert(rules_view(mix@) =~= rules_view(prev).push(c@));
                    } else {
                        let ghost prev = pos@;
                        pos.push(c);
                        assert(rules_view(pos@) =~= rules_view(prev).push(c@));
                    }
                    k = k + 1;
                }
                assert(rv.subrange(0, rules@.len() as int) =~= rv);
            } else {
                proof {
                    assert(rules_of(reg, all@[i as int]@) == Seq::<RuleView>::empty());
                }
            }
        }
        i = i + 1;
    }
    assert(av.subrange(0, all@.len() as int) =~= av);
    (pos, mix)
}

fn append_facts(acc: &mut Vec<DerivedFact>, more: &Vec<DerivedFact>)
    ensures
        facts_view(final(acc)@) == facts_view(old(acc)@) + facts_view(more@),
{
    let ghost before = facts_view(acc@);
    let mut t: usize = 0;
    while t < more.len()
        invariant
            t <= more@.len(),
            facts_view(acc@) == before + facts_view(more@).subrange(0, t as int),
        decreases more@.len() - t,
    {
        push_fact(acc, &more[t]);
        assert(facts_view(more@).subrange(0, t + 1) =~= facts_view(more@).subrange(0, t as int).push(more@[t as int]@));
        assert(before + facts_view(more@).subrange(0, t + 1) =~= (before + facts_view(more@).subrange(0, t as int)).push(
            more@[t as int]@,
        ));
        t = t + 1;
    }
    assert(facts_view(more@).subrange(0, more@.len() as int) =~= facts_view(more@));
}

/// Evaluates stratum `s` (see `spec_stratum`).
fn eval_stratum<A: Fn(&Rule, &Vec<DerivedFact>) -> Result<Vec<DerivedFact>, String>>(
    registry: &RuleRegistry,
    names: &Vec<String>,
    all: &Vec<String>,
    strata: &Strata,
    s: usize,
    acc0: Vec<DerivedFact>,
    limits: RuleLimits,
    apply_rule: &A,
    Ghost(rf): Ghost<RuleFn>,
) -> (r: Result<Vec<DerivedFact>, String>)
    requires
        strata.names_view().len() == strata.levels_view().len(),
        strs_view(names@) == reg_names(registry@),
        rule_step_total(*apply_rule),
        step_agrees(*apply_rule, rf),
    ensures
        facts_result_view(r) == spec_stratum(
            registry@,
            strs_view(all@),
            strata.names_view(),
            strata.levels_view(),
            s as int,
            facts_view(acc0@),
            limits,
            rf,
        ),
{
    let ghost a_in = facts_view(acc0@);
    let (pos, mix) = stratum_rules_exec(registry, names, all, strata, s);
    let mut acc = acc0;
    if pos.len() > 0 {
        let derived = match evaluate_recursive_rules_with(&acc, &pos, limits, apply_rule, Ghost(rf)) {
            Ok(d) => d,
            Err(m) => {
                return Err(m);
            },
        };
        let ghost a0 = facts_view(acc@);
        let ghost dv = facts_view(derived@);
        let mut fresh_facts: Vec<DerivedFact> = Vec::new();
        let mut k: usize = 0;
        assert(dv.subrange(0, 0) =~= Seq::<FactView>::empty());
        assert(facts_view(fresh_facts@) =~= Seq::<FactView>::empty());
        while k < derived.len()
            invariant
                k <= derived@.len(),
                dv == facts_view(derived@),
                a0 == facts_view(acc@),
                facts_view(fresh_facts@) == fresh(dv.subrange(0, k as int), a0),
            decreases derived@.len() - k,
        {
            assert(dv.subrange(0, k + 1).drop_last() =~= dv.subrange(0, k as int));
            assert(dv.subrange(0, k + 1).last() == derived@[k as int]@);
            if !contains_fact(&acc, &derived[k]) {
                push_fact(&mut fresh_facts, &derived[k]);
            }
            k = k + 1;
        }
        assert(dv.subrange(0, derived@.len() as int) =~= dv);
        append_facts(&mut acc, &fresh_facts);
    }
    let ghost a1 = facts_view(acc@);
    let ghost mv = rules_view(mix@);
    let ghost whole = spec_stratum(
        registry@,
        strs_view(all@),
        strata.names_view(),
        strata.levels_view(),
        s as int,
        a_in,
        limits,
        rf,
    );
    assert(whole == apply_mixed(mv, a1, rf));
    let mut k: usize = 0;
    assert(mv.subrange(0, 0) =~= Seq::<RuleView>::empty());
    while k < mix.len()
        invariant
            rule_step_total(*apply_rule),
            step_agrees(*apply_rule, rf),
            a_in == facts_view(acc0@),
            k <= mix@.len(),
            mv == rules_view(mix@),
            whole == apply_mixed(mv, a1, rf),
            whole == spec_stratum(
                registry@,
                strs_view(all@),
                strata.names_view(),
                strata.levels_view(),
                s as int,
                a_in,
                limits,
                rf,
            ),
            apply_mixed(mv.subrange(0, k as int), a1, rf) == Ok::<Seq<FactView>, Seq<char>>(facts_view(acc@)),
        decreases mix@.len() - k,
    {
        assert(mv.subrange(0, k + 1).drop_last() =~= mv.subrange(0, k as int));
        assert(mv.subrange(0, k + 1).last() == mix@[k as int]@);
        let rk = &mix[k];
        let res = apply_rule(rk, &acc);
        proof {
            assert(facts_result_view(res) == rf(rk@, facts_view(acc@)));
        }
        match res {
            Err(m) => {
                proof {
                    assert(rf(mv[k as int], facts_view(acc@)) == Err::<Seq<FactView>, Seq<char>>(m@));
                    assert(apply_mixed(mv.subrange(0, k + 1), a1, rf) == Err::<Seq<FactView>, Seq<char>>(m@));
                    lemma_mixed_err(mv, a1, rf, k as int + 1);
                    assert(whole == Err::<Seq<FactView>, Seq<char>>(m@));
                }
                return Err(m);
            },
            Ok(out) => {
                append_facts(&mut acc, &out);
            },
        }
        k = k + 1;
    }
    assert(mv.subrange(0, mix@.len() as int) =~= mv);
    Ok(acc)
}

proof fn lemma_mixed_err(
    mix: Seq<RuleView>,
    acc: Seq<FactView>,
    rf: spec_fn(RuleView, Seq<FactView>) -> Result<Seq<FactView>, Seq<char>>,
    i: int,
)
    requires
        0 <= i <= mix.len(),
        apply_mixed(mix.subrange(0, i), acc, rf) is Err,
    ensures
        apply_mixed(mix, acc, rf) == apply_mixed(mix.subrange(0, i), acc, rf),
    decreases mix.len() - i,
{
    if i < mix.len() {
        assert(mix.subrange(0, i + 1).drop_last() =~= mix.subrange(0, i));
        lemma_mixed_err(mix, acc, rf, i + 1);
    } else {
        assert(mix.subrange(0, i) =~= mix);
    }
}

/// Evaluates the requested predicates with the given strata (see
/// `spec_eval_with_strata`): from the base facts, stratum by stratum.
pub fn evaluate_with_strata<A: Fn(&Rule, &Vec<DerivedFact>) -> Result<Vec<DerivedFact>, String>>(
    registry: &RuleRegistry,
    strata: &Strata,
    requested: &Vec<String>,
    base: &Vec<DerivedFact>,
    limits: RuleLimits,
    apply_rule: &A,
) -> (r: Result<Vec<DerivedFact>, String>)
    requires
        strata.names_view().len() == strata.levels_view().len(),
        rule_step_total(*apply_rule),
        rule_step_deterministic(*apply_rule),
    ensures
        facts_result_view(r) == spec_eval_with_strata(
            registry@,
            strata.names_view(),
            strata.levels_view(),
            strs_view(requested@),
            facts_view(base@),
            limits,
            rule_fn(*apply_rule),
        ),
{
    proof {
        lemma_step_agrees(*apply_rule);
    }
    evaluate_with_strata_with(registry, strata, requested, base, limits, apply_rule, Ghost(rule_fn(*apply_rule)))
}

pub(crate) fn evaluate_with_strata_with<A: Fn(&Rule, &Vec<DerivedFact>) -> Result<Vec<DerivedFact>, String>>(
    registry: &RuleRegistry,
    strata: &Strata,
    requested: &Vec<String>,
    base: &Vec<DerivedFact>,
    limits: RuleLimits,
    apply_rule: &A,
    Ghost(rf): Ghost<RuleFn>,
) -> (r: Result<Vec<DerivedFact>, String>)
    requires
        strata.names_view().len() == strata.levels_view().len(),
        rule_step_total(*apply_rule),
        step_agrees(*apply_rule, rf),
    ensures
        facts_result_view(r) == spec_eval_with_strata(
            registry@,
            strata.names_view(),
            strata.levels_view(),
            strs_view(requested@),
            facts_view(base@),
            limits,
            rf,
        ),
{
    let ghost reg = registry@;
    let ghost nv = strata.names_view();
    let ghost lv = strata.levels_view();
    let all = all_predicates(registry, requested);
    let ghost av = strs_view(all@);
    let entries = registry.all_rules();
    let names = registry_names(entries);
    proof {
        assert(strs_view(names@) =~= reg_names(reg));
    }
    let mut top: usize = 0;
    let mut i: usize = 0;
    assert(av.subrange(0, 0) =~= Seq::<Seq<char>>::empty());
    while i < all.len()
        invariant
            strata.names_view().len() == strata.levels_view().len(),
            nv == strata.names_view(),
            lv == strata.levels_view(),
            av == strs_view(all@),
            i <= all@.len(),
            top as int == max_level(av.subrange(0, i as int), nv, lv),
        decreases all@.len() - i,
    {
        assert(av.subrange(0, i + 1).drop_last() =~= av.subrange(0, i as int));
        assert(av.subrange(0, i + 1).last() == all@[i as int]@);
        let l = level_exec(strata, all[i].as_str());
        if l > top {
            top = l;
        }
        i = i + 1;
    }
    assert(av.subrange(0, all@.len() as int) =~= av);
    let mut acc: Vec<DerivedFact> = Vec::new();
    append_facts(&mut acc, base);
    assert(Seq::<FactView>::empty() + facts_view(base@) =~= facts_view(base@));
    let mut s: usize = 0;
    loop
        invariant
            strata.names_view().len() == strata.levels_view().len(),
            strs_view(names@) == reg_names(reg),
            reg == registry@,
            nv == strata.names_view(),
            lv == strata.levels_view(),
            rule_step_total(*apply_rule),
            step_agrees(*apply_rule, rf),
            av == strs_view(all@),
            s <= top,
            spec_eval_with_strata(reg, nv, lv, strs_view(requested@), facts_view(base@), limits, rf)
                == strata_from(reg, av, nv, lv, s as int, top as int, facts_view(acc@), limits, rf),
        decreases top - s,
    {
        match eval_stratum(registry, &names, &all, strata, s, acc, limits, apply_rule, Ghost(rf)) {
            Err(m) => {
                return Err(m);
            },
            Ok(next) => {
                acc = next;
            },
        }
        if s == top {
            assert(strata_from(reg, av, nv, lv, s + 1, top as int, facts_view(acc@), limits, rf) == Ok::<
                Seq<FactView>,
                Seq<char>,
            >(facts_view(acc@)));
            return Ok(acc);
        }
        s = s + 1;
    }
}

/// What stratified evaluation may give: the evaluation with the least
/// strata of the registry's dependency graph, or, when the graph has no
/// stratification with fewer strata than predicates, an error.
pub open spec fn stratified_outcome(
    reg: Seq<(Seq<char>, Seq<RuleView>)>,
    requested: Seq<Seq<char>>,
    base: Seq<FactView>,
    limits: RuleLimits,
    rf: spec_fn(RuleView, Seq<FactView>) -> Result<Seq<FactView>, Seq<char>>,
    out: Result<Seq<FactView>, Seq<char>>,
) -> bool {
    let g = graph_of(reg);
    ||| exists|lv: Seq<int>|
        least_levels(g, lv) && out == spec_eval_with_strata(reg, predicates(g), lv, requested, base, limits, rf)
    ||| out is Err && forall|t: Seq<int>|
        #[trigger] admissible(index_edges(g), predicates(g).len() as int, t) ==> exists|p: int|
            0 <= p < t.len() && t[p] >= predicates(g).len()
}

/// Evaluates the requested predicates over the base facts: the registry's
/// rules are stratified (an unstratifiable rule set is an error, as
/// `stratify` reports it), then evaluated stratum by stratum with those
/// least strata (see `spec_eval_with_strata`).
pub fn evaluate_stratified<A: Fn(&Rule, &Vec<DerivedFact>) -> Result<Vec<DerivedFact>, String>>(
    registry: &RuleRegistry,
    requested: &Vec<String>,
    base: &Vec<DerivedFact>,
    limits: RuleLimits,
    apply_rule: &A,
) -> (r: Result<Vec<DerivedFact>, String>)
    requires
        rule_step_total(*apply_rule),
        rule_step_deterministic(*apply_rule),
    ensures
        stratified_outcome(
            registry@,
            strs_view(requested@),
            facts_view(base@),
            limits,
            rule_fn(*apply_rule),
            facts_result_view(r),
        ),
{
    proof {
        lemma_step_agrees(*apply_rule);
    }
    evaluate_stratified_with(registry, requested, base, limits, apply_rule, Ghost(rule_fn(*apply_rule)))
}

pub(crate) fn evaluate_stratified_with<A: Fn(&Rule, &Vec<DerivedFact>) -> Result<Vec<DerivedFact>, String>>(
    registry: &RuleRegistry,
    requested: &Vec<String>,
    base: &Vec<DerivedFact>,
    limits: RuleLimits,
    apply_rule: &A,
    Ghost(rf): Ghost<RuleFn>,
) -> (r: Result<Vec<DerivedFact>, String>)
    requires
        rule_step_total(*apply_rule),
        step_agrees(*apply_rule, rf),
    ensures
        stratified_outcome(
            registry@,
            strs_view(requested@),
            facts_view(base@),
            limits,
            rf,
            facts_result_view(r),
        ),
{
    let graph = DependencyGraph::from_rules(registry);
    match graph.stratify() {
        Err(m) => Err(m),
        Ok(strata) => {
            let r = evaluate_with_strata_with(registry, &strata, requested, base, limits, apply_rule, Ghost(rf));
            proof {
                let g = graph_of(registry@);
                assert(least_levels(g, strata.levels_view()));
            }
            r
        },
    }
}

} // verus!
