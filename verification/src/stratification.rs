//! Stratification of rule sets: the dependency graph between predicates
//! (positive through rule invocations, negative through `not` / `not-join`)
//! and the assignment of strata that puts every predicate at or above its
//! positive dependencies and strictly above its negative ones.
use vstd::prelude::*;
use vstd::set_lib::{lemma_int_range, lemma_len_subset, set_int_range};
use crate::text::{owned, concat, str_eq};
use crate::types::{Rule, RuleView, WhereClause, ClauseView, clauses_view, branches_view, strs_view, lemma_clauses_view, lemma_branches_view};
use crate::safety::contains_str;

verus! {

// ===================== rule registry =====================

/// The models of a list of rules.
pub open spec fn rules_view(s: Seq<Rule>) -> Seq<RuleView> {
    s.map_values(|r: Rule| r@)
}

/// The first position of `x` in `s` (`s.len()` when absent).
pub open spec fn position(s: Seq<Seq<char>>, x: Seq<char>) -> int
    decreases s.len(),
{
    if s.len() == 0 {
        0
    } else if s[0] == x {
        0
    } else {
        1 + position(s.subrange(1, s.len() as int), x)
    }
}

/// The registry's model after registering rule `r` for predicate `p`: added
/// to the rules of `p`, or as a new last entry when `p` has none yet.
pub open spec fn registered(v: Seq<(Seq<char>, Seq<RuleView>)>, p: Seq<char>, r: RuleView) -> Seq<
    (Seq<char>, Seq<RuleView>),
> {
    let i = position(v.map_values(|e: (Seq<char>, Seq<RuleView>)| e.0), p);
    if i < v.len() {
        v.update(i, (v[i].0, v[i].1.push(r)))
    } else {
        v.push((p, seq![r]))
    }
}

/// Rules grouped by the predicate they define, in order of first
/// registration.
pub struct RuleRegistry {
    entries: Vec<(String, Vec<Rule>)>,
}

impl RuleRegistry {
    /// No predicate has two entries.
    #[verifier::type_invariant]
    spec fn predicates_distinct(self) -> bool {
        forall|i: int, j: int|
            0 <= i < j < self.entries@.len() ==> (#[trigger] self.entries@[i]).0@ != (#[trigger] self.entries@[j]).0@
    }
}

impl View for RuleRegistry {
    type V = Seq<(Seq<char>, Seq<RuleView>)>;

    closed spec fn view(&self) -> Seq<(Seq<char>, Seq<RuleView>)> {
        self.entries@.map_values(|e: (String, Vec<Rule>)| (e.0@, rules_view(e.1@)))
    }
}

pub(crate) proof fn lemma_position_bound(s: Seq<Seq<char>>, x: Seq<char>)
    ensures
        0 <= position(s, x) <= s.len(),
        position(s, x) < s.len() ==> s[position(s, x)] == x,
        position(s, x) == s.len() ==> !s.contains(x),
        forall|j: int| 0 <= j < position(s, x) ==> s[j] != x,
    decreases s.len(),
{
    if s.len() > 0 && s[0] != x {
        let t = s.subrange(1, s.len() as int);
        lemma_position_bound(t, x);
        assert forall|j: int| 0 <= j < position(s, x) implies s[j] != x by {
            if j > 0 {
                assert(s[j] == t[j - 1]);
            }
        }
        if position(s, x) == s.len() {
            assert forall|j: int| 0 <= j < s.len() implies s[j] != x by {
                if j > 0 {
                    assert(s[j] == t[j - 1]);
                }
            }
        }
    }
}

pub(crate) proof fn lemma_position_first(s: Seq<Seq<char>>, x: Seq<char>, i: int)
    requires
        0 <= i < s.len(),
        s[i] == x,
        forall|j: int| 0 <= j < i ==> s[j] != x,
    ensures
        position(s, x) == i,
    decreases s.len(),
{
    if i > 0 {
        let t = s.subrange(1, s.len() as int);
        assert forall|j: int| 0 <= j < i - 1 implies t[j] != x by {
            assert(t[j] == s[j + 1]);
        }
        lemma_position_first(t, x, i - 1);
    }
}

pub(crate) proof fn lemma_position_absent(s: Seq<Seq<char>>, x: Seq<char>)
    requires
        forall|j: int| 0 <= j < s.len() ==> s[j] != x,
    ensures
        position(s, x) == s.len(),
    decreases s.len(),
{
    if s.len() > 0 {
        let t = s.subrange(1, s.len() as int);
        assert forall|j: int| 0 <= j < t.len() implies t[j] != x by {
            assert(t[j] == s[j + 1]);
        }
        lemma_position_absent(t, x);
    }
}

impl RuleRegistry {
    /// An empty registry.
    pub fn new() -> (r: RuleRegistry)
        ensures
            r@ == Seq::<(Seq<char>, Seq<RuleView>)>::empty(),
    {
        let r = RuleRegistry { entries: Vec::new() };
        assert(r@ =~= Seq::<(Seq<char>, Seq<RuleView>)>::empty());
        r
    }

    /// Registers a rule for a predicate without checking the rule set.
    pub fn register_rule_unchecked(&mut self, predicate: String, rule: Rule)
        ensures
            final(self)@ == registered(old(self)@, predicate@, rule@),
    {
        proof {
            use_type_invariant(&*self);
        }
        let ghost v = self@;
        let ghost names = v.map_values(|e: (Seq<char>, Seq<RuleView>)| e.0);
        let mut entries: Vec<(String, Vec<Rule>)> = Vec::new();
        std::mem::swap(&mut entries, &mut self.entries);
        let ghost e0 = entries@;
        assert(v == e0.map_values(|e: (String, Vec<Rule>)| (e.0@, rules_view(e.1@))));
        assert(forall|a: int, b: int| 0 <= a < b < e0.len() ==> (#[trigger] e0[a]).0@ != (#[trigger] e0[b]).0@);
        let mut i: usize = 0;
        while i < entries.len()
            invariant
                i <= entries@.len(),
                entries@ == e0,
                v == old(self)@,
                forall|a: int, b: int| 0 <= a < b < e0.len() ==> (#[trigger] e0[a]).0@ != (#[trigger] e0[b]).0@,
                v == e0.map_values(|e: (String, Vec<Rule>)| (e.0@, rules_view(e.1@))),
                names == v.map_values(|e: (Seq<char>, Seq<RuleView>)| e.0),
                names.len() == entries@.len(),
                forall|j: int| 0 <= j < i ==> #[trigger] names[j] != predicate@,
            decreases entries@.len() - i,
        {
            assert(names[i as int] == entries@[i as int].0@);
            if str_eq(entries[i].0.as_str(), predicate.as_str()) {
                proof {
                    lemma_position_first(names, predicate@, i as int);
                }
                let mut e = entries.remove(i);
                e.1.push(rule);
                entries.insert(i, e);
                proof {
                    assert(rules_view(e.1@) =~= v[i as int].1.push(rule@));
                    assert(entries@.map_values(|e: (String, Vec<Rule>)| (e.0@, rules_view(e.1@))) =~= v.update(
                        i as int,
                        (v[i as int].0, v[i as int].1.push(rule@)),
                    ));
                    assert forall|k: int| 0 <= k < entries@.len() implies (#[trigger] entries@[k]).0@ == e0[k].0@ by {
                        if k != i {
                            assert(entries@[k] == e0[k]);
                        }
                    }
                }
                self.entries = entries;
                return;
            }
            i = i + 1;
        }
        proof {
            lemma_position_absent(names, predicate@);
            assert forall|j: int| 0 <= j < e0.len() implies (#[trigger] e0[j]).0@ != predicate@ by {
                assert(names[j] == e0[j].0@);
            }
        }
        let mut rs: Vec<Rule> = Vec::new();
        rs.push(rule);
        let ghost pv = predicate@;
        entries.push((predicate, rs));
        proof {
            assert(rules_view(rs@) =~= seq![rule@]);
            assert(entries@.map_values(|e: (String, Vec<Rule>)| (e.0@, rules_view(e.1@))) =~= v.push((pv, seq![rule@])));
            assert forall|k: int| 0 <= k < e0.len() implies (#[trigger] entries@[k]) == e0[k] by {}
        }
        self.entries = entries;
    }

    /// The registered rules, grouped by predicate.
    pub fn all_rules(&self) -> (r: &Vec<(String, Vec<Rule>)>)
        ensures
            r@.map_values(|e: (String, Vec<Rule>)| (e.0@, rules_view(e.1@))) == self@,
    {
        &self.entries
    }
}

// ===================== dependencies =====================

/// The predicates a clause depends on, with whether the dependency is
/// negative: a rule invocation is a positive one; a rule invocation directly
/// inside `not` / `not-join` a negative one; disjunctions contribute the
/// dependencies of their branches.
pub open spec fn clause_deps(c: ClauseView) -> Seq<(Seq<char>, bool)>
    decreases c,
{
    match c {
        ClauseView::RuleInvocation { predicate, .. } => seq![(predicate, false)],
        ClauseView::Not(inner) => negated_deps(inner),
        ClauseView::NotJoin { clauses, .. } => negated_deps(clauses),
        ClauseView::Or(bs) => branches_deps(bs),
        ClauseView::OrJoin { branches, .. } => branches_deps(branches),
        _ => Seq::empty(),
    }
}

/// The negative dependencies of the clauses of a negation.
pub open spec fn negated_deps(cs: Seq<ClauseView>) -> Seq<(Seq<char>, bool)>
    decreases cs.len(),
{
    if cs.len() == 0 {
        Seq::empty()
    } else {
        negated_deps(cs.drop_last()) + match cs.last() {
            ClauseView::RuleInvocation { predicate, .. } => seq![(predicate, true)],
            _ => Seq::empty(),
        }
    }
}

/// The dependencies of a sequence of clauses, in order.
pub open spec fn clauses_deps(cs: Seq<ClauseView>) -> Seq<(Seq<char>, bool)>
    decreases cs,
{
    if cs.len() == 0 {
        Seq::empty()
    } else {
        clauses_deps(cs.drop_last()) + clause_deps(cs.last())
    }
}

/// The dependencies of the branches of a disjunction, in order.
pub open spec fn branches_deps(bs: Seq<Seq<ClauseView>>) -> Seq<(Seq<char>, bool)>
    decreases bs,
{
    if bs.len() == 0 {
        Seq::empty()
    } else {
        branches_deps(bs.drop_last()) + clauses_deps(bs.last())
    }
}

/// The dependencies of the bodies of a predicate's rules, in order.
pub open spec fn rules_deps(rs: Seq<RuleView>) -> Seq<(Seq<char>, bool)>
    decreases rs.len(),
{
    if rs.len() == 0 {
        Seq::empty()
    } else {
        rules_deps(rs.drop_last()) + clauses_deps(rs.last().body)
    }
}

/// The dependency graph of a registry: one entry per predicate with rules.
pub open spec fn graph_of(v: Seq<(Seq<char>, Seq<RuleView>)>) -> Seq<(Seq<char>, Seq<(Seq<char>, bool)>)>
    decreases v.len(),
{
    if v.len() == 0 {
        Seq::empty()
    } else if v.last().1.len() > 0 {
        graph_of(v.drop_last()).push((v.last().0, rules_deps(v.last().1)))
    } else {
        graph_of(v.drop_last())
    }
}

/// The model of a dependency list.
pub open spec fn deps_view(s: Seq<(String, bool)>) -> Seq<(Seq<char>, bool)> {
    s.map_values(|x: (String, bool)| (x.0@, x.1))
}

proof fn lemma_deps_push(s: Seq<(String, bool)>, x: (String, bool))
    ensures
        deps_view(s.push(x)) == deps_view(s).push((x.0@, x.1)),
{
    assert(deps_view(s.push(x)) =~= deps_view(s).push((x.0@, x.1)));
}

fn collect_negated_deps(cs: &Vec<WhereClause>, entry: &mut Vec<(String, bool)>)
    ensures
        deps_view(final(entry)@) == deps_view(old(entry)@) + negated_deps(clauses_view(cs@)),
{
    proof {
        lemma_clauses_view(cs@);
    }
    let ghost cv = clauses_view(cs@);
    let mut k: usize = 0;
    assert(cv.subrange(0, 0) =~= Seq::<ClauseView>::empty());
    assert(deps_view(entry@) =~= deps_view(old(entry)@) + negated_deps(cv.subrange(0, 0)));
    while k < cs.len()
        invariant
            k <= cs@.len(),
            cv == clauses_view(cs@),
            cv.len() == cs@.len(),
            forall|i: int| 0 <= i < cs@.len() ==> #[trigger] cv[i] == cs@[i]@,
            deps_view(entry@) == deps_view(old(entry)@) + negated_deps(cv.subrange(0, k as int)),
        decreases cs@.len() - k,
    {
        assert(cv.subrange(0, k + 1).drop_last() =~= cv.subrange(0, k as int));
        assert(cv.subrange(0, k + 1).last() == cs@[k as int]@);
        let ghost prev = entry@;
        match &cs[k] {
            WhereClause::RuleInvocation { predicate, .. } => {
                let item = (predicate.clone(), true);
                let ghost iv = item;
                entry.push(item);
                proof {
                    lemma_deps_push(prev, iv);
                    assert(deps_view(entry@) =~= deps_view(old(entry)@) + negated_deps(cv.subrange(0, k + 1)));
                }
            },
            _ => {
                assert(deps_view(entry@) =~= deps_view(old(entry)@) + negated_deps(cv.subrange(0, k + 1)));
            },
        }
        k = k + 1;
    }
    assert(cv.subrange(0, cs@.len() as int) =~= cv);
}

/// Appends the dependencies of a clause to `entry` (see `clause_deps`).
pub fn collect_clause_deps(clause: &WhereClause, entry: &mut Vec<(String, bool)>)
    ensures
        deps_view(final(entry)@) == deps_view(old(entry)@) + clause_deps(clause@),
    decreases clause,
{
    match clause {
        WhereClause::RuleInvocation { predicate, .. } => {
            let ghost prev = entry@;
            let item = (predicate.clone(), false);
            let ghost iv = item;
            entry.push(item);
            proof {
                lemma_deps_push(prev, iv);
                assert(deps_view(entry@) =~= deps_view(prev) + seq![(predicate@, false)]);
            }
        },
        WhereClause::Not(inner) => collect_negated_deps(inner, entry),
        WhereClause::NotJoin { clauses: inner, .. } => collect_negated_deps(inner, entry),
        WhereClause::Or(branches) => collect_branches_deps(branches, entry),
        WhereClause::OrJoin { branches, .. } => collect_branches_deps(branches, entry),
        _ => {
            assert(deps_view(entry@) =~= deps_view(old(entry)@) + Seq::<(Seq<char>, bool)>::empty());
        },
    }
}

fn collect_clauses_deps(cs: &Vec<WhereClause>, entry: &mut Vec<(String, bool)>)
    ensures
        deps_view(final(entry)@) == deps_view(old(entry)@) + clauses_deps(clauses_view(cs@)),
    decreases cs,
{
    proof {
        lemma_clauses_view(cs@);
    }
    let ghost cv = clauses_view(cs@);
    let mut k: usize = 0;
    assert(cv.subrange(0, 0) =~= Seq::<ClauseView>::empty());
    assert(deps_view(entry@) =~= deps_view(old(entry)@) + clauses_deps(cv.subrange(0, 0)));
    while k < cs.len()
        invariant
            k <= cs@.len(),
            cv == clauses_view(cs@),
            cv.len() == cs@.len(),
            forall|i: int| 0 <= i < cs@.len() ==> #[trigger] cv[i] == cs@[i]@,
            deps_view(entry@) == deps_view(old(entry)@) + clauses_deps(cv.subrange(0, k as int)),
        decreases cs@.len() - k,
    {
        assert(cv.subrange(0, k + 1).drop_last() =~= cv.subrange(0, k as int));
        assert(cv.subrange(0, k + 1).last() == cs@[k as int]@);
        collect_clause_deps(&cs[k], entry);
        assert(deps_view(entry@) =~= deps_view(old(entry)@) + clauses_deps(cv.subrange(0, k + 1)));
        k = k + 1;
    }
    assert(cv.subrange(0, cs@.len() as int) =~= cv);
}

fn collect_branches_deps(bs: &Vec<Vec<WhereClause>>, entry: &mut Vec<(String, bool)>)
    ensures
        deps_view(final(entry)@) == deps_view(old(entry)@) + branches_deps(branches_view(bs@)),
    decreases bs,
{
    proof {
        lemma_branches_view(bs@);
    }
    let ghost bv = branches_view(bs@);
    let mut k: usize = 0;
    assert(bv.subrange(0, 0) =~= Seq::<Seq<ClauseView>>::empty());
    assert(deps_view(entry@) =~= deps_view(old(entry)@) + branches_deps(bv.subrange(0, 0)));
    while k < bs.len()
        invariant
            k <= bs@.len(),
            bv == branches_view(bs@),
            bv.len() == bs@.len(),
            forall|i: int| 0 <= i < bs@.len() ==> #[trigger] bv[i] == clauses_view(bs@[i]@),
            deps_view(entry@) == deps_view(old(entry)@) + branches_deps(bv.subrange(0, k as int)),
        decreases bs@.len() - k,
    {
        assert(bv.subrange(0, k + 1).drop_last() =~= bv.subrange(0, k as int));
        assert(bv.subrange(0, k + 1).last() == clauses_view(bs@[k as int]@));
        collect_clauses_deps(&bs[k], entry);
        assert(deps_view(entry@) =~= deps_view(old(entry)@) + branches_deps(bv.subrange(0, k + 1)));
        k = k + 1;
    }
    assert(bv.subrange(0, bs@.len() as int) =~= bv);
}

/// The model of a dependency graph.
pub open spec fn edges_view(s: Seq<(String, Vec<(String, bool)>)>) -> Seq<(Seq<char>, Seq<(Seq<char>, bool)>)> {
    s.map_values(|e: (String, Vec<(String, bool)>)| (e.0@, deps_view(e.1@)))
}

/// The dependencies of each predicate that has rules: for a head, the
/// predicates its rule bodies use, each marked negative when used under a
/// negation.
pub struct DependencyGraph {
    edges: Vec<(String, Vec<(String, bool)>)>,
}

impl View for DependencyGraph {
    type V = Seq<(Seq<char>, Seq<(Seq<char>, bool)>)>;

    closed spec fn view(&self) -> Seq<(Seq<char>, Seq<(Seq<char>, bool)>)> {
        edges_view(self.edges@)
    }
}

pub(crate) fn rules_entry(rules: &Vec<Rule>) -> (entry: Vec<(String, bool)>)
    ensures
        deps_view(entry@) == rules_deps(rules_view(rules@)),
{
    let ghost rv = rules_view(rules@);
    let mut entry: Vec<(String, bool)> = Vec::new();
    let mut k: usize = 0;
    assert(rv.subrange(0, 0) =~= Seq::<RuleView>::empty());
    assert(deps_view(entry@) =~= Seq::<(Seq<char>, bool)>::empty());
    while k < rules.len()
        invariant
            k <= rules@.len(),
            rv == rules_view(rules@),
            rv.len() == rules@.len(),
            deps_view(entry@) == rules_deps(rv.subrange(0, k as int)),
        decreases rules@.len() - k,
    {
        assert(rv.subrange(0, k + 1).drop_last() =~= rv.subrange(0, k as int));
        assert(rv.subrange(0, k + 1).last() == rules@[k as int]@);
        collect_clauses_deps(&rules[k].body, &mut entry);
        k = k + 1;
    }
    assert(rv.subrange(0, rules@.len() as int) =~= rv);
    entry
}

impl DependencyGraph {
    /// The dependency graph of the rules of a registry (see `graph_of`).
    pub fn from_rules(registry: &RuleRegistry) -> (g: DependencyGraph)
        ensures
            g@ == graph_of(registry@),
    {
        let all = registry.all_rules();
        let ghost rv = registry@;
        let mut edges: Vec<(String, Vec<(String, bool)>)> = Vec::new();
        let mut k: usize = 0;
        assert(rv.subrange(0, 0) =~= Seq::<(Seq<char>, Seq<RuleView>)>::empty());
        assert(edges_view(edges@) =~= Seq::<(Seq<char>, Seq<(Seq<char>, bool)>)>::empty());
        while k < all.len()
            invariant
                k <= all@.len(),
                rv == all@.map_values(|e: (String, Vec<Rule>)| (e.0@, rules_view(e.1@))),
                rv.len() == all@.len(),
                edges_view(edges@) == graph_of(rv.subrange(0, k as int)),
            decreases all@.len() - k,
        {
            assert(rv.subrange(0, k + 1).drop_last() =~= rv.subrange(0, k as int));
            assert(rv.subrange(0, k + 1).last() == (all@[k as int].0@, rules_view(all@[k as int].1@)));
            let (head, rules) = &all[k];
            if rules.len() > 0 {
                let entry = rules_entry(rules);
                let ghost prev = edges@;
                edges.push((head.clone(), entry));
                assert(edges_view(edges@) =~= edges_view(prev).push((head@, deps_view(entry@))));
            }
            k = k + 1;
        }
        assert(rv.subrange(0, all@.len() as int) =~= rv);
        DependencyGraph { edges }
    }
}

// ===================== strata =====================

/// `acc` with `x` appended unless it already holds it.
pub open spec fn add_name(acc: Seq<Seq<char>>, x: Seq<char>) -> Seq<Seq<char>> {
    if acc.contains(x) {
        acc
    } else {
        acc.push(x)
    }
}

/// `acc` with the predicates of `deps` added in order.
pub open spec fn add_deps(acc: Seq<Seq<char>>, deps: Seq<(Seq<char>, bool)>) -> Seq<Seq<char>>
    decreases deps.len(),
{
    if deps.len() == 0 {
        acc
    } else {
        add_name(add_deps(acc, deps.drop_last()), deps.last().0)
    }
}

/// Every predicate of a graph, heads and dependencies, once each, in order
/// of first appearance.
pub open spec fn predicates(g: Seq<(Seq<char>, Seq<(Seq<char>, bool)>)>) -> Seq<Seq<char>>
    decreases g.len(),
{
    if g.len() == 0 {
        Seq::empty()
    } else {
        add_deps(add_name(predicates(g.drop_last()), g.last().0), g.last().1)
    }
}

proof fn lemma_add_name_distinct(acc: Seq<Seq<char>>, x: Seq<char>)
    requires
        acc.no_duplicates(),
    ensures
        add_name(acc, x).no_duplicates(),
{
    if !acc.contains(x) {
        assert forall|i: int, j: int| 0 <= i < acc.push(x).len() && 0 <= j < acc.push(x).len() && i != j implies acc.push(
            x,
        )[i] != acc.push(x)[j] by {
            if i < acc.len() && j == acc.len() {
                assert(acc[i] == acc.push(x)[i]);
            }
            if j < acc.len() && i == acc.len() {
                assert(acc[j] == acc.push(x)[j]);
            }
        }
    }
}

proof fn lemma_add_deps_distinct(acc: Seq<Seq<char>>, deps: Seq<(Seq<char>, bool)>)
    requires
        acc.no_duplicates(),
    ensures
        add_deps(acc, deps).no_duplicates(),
    decreases deps.len(),
{
    if deps.len() > 0 {
        lemma_add_deps_distinct(acc, deps.drop_last());
        lemma_add_name_distinct(add_deps(acc, deps.drop_last()), deps.last().0);
    }
}

/// A graph's predicates are listed once each.
pub proof fn lemma_predicates_distinct(g: Seq<(Seq<char>, Seq<(Seq<char>, bool)>)>)
    ensures
        predicates(g).no_duplicates(),
    decreases g.len(),
{
    if g.len() > 0 {
        lemma_predicates_distinct(g.drop_last());
        lemma_add_name_distinct(predicates(g.drop_last()), g.last().0);
        lemma_add_deps_distinct(add_name(predicates(g.drop_last()), g.last().0), g.last().1);
    }
}

/// The edges of a graph as (head, dependency, negative), in order.
pub open spec fn edge_list(g: Seq<(Seq<char>, Seq<(Seq<char>, bool)>)>) -> Seq<(Seq<char>, Seq<char>, bool)>
    decreases g.len(),
{
    if g.len() == 0 {
        Seq::empty()
    } else {
        edge_list(g.drop_last()) + g.last().1.map_values(
            |d: (Seq<char>, bool)| (g.last().0, d.0, d.1),
        )
    }
}

/// Edges with their predicates replaced by their positions in `names`.
pub open spec fn index_of_edges(names: Seq<Seq<char>>, el: Seq<(Seq<char>, Seq<char>, bool)>) -> Seq<
    (int, int, bool),
> {
    el.map_values(|e: (Seq<char>, Seq<char>, bool)| (position(names, e.0), position(names, e.1), e.2))
}

/// The edges of a graph over the positions of `predicates(g)`.
pub open spec fn index_edges(g: Seq<(Seq<char>, Seq<(Seq<char>, bool)>)>) -> Seq<(int, int, bool)> {
    index_of_edges(predicates(g), edge_list(g))
}

/// Levels `lv` (indexed like the predicates) put every head at or above its
/// positive dependencies and strictly above its negative ones.
pub open spec fn respects(ei: Seq<(int, int, bool)>, lv: Seq<int>) -> bool {
    forall|k: int|
        #![trigger ei[k]]
        0 <= k < ei.len() ==> lv[ei[k].1] + (if ei[k].2 {
            1int
        } else {
            0int
        }) <= lv[ei[k].0]
}

/// `t` is a stratification of `n` predicates: non-negative levels that
/// respect the edges.
pub open spec fn admissible(ei: Seq<(int, int, bool)>, n: int, t: Seq<int>) -> bool {
    &&& t.len() == n
    &&& forall|p: int| 0 <= p < n ==> 0 <= #[trigger] t[p]
    &&& respects(ei, t)
}

/// Each level of `a` is at most the matching one of `b`.
pub open spec fn below(a: Seq<int>, b: Seq<int>) -> bool {
    forall|p: int| 0 <= p < a.len() ==> #[trigger] a[p] <= b[p]
}

/// Levels as integers.
pub open spec fn levels_int(s: Seq<usize>) -> Seq<int> {
    s.map_values(|x: usize| x as int)
}

/// The message of a graph that cannot be stratified, naming the edge where
/// the search gave up.
pub open spec fn cycle_message(head: Seq<char>, dep: Seq<char>) -> Seq<char> {
    "INT-054: rules cannot be stratified: negative dependency cycle through "@ + head + " and "@ + dep
}

/// The stratum of each predicate.
pub struct Strata {
    names: Vec<String>,
    levels: Vec<usize>,
}

impl Strata {
    /// The predicates, in order.
    pub closed spec fn names_view(&self) -> Seq<Seq<char>> {
        strs_view(self.names@)
    }

    /// Their levels, in the same order.
    pub closed spec fn levels_view(&self) -> Seq<int> {
        levels_int(self.levels@)
    }

    /// The stratum of a predicate, if it is one of the graph's.
    pub fn get(&self, name: &str) -> (r: Option<usize>)
        requires
            self.names_view().len() == self.levels_view().len(),
        ensures
            match r {
                Some(l) => position(self.names_view(), name@) < self.names_view().len() && l
                    == self.levels_view()[position(self.names_view(), name@)],
                None => position(self.names_view(), name@) == self.names_view().len(),
            },
    {
        let i = find_name(&self.names, name);
        proof {
            lemma_position_bound(strs_view(self.names@), name@);
        }
        if i < self.names.len() {
            Some(self.levels[i])
        } else {
            None
        }
    }

    /// The number of predicates.
    pub fn len(&self) -> (r: usize)
        ensures
            r == self.names_view().len(),
    {
        self.names.len()
    }
}

pub(crate) fn find_name(names: &Vec<String>, x: &str) -> (r: usize)
    ensures
        r as int == position(strs_view(names@), x@),
{
    let ghost nv = strs_view(names@);
    let mut i: usize = 0;
    while i < names.len()
        invariant
            i <= names@.len(),
            nv == strs_view(names@),
            nv.len() == names@.len(),
            forall|j: int| 0 <= j < i ==> #[trigger] nv[j] != x@,
        decreases names@.len() - i,
    {
        assert(nv[i as int] == names@[i as int]@);
        if str_eq(names[i].as_str(), x) {
            proof {
                lemma_position_first(nv, x@, i as int);
            }
            return i;
        }
        i = i + 1;
    }
    proof {
        lemma_position_absent(nv, x@);
    }
    i
}

pub(crate) fn add_name_exec(names: &mut Vec<String>, x: &String)
    ensures
        strs_view(final(names)@) == add_name(strs_view(old(names)@), x@),
{
    if !contains_str(names, x.as_str()) {
        let ghost prev = names@;
        names.push(x.clone());
        assert(strs_view(names@) =~= strs_view(prev).push(x@));
    }
}

proof fn lemma_add_name_keeps(acc: Seq<Seq<char>>, x: Seq<char>, y: Seq<char>)
    ensures
        add_name(acc, x).contains(x),
        acc.contains(y) ==> add_name(acc, x).contains(y),
{
    if !acc.contains(x) {
        assert(acc.push(x)[acc.len() as int] == x);
        if acc.contains(y) {
            let i = choose|i: int| 0 <= i < acc.len() && acc[i] == y;
            assert(acc.push(x)[i] == y);
        }
    }
}

proof fn lemma_add_deps_keeps(acc: Seq<Seq<char>>, deps: Seq<(Seq<char>, bool)>, y: Seq<char>)
    ensures
        acc.contains(y) ==> add_deps(acc, deps).contains(y),
        forall|j: int| 0 <= j < deps.len() ==> add_deps(acc, deps).contains(#[trigger] deps[j].0),
    decreases deps.len(),
{
    if deps.len() > 0 {
        let d = deps.drop_last();
        lemma_add_deps_keeps(acc, d, y);
        lemma_add_name_keeps(add_deps(acc, d), deps.last().0, y);
        assert forall|j: int| 0 <= j < deps.len() implies add_deps(acc, deps).contains(#[trigger] deps[j].0) by {
            if j < deps.len() - 1 {
                assert(d[j] == deps[j]);
                lemma_add_deps_keeps(acc, d, deps[j].0);
                lemma_add_name_keeps(add_deps(acc, d), deps.last().0, deps[j].0);
            }
        }
    }
}

proof fn lemma_predicates_grow(g: Seq<(Seq<char>, Seq<(Seq<char>, bool)>)>, i: int, y: Seq<char>)
    requires
        0 <= i <= g.len(),
        predicates(g.subrange(0, i)).contains(y),
    ensures
        predicates(g).contains(y),
    decreases g.len() - i,
{
    if i < g.len() {
        let h = g.subrange(0, i + 1);
        assert(h.drop_last() =~= g.subrange(0, i));
        lemma_add_name_keeps(predicates(g.subrange(0, i)), h.last().0, y);
        lemma_add_deps_keeps(add_name(predicates(g.subrange(0, i)), h.last().0), h.last().1, y);
        lemma_predicates_grow(g, i + 1, y);
    } else {
        assert(g.subrange(0, i) =~= g);
    }
}

proof fn lemma_edges_named(g: Seq<(Seq<char>, Seq<(Seq<char>, bool)>)>)
    ensures
        forall|k: int|
            #![trigger edge_list(g)[k]]
            0 <= k < edge_list(g).len() ==> predicates(g).contains(edge_list(g)[k].0) && predicates(g).contains(
                edge_list(g)[k].1,
            ),
    decreases g.len(),
{
    if g.len() > 0 {
        let d = g.drop_last();
        lemma_edges_named(d);
        let last = g.last();
        let base = add_name(predicates(d), last.0);
        let tail = last.1.map_values(|x: (Seq<char>, bool)| (last.0, x.0, x.1));
        assert forall|k: int|
            #![trigger edge_list(g)[k]]
            0 <= k < edge_list(g).len() implies predicates(g).contains(edge_list(g)[k].0) && predicates(
                g,
            ).contains(edge_list(g)[k].1) by {
            if k < edge_list(d).len() {
                assert(edge_list(g)[k] == edge_list(d)[k]);
                let e = edge_list(d)[k];
                lemma_add_name_keeps(predicates(d), last.0, e.0);
                lemma_add_name_keeps(predicates(d), last.0, e.1);
                lemma_add_deps_keeps(base, last.1, e.0);
                lemma_add_deps_keeps(base, last.1, e.1);
            } else {
                let j = k - edge_list(d).len();
                assert(edge_list(g)[k] == tail[j]);
                lemma_add_name_keeps(predicates(d), last.0, last.0);
                lemma_add_deps_keeps(base, last.1, last.0);
                assert(last.1[j].0 == tail[j].1);
            }
        }
    }
}

/// The model of a list of named edges.
pub open spec fn flat_view(s: Seq<(String, String, bool)>) -> Seq<(Seq<char>, Seq<char>, bool)> {
    s.map_values(|e: (String, String, bool)| (e.0@, e.1@, e.2))
}

/// Positions as integers.
pub open spec fn idx_view(s: Seq<(usize, usize, bool)>) -> Seq<(int, int, bool)> {
    s.map_values(|e: (usize, usize, bool)| (e.0 as int, e.1 as int, e.2))
}

/// The sum over the predicates of how far each level is below `n`.
pub open spec fn slack(lv: Seq<int>, n: int) -> int
    decreases lv.len(),
{
    if lv.len() == 0 {
        0
    } else {
        slack(lv.drop_last(), n) + (n - lv.last())
    }
}

proof fn lemma_slack(a: Seq<int>, b: Seq<int>, n: int)
    requires
        a.len() == b.len(),
        forall|p: int| 0 <= p < a.len() ==> #[trigger] a[p] <= b[p],
    ensures
        slack(b, n) <= slack(a, n),
        (exists|p: int| 0 <= p < a.len() && #[trigger] a[p] < b[p]) ==> slack(b, n) < slack(a, n),
    decreases a.len(),
{
    if a.len() > 0 {
        let a0 = a.drop_last();
        let b0 = b.drop_last();
        assert forall|p: int| 0 <= p < a0.len() implies #[trigger] a0[p] <= b0[p] by {
            assert(a0[p] == a[p] && b0[p] == b[p]);
        }
        lemma_slack(a0, b0, n);
        if exists|p: int| 0 <= p < a.len() && #[trigger] a[p] < b[p] {
            let p = choose|p: int| 0 <= p < a.len() && #[trigger] a[p] < b[p];
            if p < a.len() - 1 {
                assert(a0[p] == a[p] && b0[p] == b[p]);
            }
        }
    }
}

proof fn lemma_slack_nonneg(a: Seq<int>, n: int)
    requires
        forall|p: int| 0 <= p < a.len() ==> #[trigger] a[p] <= n,
    ensures
        slack(a, n) >= 0,
    decreases a.len(),
{
    if a.len() > 0 {
        let a0 = a.drop_last();
        assert forall|p: int| 0 <= p < a0.len() implies #[trigger] a0[p] <= n by {
            assert(a0[p] == a[p]);
        }
        lemma_slack_nonneg(a0, n);
    }
}

fn graph_names(edges: &Vec<(String, Vec<(String, bool)>)>) -> (names: Vec<String>)
    ensures
        strs_view(names@) == predicates(edges_view(edges@)),
{
    let ghost g = edges_view(edges@);
    let mut names: Vec<String> = Vec::new();
    let mut k: usize = 0;
    assert(g.subrange(0, 0) =~= Seq::<(Seq<char>, Seq<(Seq<char>, bool)>)>::empty());
    assert(strs_view(names@) =~= Seq::<Seq<char>>::empty());
    while k < edges.len()
        invariant
            k <= edges@.len(),
            g == edges_view(edges@),
            g.len() == edges@.len(),
            strs_view(names@) == predicates(g.subrange(0, k as int)),
        decreases edges@.len() - k,
    {
        let ghost prefix = g.subrange(0, k + 1);
        assert(prefix.drop_last() =~= g.subrange(0, k as int));
        assert(prefix.last() == (edges@[k as int].0@, deps_view(edges@[k as int].1@)));
        let (head, deps) = &edges[k];
        add_name_exec(&mut names, head);
        let ghost base = strs_view(names@);
        let ghost dv = deps_view(deps@);
        let mut j: usize = 0;
        assert(dv.subrange(0, 0) =~= Seq::<(Seq<char>, bool)>::empty());
        while j < deps.len()
            invariant
                j <= deps@.len(),
                dv == deps_view(deps@),
                dv.len() == deps@.len(),
                strs_view(names@) == add_deps(base, dv.subrange(0, j as int)),
            decreases deps@.len() - j,
        {
            assert(dv.subrange(0, j + 1).drop_last() =~= dv.subrange(0, j as int));
            assert(dv.subrange(0, j + 1).last() == (deps@[j as int].0@, deps@[j as int].1));
            add_name_exec(&mut names, &deps[j].0);
            j = j + 1;
        }
        assert(dv.subrange(0, deps@.len() as int) =~= dv);
        k = k + 1;
    }
    assert(g.subrange(0, edges@.len() as int) =~= g);
    names
}

fn graph_edges(edges: &Vec<(String, Vec<(String, bool)>)>) -> (flat: Vec<(String, String, bool)>)
    ensures
        flat_view(flat@) == edge_list(edges_view(edges@)),
{
    let ghost g = edges_view(edges@);
    let mut flat: Vec<(String, String, bool)> = Vec::new();
    let mut k: usize = 0;
    assert(g.subrange(0, 0) =~= Seq::<(Seq<char>, Seq<(Seq<char>, bool)>)>::empty());
    assert(flat_view(flat@) =~= Seq::<(Seq<char>, Seq<char>, bool)>::empty());
    while k < edges.len()
        invariant
            k <= edges@.len(),
            g == edges_view(edges@),
            g.len() == edges@.len(),
            flat_view(flat@) == edge_list(g.subrange(0, k as int)),
        decreases edges@.len() - k,
    {
        let ghost prefix = g.subrange(0, k + 1);
        assert(prefix.drop_last() =~= g.subrange(0, k as int));
        assert(prefix.last() == (edges@[k as int].0@, deps_view(edges@[k as int].1@)));
        let (head, deps) = &edges[k];
        let ghost base = flat_view(flat@);
        let ghost dv = deps_view(deps@);
        let ghost hv = head@;
        let mut j: usize = 0;
        assert(base + dv.subrange(0, 0).map_values(|d: (Seq<char>, bool)| (hv, d.0, d.1)) =~= base);
        while j < deps.len()
            invariant
                j <= deps@.len(),
                dv == deps_view(deps@),
                dv.len() == deps@.len(),
                hv == head@,
                flat_view(flat@) == base + dv.subrange(0, j as int).map_values(
                    |d: (Seq<char>, bool)| (hv, d.0, d.1),
                ),
            decreases deps@.len() - j,
        {
            let ghost prev = flat@;
            flat.push((head.clone(), deps[j].0.clone(), deps[j].1));
            proof {
                assert(dv[j as int] == (deps@[j as int].0@, deps@[j as int].1));
                assert(flat_view(flat@) =~= flat_view(prev).push((hv, deps@[j as int].0@, deps@[j as int].1)));
                assert(dv.subrange(0, j + 1).map_values(|d: (Seq<char>, bool)| (hv, d.0, d.1)) =~= dv.subrange(
                    0,
                    j as int,
                ).map_values(|d: (Seq<char>, bool)| (hv, d.0, d.1)).push((hv, deps@[j as int].0@, deps@[j as int].1)));
            }
            j = j + 1;
        }
        assert(dv.subrange(0, deps@.len() as int) =~= dv);
        k = k + 1;
    }
    assert(g.subrange(0, edges@.len() as int) =~= g);
    flat
}

fn index_all(names: &Vec<String>, flat: &Vec<(String, String, bool)>) -> (ei: Vec<(usize, usize, bool)>)
    ensures
        idx_view(ei@) == index_of_edges(strs_view(names@), flat_view(flat@)),
{
    let ghost fv = flat_view(flat@);
    let ghost nv = strs_view(names@);
    let mut ei: Vec<(usize, usize, bool)> = Vec::new();
    let mut k: usize = 0;
    assert(idx_view(ei@) =~= index_of_edges(nv, fv.subrange(0, 0)));
    while k < flat.len()
        invariant
            k <= flat@.len(),
            fv == flat_view(flat@),
            nv == strs_view(names@),
            fv.len() == flat@.len(),
            idx_view(ei@) == index_of_edges(nv, fv.subrange(0, k as int)),
        decreases flat@.len() - k,
    {
        let h = find_name(names, flat[k].0.as_str());
        let d = find_name(names, flat[k].1.as_str());
        let ghost prev = ei@;
        ei.push((h, d, flat[k].2));
        proof {
            assert(fv[k as int] == (flat@[k as int].0@, flat@[k as int].1@, flat@[k as int].2));
            assert(idx_view(ei@) =~= idx_view(prev).push((h as int, d as int, flat@[k as int].2)));
            assert(index_of_edges(nv, fv.subrange(0, k + 1)) =~= index_of_edges(nv, fv.subrange(0, k as int)).push(
                (h as int, d as int, flat@[k as int].2),
            ));
        }
        k = k + 1;
    }
    assert(fv.subrange(0, flat@.len() as int) =~= fv);
    ei
}

impl DependencyGraph {
    /// Assigns each predicate the least stratum that puts it at or above
    /// its positive dependencies and strictly above its negative ones,
    /// propagating the constraints until nothing changes. Fails when some
    /// stratum would reach the number of predicates, which happens exactly
    /// when no stratification with fewer strata than predicates exists,
    /// that is when there is a negative dependency cycle (see
    /// `lemma_unstratifiable_iff_negative_cycle`).
    pub fn stratify(&self) -> (r: Result<Strata, String>)
        ensures
            match r {
                Ok(s) => {
                    &&& s.names_view() == predicates(self@)
                    &&& s.names_view().no_duplicates()
                    &&& s.levels_view().len() == s.names_view().len()
                    &&& respects(index_edges(self@), s.levels_view())
                    &&& forall|t: Seq<int>|
                        #[trigger] admissible(index_edges(self@), predicates(self@).len() as int, t) ==> below(
                            s.levels_view(),
                            t,
                        )
                },
                Err(m) => {
                    &&& unstratifiable(self@)
                    &&& exists|k: int|
                        0 <= k < edge_list(self@).len() && m@ == cycle_message(
                            #[trigger] edge_list(self@)[k].0,
                            edge_list(self@)[k].1,
                        )
                },
            },
    {
        let ghost g = self@;
        proof {
            lemma_predicates_distinct(g);
        }
        let names = graph_names(&self.edges);
        let flat = graph_edges(&self.edges);
        let eidx = index_all(&names, &flat);
        let ghost ei = idx_view(eidx@);
        let n = names.len();
        proof {
            lemma_edges_named(g);
            assert forall|k: int| 0 <= k < ei.len() implies 0 <= #[trigger] ei[k].0 < n && 0 <= ei[k].1 < n by {
                assert(ei[k] == index_of_edges(predicates(g), edge_list(g))[k]);
                assert(edge_list(g)[k] == flat_view(flat@)[k]);
                lemma_position_bound(predicates(g), edge_list(g)[k].0);
                lemma_position_bound(predicates(g), edge_list(g)[k].1);
            }
        }
        let mut levels: Vec<usize> = Vec::new();
        let mut i: usize = 0;
        while i < n
            invariant
                i <= n,
                levels@.len() == i,
                forall|p: int| 0 <= p < i ==> levels@[p] == 0,
            decreases n - i,
        {
            levels.push(0);
            i = i + 1;
        }
        proof {
            assert forall|t: Seq<int>| #[trigger] admissible(ei, n as int, t) implies below(levels_int(levels@), t) by {
                assert forall|p: int| 0 <= p < levels_int(levels@).len() implies #[trigger] levels_int(levels@)[p]
                    <= t[p] by {
                    assert(0 <= t[p]);
                }
            }
        }
        let mut changed = true;
        while changed
            invariant
                n == names@.len(),
                ei == idx_view(eidx@),
                ei == index_edges(g),
                g == self@,
                strs_view(names@) == predicates(g),
                flat_view(flat@) == edge_list(g),
                forall|k: int| 0 <= k < ei.len() ==> 0 <= #[trigger] ei[k].0 < n && 0 <= ei[k].1 < n,
                levels@.len() == n,
                forall|p: int| 0 <= p < n ==> #[trigger] levels@[p] < n,
                forall|t: Seq<int>| #[trigger] admissible(ei, n as int, t) ==> below(levels_int(levels@), t),
                !changed ==> respects(ei, levels_int(levels@)),
            decreases slack(levels_int(levels@), n as int), if changed {
                1int
            } else {
                0int
            },
        {
            let ghost s0 = levels_int(levels@);
            proof {
                lemma_slack_nonneg(s0, n as int);
            }
            changed = false;
            let mut k: usize = 0;
            while k < eidx.len()
                invariant
                    n == names@.len(),
                    ei == idx_view(eidx@),
                    ei == index_edges(g),
                    g == self@,
                    flat_view(flat@) == edge_list(g),
                    strs_view(names@) == predicates(g),
                    k <= eidx@.len(),
                    forall|j: int| 0 <= j < ei.len() ==> 0 <= #[trigger] ei[j].0 < n && 0 <= ei[j].1 < n,
                    levels@.len() == n,
                    s0.len() == n,
                    forall|p: int| 0 <= p < n ==> #[trigger] levels@[p] < n,
                    forall|p: int| 0 <= p < n ==> s0[p] <= #[trigger] levels_int(levels@)[p],
                    changed ==> exists|p: int| 0 <= p < n && s0[p] < #[trigger] levels_int(levels@)[p],
                    !changed ==> levels_int(levels@) == s0,
                    !changed ==> forall|j: int|
                        #![trigger ei[j]]
                        0 <= j < k ==> levels_int(levels@)[ei[j].1] + (if ei[j].2 {
                            1int
                        } else {
                            0int
                        }) <= levels_int(levels@)[ei[j].0],
                    forall|t: Seq<int>| #[trigger] admissible(ei, n as int, t) ==> below(levels_int(levels@), t),
                decreases eidx@.len() - k,
            {
                let (h, d, neg) = eidx[k];
                assert(ei[k as int] == (h as int, d as int, neg));
                let dep_level = levels[d];
                let required = if neg {
                    dep_level + 1
                } else {
                    dep_level
                };
                let ghost before = levels_int(levels@);
                assert(before[h as int] == levels@[h as int]);
                if required > levels[h] {
                    levels.set(h, required);
                    changed = true;
                    proof {
                        assert(levels_int(levels@) =~= before.update(h as int, required as int));
                        assert(s0[h as int] < levels_int(levels@)[h as int]);
                        assert forall|t: Seq<int>| #[trigger] admissible(ei, n as int, t) implies below(
                            levels_int(levels@),
                            t,
                        ) by {
                            assert(below(before, t));
                            assert(before[d as int] <= t[d as int]);
                            assert(ei[k as int] == (h as int, d as int, neg));
                            assert forall|p: int| 0 <= p < levels_int(levels@).len() implies #[trigger] levels_int(
                                levels@,
                            )[p] <= t[p] by {
                                if p != h {
                                    assert(before[p] <= t[p]);
                                }
                            }
                        }
                    }
                }
                if levels[h] >= n {
                    proof {
                        assert forall|t: Seq<int>| #[trigger] admissible(ei, n as int, t) implies exists|p: int|
                            0 <= p < t.len() && t[p] >= n by {
                            assert(below(levels_int(levels@), t));
                            assert(levels_int(levels@)[h as int] <= t[h as int]);
                        }
                        assert(edge_list(g)[k as int] == flat_view(flat@)[k as int]);
                    }
                    let mut m = concat(
                        "INT-054: rules cannot be stratified: negative dependency cycle through ",
                        flat[k].0.as_str(),
                    );
                    m.append(" and ");
                    m.append(flat[k].1.as_str());
                    proof {
                        assert(flat_view(flat@)[k as int] == (flat@[k as int].0@, flat@[k as int].1@, flat@[k as int].2));
                    }
                    return Err(m);
                }
                k = k + 1;
            }
            proof {
                lemma_slack(s0, levels_int(levels@), n as int);
                assert forall|p: int| 0 <= p < levels_int(levels@).len() implies #[trigger] levels_int(levels@)[p] <= n by {
                    assert(levels@[p] < n);
                }
                lemma_slack_nonneg(levels_int(levels@), n as int);
                assert(changed ==> slack(levels_int(levels@), n as int) < slack(s0, n as int));
                assert(!changed ==> slack(levels_int(levels@), n as int) == slack(s0, n as int));
            }
        }
        Ok(Strata { names, levels })
    }
}

/// Edges `ks` of `el` form a cycle: each edge's dependency is the head of
/// the next one, and the last one's dependency is the head of the first.
pub open spec fn is_cycle(el: Seq<(Seq<char>, Seq<char>, bool)>, ks: Seq<int>) -> bool {
    &&& ks.len() > 0
    &&& forall|i: int| 0 <= i < ks.len() ==> 0 <= #[trigger] ks[i] < el.len()
    &&& forall|i: int| 0 <= i < ks.len() - 1 ==> #[trigger] el[ks[i]].1 == el[ks[i + 1]].0
    &&& el[ks[ks.len() - 1]].1 == el[ks[0]].0
}

proof fn lemma_cycle_chain(
    g: Seq<(Seq<char>, Seq<(Seq<char>, bool)>)>,
    ks: Seq<int>,
    lv: Seq<int>,
    j: int,
    i: int,
)
    requires
        is_cycle(edge_list(g), ks),
        respects(index_edges(g), lv),
        0 <= j < ks.len(),
        0 <= i < ks.len(),
    ensures
        ({
            let el = edge_list(g);
            let names = predicates(g);
            let end = lv[position(names, el[ks[ks.len() - 1]].1)];
            let start = lv[position(names, el[ks[i]].0)];
            &&& start >= end
            &&& (i <= j && el[ks[j]].2) ==> start >= end + 1
        }),
    decreases ks.len() - i,
{
    let el = edge_list(g);
    let names = predicates(g);
    let ei = index_edges(g);
    let k = ks[i];
    assert(ei[k] == (position(names, el[k].0), position(names, el[k].1), el[k].2));
    if i < ks.len() - 1 {
        lemma_cycle_chain(g, ks, lv, j, i + 1);
        assert(el[ks[i]].1 == el[ks[i + 1]].0);
    }
}

/// A predicate that depends on itself through a cycle of dependencies with
/// a negative edge on it cannot be stratified: no levels respect the graph,
/// so `stratify` cannot succeed on it.
pub proof fn lemma_negative_cycle_unstratifiable(g: Seq<(Seq<char>, Seq<(Seq<char>, bool)>)>, ks: Seq<int>, j: int)
    requires
        is_cycle(edge_list(g), ks),
        0 <= j < ks.len(),
        edge_list(g)[ks[j]].2,
    ensures
        forall|lv: Seq<int>| !respects(index_edges(g), lv),
{
    assert forall|lv: Seq<int>| !respects(index_edges(g), lv) by {
        if respects(index_edges(g), lv) {
            lemma_cycle_chain(g, ks, lv, j, 0);
        }
    }
}

/// A graph with only positive dependencies admits the stratification that
/// puts every predicate at level 0; with the minimality that `stratify`
/// promises, it then places every predicate at level 0.
pub proof fn lemma_positive_graph_level_zero(g: Seq<(Seq<char>, Seq<(Seq<char>, bool)>)>)
    requires
        forall|k: int| 0 <= k < edge_list(g).len() ==> !(#[trigger] edge_list(g)[k]).2,
    ensures
        admissible(index_edges(g), predicates(g).len() as int, Seq::new(predicates(g).len(), |p: int| 0int)),
{
    let n = predicates(g).len();
    let z = Seq::new(n, |p: int| 0int);
    let ei = index_edges(g);
    lemma_edges_named(g);
    assert forall|k: int| #![trigger ei[k]] 0 <= k < ei.len() implies z[ei[k].1] + (if ei[k].2 {
        1int
    } else {
        0int
    }) <= z[ei[k].0] by {
        let el = edge_list(g);
        assert(ei[k] == (position(predicates(g), el[k].0), position(predicates(g), el[k].1), el[k].2));
        lemma_position_bound(predicates(g), el[k].0);
        lemma_position_bound(predicates(g), el[k].1);
        assert(!el[k].2);
    }
}

// ===================== unstratifiable graphs have negative cycles =====================

/// No levels below the number of predicates stratify the graph: what
/// `stratify` reports with an error.
pub open spec fn unstratifiable(g: Seq<(Seq<char>, Seq<(Seq<char>, bool)>)>) -> bool {
    forall|t: Seq<int>|
        #[trigger] admissible(index_edges(g), predicates(g).len() as int, t) ==> exists|p: int|
            0 <= p < t.len() && t[p] >= predicates(g).len()
}

/// Every edge joins positions below `n`.
spec fn edges_within(ei: Seq<(int, int, bool)>, n: int) -> bool {
    forall|k: int| #![trigger ei[k]] 0 <= k < ei.len() ==> 0 <= ei[k].0 < n && 0 <= ei[k].1 < n
}

/// The weight of an edge: 1 when negative.
spec fn weight(e: (int, int, bool)) -> int {
    if e.2 {
        1
    } else {
        0
    }
}

/// Edge indices `ks` follow each other: each edge's dependency is the head
/// of the next.
spec fn is_walk(ei: Seq<(int, int, bool)>, ks: Seq<int>) -> bool {
    &&& forall|i: int| 0 <= i < ks.len() ==> 0 <= #[trigger] ks[i] < ei.len()
    &&& forall|i: int| 0 <= i < ks.len() - 1 ==> #[trigger] ei[ks[i]].1 == ei[ks[i + 1]].0
}

/// The number of negative edges of a walk.
spec fn negs(ei: Seq<(int, int, bool)>, ks: Seq<int>) -> int
    decreases ks.len(),
{
    if ks.len() == 0 {
        0
    } else {
        weight(ei[ks[0]]) + negs(ei, ks.subrange(1, ks.len() as int))
    }
}

/// The `i`-th position a walk passes through: the head of its `i`-th edge,
/// or the dependency of its last one.
spec fn node(ei: Seq<(int, int, bool)>, ks: Seq<int>, i: int) -> int {
    if i < ks.len() {
        ei[ks[i]].0
    } else {
        ei[ks[ks.len() - 1]].1
    }
}

/// No walk that ends where it starts has a negative edge.
spec fn no_negative_loop(ei: Seq<(int, int, bool)>) -> bool {
    forall|ks: Seq<int>, j: int|
        #![trigger is_walk(ei, ks), ks[j]]
        is_walk(ei, ks) && ks.len() > 0 && ei[ks[ks.len() - 1]].1 == ei[ks[0]].0 && 0 <= j < ks.len()
            ==> !ei[ks[j]].2
}

/// The most negative edges on a walk from `p` of at most `k` edges whose
/// first edge is among the first `m`.
spec fn reach(ei: Seq<(int, int, bool)>, p: int, k: nat, m: nat) -> int
    decreases k, m,
{
    if k == 0 || m == 0 || m > ei.len() {
        0
    } else {
        let prev = reach(ei, p, k, (m - 1) as nat);
        let e = ei[m - 1];
        let via = if e.0 == p {
            weight(e) + reach(ei, e.1, (k - 1) as nat, ei.len())
        } else {
            0
        };
        if via > prev {
            via
        } else {
            prev
        }
    }
}

proof fn lemma_negs_split(ei: Seq<(int, int, bool)>, a: Seq<int>, b: Seq<int>)
    ensures
        negs(ei, a + b) == negs(ei, a) + negs(ei, b),
    decreases a.len(),
{
    if a.len() > 0 {
        assert((a + b).subrange(1, (a + b).len() as int) =~= a.subrange(1, a.len() as int) + b);
        lemma_negs_split(ei, a.subrange(1, a.len() as int), b);
    } else {
        assert(a + b =~= b);
    }
}

proof fn lemma_negs_len(ei: Seq<(int, int, bool)>, ks: Seq<int>)
    ensures
        0 <= negs(ei, ks) <= ks.len(),
    decreases ks.len(),
{
    if ks.len() > 0 {
        lemma_negs_len(ei, ks.subrange(1, ks.len() as int));
    }
}

proof fn lemma_negs_positive(ei: Seq<(int, int, bool)>, ks: Seq<int>) -> (j: int)
    requires
        negs(ei, ks) > 0,
    ensures
        0 <= j < ks.len(),
        ei[ks[j]].2,
    decreases ks.len(),
{
    if ei[ks[0]].2 {
        0
    } else {
        let rest = ks.subrange(1, ks.len() as int);
        let i = lemma_negs_positive(ei, rest);
        assert(rest[i] == ks[i + 1]);
        i + 1
    }
}

proof fn lemma_reach_grows(ei: Seq<(int, int, bool)>, p: int, k: nat, m1: nat, m2: nat)
    requires
        m1 <= m2 <= ei.len(),
    ensures
        reach(ei, p, k, m1) <= reach(ei, p, k, m2),
        0 <= reach(ei, p, k, m2),
    decreases m2,
{
    if m2 > 0 {
        if m1 < m2 {
            lemma_reach_grows(ei, p, k, m1, (m2 - 1) as nat);
        } else {
            lemma_reach_grows(ei, p, k, 0, (m2 - 1) as nat);
        }
    }
}

/// `reach` bounds the negative edges of every walk from `p` of at most `k`
/// edges.
proof fn lemma_reach_bounds_walk(ei: Seq<(int, int, bool)>, p: int, k: nat, ks: Seq<int>)
    requires
        is_walk(ei, ks),
        ks.len() <= k,
        ks.len() > 0 ==> ei[ks[0]].0 == p,
    ensures
        negs(ei, ks) <= reach(ei, p, k, ei.len()),
    decreases ks.len(),
{
    lemma_reach_grows(ei, p, k, 0, ei.len());
    if ks.len() > 0 {
        let e = ks[0];
        let rest = ks.subrange(1, ks.len() as int);
        assert forall|i: int| 0 <= i < rest.len() - 1 implies #[trigger] ei[rest[i]].1 == ei[rest[i + 1]].0 by {
            assert(rest[i] == ks[i + 1] && rest[i + 1] == ks[i + 2]);
        }
        assert(is_walk(ei, rest)) by {
            assert forall|i: int| 0 <= i < rest.len() implies 0 <= #[trigger] rest[i] < ei.len() by {
                assert(rest[i] == ks[i + 1]);
            }
        }
        if rest.len() > 0 {
            assert(rest[0] == ks[1]);
            assert(ei[ks[0]].1 == ei[ks[1]].0);
        }
        lemma_reach_bounds_walk(ei, ei[e].1, (k - 1) as nat, rest);
        lemma_reach_grows(ei, p, k, (e + 1) as nat, ei.len());
    }
}

/// A walk that attains `reach`.
proof fn lemma_reach_witness(ei: Seq<(int, int, bool)>, p: int, k: nat, m: nat) -> (ks: Seq<int>)
    requires
        m <= ei.len(),
    ensures
        is_walk(ei, ks),
        ks.len() <= k,
        ks.len() > 0 ==> ei[ks[0]].0 == p,
        negs(ei, ks) == reach(ei, p, k, m),
    decreases k, m,
{
    if k == 0 || m == 0 {
        Seq::empty()
    } else {
        let prev = reach(ei, p, k, (m - 1) as nat);
        let e = ei[m - 1];
        lemma_reach_grows(ei, p, k, 0, (m - 1) as nat);
        if e.0 == p && weight(e) + reach(ei, e.1, (k - 1) as nat, ei.len()) > prev {
            let r = lemma_reach_witness(ei, e.1, (k - 1) as nat, ei.len());
            let ks = seq![m - 1] + r;
            assert(ks.subrange(1, ks.len() as int) =~= r);
            assert forall|i: int| 0 <= i < ks.len() - 1 implies #[trigger] ei[ks[i]].1 == ei[ks[i + 1]].0 by {
                if i > 0 {
                    assert(ks[i] == r[i - 1] && ks[i + 1] == r[i]);
                }
            }
            assert forall|i: int| 0 <= i < ks.len() implies 0 <= #[trigger] ks[i] < ei.len() by {
                if i > 0 {
                    assert(ks[i] == r[i - 1]);
                }
            }
            ks
        } else {
            lemma_reach_witness(ei, p, k, (m - 1) as nat)
        }
    }
}

/// Among the first `n + 1` positions of a walk of at least `n` edges over
/// `n` predicates, two are the same predicate.
proof fn lemma_walk_repeats(ei: Seq<(int, int, bool)>, n: int, ks: Seq<int>) -> (ab: (int, int))
    requires
        edges_within(ei, n),
        is_walk(ei, ks),
        1 <= n <= ks.len(),
    ensures
        0 <= ab.0 < ab.1 <= n,
        node(ei, ks, ab.0) == node(ei, ks, ab.1),
{
    let s = Seq::new((n + 1) as nat, |i: int| node(ei, ks, i));
    assert forall|i: int| 0 <= i < s.len() implies set_int_range(0, n).contains(#[trigger] s[i]) by {
        if i < ks.len() {
            assert(0 <= ks[i] < ei.len());
        } else {
            assert(0 <= ks[ks.len() - 1] < ei.len());
        }
    }
    if s.no_duplicates() {
        s.unique_seq_to_set();
        lemma_int_range(0, n);
        assert(s.to_set().subset_of(set_int_range(0, n)));
        lemma_len_subset(s.to_set(), set_int_range(0, n));
        assert(false);
    }
    let (a, b) = choose|a: int, b: int| 0 <= a < s.len() && 0 <= b < s.len() && a != b && s[a] == s[b];
    if a < b {
        (a, b)
    } else {
        (b, a)
    }
}

/// Without negative loops, a walk of at least `n` edges over `n`
/// predicates can be shortened, from the same start, without losing
/// negative edges.
proof fn lemma_shorten(ei: Seq<(int, int, bool)>, n: int, ks: Seq<int>) -> (r: Seq<int>)
    requires
        edges_within(ei, n),
        no_negative_loop(ei),
        is_walk(ei, ks),
        1 <= n <= ks.len(),
    ensures
        is_walk(ei, r),
        r.len() < ks.len(),
        negs(ei, r) == negs(ei, ks),
        r.len() > 0 ==> ei[r[0]].0 == ei[ks[0]].0,
{
    let (a, b) = lemma_walk_repeats(ei, n, ks);
    let len = ks.len() as int;
    let pre = ks.subrange(0, a);
    let seg = ks.subrange(a, b);
    let post = ks.subrange(b, len);
    assert(ks =~= pre + seg + post);
    assert(is_walk(ei, seg)) by {
        assert forall|i: int| 0 <= i < seg.len() implies 0 <= #[trigger] seg[i] < ei.len() by {
            assert(seg[i] == ks[a + i]);
        }
        assert forall|i: int| 0 <= i < seg.len() - 1 implies #[trigger] ei[seg[i]].1 == ei[seg[i + 1]].0 by {
            assert(seg[i] == ks[a + i] && seg[i + 1] == ks[a + i + 1]);
        }
    }
    assert(node(ei, ks, a) == ei[seg[0]].0);
    assert(node(ei, ks, b) == ei[seg[seg.len() - 1]].1) by {
        if b < len {
            assert(ei[ks[b - 1]].1 == ei[ks[b]].0);
        }
    }
    if negs(ei, seg) > 0 {
        let j = lemma_negs_positive(ei, seg);
        assert(is_walk(ei, seg) && seg.len() > 0 && ei[seg[seg.len() - 1]].1 == ei[seg[0]].0 && 0 <= j < seg.len());
        assert(!ei[seg[j]].2);
    }
    lemma_negs_len(ei, seg);
    lemma_negs_split(ei, pre + seg, post);
    lemma_negs_split(ei, pre, seg);
    lemma_negs_split(ei, pre, post);
    let r = pre + post;
    assert forall|i: int| 0 <= i < r.len() implies 0 <= #[trigger] r[i] < ei.len() by {
        if i < a {
            assert(r[i] == ks[i]);
        } else {
            assert(r[i] == ks[i - a + b]);
        }
    }
    assert forall|i: int| 0 <= i < r.len() - 1 implies #[trigger] ei[r[i]].1 == ei[r[i + 1]].0 by {
        if i + 1 < a {
            assert(r[i] == ks[i] && r[i + 1] == ks[i + 1]);
        } else if i + 1 == a {
            assert(r[i] == ks[a - 1] && r[i + 1] == ks[b]);
            assert(ei[ks[a - 1]].1 == ei[ks[a]].0);
            assert(node(ei, ks, b) == ei[ks[b]].0);
        } else {
            assert(r[i] == ks[i - a + b] && r[i + 1] == ks[i + 1 - a + b]);
        }
    }
    if r.len() > 0 {
        if a > 0 {
            assert(r[0] == ks[0]);
        } else {
            assert(r[0] == ks[b]);
            assert(node(ei, ks, b) == ei[ks[b]].0);
        }
    }
    r
}

/// Without negative loops, no walk over `n` predicates has `n` negative
/// edges.
proof fn lemma_negs_below(ei: Seq<(int, int, bool)>, n: int, ks: Seq<int>)
    requires
        edges_within(ei, n),
        no_negative_loop(ei),
        is_walk(ei, ks),
        1 <= n,
    ensures
        negs(ei, ks) < n,
    decreases ks.len(),
{
    if ks.len() < n {
        lemma_negs_len(ei, ks);
    } else {
        let r = lemma_shorten(ei, n, ks);
        lemma_negs_below(ei, n, r);
    }
}

/// Without negative loops, the most negative edges on a walk of at most
/// `n` edges from each predicate is a stratification with every level
/// below `n`.
proof fn lemma_levels_from_walks(ei: Seq<(int, int, bool)>, n: int) -> (t: Seq<int>)
    requires
        edges_within(ei, n),
        no_negative_loop(ei),
        0 <= n,
    ensures
        admissible(ei, n, t),
        forall|p: int| 0 <= p < n ==> #[trigger] t[p] < n,
{
    let t = Seq::new(n as nat, |p: int| reach(ei, p, n as nat, ei.len()));
    if n == 0 {
        if ei.len() > 0 {
            assert(0 <= ei[0].0 < n);
        }
        return t;
    }
    assert forall|p: int| 0 <= p < n implies 0 <= #[trigger] t[p] < n by {
        lemma_reach_grows(ei, p, n as nat, 0, ei.len());
        let w = lemma_reach_witness(ei, p, n as nat, ei.len());
        lemma_negs_below(ei, n, w);
    }
    assert forall|k: int| #![trigger ei[k]] 0 <= k < ei.len() implies t[ei[k].1] + (if ei[k].2 {
        1int
    } else {
        0int
    }) <= t[ei[k].0] by {
        let h = ei[k].0;
        let d = ei[k].1;
        let w = lemma_reach_witness(ei, d, n as nat, ei.len());
        let ks = seq![k] + w;
        assert(ks.subrange(1, ks.len() as int) =~= w);
        assert forall|i: int| 0 <= i < ks.len() - 1 implies #[trigger] ei[ks[i]].1 == ei[ks[i + 1]].0 by {
            if i > 0 {
                assert(ks[i] == w[i - 1] && ks[i + 1] == w[i]);
            }
        }
        assert forall|i: int| 0 <= i < ks.len() implies 0 <= #[trigger] ks[i] < ei.len() by {
            if i > 0 {
                assert(ks[i] == w[i - 1]);
            }
        }
        assert(negs(ei, ks) == weight(ei[k]) + t[d]);
        if ks.len() <= n {
            lemma_reach_bounds_walk(ei, h, n as nat, ks);
        } else {
            let r = lemma_shorten(ei, n, ks);
            lemma_reach_bounds_walk(ei, h, n as nat, r);
        }
    }
    t
}

/// A graph that cannot be stratified with fewer strata than predicates
/// (what an error from `stratify` states) has a cycle of dependencies with
/// a negative edge on it.
pub proof fn lemma_unstratifiable_has_negative_cycle(g: Seq<(Seq<char>, Seq<(Seq<char>, bool)>)>)
    requires
        unstratifiable(g),
    ensures
        exists|ks: Seq<int>, j: int| is_cycle(edge_list(g), ks) && 0 <= j < ks.len() && #[trigger] edge_list(g)[ks[j]].2,
{
    let el = edge_list(g);
    let names = predicates(g);
    let ei = index_edges(g);
    let n = names.len() as int;
    lemma_edges_named(g);
    assert(edges_within(ei, n)) by {
        assert forall|k: int| #![trigger ei[k]] 0 <= k < ei.len() implies 0 <= ei[k].0 < n && 0 <= ei[k].1 < n by {
            assert(ei[k] == (position(names, el[k].0), position(names, el[k].1), el[k].2));
            assert(names.contains(el[k].0) && names.contains(el[k].1));
            lemma_position_bound(names, el[k].0);
            lemma_position_bound(names, el[k].1);
        }
    }
    if !exists|ks: Seq<int>, j: int| is_cycle(el, ks) && 0 <= j < ks.len() && #[trigger] el[ks[j]].2 {
        assert(no_negative_loop(ei)) by {
            assert forall|ks: Seq<int>, j: int|
                #![trigger is_walk(ei, ks), ks[j]]
                is_walk(ei, ks) && ks.len() > 0 && ei[ks[ks.len() - 1]].1 == ei[ks[0]].0 && 0 <= j < ks.len()
                    implies !ei[ks[j]].2 by {
                assert forall|i: int| 0 <= i < ks.len() - 1 implies #[trigger] el[ks[i]].1 == el[ks[i + 1]].0 by {
                    assert(ei[ks[i]].1 == ei[ks[i + 1]].0);
                    lemma_same_position(g, ks[i], ks[i + 1]);
                }
                lemma_same_position(g, ks[ks.len() - 1], ks[0]);
                assert(is_cycle(el, ks));
                assert(ei[ks[j]].2 == el[ks[j]].2);
            }
        }
        let t = lemma_levels_from_walks(ei, n);
        assert(admissible(index_edges(g), predicates(g).len() as int, t));
    }
}

/// Two edges whose dependency and head sit at the same position name the
/// same predicate.
proof fn lemma_same_position(g: Seq<(Seq<char>, Seq<(Seq<char>, bool)>)>, k1: int, k2: int)
    requires
        0 <= k1 < edge_list(g).len(),
        0 <= k2 < edge_list(g).len(),
        index_edges(g)[k1].1 == index_edges(g)[k2].0,
    ensures
        edge_list(g)[k1].1 == edge_list(g)[k2].0,
{
    let el = edge_list(g);
    let names = predicates(g);
    lemma_edges_named(g);
    assert(names.contains(el[k1].1) && names.contains(el[k2].0));
    lemma_position_bound(names, el[k1].1);
    lemma_position_bound(names, el[k2].0);
}

/// A dependency graph cannot be stratified with fewer strata than
/// predicates exactly when it has a cycle of dependencies with a negative
/// edge on it.
pub proof fn lemma_unstratifiable_iff_negative_cycle(g: Seq<(Seq<char>, Seq<(Seq<char>, bool)>)>)
    ensures
        unstratifiable(g) <==> exists|ks: Seq<int>, j: int|
            is_cycle(edge_list(g), ks) && 0 <= j < ks.len() && #[trigger] edge_list(g)[ks[j]].2,
{
    if unstratifiable(g) {
        lemma_unstratifiable_has_negative_cycle(g);
    }
    if exists|ks: Seq<int>, j: int| is_cycle(edge_list(g), ks) && 0 <= j < ks.len() && #[trigger] edge_list(g)[ks[j]].2 {
        let (ks, j) = choose|ks: Seq<int>, j: int|
            is_cycle(edge_list(g), ks) && 0 <= j < ks.len() && #[trigger] edge_list(g)[ks[j]].2;
        lemma_negative_cycle_unstratifiable(g, ks, j);
        assert forall|t: Seq<int>| #[trigger] admissible(index_edges(g), predicates(g).len() as int, t) implies exists|p: int|
            0 <= p < t.len() && t[p] >= predicates(g).len() by {
            assert(!respects(index_edges(g), t));
        }
    }
}

} // verus!
