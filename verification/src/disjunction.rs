//! The `or` and `or-join` clauses of a query: each branch is evaluated, the
//! union of their rows is kept without repeats, and joined back onto the
//! incoming rows on the variables both sides bind (for `or-join`, after each
//! branch row is projected onto the incoming variables).
//!
//! A branch is evaluated by the caller's step, which matches its patterns
//! against the facts: it stands for the pattern matcher.
use vstd::prelude::*;
use crate::evaluator::Bindings;
use crate::recursion::{DerivedFact, FactView, facts_view};
use crate::expression::{rows_result_view, rows_view};
use crate::functions::value_eq;
use crate::text::{concat, has_prefix, owned, starts_with, str_eq};
use crate::types::{
    ClauseView, ValueView, WhereClause, branches_view, clauses_view, lemma_branches_view, lemma_clauses_view,
    strs_view, value_clone,
};

verus! {

/// The model of a row of bindings: variable name to value.
pub type Row = Map<Seq<char>, ValueView>;

/// A name that starts with `__` belongs to the matcher (fact metadata), not
/// to the query.
pub open spec fn internal_name(k: Seq<char>) -> bool {
    has_prefix(k, seq!['_', '_'])
}

/// Two rows agree on a variable: neither binds it, or both bind it to the
/// same value.
pub open spec fn agree_on(a: Row, b: Row, k: Seq<char>) -> bool {
    a.contains_key(k) == b.contains_key(k) && (a.contains_key(k) ==> a[k] == b[k])
}

/// A row without its internal variables.
pub open spec fn visible(b: Row) -> Row {
    b.restrict(Set::new(|k: Seq<char>| !internal_name(k)))
}

/// The names a list of strings holds.
pub open spec fn names_set(v: Seq<String>) -> Set<Seq<char>> {
    Set::new(|k: Seq<char>| exists|j: int| 0 <= j < v.len() && v[j]@ == k)
}

/// Every variable some row binds.
pub open spec fn all_keys(rows: Seq<Row>) -> Set<Seq<char>> {
    Set::new(|k: Seq<char>| exists|j: int| 0 <= j < rows.len() && rows[j].contains_key(k))
}

/// Every query variable (not internal) some row binds.
pub open spec fn row_vars(rows: Seq<Row>) -> Set<Seq<char>> {
    Set::new(|k: Seq<char>| !internal_name(k) && exists|j: int| 0 <= j < rows.len() && rows[j].contains_key(k))
}

/// Two rows have the same key over `vars`: they agree on each of them.
pub open spec fn keymatch(a: Row, b: Row, vars: Set<Seq<char>>) -> bool {
    forall|k: Seq<char>| vars.contains(k) ==> #[trigger] agree_on(a, b, k)
}

proof fn lemma_agree_all(a: Row, b: Row)
    requires
        forall|k: Seq<char>| #[trigger] agree_on(a, b, k),
    ensures
        a == b,
{
    assert(a =~= b) by {
        assert forall|k: Seq<char>| #[trigger] a.contains_key(k) implies b.contains_key(k) && a[k] == b[k] by {
            assert(agree_on(a, b, k));
        }
        assert forall|k: Seq<char>| #[trigger] b.contains_key(k) implies a.contains_key(k) by {
            assert(agree_on(a, b, k));
        }
    }
}

proof fn lemma_agree_visible(a: Row, b: Row)
    requires
        forall|k: Seq<char>| !internal_name(k) ==> #[trigger] agree_on(a, b, k),
    ensures
        visible(a) == visible(b),
{
    assert(visible(a) =~= visible(b)) by {
        assert forall|k: Seq<char>| #[trigger] visible(a).contains_key(k) implies visible(b).contains_key(k)
            && visible(a)[k] == visible(b)[k] by {
            assert(agree_on(a, b, k));
        }
        assert forall|k: Seq<char>| #[trigger] visible(b).contains_key(k) implies visible(a).contains_key(k) by {
            assert(agree_on(a, b, k));
        }
    }
}

proof fn lemma_visible_agree(a: Row, b: Row, k: Seq<char>)
    requires
        visible(a) == visible(b),
        !internal_name(k),
    ensures
        agree_on(a, b, k),
{
    assert(visible(a).contains_key(k) == a.contains_key(k));
    assert(visible(b).contains_key(k) == b.contains_key(k));
    if a.contains_key(k) {
        assert(visible(a)[k] == a[k]);
        assert(visible(b)[k] == b[k]);
    }
}

/// Whether a name starts with `__`.
fn is_internal(name: &str) -> (r: bool)
    ensures
        r == internal_name(name@),
{
    proof {
        reveal_strlit("__");
        assert("__"@ =~= seq!['_', '_']);
    }
    starts_with(name, "__")
}

/// Whether two rows agree on every variable (every query variable, when
/// `skip_internal`).
fn rows_agree(a: &Bindings, b: &Bindings, skip_internal: bool) -> (r: bool)
    ensures
        r == forall|k: Seq<char>| (!skip_internal || !internal_name(k)) ==> #[trigger] agree_on(a@, b@, k),
{
    let na = a.names();
    let mut i: usize = 0;
    while i < na.len()
        invariant
            i <= na@.len(),
            forall|j: int| 0 <= j < na@.len() ==> a@.contains_key(#[trigger] na@[j]@),
            forall|j: int|
                0 <= j < i ==> (!skip_internal || !internal_name(na@[j]@)) ==> agree_on(a@, b@, #[trigger] na@[j]@),
        decreases na@.len() - i,
    {
        let skip = skip_internal && is_internal(na[i].as_str());
        if !skip {
            match b.get(na[i].as_str()) {
                None => {
                    assert(!agree_on(a@, b@, na@[i as int]@));
                    return false;
                },
                Some(y) => {
                    let x = a.get(na[i].as_str()).unwrap();
                    if !value_eq(x, y) {
                        assert(!agree_on(a@, b@, na@[i as int]@));
                        return false;
                    }
                },
            }
        }
        i = i + 1;
    }
    let nb = b.names();
    let mut i: usize = 0;
    while i < nb.len()
        invariant
            i <= nb@.len(),
            forall|j: int| 0 <= j < nb@.len() ==> b@.contains_key(#[trigger] nb@[j]@),
            forall|j: int|
                0 <= j < i ==> (!skip_internal || !internal_name(nb@[j]@)) ==> a@.contains_key(#[trigger] nb@[j]@),
        decreases nb@.len() - i,
    {
        let skip = skip_internal && is_internal(nb[i].as_str());
        if !skip {
            match a.get(nb[i].as_str()) {
                None => {
                    assert(!agree_on(a@, b@, nb@[i as int]@));
                    return false;
                },
                Some(_) => {},
            }
        }
        i = i + 1;
    }
    proof {
        assert forall|k: Seq<char>| (!skip_internal || !internal_name(k)) implies #[trigger] agree_on(a@, b@, k) by {
            if a@.contains_key(k) {
                let j = choose|j: int| 0 <= j < na@.len() && na@[j]@ == k;
                assert(agree_on(a@, b@, na@[j]@));
            } else if b@.contains_key(k) {
                let j = choose|j: int| 0 <= j < nb@.len() && nb@[j]@ == k;
                assert(a@.contains_key(nb@[j]@));
            }
        }
    }
    true
}

/// Whether two rows are equal.
fn same_row(a: &Bindings, b: &Bindings) -> (r: bool)
    ensures
        r == (a@ == b@),
{
    let r = rows_agree(a, b, false);
    proof {
        if r {
            lemma_agree_all(a@, b@);
        }
    }
    r
}

/// Whether two rows bind the same query variables to the same values.
fn same_visible(a: &Bindings, b: &Bindings) -> (r: bool)
    ensures
        r == (visible(a@) == visible(b@)),
{
    let r = rows_agree(a, b, true);
    proof {
        if r {
            lemma_agree_visible(a@, b@);
        } else if visible(a@) == visible(b@) {
            assert forall|k: Seq<char>| !internal_name(k) implies #[trigger] agree_on(a@, b@, k) by {
                lemma_visible_agree(a@, b@, k);
            }
        }
    }
    r
}

/// Adds to `target` each binding of `src` for a variable `target` lacks.
fn fill_missing(target: &mut Bindings, src: &Bindings)
    ensures
        final(target)@ == src@.union_prefer_right(old(target)@),
{
    let ghost t0 = target@;
    let ns = src.names();
    let mut i: usize = 0;
    while i < ns.len()
        invariant
            i <= ns@.len(),
            forall|j: int| 0 <= j < ns@.len() ==> src@.contains_key(#[trigger] ns@[j]@),
            forall|k: Seq<char>| #[trigger]
                target@.contains_key(k) <==> (t0.contains_key(k) || exists|j: int| 0 <= j < i && ns@[j]@ == k),
            forall|k: Seq<char>| #[trigger]
                target@.contains_key(k) ==> target@[k] == (if t0.contains_key(k) { t0[k] } else { src@[k] }),
        decreases ns@.len() - i,
    {
        let ghost k0 = ns@[i as int]@;
        if target.get(ns[i].as_str()).is_none() {
            let v = value_clone(src.get(ns[i].as_str()).unwrap());
            target.insert(owned(ns[i].as_str()), v);
        }
        proof {
            assert forall|k: Seq<char>| #[trigger]
                target@.contains_key(k) <==> (t0.contains_key(k) || exists|j: int| 0 <= j < i + 1 && ns@[j]@ == k) by {
                if exists|j: int| 0 <= j < i + 1 && ns@[j]@ == k {
                    let j = choose|j: int| 0 <= j < i + 1 && ns@[j]@ == k;
                    if j < i {
                        assert(exists|j: int| 0 <= j < i && ns@[j]@ == k);
                    }
                }
                if exists|j: int| 0 <= j < i && ns@[j]@ == k {
                    let j = choose|j: int| 0 <= j < i && ns@[j]@ == k;
                    assert(0 <= j < i + 1 && ns@[j]@ == k);
                }
            }
        }
        i = i + 1;
    }
    proof {
        assert(target@ =~= src@.union_prefer_right(t0)) by {
            assert forall|k: Seq<char>| src@.contains_key(k) implies #[trigger] target@.contains_key(k) by {
                let j = choose|j: int| 0 <= j < ns@.len() && ns@[j]@ == k;
                assert(ns@[j]@ == k);
            }
        }
    }
}

/// A copy of a row.
pub(crate) fn row_clone(b: &Bindings) -> (r: Bindings)
    ensures
        r@ == b@,
{
    let mut r = Bindings::new();
    fill_missing(&mut r, b);
    assert(r@ =~= b@);
    r
}

/// A row extended by another's bindings for variables it lacks.
pub(crate) fn merge_rows(incoming: &Bindings, branch: &Bindings) -> (r: Bindings)
    ensures
        r@ == branch@.union_prefer_right(incoming@),
{
    let mut r = row_clone(incoming);
    fill_missing(&mut r, branch);
    r
}

/// Whether a list of names holds one.
fn name_in(v: &Vec<String>, s: &str) -> (r: bool)
    ensures
        r == names_set(v@).contains(s@),
{
    let mut i: usize = 0;
    while i < v.len()
        invariant
            i <= v@.len(),
            forall|j: int| 0 <= j < i ==> v@[j]@ != s@,
        decreases v@.len() - i,
    {
        if str_eq(v[i].as_str(), s) {
            return true;
        }
        i = i + 1;
    }
    false
}

/// A row restricted to the given names.
pub(crate) fn project_row(b: &Bindings, keep: &Vec<String>) -> (r: Bindings)
    ensures
        r@ == b@.restrict(names_set(keep@)),
{
    let ns = b.names();
    let mut r = Bindings::new();
    let mut i: usize = 0;
    while i < ns.len()
        invariant
            i <= ns@.len(),
            forall|j: int| 0 <= j < ns@.len() ==> b@.contains_key(#[trigger] ns@[j]@),
            forall|k: Seq<char>| #[trigger]
                r@.contains_key(k) <==> (names_set(keep@).contains(k) && exists|j: int| 0 <= j < i && ns@[j]@ == k),
            forall|k: Seq<char>| #[trigger] r@.contains_key(k) ==> r@[k] == b@[k],
        decreases ns@.len() - i,
    {
        if name_in(keep, ns[i].as_str()) {
            let v = value_clone(b.get(ns[i].as_str()).unwrap());
            r.insert(owned(ns[i].as_str()), v);
        }
        proof {
            assert forall|k: Seq<char>| #[trigger]
                r@.contains_key(k) <==> (names_set(keep@).contains(k) && exists|j: int| 0 <= j < i + 1 && ns@[j]@ == k) by {
                if exists|j: int| 0 <= j < i + 1 && ns@[j]@ == k {
                    let j = choose|j: int| 0 <= j < i + 1 && ns@[j]@ == k;
                    if j < i {
                        assert(exists|j: int| 0 <= j < i && ns@[j]@ == k);
                    }
                }
                if exists|j: int| 0 <= j < i && ns@[j]@ == k {
                    let j = choose|j: int| 0 <= j < i && ns@[j]@ == k;
                    assert(0 <= j < i + 1 && ns@[j]@ == k);
                }
            }
        }
        i = i + 1;
    }
    proof {
        assert(r@ =~= b@.restrict(names_set(keep@))) by {
            assert forall|k: Seq<char>| b@.contains_key(k) && names_set(keep@).contains(k) implies #[trigger] r@.contains_key(k) by {
                let j = choose|j: int| 0 <= j < ns@.len() && ns@[j]@ == k;
                assert(ns@[j]@ == k);
            }
        }
    }
    r
}

/// Whether two rows agree on each of the given names.
fn keys_match(a: &Bindings, b: &Bindings, vars: &Vec<String>) -> (r: bool)
    ensures
        r == keymatch(a@, b@, names_set(vars@)),
{
    let mut i: usize = 0;
    while i < vars.len()
        invariant
            i <= vars@.len(),
            forall|j: int| 0 <= j < i ==> agree_on(a@, b@, #[trigger] vars@[j]@),
        decreases vars@.len() - i,
    {
        let ok = match (a.get(vars[i].as_str()), b.get(vars[i].as_str())) {
            (None, None) => true,
            (Some(x), Some(y)) => value_eq(x, y),
            _ => false,
        };
        if !ok {
            proof {
                assert(names_set(vars@).contains(vars@[i as int]@));
                assert(!agree_on(a@, b@, vars@[i as int]@));
            }
            return false;
        }
        i = i + 1;
    }
    proof {
        assert forall|k: Seq<char>| names_set(vars@).contains(k) implies #[trigger] agree_on(a@, b@, k) by {
            let j = choose|j: int| 0 <= j < vars@.len() && vars@[j]@ == k;
            assert(agree_on(a@, b@, vars@[j]@));
        }
    }
    true
}

/// The variables the rows bind (the query variables only, when
/// `visible_only`), possibly repeated.
fn collect_names(rows: &Vec<Bindings>, visible_only: bool) -> (r: Vec<String>)
    ensures
        names_set(r@) == (if visible_only { row_vars(rows_view(rows@)) } else { all_keys(rows_view(rows@)) }),
{
    let ghost rv = rows_view(rows@);
    let mut r: Vec<String> = Vec::new();
    let mut i: usize = 0;
    while i < rows.len()
        invariant
            i <= rows@.len(),
            rv == rows_view(rows@),
            forall|k: Seq<char>| #[trigger]
                names_set(r@).contains(k) <==> ((!visible_only || !internal_name(k)) && exists|j: int|
                    0 <= j < i && rv[j].contains_key(k)),
        decreases rows@.len() - i,
    {
        let ns = rows[i].names();
        let ghost r0 = r@;
        let mut m: usize = 0;
        while m < ns.len()
            invariant
                m <= ns@.len(),
                i < rows@.len(),
                rv == rows_view(rows@),
                forall|j: int| 0 <= j < ns@.len() ==> rv[i as int].contains_key(#[trigger] ns@[j]@),
                forall|k: Seq<char>| rv[i as int].contains_key(k) ==> exists|j: int| 0 <= j < ns@.len() && ns@[j]@ == k,
                forall|k: Seq<char>| #[trigger]
                    names_set(r@).contains(k) <==> (names_set(r0).contains(k) || ((!visible_only || !internal_name(k))
                        && exists|j: int| 0 <= j < m && ns@[j]@ == k)),
            decreases ns@.len() - m,
        {
            let ghost r1 = r@;
            if !visible_only || !is_internal(ns[m].as_str()) {
                r.push(owned(ns[m].as_str()));
            }
            proof {
                assert forall|k: Seq<char>| #[trigger]
                    names_set(r@).contains(k) <==> (names_set(r0).contains(k) || ((!visible_only || !internal_name(k))
                        && exists|j: int| 0 <= j < m + 1 && ns@[j]@ == k)) by {
                    if names_set(r@).contains(k) {
                        let j = choose|j: int| 0 <= j < r@.len() && r@[j]@ == k;
                        if j < r1.len() {
                            assert(r1[j]@ == k);
                            assert(names_set(r1).contains(k));
                        } else {
                            assert(0 <= m < m + 1 && ns@[m as int]@ == k);
                        }
                    }
                    if names_set(r1).contains(k) {
                        let j = choose|j: int| 0 <= j < r1.len() && r1[j]@ == k;
                        assert(r@[j]@ == k);
                    }
                    if (!visible_only || !internal_name(k)) && exists|j: int| 0 <= j < m + 1 && ns@[j]@ == k {
                        let j = choose|j: int| 0 <= j < m + 1 && ns@[j]@ == k;
                        if j < m {
                            assert(exists|j: int| 0 <= j < m && ns@[j]@ == k);
                        } else {
                            assert(r@[r@.len() - 1]@ == k);
                        }
                    }
                }
            }
            m = m + 1;
        }
        proof {
            assert forall|k: Seq<char>| #[trigger]
                names_set(r@).contains(k) <==> ((!visible_only || !internal_name(k)) && exists|j: int|
                    0 <= j < i + 1 && rv[j].contains_key(k)) by {
                if exists|j: int| 0 <= j < i + 1 && rv[j].contains_key(k) {
                    let j = choose|j: int| 0 <= j < i + 1 && rv[j].contains_key(k);
                    if j < i {
                        assert(exists|j: int| 0 <= j < i && rv[j].contains_key(k));
                    } else {
                        let q = choose|q: int| 0 <= q < ns@.len() && ns@[q]@ == k;
                        assert(ns@[q]@ == k);
                    }
                }
                if exists|j: int| 0 <= j < m && ns@[j]@ == k {
                    let j = choose|j: int| 0 <= j < m && ns@[j]@ == k;
                    assert(rv[i as int].contains_key(ns@[j]@));
                }
                if exists|j: int| 0 <= j < i && rv[j].contains_key(k) {
                    let j = choose|j: int| 0 <= j < i && rv[j].contains_key(k);
                    assert(0 <= j < i + 1 && rv[j].contains_key(k));
                }
            }
        }
        i = i + 1;
    }
    proof {
        if visible_only {
            assert(names_set(r@) =~= row_vars(rv));
        } else {
            assert(names_set(r@) =~= all_keys(rv));
        }
    }
    r
}


// ===================== the caller's branch step =====================

/// A branch evaluator as a function on models.
pub type BranchFn = spec_fn(Seq<ClauseView>, Seq<Row>) -> Result<Seq<Row>, Seq<char>>;

/// The branch step answers alike for facts, clauses and rows with equal
/// models.
pub open spec fn branch_step_deterministic<E: Fn(&Vec<DerivedFact>, &Vec<WhereClause>, &Vec<Bindings>) -> Result<Vec<Bindings>, String>>(
    e: E,
) -> bool {
    forall|f1: &Vec<DerivedFact>, c1: &Vec<WhereClause>, b1: &Vec<Bindings>, o1: Result<Vec<Bindings>, String>, f2: &Vec<DerivedFact>, c2: &Vec<WhereClause>, b2: &Vec<Bindings>, o2: Result<Vec<Bindings>, String>|
        #![trigger call_ensures(e, (f1, c1, b1), o1), call_ensures(e, (f2, c2, b2), o2)]
        facts_view(f1@) == facts_view(f2@) && clauses_view(c1@) == clauses_view(c2@) && rows_view(b1@) == rows_view(b2@)
            && call_ensures(e, (f1, c1, b1), o1) && call_ensures(e, (f2, c2, b2), o2) ==> rows_result_view(o1)
            == rows_result_view(o2)
}

/// The branch step can be called on any facts, clauses and rows.
pub open spec fn branch_step_total<E: Fn(&Vec<DerivedFact>, &Vec<WhereClause>, &Vec<Bindings>) -> Result<Vec<Bindings>, String>>(e: E) -> bool {
    forall|f: &Vec<DerivedFact>, c: &Vec<WhereClause>, b: &Vec<Bindings>| call_requires(e, (f, c, b))
}

/// What the branch step gives over facts `fs` for clauses `c` seeded with
/// rows `rows`.
pub open spec fn branch_answer<E: Fn(&Vec<DerivedFact>, &Vec<WhereClause>, &Vec<Bindings>) -> Result<Vec<Bindings>, String>>(
    e: E,
    fs: Seq<FactView>,
    c: Seq<ClauseView>,
    rows: Seq<Row>,
) -> Result<Seq<Row>, Seq<char>> {
    let (_, _, _, o) = choose|z: &Vec<DerivedFact>, y: &Vec<WhereClause>, x: &Vec<Bindings>, o: Result<Vec<Bindings>, String>|
        facts_view(z@) == fs && clauses_view(y@) == c && rows_view(x@) == rows && #[trigger] call_ensures(e, (z, y, x), o);
    rows_result_view(o)
}

/// The branch step over facts `fs` as a function on models.
pub open spec fn branch_fn<E: Fn(&Vec<DerivedFact>, &Vec<WhereClause>, &Vec<Bindings>) -> Result<Vec<Bindings>, String>>(
    e: E,
    fs: Seq<FactView>,
) -> BranchFn {
    |c: Seq<ClauseView>, rows: Seq<Row>| branch_answer(e, fs, c, rows)
}

/// Every answer of the branch step over facts with model `fs` is what `ef`
/// gives for the clauses and rows.
pub open spec fn branch_agrees<E: Fn(&Vec<DerivedFact>, &Vec<WhereClause>, &Vec<Bindings>) -> Result<Vec<Bindings>, String>>(
    e: E,
    fs: Seq<FactView>,
    ef: BranchFn,
) -> bool {
    forall|f: &Vec<DerivedFact>, c: &Vec<WhereClause>, b: &Vec<Bindings>, o: Result<Vec<Bindings>, String>|
        #[trigger] call_ensures(e, (f, c, b), o) && facts_view(f@) == fs ==> rows_result_view(o) == ef(
            clauses_view(c@),
            rows_view(b@),
        )
}

pub(crate) proof fn lemma_branch_agrees<E: Fn(&Vec<DerivedFact>, &Vec<WhereClause>, &Vec<Bindings>) -> Result<Vec<Bindings>, String>>(
    e: E,
    fs: Seq<FactView>,
)
    requires
        branch_step_deterministic(e),
    ensures
        branch_agrees(e, fs, branch_fn(e, fs)),
{
    assert forall|f: &Vec<DerivedFact>, c: &Vec<WhereClause>, b: &Vec<Bindings>, o: Result<Vec<Bindings>, String>|
        #[trigger] call_ensures(e, (f, c, b), o) && facts_view(f@) == fs implies rows_result_view(o) == branch_fn(e, fs)(
            clauses_view(c@),
            rows_view(b@),
        ) by {
        lemma_branch_answer(e, f, c, b, o);
    }
}

pub(crate) proof fn lemma_branch_answer<E: Fn(&Vec<DerivedFact>, &Vec<WhereClause>, &Vec<Bindings>) -> Result<Vec<Bindings>, String>>(
    e: E,
    z: &Vec<DerivedFact>,
    y: &Vec<WhereClause>,
    x: &Vec<Bindings>,
    o: Result<Vec<Bindings>, String>,
)
    requires
        branch_step_deterministic(e),
        call_ensures(e, (z, y, x), o),
    ensures
        rows_result_view(o) == branch_fn(e, facts_view(z@))(clauses_view(y@), rows_view(x@)),
{
    let (z2, y2, x2, o2) = choose|z2: &Vec<DerivedFact>, y2: &Vec<WhereClause>, x2: &Vec<Bindings>, o2: Result<Vec<Bindings>, String>|
        facts_view(z2@) == facts_view(z@) && clauses_view(y2@) == clauses_view(y@) && rows_view(x2@) == rows_view(x@)
            && #[trigger] call_ensures(e, (z2, y2, x2), o2);
    assert(call_ensures(e, (z2, y2, x2), o2) && call_ensures(e, (z, y, x), o));
}

// ===================== the model =====================

/// `acc` followed by each of `rows` whose query variables no earlier row
/// already had, in order.
pub open spec fn union_visible(acc: Seq<Row>, rows: Seq<Row>) -> Seq<Row>
    decreases rows.len(),
{
    if rows.len() == 0 {
        acc
    } else {
        let a = union_visible(acc, rows.drop_last());
        if exists|j: int| 0 <= j < a.len() && visible(a[j]) == visible(rows.last()) {
            a
        } else {
            a.push(rows.last())
        }
    }
}

/// A branch holds a `not` or `not-join` clause.
pub open spec fn has_negation(branch: Seq<ClauseView>) -> bool {
    exists|j: int| 0 <= j < branch.len() && (branch[j] is Not || branch[j] is NotJoin)
}

/// Some branch holds a `not` or `not-join` clause.
pub open spec fn any_negation(branches: Seq<Seq<ClauseView>>) -> bool {
    exists|i: int| 0 <= i < branches.len() && has_negation(branches[i])
}

/// The single empty row a branch starts from.
pub open spec fn empty_seed() -> Seq<Row> {
    seq![Map::empty()]
}

/// `or` with a negation in a branch: each branch is seeded with the incoming
/// rows, and the union of their rows is kept.
pub open spec fn or_seeded(branches: Seq<Seq<ClauseView>>, rows: Seq<Row>, ef: BranchFn) -> Result<Seq<Row>, Seq<char>>
    decreases branches.len(),
{
    if branches.len() == 0 {
        Ok(Seq::empty())
    } else {
        match or_seeded(branches.drop_last(), rows, ef) {
            Err(m) => Err(m),
            Ok(acc) => match ef(branches.last(), rows) {
                Err(m) => Err(m),
                Ok(out) => Ok(union_visible(acc, out)),
            },
        }
    }
}

/// Some row of `u` has the key of `r` over `vars`.
pub open spec fn has_match(r: Row, u: Seq<Row>, vars: Set<Seq<char>>) -> bool {
    exists|j: int| 0 <= j < u.len() && keymatch(r, u[j], vars)
}

/// The union so far only filters the incoming rows (it binds query
/// variables, all of them bound already) and every incoming row has a
/// matching row in it: later branches could add nothing.
pub open spec fn covered(u: Seq<Row>, inc: Seq<Row>) -> bool {
    let bv = row_vars(u);
    &&& bv != Set::<Seq<char>>::empty()
    &&& bv.subset_of(row_vars(inc))
    &&& forall|i: int| 0 <= i < inc.len() ==> #[trigger] has_match(inc[i], u, bv)
}

/// `or` without a negation: the union of the branches evaluated from the
/// empty row, and whether evaluation stopped early because it was covered.
pub open spec fn or_union(branches: Seq<Seq<ClauseView>>, inc: Seq<Row>, ef: BranchFn) -> Result<(Seq<Row>, bool), Seq<char>>
    decreases branches.len(),
{
    if branches.len() == 0 {
        Ok((Seq::empty(), false))
    } else {
        match or_union(branches.drop_last(), inc, ef) {
            Err(m) => Err(m),
            Ok((u, done)) => if done {
                Ok((u, true))
            } else {
                match ef(branches.last(), empty_seed()) {
                    Err(m) => Err(m),
                    Ok(out) => {
                        let u2 = union_visible(u, out);
                        Ok((u2, covered(u2, inc)))
                    },
                }
            },
        }
    }
}

/// `acc` followed by incoming row `i` merged with each of `u` that matches
/// it on `vars` (the incoming row's values win), leaving out repeats.
pub open spec fn join_one(acc: Seq<Row>, i: Row, u: Seq<Row>, vars: Set<Seq<char>>) -> Seq<Row>
    decreases u.len(),
{
    if u.len() == 0 {
        acc
    } else {
        let a = join_one(acc, i, u.drop_last(), vars);
        let c = u.last();
        if keymatch(i, c, vars) {
            let m = c.union_prefer_right(i);
            if a.contains(m) {
                a
            } else {
                a.push(m)
            }
        } else {
            a
        }
    }
}

/// The join of the incoming rows, in order, with `u` on `vars`.
pub open spec fn join_all(acc: Seq<Row>, inc: Seq<Row>, u: Seq<Row>, vars: Set<Seq<char>>) -> Seq<Row>
    decreases inc.len(),
{
    if inc.len() == 0 {
        acc
    } else {
        join_one(join_all(acc, inc.drop_last(), u, vars), inc.last(), u, vars)
    }
}

/// An `or` clause applied to the incoming rows.
pub open spec fn spec_or(inc: Seq<Row>, branches: Seq<Seq<ClauseView>>, ef: BranchFn) -> Result<Seq<Row>, Seq<char>> {
    if any_negation(branches) {
        or_seeded(branches, inc, ef)
    } else {
        match or_union(branches, inc, ef) {
            Err(m) => Err(m),
            Ok((u, _)) => {
                let shared = row_vars(inc).intersect(row_vars(u));
                if shared == Set::<Seq<char>>::empty() {
                    Ok(u)
                } else {
                    Ok(join_all(Seq::empty(), inc, u, shared))
                }
            },
        }
    }
}

/// The names a sequence holds.
pub open spec fn seq_set(s: Seq<Seq<char>>) -> Set<Seq<char>> {
    Set::new(|k: Seq<char>| exists|j: int| 0 <= j < s.len() && s[j] == k)
}

/// The first of `jv[i..]` that `outer` lacks.
pub open spec fn first_unbound(jv: Seq<Seq<char>>, outer: Set<Seq<char>>, i: int) -> Option<Seq<char>>
    decreases jv.len() - i,
{
    if i < 0 || i >= jv.len() {
        None
    } else if !outer.contains(jv[i]) {
        Some(jv[i])
    } else {
        first_unbound(jv, outer, i + 1)
    }
}

/// `acc` followed by each of `out` that binds every join variable,
/// projected onto `outer`, leaving out repeats.
pub open spec fn proj_rows(acc: Seq<Row>, out: Seq<Row>, jvs: Set<Seq<char>>, outer: Set<Seq<char>>) -> Seq<Row>
    decreases out.len(),
{
    if out.len() == 0 {
        acc
    } else {
        let a = proj_rows(acc, out.drop_last(), jvs, outer);
        let b = out.last();
        if forall|k: Seq<char>| jvs.contains(k) ==> b.contains_key(k) {
            let p = b.restrict(outer);
            if a.contains(p) {
                a
            } else {
                a.push(p)
            }
        } else {
            a
        }
    }
}

/// Every incoming row has a projected row with its join key.
pub open spec fn found_all(p: Seq<Row>, inc: Seq<Row>, jvs: Set<Seq<char>>) -> bool {
    forall|i: int| 0 <= i < inc.len() ==> #[trigger] has_match(inc[i], p, jvs)
}

/// `or-join`'s projected branch rows, and whether evaluation stopped early
/// because every incoming key was found.
pub open spec fn or_join_union(
    branches: Seq<Seq<ClauseView>>,
    inc: Seq<Row>,
    jvs: Set<Seq<char>>,
    outer: Set<Seq<char>>,
    ef: BranchFn,
) -> Result<(Seq<Row>, bool), Seq<char>>
    decreases branches.len(),
{
    if branches.len() == 0 {
        Ok((Seq::empty(), false))
    } else {
        match or_join_union(branches.drop_last(), inc, jvs, outer, ef) {
            Err(m) => Err(m),
            Ok((p, done)) => if done {
                Ok((p, true))
            } else {
                match ef(branches.last(), empty_seed()) {
                    Err(m) => Err(m),
                    Ok(out) => {
                        let p2 = proj_rows(p, out, jvs, outer);
                        Ok((p2, found_all(p2, inc, jvs)))
                    },
                }
            },
        }
    }
}

/// The error for a join variable the incoming rows do not bind.
pub open spec fn unbound_join_message(v: Seq<char>) -> Seq<char> {
    "or-join variable "@ + v + " is not bound in the incoming scope"@
}

/// An `or-join` clause applied to the incoming rows.
pub open spec fn spec_or_join(inc: Seq<Row>, jv: Seq<Seq<char>>, branches: Seq<Seq<ClauseView>>, ef: BranchFn) -> Result<
    Seq<Row>,
    Seq<char>,
> {
    let outer = all_keys(inc);
    match first_unbound(jv, outer, 0) {
        Some(v) => Err(unbound_join_message(v)),
        None => match or_join_union(branches, inc, seq_set(jv), outer, ef) {
            Err(m) => Err(m),
            Ok((p, _)) => Ok(join_all(Seq::empty(), inc, p, seq_set(jv))),
        },
    }
}

/// Each `or` and `or-join` clause of `clauses`, in order, applied to the
/// rows; other clauses are left to the rest of the query.
pub open spec fn spec_or_clauses(clauses: Seq<ClauseView>, inc: Seq<Row>, ef: BranchFn) -> Result<Seq<Row>, Seq<char>>
    decreases clauses.len(),
{
    if clauses.len() == 0 {
        Ok(inc)
    } else {
        match spec_or_clauses(clauses.drop_last(), inc, ef) {
            Err(m) => Err(m),
            Ok(rows) => match clauses.last() {
                ClauseView::Or(bs) => spec_or(rows, bs, ef),
                ClauseView::OrJoin { join_vars, branches } => spec_or_join(rows, join_vars, branches, ef),
                _ => Ok(rows),
            },
        }
    }
}

// ===================== evaluation =====================

/// Whether some row of `acc` binds the query variables of `b` alike.
fn seen_visible(acc: &Vec<Bindings>, b: &Bindings) -> (r: bool)
    ensures
        r == exists|j: int| 0 <= j < acc@.len() && visible(rows_view(acc@)[j]) == visible(b@),
{
    let mut j: usize = 0;
    while j < acc.len()
        invariant
            j <= acc@.len(),
            forall|q: int| 0 <= q < j ==> visible(rows_view(acc@)[q]) != visible(b@),
        decreases acc@.len() - j,
    {
        if same_visible(&acc[j], b) {
            assert(rows_view(acc@)[j as int] == acc@[j as int]@);
            return true;
        }
        j = j + 1;
    }
    false
}

/// Whether `acc` holds a row equal to `b`.
fn contains_row(acc: &Vec<Bindings>, b: &Bindings) -> (r: bool)
    ensures
        r == rows_view(acc@).contains(b@),
{
    let mut j: usize = 0;
    while j < acc.len()
        invariant
            j <= acc@.len(),
            forall|q: int| 0 <= q < j ==> rows_view(acc@)[q] != b@,
        decreases acc@.len() - j,
    {
        if same_row(&acc[j], b) {
            assert(rows_view(acc@)[j as int] == b@);
            return true;
        }
        j = j + 1;
    }
    false
}

/// Appends each row of `out` whose query variables no row already had.
fn add_union_visible(acc: &mut Vec<Bindings>, out: &Vec<Bindings>)
    ensures
        rows_view(final(acc)@) == union_visible(rows_view(old(acc)@), rows_view(out@)),
{
    let ghost a0 = rows_view(acc@);
    let ghost ov = rows_view(out@);
    let mut k: usize = 0;
    assert(ov.subrange(0, 0) =~= Seq::<Row>::empty());
    while k < out.len()
        invariant
            k <= out@.len(),
            ov == rows_view(out@),
            rows_view(acc@) == union_visible(a0, ov.subrange(0, k as int)),
        decreases out@.len() - k,
    {
        assert(ov.subrange(0, k + 1).drop_last() =~= ov.subrange(0, k as int));
        assert(ov.subrange(0, k + 1).last() == out@[k as int]@);
        if !seen_visible(acc, &out[k]) {
            let c = row_clone(&out[k]);
            acc.push(c);
            assert(rows_view(acc@) =~= union_visible(a0, ov.subrange(0, k as int)).push(out@[k as int]@));
        }
        k = k + 1;
    }
    assert(ov.subrange(0, out@.len() as int) =~= ov);
}

/// Whether some row of `u` has the key of `r` over `vars`.
fn find_match(r: &Bindings, u: &Vec<Bindings>, vars: &Vec<String>) -> (res: bool)
    ensures
        res == has_match(r@, rows_view(u@), names_set(vars@)),
{
    let mut j: usize = 0;
    while j < u.len()
        invariant
            j <= u@.len(),
            forall|q: int| 0 <= q < j ==> !keymatch(r@, rows_view(u@)[q], names_set(vars@)),
        decreases u@.len() - j,
    {
        if keys_match(r, &u[j], vars) {
            assert(keymatch(r@, rows_view(u@)[j as int], names_set(vars@)));
            return true;
        }
        j = j + 1;
    }
    false
}

/// Whether every incoming row has a match in `u` over `vars`.
fn all_matched(inc: &Vec<Bindings>, u: &Vec<Bindings>, vars: &Vec<String>) -> (r: bool)
    ensures
        r == forall|i: int| 0 <= i < inc@.len() ==> #[trigger] has_match(rows_view(inc@)[i], rows_view(u@), names_set(vars@)),
{
    let mut i: usize = 0;
    while i < inc.len()
        invariant
            i <= inc@.len(),
            forall|q: int| 0 <= q < i ==> #[trigger] has_match(rows_view(inc@)[q], rows_view(u@), names_set(vars@)),
        decreases inc@.len() - i,
    {
        if !find_match(&inc[i], u, vars) {
            assert(!has_match(rows_view(inc@)[i as int], rows_view(u@), names_set(vars@)));
            return false;
        }
        i = i + 1;
    }
    true
}

/// Whether the union so far covers the incoming rows (see `covered`).
fn is_covered(u: &Vec<Bindings>, inc: &Vec<Bindings>, inc_vars: &Vec<String>) -> (r: bool)
    requires
        names_set(inc_vars@) == row_vars(rows_view(inc@)),
    ensures
        r == covered(rows_view(u@), rows_view(inc@)),
{
    let bv = collect_names(u, true);
    if bv.len() == 0 {
        assert(names_set(bv@) =~= Set::<Seq<char>>::empty());
        return false;
    }
    assert(names_set(bv@).contains(bv@[0]@));
    let mut j: usize = 0;
    while j < bv.len()
        invariant
            j <= bv@.len(),
            names_set(inc_vars@) == row_vars(rows_view(inc@)),
            names_set(bv@) == row_vars(rows_view(u@)),
            forall|q: int| 0 <= q < j ==> names_set(inc_vars@).contains(#[trigger] bv@[q]@),
        decreases bv@.len() - j,
    {
        if !name_in(inc_vars, bv[j].as_str()) {
            assert(names_set(bv@).contains(bv@[j as int]@));
            assert(row_vars(rows_view(u@)).contains(bv@[j as int]@));
            assert(!row_vars(rows_view(inc@)).contains(bv@[j as int]@));
            return false;
        }
        j = j + 1;
    }
    assert(names_set(bv@).subset_of(names_set(inc_vars@))) by {
        assert forall|k: Seq<char>| names_set(bv@).contains(k) implies names_set(inc_vars@).contains(k) by {
            let q = choose|q: int| 0 <= q < bv@.len() && bv@[q]@ == k;
            assert(names_set(inc_vars@).contains(bv@[q]@));
        }
    }
    all_matched(inc, u, &bv)
}

/// The join of the incoming rows with `u` on `vars` (see `join_all`).
fn join_rows(inc: &Vec<Bindings>, u: &Vec<Bindings>, vars: &Vec<String>) -> (r: Vec<Bindings>)
    ensures
        rows_view(r@) == join_all(Seq::empty(), rows_view(inc@), rows_view(u@), names_set(vars@)),
{
    let ghost iv = rows_view(inc@);
    let ghost uv = rows_view(u@);
    let ghost vs = names_set(vars@);
    let mut r: Vec<Bindings> = Vec::new();
    let mut i: usize = 0;
    assert(iv.subrange(0, 0) =~= Seq::<Row>::empty());
    while i < inc.len()
        invariant
            i <= inc@.len(),
            iv == rows_view(inc@),
            uv == rows_view(u@),
            vs == names_set(vars@),
            rows_view(r@) == join_all(Seq::empty(), iv.subrange(0, i as int), uv, vs),
        decreases inc@.len() - i,
    {
        let ghost r0 = rows_view(r@);
        let mut k: usize = 0;
        assert(uv.subrange(0, 0) =~= Seq::<Row>::empty());
        while k < u.len()
            invariant
                k <= u@.len(),
                i < inc@.len(),
                iv == rows_view(inc@),
                uv == rows_view(u@),
                vs == names_set(vars@),
                rows_view(r@) == join_one(r0, iv[i as int], uv.subrange(0, k as int), vs),
            decreases u@.len() - k,
        {
            assert(uv.subrange(0, k + 1).drop_last() =~= uv.subrange(0, k as int));
            assert(uv.subrange(0, k + 1).last() == u@[k as int]@);
            assert(iv[i as int] == inc@[i as int]@);
            if keys_match(&inc[i], &u[k], vars) {
                let m = merge_rows(&inc[i], &u[k]);
                if !contains_row(&r, &m) {
                    r.push(m);
                    assert(rows_view(r@) =~= join_one(r0, iv[i as int], uv.subrange(0, k as int), vs).push(
                        uv[k as int].union_prefer_right(iv[i as int]),
                    ));
                }
            }
            k = k + 1;
        }
        assert(uv.subrange(0, u@.len() as int) =~= uv);
        assert(iv.subrange(0, i + 1).drop_last() =~= iv.subrange(0, i as int));
        assert(iv.subrange(0, i + 1).last() == iv[i as int]);
        i = i + 1;
    }
    assert(iv.subrange(0, inc@.len() as int) =~= iv);
    r
}

/// Whether a row binds every one of the names.
fn binds_all(b: &Bindings, names: &Vec<String>) -> (r: bool)
    ensures
        r == forall|k: Seq<char>| names_set(names@).contains(k) ==> b@.contains_key(k),
{
    let mut j: usize = 0;
    while j < names.len()
        invariant
            j <= names@.len(),
            forall|q: int| 0 <= q < j ==> b@.contains_key(#[trigger] names@[q]@),
        decreases names@.len() - j,
    {
        if b.get(names[j].as_str()).is_none() {
            assert(names_set(names@).contains(names@[j as int]@));
            return false;
        }
        j = j + 1;
    }
    assert forall|k: Seq<char>| names_set(names@).contains(k) implies b@.contains_key(k) by {
        let q = choose|q: int| 0 <= q < names@.len() && names@[q]@ == k;
        assert(b@.contains_key(names@[q]@));
    }
    true
}

/// Appends the projections of the branch rows that bind every join
/// variable (see `proj_rows`).
fn add_projections(p: &mut Vec<Bindings>, out: &Vec<Bindings>, jv: &Vec<String>, outer: &Vec<String>)
    ensures
        rows_view(final(p)@) == proj_rows(rows_view(old(p)@), rows_view(out@), names_set(jv@), names_set(outer@)),
{
    let ghost p0 = rows_view(p@);
    let ghost ov = rows_view(out@);
    let mut k: usize = 0;
    assert(ov.subrange(0, 0) =~= Seq::<Row>::empty());
    while k < out.len()
        invariant
            k <= out@.len(),
            ov == rows_view(out@),
            rows_view(p@) == proj_rows(p0, ov.subrange(0, k as int), names_set(jv@), names_set(outer@)),
        decreases out@.len() - k,
    {
        assert(ov.subrange(0, k + 1).drop_last() =~= ov.subrange(0, k as int));
        assert(ov.subrange(0, k + 1).last() == out@[k as int]@);
        if binds_all(&out[k], jv) {
            let q = project_row(&out[k], outer);
            if !contains_row(p, &q) {
                p.push(q);
                assert(rows_view(p@) =~= proj_rows(p0, ov.subrange(0, k as int), names_set(jv@), names_set(outer@)).push(
                    out@[k as int]@.restrict(names_set(outer@)),
                ));
            }
        }
        k = k + 1;
    }
    assert(ov.subrange(0, out@.len() as int) =~= ov);
}

/// Whether some branch holds a `not` or `not-join` clause.
fn negation_in(branches: &Vec<Vec<WhereClause>>) -> (r: bool)
    ensures
        r == any_negation(branches_view(branches@)),
{
    proof {
        lemma_branches_view(branches@);
    }
    let mut i: usize = 0;
    while i < branches.len()
        invariant
            i <= branches@.len(),
            branches_view(branches@).len() == branches@.len(),
            forall|q: int| 0 <= q < branches@.len() ==> #[trigger] branches_view(branches@)[q] == clauses_view(branches@[q]@),
            forall|q: int| 0 <= q < i ==> !has_negation(#[trigger] branches_view(branches@)[q]),
        decreases branches@.len() - i,
    {
        let b = &branches[i];
        proof {
            lemma_clauses_view(b@);
        }
        let mut j: usize = 0;
        while j < b.len()
            invariant
                j <= b@.len(),
                i < branches@.len(),
                *b == branches@[i as int],
                branches_view(branches@).len() == branches@.len(),
                forall|q: int| 0 <= q < branches@.len() ==> #[trigger] branches_view(branches@)[q] == clauses_view(branches@[q]@),
                clauses_view(b@).len() == b@.len(),
                forall|q: int| 0 <= q < b@.len() ==> #[trigger] clauses_view(b@)[q] == crate::types::clause_view(b@[q]),
                forall|q: int| 0 <= q < j ==> !(clauses_view(b@)[q] is Not || clauses_view(b@)[q] is NotJoin),
            decreases b@.len() - j,
        {
            let neg = match &b[j] {
                WhereClause::Not(_) => true,
                WhereClause::NotJoin { .. } => true,
                _ => false,
            };
            if neg {
                assert(branches_view(branches@)[i as int] == clauses_view(b@));
                assert(clauses_view(b@)[j as int] is Not || clauses_view(b@)[j as int] is NotJoin);
                assert(has_negation(branches_view(branches@)[i as int]));
                return true;
            }
            j = j + 1;
        }
        assert(branches_view(branches@)[i as int] == clauses_view(b@));
        i = i + 1;
    }
    false
}

proof fn lemma_seeded_err(bs: Seq<Seq<ClauseView>>, inc: Seq<Row>, ef: BranchFn, i: int)
    requires
        0 <= i <= bs.len(),
        or_seeded(bs.subrange(0, i), inc, ef) is Err,
    ensures
        or_seeded(bs, inc, ef) == or_seeded(bs.subrange(0, i), inc, ef),
    decreases bs.len() - i,
{
    if i < bs.len() {
        assert(bs.subrange(0, i + 1).drop_last() =~= bs.subrange(0, i));
        lemma_seeded_err(bs, inc, ef, i + 1);
    } else {
        assert(bs.subrange(0, i) =~= bs);
    }
}

proof fn lemma_union_err(bs: Seq<Seq<ClauseView>>, inc: Seq<Row>, ef: BranchFn, i: int)
    requires
        0 <= i <= bs.len(),
        or_union(bs.subrange(0, i), inc, ef) is Err,
    ensures
        or_union(bs, inc, ef) == or_union(bs.subrange(0, i), inc, ef),
    decreases bs.len() - i,
{
    if i < bs.len() {
        assert(bs.subrange(0, i + 1).drop_last() =~= bs.subrange(0, i));
        lemma_union_err(bs, inc, ef, i + 1);
    } else {
        assert(bs.subrange(0, i) =~= bs);
    }
}

proof fn lemma_join_union_err(
    bs: Seq<Seq<ClauseView>>,
    inc: Seq<Row>,
    jvs: Set<Seq<char>>,
    outer: Set<Seq<char>>,
    ef: BranchFn,
    i: int,
)
    requires
        0 <= i <= bs.len(),
        or_join_union(bs.subrange(0, i), inc, jvs, outer, ef) is Err,
    ensures
        or_join_union(bs, inc, jvs, outer, ef) == or_join_union(bs.subrange(0, i), inc, jvs, outer, ef),
    decreases bs.len() - i,
{
    if i < bs.len() {
        assert(bs.subrange(0, i + 1).drop_last() =~= bs.subrange(0, i));
        lemma_join_union_err(bs, inc, jvs, outer, ef, i + 1);
    } else {
        assert(bs.subrange(0, i) =~= bs);
    }
}

proof fn lemma_clauses_err(cs: Seq<ClauseView>, inc: Seq<Row>, ef: BranchFn, i: int)
    requires
        0 <= i <= cs.len(),
        spec_or_clauses(cs.subrange(0, i), inc, ef) is Err,
    ensures
        spec_or_clauses(cs, inc, ef) == spec_or_clauses(cs.subrange(0, i), inc, ef),
    decreases cs.len() - i,
{
    if i < cs.len() {
        assert(cs.subrange(0, i + 1).drop_last() =~= cs.subrange(0, i));
        lemma_clauses_err(cs, inc, ef, i + 1);
    } else {
        assert(cs.subrange(0, i) =~= cs);
    }
}

/// The names both lists hold.
fn common_names(a: &Vec<String>, b: &Vec<String>) -> (r: Vec<String>)
    ensures
        names_set(r@) == names_set(a@).intersect(names_set(b@)),
{
    let mut r: Vec<String> = Vec::new();
    let mut j: usize = 0;
    while j < a.len()
        invariant
            j <= a@.len(),
            forall|k: Seq<char>| #[trigger]
                names_set(r@).contains(k) <==> (names_set(b@).contains(k) && exists|q: int| 0 <= q < j && a@[q]@ == k),
        decreases a@.len() - j,
    {
        let ghost r1 = r@;
        if name_in(b, a[j].as_str()) {
            r.push(owned(a[j].as_str()));
        }
        proof {
            assert forall|k: Seq<char>| #[trigger]
                names_set(r@).contains(k) <==> (names_set(b@).contains(k) && exists|q: int| 0 <= q < j + 1 && a@[q]@ == k) by {
                if names_set(r@).contains(k) {
                    let q = choose|q: int| 0 <= q < r@.len() && r@[q]@ == k;
                    if q < r1.len() {
                        assert(r1[q]@ == k);
                        assert(names_set(r1).contains(k));
                    } else {
                        assert(0 <= j < j + 1 && a@[j as int]@ == k);
                    }
                }
                if names_set(r1).contains(k) {
                    let q = choose|q: int| 0 <= q < r1.len() && r1[q]@ == k;
                    assert(r@[q]@ == k);
                }
                if names_set(b@).contains(k) && exists|q: int| 0 <= q < j + 1 && a@[q]@ == k {
                    let q = choose|q: int| 0 <= q < j + 1 && a@[q]@ == k;
                    if q < j {
                        assert(exists|q: int| 0 <= q < j && a@[q]@ == k);
                    } else {
                        assert(r@[r@.len() - 1]@ == k);
                    }
                }
                if exists|q: int| 0 <= q < j && a@[q]@ == k {
                    let q = choose|q: int| 0 <= q < j && a@[q]@ == k;
                    assert(0 <= q < j + 1 && a@[q]@ == k);
                }
            }
        }
        j = j + 1;
    }
    assert(names_set(r@) =~= names_set(a@).intersect(names_set(b@)));
    r
}

/// The single empty row.
pub(crate) fn seed_row() -> (r: Vec<Bindings>)
    ensures
        rows_view(r@) == empty_seed(),
{
    let mut r: Vec<Bindings> = Vec::new();
    r.push(Bindings::new());
    assert(rows_view(r@) =~= empty_seed());
    r
}

/// An `or` clause applied to the incoming rows (see `spec_or`).
fn apply_or<E: Fn(&Vec<DerivedFact>, &Vec<WhereClause>, &Vec<Bindings>) -> Result<Vec<Bindings>, String>>(
    rows: Vec<Bindings>,
    branches: &Vec<Vec<WhereClause>>,
    facts: &Vec<DerivedFact>,
    eval_branch: &E,
    Ghost(ef): Ghost<BranchFn>,
) -> (r: Result<Vec<Bindings>, String>)
    requires
        branch_step_total(*eval_branch),
        branch_agrees(*eval_branch, facts_view(facts@), ef),
    ensures
        rows_result_view(r) == spec_or(rows_view(rows@), branches_view(branches@), ef),
{
    let ghost bv = branches_view(branches@);
    let ghost inc = rows_view(rows@);
    proof {
        lemma_branches_view(branches@);
    }
    assert(bv.subrange(0, 0) =~= Seq::<Seq<ClauseView>>::empty());
    if negation_in(branches) {
        let mut acc: Vec<Bindings> = Vec::new();
        assert(rows_view(acc@) =~= Seq::<Row>::empty());
        let mut i: usize = 0;
        while i < branches.len()
            invariant
                i <= branches@.len(),
                branch_step_total(*eval_branch),
                branch_agrees(*eval_branch, facts_view(facts@), ef),
                bv == branches_view(branches@),
                bv.len() == branches@.len(),
                forall|q: int| 0 <= q < branches@.len() ==> #[trigger] bv[q] == clauses_view(branches@[q]@),
                inc == rows_view(rows@),
                any_negation(bv),
                or_seeded(bv.subrange(0, i as int), inc, ef) == Ok::<Seq<Row>, Seq<char>>(rows_view(acc@)),
            decreases branches@.len() - i,
        {
            assert(bv.subrange(0, i + 1).drop_last() =~= bv.subrange(0, i as int));
            assert(bv.subrange(0, i + 1).last() == bv[i as int]);
            let br = &branches[i];
            let res = eval_branch(facts, br, &rows);
            proof {
                assert(rows_result_view(res) == ef(clauses_view(br@), rows_view(rows@)));
            }
            match res {
                Err(m) => {
                    proof {
                        lemma_seeded_err(bv, inc, ef, i as int + 1);
                    }
                    return Err(m);
                },
                Ok(out) => {
                    add_union_visible(&mut acc, &out);
                },
            }
            i = i + 1;
        }
        assert(bv.subrange(0, branches@.len() as int) =~= bv);
        return Ok(acc);
    }
    let inc_vars = collect_names(&rows, true);
    let seed = seed_row();
    let mut u: Vec<Bindings> = Vec::new();
    assert(rows_view(u@) =~= Seq::<Row>::empty());
    let mut done = false;
    let mut i: usize = 0;
    while i < branches.len()
        invariant
            i <= branches@.len(),
            branch_step_total(*eval_branch),
            branch_agrees(*eval_branch, facts_view(facts@), ef),
            bv == branches_view(branches@),
            bv.len() == branches@.len(),
            forall|q: int| 0 <= q < branches@.len() ==> #[trigger] bv[q] == clauses_view(branches@[q]@),
            inc == rows_view(rows@),
            rows_view(seed@) == empty_seed(),
            names_set(inc_vars@) == row_vars(inc),
            !any_negation(bv),
            or_union(bv.subrange(0, i as int), inc, ef) == Ok::<(Seq<Row>, bool), Seq<char>>((rows_view(u@), done)),
        decreases branches@.len() - i,
    {
        assert(bv.subrange(0, i + 1).drop_last() =~= bv.subrange(0, i as int));
        assert(bv.subrange(0, i + 1).last() == bv[i as int]);
        if !done {
            let br = &branches[i];
            let res = eval_branch(facts, br, &seed);
            proof {
                assert(rows_result_view(res) == ef(clauses_view(br@), rows_view(seed@)));
            }
            match res {
                Err(m) => {
                    proof {
                        lemma_union_err(bv, inc, ef, i as int + 1);
                    }
                    return Err(m);
                },
                Ok(out) => {
                    add_union_visible(&mut u, &out);
                    done = is_covered(&u, &rows, &inc_vars);
                },
            }
        }
        i = i + 1;
    }
    assert(bv.subrange(0, branches@.len() as int) =~= bv);
    let bvars = collect_names(&u, true);
    let shared = common_names(&inc_vars, &bvars);
    if shared.len() == 0 {
        assert(names_set(shared@) =~= Set::<Seq<char>>::empty());
        Ok(u)
    } else {
        assert(names_set(shared@).contains(shared@[0]@));
        Ok(join_rows(&rows, &u, &shared))
    }
}

/// An `or-join` clause applied to the incoming rows (see `spec_or_join`).
fn apply_or_join<E: Fn(&Vec<DerivedFact>, &Vec<WhereClause>, &Vec<Bindings>) -> Result<Vec<Bindings>, String>>(
    rows: Vec<Bindings>,
    join_vars: &Vec<String>,
    branches: &Vec<Vec<WhereClause>>,
    facts: &Vec<DerivedFact>,
    eval_branch: &E,
    Ghost(ef): Ghost<BranchFn>,
) -> (r: Result<Vec<Bindings>, String>)
    requires
        branch_step_total(*eval_branch),
        branch_agrees(*eval_branch, facts_view(facts@), ef),
    ensures
        rows_result_view(r) == spec_or_join(
            rows_view(rows@),
            strs_view(join_vars@),
            branches_view(branches@),
            ef,
        ),
{
    let ghost bv = branches_view(branches@);
    let ghost inc = rows_view(rows@);
    let ghost jvv = strs_view(join_vars@);
    let outer = collect_names(&rows, false);
    let mut j: usize = 0;
    while j < join_vars.len()
        invariant
            j <= join_vars@.len(),
            jvv == strs_view(join_vars@),
            inc == rows_view(rows@),
            names_set(outer@) == all_keys(inc),
            first_unbound(jvv, all_keys(inc), 0) == first_unbound(jvv, all_keys(inc), j as int),
        decreases join_vars@.len() - j,
    {
        assert(jvv[j as int] == join_vars@[j as int]@);
        if !name_in(&outer, join_vars[j].as_str()) {
            let head = concat("or-join variable ", join_vars[j].as_str());
            let msg = concat(head.as_str(), " is not bound in the incoming scope");
            return Err(msg);
        }
        j = j + 1;
    }
    assert(seq_set(jvv) =~= names_set(join_vars@)) by {
        assert forall|k: Seq<char>| seq_set(jvv).contains(k) implies names_set(join_vars@).contains(k) by {
            let q = choose|q: int| 0 <= q < jvv.len() && jvv[q] == k;
            assert(join_vars@[q]@ == k);
        }
        assert forall|k: Seq<char>| names_set(join_vars@).contains(k) implies seq_set(jvv).contains(k) by {
            let q = choose|q: int| 0 <= q < join_vars@.len() && join_vars@[q]@ == k;
            assert(jvv[q] == k);
        }
    }
    proof {
        lemma_branches_view(branches@);
    }
    assert(bv.subrange(0, 0) =~= Seq::<Seq<ClauseView>>::empty());
    let seed = seed_row();
    let mut p: Vec<Bindings> = Vec::new();
    assert(rows_view(p@) =~= Seq::<Row>::empty());
    let mut done = false;
    let mut i: usize = 0;
    while i < branches.len()
        invariant
            i <= branches@.len(),
            branch_step_total(*eval_branch),
            branch_agrees(*eval_branch, facts_view(facts@), ef),
            bv == branches_view(branches@),
            bv.len() == branches@.len(),
            forall|q: int| 0 <= q < branches@.len() ==> #[trigger] bv[q] == clauses_view(branches@[q]@),
            inc == rows_view(rows@),
            rows_view(seed@) == empty_seed(),
            names_set(outer@) == all_keys(inc),
            jvv == strs_view(join_vars@),
            seq_set(jvv) == names_set(join_vars@),
            first_unbound(jvv, all_keys(inc), 0) is None,
            or_join_union(bv.subrange(0, i as int), inc, names_set(join_vars@), all_keys(inc), ef) == Ok::<
                (Seq<Row>, bool),
                Seq<char>,
            >((rows_view(p@), done)),
        decreases branches@.len() - i,
    {
        assert(bv.subrange(0, i + 1).drop_last() =~= bv.subrange(0, i as int));
        assert(bv.subrange(0, i + 1).last() == bv[i as int]);
        if !done {
            let br = &branches[i];
            let res = eval_branch(facts, br, &seed);
            proof {
                assert(rows_result_view(res) == ef(clauses_view(br@), rows_view(seed@)));
            }
            match res {
                Err(m) => {
                    proof {
                        lemma_join_union_err(bv, inc, names_set(join_vars@), all_keys(inc), ef, i as int + 1);
                    }
                    return Err(m);
                },
                Ok(out) => {
                    add_projections(&mut p, &out, join_vars, &outer);
                    done = all_matched(&rows, &p, join_vars);
                },
            }
        }
        i = i + 1;
    }
    assert(bv.subrange(0, branches@.len() as int) =~= bv);
    Ok(join_rows(&rows, &p, join_vars))
}

/// Applies each `or` and `or-join` clause of `clauses`, in order, to the
/// rows; other clauses are left to the rest of the query.
///
/// `or`: when a branch holds a negation, each branch is seeded with the
/// incoming rows and the union of their rows (without repeats of the query
/// variables) is the result. Otherwise each branch is evaluated from the
/// empty row, in order, stopping once the union covers every incoming row
/// (see `covered`); the union is then joined onto the incoming rows on the
/// query variables both bind, or replaces them when they share none.
///
/// `or-join`: every join variable must be bound by some incoming row (else
/// an error naming the first that is not); each branch's rows that bind all
/// join variables are projected onto the incoming variables, and joined onto
/// the incoming rows on the join variables, stopping once every incoming
/// row's key is found.
///
/// `eval_branch` evaluates a branch's clauses over `facts` seeded with rows.
pub fn apply_or_clauses<E: Fn(&Vec<DerivedFact>, &Vec<WhereClause>, &Vec<Bindings>) -> Result<Vec<Bindings>, String>>(
    clauses: &Vec<WhereClause>,
    bindings: Vec<Bindings>,
    facts: &Vec<DerivedFact>,
    eval_branch: &E,
) -> (r: Result<Vec<Bindings>, String>)
    requires
        branch_step_total(*eval_branch),
        branch_step_deterministic(*eval_branch),
    ensures
        rows_result_view(r) == spec_or_clauses(clauses_view(clauses@), rows_view(bindings@), branch_fn(*eval_branch, facts_view(facts@))),
{
    proof {
        lemma_branch_agrees(*eval_branch, facts_view(facts@));
    }
    apply_or_clauses_with(clauses, bindings, facts, eval_branch, Ghost(branch_fn(*eval_branch, facts_view(facts@))))
}

pub(crate) fn apply_or_clauses_with<E: Fn(&Vec<DerivedFact>, &Vec<WhereClause>, &Vec<Bindings>) -> Result<Vec<Bindings>, String>>(
    clauses: &Vec<WhereClause>,
    bindings: Vec<Bindings>,
    facts: &Vec<DerivedFact>,
    eval_branch: &E,
    Ghost(ef): Ghost<BranchFn>,
) -> (r: Result<Vec<Bindings>, String>)
    requires
        branch_step_total(*eval_branch),
        branch_agrees(*eval_branch, facts_view(facts@), ef),
    ensures
        rows_result_view(r) == spec_or_clauses(clauses_view(clauses@), rows_view(bindings@), ef),
{
    let ghost cv = clauses_view(clauses@);
    let ghost inc = rows_view(bindings@);
    proof {
        lemma_clauses_view(clauses@);
    }
    assert(cv.subrange(0, 0) =~= Seq::<ClauseView>::empty());
    let mut rows = bindings;
    let mut i: usize = 0;
    while i < clauses.len()
        invariant
            i <= clauses@.len(),
            branch_step_total(*eval_branch),
            branch_agrees(*eval_branch, facts_view(facts@), ef),
            cv == clauses_view(clauses@),
            cv.len() == clauses@.len(),
            forall|q: int| 0 <= q < clauses@.len() ==> #[trigger] cv[q] == crate::types::clause_view(clauses@[q]),
            inc == rows_view(bindings@),
            spec_or_clauses(cv.subrange(0, i as int), inc, ef) == Ok::<Seq<Row>, Seq<char>>(rows_view(rows@)),
        decreases clauses@.len() - i,
    {
        assert(cv.subrange(0, i + 1).drop_last() =~= cv.subrange(0, i as int));
        assert(cv.subrange(0, i + 1).last() == cv[i as int]);
        let next = match &clauses[i] {
            WhereClause::Or(bs) => apply_or(rows, bs, facts, eval_branch, Ghost(ef)),
            WhereClause::OrJoin { join_vars, branches } => apply_or_join(rows, join_vars, branches, facts, eval_branch, Ghost(ef)),
            _ => Ok(rows),
        };
        match next {
            Err(m) => {
                proof {
                    lemma_clauses_err(cv, inc, ef, i as int + 1);
                }
                return Err(m);
            },
            Ok(r2) => {
                rows = r2;
            },
        }
        i = i + 1;
    }
    assert(cv.subrange(0, clauses@.len() as int) =~= cv);
    Ok(rows)
}

} // verus!
