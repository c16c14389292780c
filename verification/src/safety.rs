//! Variable binding and safety rules of `:where` clauses and rule bodies:
//! which variables a clause binds, and the checks that negations, joins and
//! expression clauses only use variables bound elsewhere.
use vstd::prelude::*;
use crate::edn::{EdnValue, EdnView, edn_view, edns_view, view_variable, lemma_edns_view};
use crate::text::{owned, concat, has_prefix, starts_with, str_eq};
use crate::types::{
    Expr, ExprView, AttributeSpec, AttributeView, WhereClause, ClauseView, clause_view, clauses_view,
    branches_view, strs_view, lemma_clauses_view, lemma_branches_view,
};

verus! {

/// A variable whose name starts with `?_` is anonymous and never binds.
pub open spec fn anonymous(name: Seq<char>) -> bool {
    has_prefix(name, "?_"@)
}

/// The (non-anonymous) variable a value names, as a zero- or one-element list.
pub open spec fn bound_var(v: EdnView) -> Seq<Seq<char>> {
    match view_variable(v) {
        Some(n) => if anonymous(n) {
            Seq::empty()
        } else {
            seq![n]
        },
        None => Seq::empty(),
    }
}

/// The variables bound by a list of values (rule-invocation arguments).
pub open spec fn args_vars(args: Seq<EdnView>) -> Seq<Seq<char>>
    decreases args.len(),
{
    if args.len() == 0 {
        Seq::empty()
    } else {
        args_vars(args.drop_last()) + bound_var(args.last())
    }
}

/// The variables a clause binds for the clauses around it: those of a
/// pattern or rule invocation, the join variables of `or-join`, the output
/// of an expression clause, and for `or` those bound by every branch;
/// negations bind nothing. Only membership matters; the order is not
/// significant.
pub open spec fn clause_vars(c: ClauseView) -> Seq<Seq<char>>
    decreases c,
{
    match c {
        ClauseView::Pattern(p) => bound_var(p.entity) + (match p.attribute {
            AttributeView::Real(a) => bound_var(a),
            AttributeView::Pseudo(_) => Seq::empty(),
        }) + bound_var(p.value),
        ClauseView::RuleInvocation { args, .. } => args_vars(args),
        ClauseView::Not(_) => Seq::empty(),
        ClauseView::NotJoin { .. } => Seq::empty(),
        ClauseView::Or(bs) => if bs.len() == 0 {
            Seq::empty()
        } else {
            common_vars(branch_var_lists(bs))
        },
        ClauseView::OrJoin { join_vars, .. } => join_vars,
        ClauseView::Expr { binding, .. } => match binding {
            Some(v) => seq![v],
            None => Seq::empty(),
        },
    }
}

/// The variables bound by a sequence of clauses.
pub open spec fn clauses_vars(cs: Seq<ClauseView>) -> Seq<Seq<char>>
    decreases cs,
{
    if cs.len() == 0 {
        Seq::empty()
    } else {
        clauses_vars(cs.drop_last()) + clause_vars(cs.last())
    }
}

/// The variable lists of each branch.
pub open spec fn branch_var_lists(bs: Seq<Seq<ClauseView>>) -> Seq<Seq<Seq<char>>>
    decreases bs,
{
    if bs.len() == 0 {
        Seq::empty()
    } else {
        branch_var_lists(bs.drop_last()).push(clauses_vars(bs.last()))
    }
}

/// `v` occurs in every list of `l` after the first.
pub open spec fn in_all_others(l: Seq<Seq<Seq<char>>>, v: Seq<char>) -> bool {
    forall|j: int| 1 <= j < l.len() ==> #[trigger] l[j].contains(v)
}

/// The elements of `vs` that occur in every list of `l` after the first.
pub open spec fn keep_common(vs: Seq<Seq<char>>, l: Seq<Seq<Seq<char>>>) -> Seq<Seq<char>>
    decreases vs.len(),
{
    if vs.len() == 0 {
        Seq::empty()
    } else if in_all_others(l, vs.last()) {
        keep_common(vs.drop_last(), l).push(vs.last())
    } else {
        keep_common(vs.drop_last(), l)
    }
}

/// The variables common to all lists (those of the first that all others hold).
pub open spec fn common_vars(l: Seq<Seq<Seq<char>>>) -> Seq<Seq<char>> {
    if l.len() == 0 {
        Seq::empty()
    } else {
        keep_common(l[0], l)
    }
}

/// Whether a list of strings holds `s`.
pub fn contains_str(v: &Vec<String>, s: &str) -> (r: bool)
    ensures
        r == strs_view(v@).contains(s@),
{
    let mut k: usize = 0;
    while k < v.len()
        invariant
            k <= v@.len(),
            forall|i: int| 0 <= i < k ==> v@[i]@ != s@,
        decreases v@.len() - k,
    {
        if str_eq(v[k].as_str(), s) {
            assert(strs_view(v@)[k as int] == s@);
            return true;
        }
        k = k + 1;
    }
    proof {
        if strs_view(v@).contains(s@) {
            let w = choose|i: int| 0 <= i < strs_view(v@).len() && strs_view(v@)[i] == s@;
            assert(v@[w]@ == s@);
        }
    }
    false
}

/// A copy of a list of strings.
pub fn clone_strs(v: &Vec<String>) -> (r: Vec<String>)
    ensures
        strs_view(r@) == strs_view(v@),
{
    let mut out: Vec<String> = Vec::new();
    let mut k: usize = 0;
    while k < v.len()
        invariant
            k <= v@.len(),
            strs_view(out@) == strs_view(v@.subrange(0, k as int)),
        decreases v@.len() - k,
    {
        let ghost prev = out@;
        out.push(v[k].clone());
        assert(v@.subrange(0, k + 1) =~= v@.subrange(0, k as int).push(v@[k as int]));
        assert(out@ =~= prev.push(v@[k as int]));
        assert(strs_view(out@) =~= strs_view(prev).push(v@[k as int]@));
        assert(strs_view(v@.subrange(0, k + 1)) =~= strs_view(v@.subrange(0, k as int)).push(v@[k as int]@));
        k = k + 1;
    }
    assert(v@.subrange(0, v@.len() as int) =~= v@);
    out
}

/// Appends the strings of `b` to `a`.
pub fn append_strs(a: &mut Vec<String>, b: &Vec<String>)
    ensures
        strs_view(final(a)@) == strs_view(old(a)@) + strs_view(b@),
{
    let mut k: usize = 0;
    while k < b.len()
        invariant
            k <= b@.len(),
            strs_view(a@) == strs_view(old(a)@) + strs_view(b@.subrange(0, k as int)),
        decreases b@.len() - k,
    {
        let ghost prev = a@;
        a.push(b[k].clone());
        assert(b@.subrange(0, k + 1) =~= b@.subrange(0, k as int).push(b@[k as int]));
        assert(a@ =~= prev.push(b@[k as int]));
        assert(strs_view(a@) =~= strs_view(prev).push(b@[k as int]@));
        assert(strs_view(b@.subrange(0, k + 1)) =~= strs_view(b@.subrange(0, k as int)).push(b@[k as int]@));
        assert(strs_view(a@) =~= strs_view(old(a)@) + strs_view(b@.subrange(0, k + 1)));
        k = k + 1;
    }
    assert(b@.subrange(0, b@.len() as int) =~= b@);
}

fn push_bound_var(out: &mut Vec<String>, v: &EdnValue)
    ensures
        strs_view(final(out)@) == strs_view(old(out)@) + bound_var(v@),
{
    match v.as_variable() {
        Some(n) => {
            if !starts_with(n, "?_") {
                out.push(owned(n));
                assert(strs_view(out@) =~= strs_view(old(out)@) + seq![n@]);
            } else {
                assert(strs_view(out@) =~= strs_view(old(out)@) + Seq::<Seq<char>>::empty());
            }
        },
        None => {
            assert(strs_view(out@) =~= strs_view(old(out)@) + Seq::<Seq<char>>::empty());
        },
    }
}

fn args_vars_exec(args: &Vec<EdnValue>) -> (r: Vec<String>)
    ensures
        strs_view(r@) == args_vars(edns_view(args@)),
{
    proof {
        lemma_edns_view(args@);
    }
    let ghost av = edns_view(args@);
    let mut out: Vec<String> = Vec::new();
    let mut k: usize = 0;
    proof {
        assert(av.subrange(0, 0) =~= Seq::<EdnView>::empty());
        assert(strs_view(out@) =~= Seq::<Seq<char>>::empty());
    }
    while k < args.len()
        invariant
            k <= args@.len(),
            av == edns_view(args@),
            av.len() == args@.len(),
            forall|i: int| 0 <= i < args@.len() ==> #[trigger] av[i] == edn_view(args@[i]),
            strs_view(out@) == args_vars(av.subrange(0, k as int)),
        decreases args@.len() - k,
    {
        push_bound_var(&mut out, &args[k]);
        assert(av.subrange(0, k + 1).drop_last() =~= av.subrange(0, k as int));
        k = k + 1;
    }
    assert(av.subrange(0, args@.len() as int) =~= av);
    out
}

/// The variables a clause binds for the clauses around it (see `clause_vars`).
pub fn outer_vars_from_clause(c: &WhereClause) -> (r: Vec<String>)
    ensures
        strs_view(r@) == clause_vars(c@),
    decreases c,
{
    match c {
        WhereClause::Pattern(p) => {
            let mut out: Vec<String> = Vec::new();
            push_bound_var(&mut out, &p.entity);
            match &p.attribute {
                AttributeSpec::Real(a) => push_bound_var(&mut out, a),
                AttributeSpec::Pseudo(_) => {},
            }
            push_bound_var(&mut out, &p.value);
            assert(strs_view(out@) =~= clause_vars(c@));
            out
        },
        WhereClause::RuleInvocation { args, .. } => args_vars_exec(args),
        WhereClause::Not(_) => {
            let out: Vec<String> = Vec::new();
            assert(strs_view(out@) =~= Seq::<Seq<char>>::empty());
            out
        },
        WhereClause::NotJoin { .. } => {
            let out: Vec<String> = Vec::new();
            assert(strs_view(out@) =~= Seq::<Seq<char>>::empty());
            out
        },
        WhereClause::Or(bs) => {
            if bs.len() == 0 {
                let out: Vec<String> = Vec::new();
                assert(strs_view(out@) =~= Seq::<Seq<char>>::empty());
                out
            } else {
                let lists = branch_lists(bs);
                proof {
                    lemma_branch_var_lists_len(branches_view(bs@));
                    lemma_branches_view(bs@);
                }
                or_common(&lists)
            }
        },
        WhereClause::OrJoin { join_vars, .. } => clone_strs(join_vars),
        WhereClause::Expr { binding, .. } => {
            let mut out: Vec<String> = Vec::new();
            match binding {
                Some(v) => {
                    out.push(v.clone());
                    assert(strs_view(out@) =~= seq![v@]);
                },
                None => {
                    assert(strs_view(out@) =~= Seq::<Seq<char>>::empty());
                },
            }
            out
        },
    }
}

/// The variables bound by a sequence of clauses.
pub fn clauses_vars_exec(cs: &Vec<WhereClause>) -> (r: Vec<String>)
    ensures
        strs_view(r@) == clauses_vars(clauses_view(cs@)),
    decreases cs,
{
    proof {
        lemma_clauses_view(cs@);
    }
    let ghost cv = clauses_view(cs@);
    let mut out: Vec<String> = Vec::new();
    let mut k: usize = 0;
    proof {
        assert(cv.subrange(0, 0) =~= Seq::<ClauseView>::empty());
        assert(strs_view(out@) =~= Seq::<Seq<char>>::empty());
    }
    while k < cs.len()
        invariant
            k <= cs@.len(),
            cv == clauses_view(cs@),
            cv.len() == cs@.len(),
            forall|i: int| 0 <= i < cs@.len() ==> #[trigger] cv[i] == clause_view(cs@[i]),
            strs_view(out@) == clauses_vars(cv.subrange(0, k as int)),
        decreases cs@.len() - k,
    {
        let vs = outer_vars_from_clause(&cs[k]);
        append_strs(&mut out, &vs);
        assert(cv.subrange(0, k + 1).drop_last() =~= cv.subrange(0, k as int));
        k = k + 1;
    }
    assert(cv.subrange(0, cs@.len() as int) =~= cv);
    out
}

fn branch_lists(bs: &Vec<Vec<WhereClause>>) -> (r: Vec<Vec<String>>)
    ensures
        r@.map_values(|v: Vec<String>| strs_view(v@)) == branch_var_lists(branches_view(bs@)),
    decreases bs,
{
    proof {
        lemma_branches_view(bs@);
    }
    let ghost bv = branches_view(bs@);
    let mut out: Vec<Vec<String>> = Vec::new();
    let mut k: usize = 0;
    proof {
        assert(bv.subrange(0, 0) =~= Seq::<Seq<ClauseView>>::empty());
        assert(out@.map_values(|v: Vec<String>| strs_view(v@)) =~= Seq::<Seq<Seq<char>>>::empty());
    }
    while k < bs.len()
        invariant
            k <= bs@.len(),
            bv == branches_view(bs@),
            bv.len() == bs@.len(),
            forall|i: int| 0 <= i < bs@.len() ==> #[trigger] bv[i] == clauses_view(bs@[i]@),
            out@.map_values(|v: Vec<String>| strs_view(v@)) == branch_var_lists(bv.subrange(0, k as int)),
        decreases bs@.len() - k,
    {
        let vs = clauses_vars_exec(&bs[k]);
        let ghost prev = out@;
        out.push(vs);
        assert(bv.subrange(0, k + 1).drop_last() =~= bv.subrange(0, k as int));
        assert(out@.map_values(|v: Vec<String>| strs_view(v@)) =~= prev.map_values(|v: Vec<String>| strs_view(v@)).push(strs_view(vs@)));
        k = k + 1;
    }
    assert(bv.subrange(0, bs@.len() as int) =~= bv);
    out
}

proof fn lemma_branch_var_lists_len(bs: Seq<Seq<ClauseView>>)
    ensures
        branch_var_lists(bs).len() == bs.len(),
    decreases bs.len(),
{
    if bs.len() > 0 {
        lemma_branch_var_lists_len(bs.drop_last());
    }
}

fn or_common(lists: &Vec<Vec<String>>) -> (r: Vec<String>)
    requires
        lists@.len() >= 1,
    ensures
        strs_view(r@) == common_vars(lists@.map_values(|v: Vec<String>| strs_view(v@))),
{
    let mut out: Vec<String> = Vec::new();
    let ghost l = lists@.map_values(|v: Vec<String>| strs_view(v@));
    let first = &lists[0];
    let ghost fv = strs_view(first@);
    let mut k: usize = 0;
    proof {
        assert(fv.subrange(0, 0) =~= Seq::<Seq<char>>::empty());
        assert(strs_view(out@) =~= Seq::<Seq<char>>::empty());
        assert(l[0] == fv);
    }
    while k < first.len()
        invariant
            k <= first@.len(),
            lists@.len() >= 1,
            l == lists@.map_values(|v: Vec<String>| strs_view(v@)),
            fv == strs_view(first@),
            *first == lists@[0],
            strs_view(out@) == keep_common(fv.subrange(0, k as int), l),
        decreases first@.len() - k,
    {
        let name = &first[k];
        let mut all = true;
        let mut j: usize = 1;
        while j < lists.len()
            invariant
                1 <= j <= lists@.len(),
                l == lists@.map_values(|v: Vec<String>| strs_view(v@)),
                all == (forall|i: int| 1 <= i < j ==> #[trigger] l[i].contains(name@)),
            decreases lists@.len() - j,
        {
            let c = contains_str(&lists[j], name.as_str());
            assert(l[j as int] == strs_view(lists@[j as int]@));
            if !c {
                all = false;
            }
            j = j + 1;
        }
        assert(fv.subrange(0, k + 1).drop_last() =~= fv.subrange(0, k as int));
        assert(fv.subrange(0, k + 1).last() == name@);
        if all {
            let ghost prev = out@;
            out.push(name.clone());
            assert(strs_view(out@) =~= strs_view(prev).push(name@));
        }
        k = k + 1;
    }
    assert(fv.subrange(0, first@.len() as int) =~= fv);
    out
}


// ===================== safety checks =====================

/// The first variable of `vs` that `bound` lacks (skipping anonymous ones
/// when `skip_anon`).
pub open spec fn first_unbound(vs: Seq<Seq<char>>, bound: Set<Seq<char>>, skip_anon: bool) -> Option<Seq<char>>
    decreases vs.len(),
{
    if vs.len() == 0 {
        None
    } else if !(skip_anon && anonymous(vs[0])) && !bound.contains(vs[0]) {
        Some(vs[0])
    } else {
        first_unbound(vs.subrange(1, vs.len() as int), bound, skip_anon)
    }
}

/// The error, if any, of the rule that every variable of a `(not ...)`
/// body must be bound by an outer clause.
pub open spec fn not_safety(cs: Seq<ClauseView>, bound: Set<Seq<char>>) -> Option<Seq<char>>
    decreases cs.len(),
{
    if cs.len() == 0 {
        None
    } else {
        match cs[0] {
            ClauseView::Not(inner) => match first_unbound(clauses_vars(inner), bound, false) {
                Some(v) => Some("variable "@ + v + " in (not ...) is not bound by any outer clause"@),
                None => not_safety(cs.subrange(1, cs.len() as int), bound),
            },
            _ => not_safety(cs.subrange(1, cs.len() as int), bound),
        }
    }
}

/// The error, if any, of the rule that every (non-anonymous) join variable
/// of a `(not-join ...)` must be bound by an outer clause.
pub open spec fn not_join_safety(cs: Seq<ClauseView>, bound: Set<Seq<char>>) -> Option<Seq<char>>
    decreases cs.len(),
{
    if cs.len() == 0 {
        None
    } else {
        match cs[0] {
            ClauseView::NotJoin { join_vars, .. } => match first_unbound(join_vars, bound, true) {
                Some(v) => Some(
                    "join variable "@ + v + " in (not-join ...) is not bound by any outer clause"@,
                ),
                None => not_join_safety(cs.subrange(1, cs.len() as int), bound),
            },
            _ => not_join_safety(cs.subrange(1, cs.len() as int), bound),
        }
    }
}

pub(crate) fn first_unbound_exec(vs: &Vec<String>, bound: &Vec<String>, skip_anon: bool) -> (r: Option<String>)
    ensures
        match r {
            Some(v) => first_unbound(strs_view(vs@), strs_view(bound@).to_set(), skip_anon) == Some(v@),
            None => first_unbound(strs_view(vs@), strs_view(bound@).to_set(), skip_anon) is None,
        },
{
    let ghost sv = strs_view(vs@);
    let ghost bs = strs_view(bound@).to_set();
    let mut k: usize = 0;
    assert(sv.subrange(0, sv.len() as int) =~= sv);
    while k < vs.len()
        invariant
            k <= vs@.len(),
            sv == strs_view(vs@),
            bs == strs_view(bound@).to_set(),
            first_unbound(sv, bs, skip_anon) == first_unbound(sv.subrange(k as int, sv.len() as int), bs, skip_anon),
        decreases vs@.len() - k,
    {
        let ghost rest = sv.subrange(k as int, sv.len() as int);
        assert(rest[0] == vs@[k as int]@);
        assert(rest.subrange(1, rest.len() as int) =~= sv.subrange(k + 1, sv.len() as int));
        let anon = skip_anon && starts_with(vs[k].as_str(), "?_");
        if !anon && !contains_str(bound, vs[k].as_str()) {
            return Some(vs[k].clone());
        }
        k = k + 1;
    }
    None
}

/// Checks that every variable inside a `(not ...)` is in `outer_bound`.
pub fn check_not_safety(clauses: &Vec<WhereClause>, outer_bound: &Vec<String>) -> (r: Result<(), String>)
    ensures
        match r {
            Ok(()) => not_safety(clauses_view(clauses@), strs_view(outer_bound@).to_set()) is None,
            Err(m) => not_safety(clauses_view(clauses@), strs_view(outer_bound@).to_set()) == Some(m@),
        },
{
    proof {
        lemma_clauses_view(clauses@);
    }
    let ghost cv = clauses_view(clauses@);
    let ghost bs = strs_view(outer_bound@).to_set();
    let mut k: usize = 0;
    assert(cv.subrange(0, cv.len() as int) =~= cv);
    while k < clauses.len()
        invariant
            k <= clauses@.len(),
            cv == clauses_view(clauses@),
            cv.len() == clauses@.len(),
            forall|i: int| 0 <= i < clauses@.len() ==> #[trigger] cv[i] == clause_view(clauses@[i]),
            bs == strs_view(outer_bound@).to_set(),
            not_safety(cv, bs) == not_safety(cv.subrange(k as int, cv.len() as int), bs),
        decreases clauses@.len() - k,
    {
        let ghost rest = cv.subrange(k as int, cv.len() as int);
        assert(rest[0] == cv[k as int]);
        assert(rest.subrange(1, rest.len() as int) =~= cv.subrange(k + 1, cv.len() as int));
        match &clauses[k] {
            WhereClause::Not(inner) => {
                let vs = clauses_vars_exec(inner);
                match first_unbound_exec(&vs, outer_bound, false) {
                    Some(v) => {
                        let mut m = concat("variable ", v.as_str());
                        m.append(" in (not ...) is not bound by any outer clause");
                        return Err(m);
                    },
                    None => {},
                }
            },
            _ => {},
        }
        k = k + 1;
    }
    Ok(())
}

/// Checks that every (non-anonymous) join variable of a `(not-join ...)` is
/// in `outer_bound`; variables only inside the body need not be.
pub fn check_not_join_safety(clauses: &Vec<WhereClause>, outer_bound: &Vec<String>) -> (r: Result<(), String>)
    ensures
        match r {
            Ok(()) => not_join_safety(clauses_view(clauses@), strs_view(outer_bound@).to_set()) is None,
            Err(m) => not_join_safety(clauses_view(clauses@), strs_view(outer_bound@).to_set()) == Some(m@),
        },
{
    proof {
        lemma_clauses_view(clauses@);
    }
    let ghost cv = clauses_view(clauses@);
    let ghost bs = strs_view(outer_bound@).to_set();
    let mut k: usize = 0;
    assert(cv.subrange(0, cv.len() as int) =~= cv);
    while k < clauses.len()
        invariant
            k <= clauses@.len(),
            cv == clauses_view(clauses@),
            cv.len() == clauses@.len(),
            forall|i: int| 0 <= i < clauses@.len() ==> #[trigger] cv[i] == clause_view(clauses@[i]),
            bs == strs_view(outer_bound@).to_set(),
            not_join_safety(cv, bs) == not_join_safety(cv.subrange(k as int, cv.len() as int), bs),
        decreases clauses@.len() - k,
    {
        let ghost rest = cv.subrange(k as int, cv.len() as int);
        assert(rest[0] == cv[k as int]);
        assert(rest.subrange(1, rest.len() as int) =~= cv.subrange(k + 1, cv.len() as int));
        match &clauses[k] {
            WhereClause::NotJoin { join_vars, .. } => {
                match first_unbound_exec(join_vars, outer_bound, true) {
                    Some(v) => {
                        let mut m = concat("join variable ", v.as_str());
                        m.append(" in (not-join ...) is not bound by any outer clause");
                        return Err(m);
                    },
                    None => {},
                }
            },
            _ => {},
        }
        k = k + 1;
    }
    Ok(())
}

/// The variables an expression reads, in order.
pub open spec fn expr_vars(e: ExprView) -> Seq<Seq<char>>
    decreases e,
{
    match e {
        ExprView::Var(v) => seq![v],
        ExprView::Lit(_) => Seq::empty(),
        ExprView::Slot(_) => Seq::empty(),
        ExprView::BinOp(_, l, r) => expr_vars(*l) + expr_vars(*r),
        ExprView::UnaryOp(_, a) => expr_vars(*a),
    }
}

/// The variables an expression reads, in order.
pub fn expr_vars_exec(e: &Expr) -> (r: Vec<String>)
    ensures
        strs_view(r@) == expr_vars(e@),
    decreases e,
{
    match e {
        Expr::Var(v) => {
            let mut out: Vec<String> = Vec::new();
            out.push(v.clone());
            assert(strs_view(out@) =~= seq![v@]);
            out
        },
        Expr::Lit(_) | Expr::Slot(_) => {
            let out: Vec<String> = Vec::new();
            assert(strs_view(out@) =~= Seq::<Seq<char>>::empty());
            out
        },
        Expr::BinOp(_, l, r) => {
            let mut out = expr_vars_exec(l);
            let rv = expr_vars_exec(r);
            append_strs(&mut out, &rv);
            out
        },
        Expr::UnaryOp(_, a) => expr_vars_exec(a),
    }
}

/// The variables bound after one clause, given those bound before it, or the
/// first safety error: an expression clause may only read bound variables
/// (and binds its output); negations are checked in a copy of the bound set
/// and bind nothing; every branch of `or` must bind the same new variables,
/// which it then binds; the join variables of `or-join` must be bound and it
/// binds nothing; other clauses bind their variables.
pub open spec fn clause_safety(c: ClauseView, bound: Set<Seq<char>>) -> Result<Set<Seq<char>>, Seq<char>>
    decreases c, 0int,
{
    match c {
        ClauseView::Expr { expr, binding } => match first_unbound(expr_vars(expr), bound, false) {
            Some(v) => Err(
                "variable "@ + v + " in expression clause is not bound by any earlier clause"@,
            ),
            None => Ok(
                match binding {
                    Some(out) => bound.insert(out),
                    None => bound,
                },
            ),
        },
        ClauseView::Not(inner) => match clauses_safety(inner, 0, bound) {
            Ok(_) => Ok(bound),
            Err(m) => Err(m),
        },
        ClauseView::NotJoin { clauses, .. } => match clauses_safety(clauses, 0, bound) {
            Ok(_) => Ok(bound),
            Err(m) => Err(m),
        },
        ClauseView::Or(bs) => if bs.len() == 0 {
            Ok(bound)
        } else {
            match or_safety(bs, 0, bound, Seq::empty()) {
                Err(m) => Err(m),
                Ok(news) => if exists|i: int| 0 <= i < news.len() - 1 && #[trigger] news[i] != news[i + 1] {
                    Err("all branches of (or ...) must introduce the same set of new variables"@)
                } else {
                    Ok(bound.union(news[0]))
                },
            }
        },
        ClauseView::OrJoin { join_vars, branches } => match first_unbound(join_vars, bound, true) {
            Some(v) => Err(
                "join variable "@ + v + " in (or-join ...) is not bound by any earlier clause"@,
            ),
            None => match or_safety(branches, 0, bound, Seq::empty()) {
                Ok(_) => Ok(bound),
                Err(m) => Err(m),
            },
        },
        _ => Ok(bound.union(clause_vars(c).to_set())),
    }
}

/// The variables bound after clauses `j..`, or the first safety error.
pub open spec fn clauses_safety(cs: Seq<ClauseView>, j: int, bound: Set<Seq<char>>) -> Result<
    Set<Seq<char>>,
    Seq<char>,
>
    decreases cs, cs.len() - j,
{
    if j < 0 || j >= cs.len() {
        Ok(bound)
    } else {
        match clause_safety(cs[j], bound) {
            Ok(b2) => clauses_safety(cs, j + 1, b2),
            Err(m) => Err(m),
        }
    }
}

/// For branches `k..` of an `or`, each checked from `bound`: the new
/// variables each binds, after those in `acc`, or the first error.
pub open spec fn or_safety(bs: Seq<Seq<ClauseView>>, k: int, bound: Set<Seq<char>>, acc: Seq<Set<Seq<char>>>) -> Result<
    Seq<Set<Seq<char>>>,
    Seq<char>,
>
    decreases bs, bs.len() - k,
{
    if k < 0 || k >= bs.len() {
        Ok(acc)
    } else {
        match clauses_safety(bs[k], 0, bound) {
            Ok(bb) => or_safety(bs, k + 1, bound, acc.push(bb.difference(bound))),
            Err(m) => Err(m),
        }
    }
}

proof fn lemma_concat_to_set(a: Seq<Seq<char>>, b: Seq<Seq<char>>)
    ensures
        (a + b).to_set() == a.to_set().union(b.to_set()),
{
    assert forall|x: Seq<char>| (a + b).to_set().contains(x) == a.to_set().union(b.to_set()).contains(x) by {
        if (a + b).contains(x) {
            let i = choose|i: int| 0 <= i < (a + b).len() && (a + b)[i] == x;
            if i < a.len() {
                assert(a[i] == x);
            } else {
                assert(b[i - a.len()] == x);
            }
        }
        if a.contains(x) {
            let i = choose|i: int| 0 <= i < a.len() && a[i] == x;
            assert((a + b)[i] == x);
        }
        if b.contains(x) {
            let i = choose|i: int| 0 <= i < b.len() && b[i] == x;
            assert((a + b)[a.len() + i] == x);
        }
    }
    assert((a + b).to_set() =~= a.to_set().union(b.to_set()));
}

fn same_set(a: &Vec<String>, b: &Vec<String>) -> (r: bool)
    ensures
        r == (strs_view(a@).to_set() == strs_view(b@).to_set()),
{
    let mut k: usize = 0;
    while k < a.len()
        invariant
            k <= a@.len(),
            forall|i: int| 0 <= i < k ==> strs_view(b@).contains(#[trigger] strs_view(a@)[i]),
        decreases a@.len() - k,
    {
        if !contains_str(b, a[k].as_str()) {
            proof {
                assert(strs_view(a@)[k as int] == a@[k as int]@);
                assert(strs_view(a@).to_set().contains(a@[k as int]@));
                assert(!strs_view(b@).to_set().contains(a@[k as int]@));
            }
            return false;
        }
        k = k + 1;
    }
    let mut k: usize = 0;
    while k < b.len()
        invariant
            k <= b@.len(),
            forall|i: int| 0 <= i < a@.len() ==> strs_view(b@).contains(#[trigger] strs_view(a@)[i]),
            forall|i: int| 0 <= i < k ==> strs_view(a@).contains(#[trigger] strs_view(b@)[i]),
        decreases b@.len() - k,
    {
        if !contains_str(a, b[k].as_str()) {
            proof {
                assert(strs_view(b@)[k as int] == b@[k as int]@);
                assert(strs_view(b@).to_set().contains(b@[k as int]@));
                assert(!strs_view(a@).to_set().contains(b@[k as int]@));
            }
            return false;
        }
        k = k + 1;
    }
    proof {
        assert forall|x: Seq<char>| strs_view(a@).to_set().contains(x) == strs_view(b@).to_set().contains(x) by {
            if strs_view(a@).contains(x) {
                let i = choose|i: int| 0 <= i < strs_view(a@).len() && strs_view(a@)[i] == x;
            }
            if strs_view(b@).contains(x) {
                let i = choose|i: int| 0 <= i < strs_view(b@).len() && strs_view(b@)[i] == x;
            }
        }
        assert(strs_view(a@).to_set() =~= strs_view(b@).to_set());
    }
    true
}

/// Checks one clause given the variables bound before it, adding those it
/// binds to `bound` (see `clause_safety`).
#[verifier::loop_isolation(false)]
pub fn check_clause_safety(c: &WhereClause, bound: &mut Vec<String>) -> (r: Result<(), String>)
    ensures
        match r {
            Ok(()) => clause_safety(c@, strs_view(old(bound)@).to_set()) == Ok::<Set<Seq<char>>, Seq<char>>(
                strs_view(final(bound)@).to_set(),
            ),
            Err(m) => clause_safety(c@, strs_view(old(bound)@).to_set()) == Err::<Set<Seq<char>>, Seq<char>>(m@),
        },
    decreases c,
{
    match c {
        WhereClause::Expr { expr, binding } => {
            let vs = expr_vars_exec(expr);
            match first_unbound_exec(&vs, bound, false) {
                Some(v) => {
                    let mut m = concat("variable ", v.as_str());
                    m.append(" in expression clause is not bound by any earlier clause");
                    return Err(m);
                },
                None => {},
            }
            match binding {
                Some(out) => {
                    let ghost prev = bound@;
                    bound.push(out.clone());
                    proof {
                        assert(strs_view(bound@) =~= strs_view(prev) + seq![out@]);
                        lemma_concat_to_set(strs_view(prev), seq![out@]);
                        assert forall|x: Seq<char>| seq![out@].to_set().contains(x) == Set::empty().insert(out@).contains(x) by {
                            if seq![out@].contains(x) {
                                let w = choose|w: int| 0 <= w < 1 && seq![out@][w] == x;
                            }
                            if x == out@ {
                                assert(seq![out@][0] == x);
                            }
                        }
                        assert(seq![out@].to_set() =~= Set::empty().insert(out@));
                        assert(strs_view(bound@).to_set() =~= strs_view(prev).to_set().insert(out@));
                    }
                },
                None => {},
            }
            Ok(())
        },
        WhereClause::Not(inner) => {
            let mut inner_bound = clone_strs(bound);
            check_expr_safety_with_bound(inner, &mut inner_bound)?;
            Ok(())
        },
        WhereClause::NotJoin { clauses: inner, .. } => {
            let mut inner_bound = clone_strs(bound);
            check_expr_safety_with_bound(inner, &mut inner_bound)?;
            Ok(())
        },
        WhereClause::Or(bs) => {
            if bs.len() == 0 {
                return Ok(());
            }
            let news = or_branches_safety(bs, bound)?;
            let ghost nv = news@.map_values(|v: Vec<String>| strs_view(v@).to_set());
            proof {
                lemma_branches_view(bs@);
            }
            let mut i: usize = 0;
            while i < news.len() - 1
                invariant
                    nv == news@.map_values(|v: Vec<String>| strs_view(v@).to_set()),
                    nv.len() == news@.len(),
                    news@.len() == bs@.len(),
                    news@.len() >= 1,
                    i < news@.len(),
                    forall|j: int| 0 <= j < i ==> #[trigger] nv[j] == nv[j + 1],
                decreases news@.len() - i,
            {
                if !same_set(&news[i], &news[i + 1]) {
                    proof {
                        assert(nv[i as int] == strs_view(news@[i as int]@).to_set());
                        assert(nv[i + 1] == strs_view(news@[i + 1]@).to_set());
                        assert(nv[i as int] != nv[i + 1]);
                        lemma_branches_view(bs@);
                        assert(c@ == ClauseView::Or(branches_view(bs@)));
                        assert(branches_view(bs@).len() == bs@.len());
                        assert(exists|j: int| 0 <= j < nv.len() - 1 && #[trigger] nv[j] != nv[j + 1]);
                    }
                    let m = owned("all branches of (or ...) must introduce the same set of new variables");
                    assert(clause_safety(c@, strs_view(old(bound)@).to_set()) == Err::<Set<Seq<char>>, Seq<char>>(m@));
                    return Err(m);
                }
                proof {
                    assert(nv[i as int] == strs_view(news@[i as int]@).to_set());
                    assert(nv[i + 1] == strs_view(news@[i + 1]@).to_set());
                }
                i = i + 1;
            }
            proof {
                assert forall|j: int| 0 <= j < nv.len() - 1 implies !(#[trigger] nv[j] != nv[j + 1]) by {
                }
                assert(nv[0] == strs_view(news@[0]@).to_set());
            }
            let ghost prev = bound@;
            append_strs(bound, &news[0]);
            proof {
                lemma_concat_to_set(strs_view(prev), strs_view(news@[0]@));
            }
            Ok(())
        },
        WhereClause::OrJoin { join_vars, branches } => {
            match first_unbound_exec(join_vars, bound, true) {
                Some(v) => {
                    let mut m = concat("join variable ", v.as_str());
                    m.append(" in (or-join ...) is not bound by any earlier clause");
                    return Err(m);
                },
                None => {},
            }
            let _news = or_branches_safety(branches, bound)?;
            Ok(())
        },
        _ => {
            let vs = outer_vars_from_clause(c);
            let ghost prev = bound@;
            append_strs(bound, &vs);
            proof {
                lemma_concat_to_set(strs_view(prev), strs_view(vs@));
            }
            Ok(())
        },
    }
}

/// Checks each branch of an `or` from `bound`, giving the new variables of
/// each branch.
fn or_branches_safety(bs: &Vec<Vec<WhereClause>>, bound: &Vec<String>) -> (r: Result<Vec<Vec<String>>, String>)
    ensures
        match r {
            Ok(news) => or_safety(branches_view(bs@), 0, strs_view(bound@).to_set(), Seq::empty()) == Ok::<
                Seq<Set<Seq<char>>>,
                Seq<char>,
            >(news@.map_values(|v: Vec<String>| strs_view(v@).to_set())) && news@.len() == bs@.len(),
            Err(m) => or_safety(branches_view(bs@), 0, strs_view(bound@).to_set(), Seq::empty()) == Err::<
                Seq<Set<Seq<char>>>,
                Seq<char>,
            >(m@),
        },
    decreases bs,
{
    proof {
        lemma_branches_view(bs@);
    }
    let ghost bv = branches_view(bs@);
    let ghost b0 = strs_view(bound@).to_set();
    let mut news: Vec<Vec<String>> = Vec::new();
    let mut k: usize = 0;
    proof {
        assert(news@.map_values(|v: Vec<String>| strs_view(v@).to_set()) =~= Seq::<Set<Seq<char>>>::empty());
    }
    while k < bs.len()
        invariant
            k <= bs@.len(),
            news@.len() == k,
            bv == branches_view(bs@),
            bv.len() == bs@.len(),
            forall|i: int| 0 <= i < bs@.len() ==> #[trigger] bv[i] == clauses_view(bs@[i]@),
            b0 == strs_view(bound@).to_set(),
            or_safety(bv, 0, b0, Seq::empty()) == or_safety(
                bv,
                k as int,
                b0,
                news@.map_values(|v: Vec<String>| strs_view(v@).to_set()),
            ),
        decreases bs@.len() - k,
    {
        let mut bb = clone_strs(bound);
        check_expr_safety_with_bound(&bs[k], &mut bb)?;
        let mut fresh: Vec<String> = Vec::new();
        let mut i: usize = 0;
        proof {
            assert(strs_view(fresh@) =~= Seq::<Seq<char>>::empty());
        }
        while i < bb.len()
            invariant
                i <= bb@.len(),
                b0 == strs_view(bound@).to_set(),
                forall|x: Seq<char>| #[trigger] strs_view(fresh@).contains(x) <==> (strs_view(bb@.subrange(0, i as int)).contains(x) && !b0.contains(x)),
            decreases bb@.len() - i,
        {
            let ghost prevf = fresh@;
            if !contains_str(bound, bb[i].as_str()) {
                fresh.push(bb[i].clone());
                assert(strs_view(fresh@) =~= strs_view(prevf).push(bb@[i as int]@));
            }
            proof {
                assert(strs_view(bb@.subrange(0, i + 1)) =~= strs_view(bb@.subrange(0, i as int)).push(bb@[i as int]@));
                assert forall|x: Seq<char>| #[trigger] strs_view(fresh@).contains(x) <==> (strs_view(bb@.subrange(0, i + 1)).contains(x) && !b0.contains(x)) by {
                    let s0 = strs_view(bb@.subrange(0, i as int));
                    if s0.push(bb@[i as int]@).contains(x) {
                        let w = choose|w: int| 0 <= w < s0.len() + 1 && s0.push(bb@[i as int]@)[w] == x;
                        if w < s0.len() {
                            assert(s0[w] == x);
                        }
                    }
                    if s0.contains(x) {
                        let w = choose|w: int| 0 <= w < s0.len() && s0[w] == x;
                        assert(s0.push(bb@[i as int]@)[w] == x);
                    }
                    assert(s0.push(bb@[i as int]@)[s0.len() as int] == bb@[i as int]@);
                    let f0 = strs_view(prevf);
                    if f0.push(bb@[i as int]@).contains(x) {
                        let w = choose|w: int| 0 <= w < f0.len() + 1 && f0.push(bb@[i as int]@)[w] == x;
                        if w < f0.len() {
                            assert(f0[w] == x);
                        }
                    }
                    if f0.contains(x) {
                        let w = choose|w: int| 0 <= w < f0.len() && f0[w] == x;
                        assert(f0.push(bb@[i as int]@)[w] == x);
                    }
                    assert(f0.push(bb@[i as int]@)[f0.len() as int] == bb@[i as int]@);
                }
            }
            i = i + 1;
        }
        proof {
            assert(bb@.subrange(0, bb@.len() as int) =~= bb@);
            assert(strs_view(fresh@).to_set() =~= strs_view(bb@).to_set().difference(b0));
        }
        let ghost prev = news@;
        news.push(fresh);
        proof {
            assert(news@.map_values(|v: Vec<String>| strs_view(v@).to_set()) =~= prev.map_values(|v: Vec<String>| strs_view(v@).to_set()).push(strs_view(fresh@).to_set()));
        }
        k = k + 1;
    }
    Ok(news)
}

/// Checks the clauses in order given the variables bound before them (see
/// `clauses_safety`), adding those they bind to `bound`.
pub fn check_expr_safety_with_bound(clauses: &Vec<WhereClause>, bound: &mut Vec<String>) -> (r: Result<(), String>)
    ensures
        match r {
            Ok(()) => clauses_safety(clauses_view(clauses@), 0, strs_view(old(bound)@).to_set()) == Ok::<
                Set<Seq<char>>,
                Seq<char>,
            >(strs_view(final(bound)@).to_set()),
            Err(m) => clauses_safety(clauses_view(clauses@), 0, strs_view(old(bound)@).to_set()) == Err::<
                Set<Seq<char>>,
                Seq<char>,
            >(m@),
        },
    decreases clauses,
{
    proof {
        lemma_clauses_view(clauses@);
    }
    let ghost cv = clauses_view(clauses@);
    let mut k: usize = 0;
    while k < clauses.len()
        invariant
            k <= clauses@.len(),
            cv == clauses_view(clauses@),
            cv.len() == clauses@.len(),
            forall|i: int| 0 <= i < clauses@.len() ==> #[trigger] cv[i] == clause_view(clauses@[i]),
            clauses_safety(cv, 0, strs_view(old(bound)@).to_set()) == clauses_safety(
                cv,
                k as int,
                strs_view(bound@).to_set(),
            ),
        decreases clauses@.len() - k,
    {
        check_clause_safety(&clauses[k], bound)?;
        k = k + 1;
    }
    Ok(())
}

/// Checks expression safety of clauses from an empty bound set.
pub fn check_expr_safety(clauses: &Vec<WhereClause>) -> (r: Result<(), String>)
    ensures
        match r {
            Ok(()) => clauses_safety(clauses_view(clauses@), 0, Set::empty()) is Ok,
            Err(m) => clauses_safety(clauses_view(clauses@), 0, Set::empty()) == Err::<Set<Seq<char>>, Seq<char>>(m@),
        },
{
    let mut bound: Vec<String> = Vec::new();
    assert(strs_view(bound@).to_set() =~= Set::<Seq<char>>::empty());
    check_expr_safety_with_bound(clauses, &mut bound)
}

} // verus!
