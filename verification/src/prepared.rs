//! Checks and slot collection for prepared queries: bind slots (`$name`)
//! may stand for entities, values, `:as-of` / `:valid-at` and expression
//! operands, never for an attribute; a prepared query lists its slot names
//! once each, in order.
use vstd::prelude::*;
use crate::edn::{EdnValue, EdnView, edns_view, lemma_edns_view};
use crate::text::{owned, concat, chars_of};
use crate::types::{
    DatalogQuery, QueryView, WhereClause, ClauseView, Expr, ExprView, AttributeSpec, AttributeView, AsOf,
    AsOfView, ValidAt, ValidAtView, clauses_view, branches_view, strs_view, lemma_clauses_view,
    lemma_branches_view,
};
use crate::safety::append_strs;

verus! {

// ===================== attribute slots =====================

/// The first bind slot in attribute position among the clauses, at any
/// depth (negations and disjunctions included), in clause order.
pub open spec fn clause_attr_slot(c: ClauseView) -> Option<Seq<char>>
    decreases c,
{
    match c {
        ClauseView::Pattern(p) => match p.attribute {
            AttributeView::Real(EdnView::BindSlot(n)) => Some(n),
            _ => None,
        },
        ClauseView::Not(inner) => clauses_attr_slot(inner),
        ClauseView::NotJoin { clauses, .. } => clauses_attr_slot(clauses),
        ClauseView::Or(bs) => branches_attr_slot(bs),
        ClauseView::OrJoin { branches, .. } => branches_attr_slot(branches),
        _ => None,
    }
}

/// The first attribute-position bind slot of a sequence of clauses.
pub open spec fn clauses_attr_slot(cs: Seq<ClauseView>) -> Option<Seq<char>>
    decreases cs,
{
    if cs.len() == 0 {
        None
    } else {
        match clauses_attr_slot(cs.drop_last()) {
            Some(n) => Some(n),
            None => clause_attr_slot(cs.last()),
        }
    }
}

/// The first attribute-position bind slot among branches.
pub open spec fn branches_attr_slot(bs: Seq<Seq<ClauseView>>) -> Option<Seq<char>>
    decreases bs,
{
    if bs.len() == 0 {
        None
    } else {
        match branches_attr_slot(bs.drop_last()) {
            Some(n) => Some(n),
            None => clauses_attr_slot(bs.last()),
        }
    }
}

/// The message refusing a bind slot in attribute position.
pub open spec fn attr_slot_message(name: Seq<char>) -> Seq<char> {
    "bind slot '$"@ + name
        + "' is not permitted in attribute position; the query optimizer selects an index based on the attribute at prepare time and cannot handle a parameterised attribute"@
}

fn attr_slot_error(name: &str) -> (m: String)
    ensures
        m@ == attr_slot_message(name@),
{
    let mut m = concat("bind slot '$", name);
    m.append(
        "' is not permitted in attribute position; the query optimizer selects an index based on the attribute at prepare time and cannot handle a parameterised attribute",
    );
    m
}

fn validate_clause_no_attr_slot(c: &WhereClause) -> (r: Result<(), String>)
    ensures
        match r {
            Ok(()) => clause_attr_slot(c@) is None,
            Err(m) => exists|n: Seq<char>| clause_attr_slot(c@) == Some(n) && m@ == attr_slot_message(n),
        },
    decreases c,
{
    match c {
        WhereClause::Pattern(p) => match &p.attribute {
            AttributeSpec::Real(EdnValue::BindSlot(name)) => Err(attr_slot_error(name.as_str())),
            _ => Ok(()),
        },
        WhereClause::Not(inner) => validate_clauses_no_attr_slots(inner),
        WhereClause::NotJoin { clauses: inner, .. } => validate_clauses_no_attr_slots(inner),
        WhereClause::Or(bs) => validate_branches_no_attr_slots(bs),
        WhereClause::OrJoin { branches, .. } => validate_branches_no_attr_slots(branches),
        _ => Ok(()),
    }
}

fn validate_branches_no_attr_slots(bs: &Vec<Vec<WhereClause>>) -> (r: Result<(), String>)
    ensures
        match r {
            Ok(()) => branches_attr_slot(branches_view(bs@)) is None,
            Err(m) => exists|n: Seq<char>|
                branches_attr_slot(branches_view(bs@)) == Some(n) && m@ == attr_slot_message(n),
        },
    decreases bs,
{
    proof {
        lemma_branches_view(bs@);
    }
    let ghost bv = branches_view(bs@);
    let mut k: usize = 0;
    assert(bv.subrange(0, 0) =~= Seq::<Seq<ClauseView>>::empty());
    while k < bs.len()
        invariant
            k <= bs@.len(),
            bv == branches_view(bs@),
            bv.len() == bs@.len(),
            forall|i: int| 0 <= i < bs@.len() ==> #[trigger] bv[i] == clauses_view(bs@[i]@),
            branches_attr_slot(bv.subrange(0, k as int)) is None,
        decreases bs@.len() - k,
    {
        assert(bv.subrange(0, k + 1).drop_last() =~= bv.subrange(0, k as int));
        assert(bv.subrange(0, k + 1).last() == clauses_view(bs@[k as int]@));
        match validate_clauses_no_attr_slots(&bs[k]) {
            Ok(()) => {},
            Err(m) => {
                proof {
                    let n = choose|n: Seq<char>|
                        clauses_attr_slot(clauses_view(bs@[k as int]@)) == Some(n) && m@ == attr_slot_message(n);
                    lemma_branches_prefix_some(bv, k as int + 1, n);
                }
                return Err(m);
            },
        }
        k = k + 1;
    }
    assert(bv.subrange(0, bs@.len() as int) =~= bv);
    Ok(())
}

proof fn lemma_branches_prefix_some(bv: Seq<Seq<ClauseView>>, j: int, n: Seq<char>)
    requires
        0 < j <= bv.len(),
        branches_attr_slot(bv.subrange(0, j)) == Some(n),
    ensures
        branches_attr_slot(bv) == Some(n),
    decreases bv.len() - j,
{
    if j < bv.len() {
        assert(bv.subrange(0, j + 1).drop_last() =~= bv.subrange(0, j));
        lemma_branches_prefix_some(bv, j + 1, n);
    } else {
        assert(bv.subrange(0, j) =~= bv);
    }
}

proof fn lemma_clauses_prefix_some(cv: Seq<ClauseView>, j: int, n: Seq<char>)
    requires
        0 < j <= cv.len(),
        clauses_attr_slot(cv.subrange(0, j)) == Some(n),
    ensures
        clauses_attr_slot(cv) == Some(n),
    decreases cv.len() - j,
{
    if j < cv.len() {
        assert(cv.subrange(0, j + 1).drop_last() =~= cv.subrange(0, j));
        lemma_clauses_prefix_some(cv, j + 1, n);
    } else {
        assert(cv.subrange(0, j) =~= cv);
    }
}

/// Refuses clauses with a bind slot in attribute position, naming the first
/// one (see `clauses_attr_slot`).
pub fn validate_clauses_no_attr_slots(clauses: &Vec<WhereClause>) -> (r: Result<(), String>)
    ensures
        match r {
            Ok(()) => clauses_attr_slot(clauses_view(clauses@)) is None,
            Err(m) => exists|n: Seq<char>|
                clauses_attr_slot(clauses_view(clauses@)) == Some(n) && m@ == attr_slot_message(n),
        },
    decreases clauses,
{
    proof {
        lemma_clauses_view(clauses@);
    }
    let ghost cv = clauses_view(clauses@);
    let mut k: usize = 0;
    assert(cv.subrange(0, 0) =~= Seq::<ClauseView>::empty());
    while k < clauses.len()
        invariant
            k <= clauses@.len(),
            cv == clauses_view(clauses@),
            cv.len() == clauses@.len(),
            forall|i: int| 0 <= i < clauses@.len() ==> #[trigger] cv[i] == clauses@[i]@,
            clauses_attr_slot(cv.subrange(0, k as int)) is None,
        decreases clauses@.len() - k,
    {
        assert(cv.subrange(0, k + 1).drop_last() =~= cv.subrange(0, k as int));
        assert(cv.subrange(0, k + 1).last() == clauses@[k as int]@);
        match validate_clause_no_attr_slot(&clauses[k]) {
            Ok(()) => {},
            Err(m) => {
                proof {
                    let n = choose|n: Seq<char>| clause_attr_slot(clauses@[k as int]@) == Some(n) && m@ == attr_slot_message(n);
                    lemma_clauses_prefix_some(cv, k as int + 1, n);
                }
                return Err(m);
            },
        }
        k = k + 1;
    }
    assert(cv.subrange(0, clauses@.len() as int) =~= cv);
    Ok(())
}

/// Refuses a query with a bind slot in attribute position anywhere in
/// `:where`.
pub fn validate_no_attribute_slots(query: &DatalogQuery) -> (r: Result<(), String>)
    ensures
        match r {
            Ok(()) => clauses_attr_slot(query@.where_clauses) is None,
            Err(m) => exists|n: Seq<char>|
                clauses_attr_slot(query@.where_clauses) == Some(n) && m@ == attr_slot_message(n),
        },
{
    validate_clauses_no_attr_slots(&query.where_clauses)
}

// ===================== slot names =====================

/// The slots an expression reads, in order.
pub open spec fn expr_slots(e: ExprView) -> Seq<Seq<char>>
    decreases e,
{
    match e {
        ExprView::Slot(n) => seq![n],
        ExprView::BinOp(_, l, r) => expr_slots(*l) + expr_slots(*r),
        ExprView::UnaryOp(_, a) => expr_slots(*a),
        _ => Seq::empty(),
    }
}

/// The slot a value names, as a zero- or one-element list.
pub open spec fn edn_slot(v: EdnView) -> Seq<Seq<char>> {
    match v {
        EdnView::BindSlot(n) => seq![n],
        _ => Seq::empty(),
    }
}

/// The slots among rule-invocation arguments, in order.
pub open spec fn args_slots(args: Seq<EdnView>) -> Seq<Seq<char>>
    decreases args.len(),
{
    if args.len() == 0 {
        Seq::empty()
    } else {
        args_slots(args.drop_last()) + edn_slot(args.last())
    }
}

/// The slots of a clause (entity and value positions, expressions,
/// rule-invocation arguments; negations and disjunctions included).
pub open spec fn clause_slots(c: ClauseView) -> Seq<Seq<char>>
    decreases c,
{
    match c {
        ClauseView::Pattern(p) => edn_slot(p.entity) + edn_slot(p.value),
        ClauseView::Not(inner) => clauses_slots(inner),
        ClauseView::NotJoin { clauses, .. } => clauses_slots(clauses),
        ClauseView::Or(bs) => branches_slots(bs),
        ClauseView::OrJoin { branches, .. } => branches_slots(branches),
        ClauseView::Expr { expr, .. } => expr_slots(expr),
        ClauseView::RuleInvocation { args, .. } => args_slots(args),
    }
}

/// The slots of a sequence of clauses, in order.
pub open spec fn clauses_slots(cs: Seq<ClauseView>) -> Seq<Seq<char>>
    decreases cs,
{
    if cs.len() == 0 {
        Seq::empty()
    } else {
        clauses_slots(cs.drop_last()) + clause_slots(cs.last())
    }
}

/// The slots of the branches of a disjunction, in order.
pub open spec fn branches_slots(bs: Seq<Seq<ClauseView>>) -> Seq<Seq<char>>
    decreases bs,
{
    if bs.len() == 0 {
        Seq::empty()
    } else {
        branches_slots(bs.drop_last()) + clauses_slots(bs.last())
    }
}

/// Every slot of a query: `:as-of`, `:valid-at`, then `:where`.
pub open spec fn query_slots(q: QueryView) -> Seq<Seq<char>> {
    (match q.as_of {
        Some(AsOfView::Slot(n)) => seq![n],
        _ => Seq::empty(),
    }) + (match q.valid_at {
        Some(ValidAtView::Slot(n)) => seq![n],
        _ => Seq::empty(),
    }) + clauses_slots(q.where_clauses)
}

fn push_str(out: &mut Vec<String>, s: &String)
    ensures
        strs_view(final(out)@) == strs_view(old(out)@) + seq![s@],
{
    let ghost prev = out@;
    out.push(s.clone());
    assert(strs_view(out@) =~= strs_view(prev) + seq![s@]);
}

fn push_edn_slot(out: &mut Vec<String>, v: &EdnValue)
    ensures
        strs_view(final(out)@) == strs_view(old(out)@) + edn_slot(v@),
{
    match v {
        EdnValue::BindSlot(n) => push_str(out, n),
        _ => {
            assert(strs_view(out@) =~= strs_view(old(out)@) + Seq::<Seq<char>>::empty());
        },
    }
}

/// Appends the slots an expression reads (see `expr_slots`).
pub fn collect_slots_from_expr(expr: &Expr, names: &mut Vec<String>)
    ensures
        strs_view(final(names)@) == strs_view(old(names)@) + expr_slots(expr@),
    decreases expr,
{
    match expr {
        Expr::Slot(name) => push_str(names, name),
        Expr::BinOp(_, l, r) => {
            let ghost before = strs_view(names@);
            collect_slots_from_expr(l, names);
            collect_slots_from_expr(r, names);
            assert(strs_view(names@) =~= before + (expr_slots(l@) + expr_slots(r@)));
        },
        Expr::UnaryOp(_, a) => collect_slots_from_expr(a, names),
        _ => {
            assert(strs_view(names@) =~= strs_view(old(names)@) + Seq::<Seq<char>>::empty());
        },
    }
}

fn collect_args_slots(args: &Vec<EdnValue>, names: &mut Vec<String>)
    ensures
        strs_view(final(names)@) == strs_view(old(names)@) + args_slots(edns_view(args@)),
{
    proof {
        lemma_edns_view(args@);
    }
    let ghost av = edns_view(args@);
    let ghost start = strs_view(names@);
    let mut k: usize = 0;
    assert(av.subrange(0, 0) =~= Seq::<EdnView>::empty());
    assert(strs_view(names@) =~= start + args_slots(av.subrange(0, 0)));
    while k < args.len()
        invariant
            k <= args@.len(),
            av == edns_view(args@),
            av.len() == args@.len(),
            forall|i: int| 0 <= i < args@.len() ==> #[trigger] av[i] == args@[i]@,
            start == strs_view(old(names)@),
            strs_view(names@) == start + args_slots(av.subrange(0, k as int)),
        decreases args@.len() - k,
    {
        assert(av.subrange(0, k + 1).drop_last() =~= av.subrange(0, k as int));
        assert(av.subrange(0, k + 1).last() == args@[k as int]@);
        push_edn_slot(names, &args[k]);
        assert(strs_view(names@) =~= start + args_slots(av.subrange(0, k + 1)));
        k = k + 1;
    }
    assert(av.subrange(0, args@.len() as int) =~= av);
}

fn collect_clause_slots(c: &WhereClause, names: &mut Vec<String>)
    ensures
        strs_view(final(names)@) == strs_view(old(names)@) + clause_slots(c@),
    decreases c,
{
    match c {
        WhereClause::Pattern(p) => {
            let ghost before = strs_view(names@);
            push_edn_slot(names, &p.entity);
            push_edn_slot(names, &p.value);
            assert(strs_view(names@) =~= before + (edn_slot(p.entity@) + edn_slot(p.value@)));
        },
        WhereClause::Not(inner) => collect_slots_from_clauses(inner, names),
        WhereClause::NotJoin { clauses: inner, .. } => collect_slots_from_clauses(inner, names),
        WhereClause::Or(bs) => collect_branches_slots(bs, names),
        WhereClause::OrJoin { branches, .. } => collect_branches_slots(branches, names),
        WhereClause::Expr { expr, .. } => collect_slots_from_expr(expr, names),
        WhereClause::RuleInvocation { args, .. } => collect_args_slots(args, names),
    }
}

fn collect_branches_slots(bs: &Vec<Vec<WhereClause>>, names: &mut Vec<String>)
    ensures
        strs_view(final(names)@) == strs_view(old(names)@) + branches_slots(branches_view(bs@)),
    decreases bs,
{
    proof {
        lemma_branches_view(bs@);
    }
    let ghost bv = branches_view(bs@);
    let ghost start = strs_view(names@);
    let mut k: usize = 0;
    assert(bv.subrange(0, 0) =~= Seq::<Seq<ClauseView>>::empty());
    assert(strs_view(names@) =~= start + branches_slots(bv.subrange(0, 0)));
    while k < bs.len()
        invariant
            k <= bs@.len(),
            bv == branches_view(bs@),
            bv.len() == bs@.len(),
            forall|i: int| 0 <= i < bs@.len() ==> #[trigger] bv[i] == clauses_view(bs@[i]@),
            start == strs_view(old(names)@),
            strs_view(names@) == start + branches_slots(bv.subrange(0, k as int)),
        decreases bs@.len() - k,
    {
        assert(bv.subrange(0, k + 1).drop_last() =~= bv.subrange(0, k as int));
        assert(bv.subrange(0, k + 1).last() == clauses_view(bs@[k as int]@));
        collect_slots_from_clauses(&bs[k], names);
        assert(strs_view(names@) =~= start + branches_slots(bv.subrange(0, k + 1)));
        k = k + 1;
    }
    assert(bv.subrange(0, bs@.len() as int) =~= bv);
}

/// Appends the slots of clauses, in order (see `clauses_slots`).
pub fn collect_slots_from_clauses(clauses: &Vec<WhereClause>, names: &mut Vec<String>)
    ensures
        strs_view(final(names)@) == strs_view(old(names)@) + clauses_slots(clauses_view(clauses@)),
    decreases clauses,
{
    proof {
        lemma_clauses_view(clauses@);
    }
    let ghost cv = clauses_view(clauses@);
    let ghost start = strs_view(names@);
    let mut k: usize = 0;
    assert(cv.subrange(0, 0) =~= Seq::<ClauseView>::empty());
    assert(strs_view(names@) =~= start + clauses_slots(cv.subrange(0, 0)));
    while k < clauses.len()
        invariant
            k <= clauses@.len(),
            cv == clauses_view(clauses@),
            cv.len() == clauses@.len(),
            forall|i: int| 0 <= i < clauses@.len() ==> #[trigger] cv[i] == clauses@[i]@,
            start == strs_view(old(names)@),
            strs_view(names@) == start + clauses_slots(cv.subrange(0, k as int)),
        decreases clauses@.len() - k,
    {
        assert(cv.subrange(0, k + 1).drop_last() =~= cv.subrange(0, k as int));
        assert(cv.subrange(0, k + 1).last() == clauses@[k as int]@);
        collect_clause_slots(&clauses[k], names);
        assert(strs_view(names@) =~= start + clauses_slots(cv.subrange(0, k + 1)));
        k = k + 1;
    }
    assert(cv.subrange(0, clauses@.len() as int) =~= cv);
}

// ===================== ordering of names =====================

/// `a` comes before `b` in lexicographic order of characters.
pub open spec fn str_lt(a: Seq<char>, b: Seq<char>) -> bool
    decreases a.len(),
{
    if b.len() == 0 {
        false
    } else if a.len() == 0 {
        true
    } else if a[0] != b[0] {
        (a[0] as int) < (b[0] as int)
    } else {
        str_lt(a.drop_first(), b.drop_first())
    }
}

/// A strictly increasing list of names (hence without repeats).
pub open spec fn sorted_names(s: Seq<Seq<char>>) -> bool {
    forall|i: int, j: int| 0 <= i < j < s.len() ==> str_lt(#[trigger] s[i], #[trigger] s[j])
}

/// No name comes before itself.
pub(crate) proof fn lemma_str_lt_irreflexive(a: Seq<char>)
    ensures
        !str_lt(a, a),
    decreases a.len(),
{
    if a.len() > 0 {
        lemma_str_lt_irreflexive(a.drop_first());
    }
}

/// The order of names is transitive.
pub(crate) proof fn lemma_str_lt_transitive(a: Seq<char>, b: Seq<char>, c: Seq<char>)
    requires
        str_lt(a, b),
        str_lt(b, c),
    ensures
        str_lt(a, c),
    decreases a.len(),
{
    if a.len() > 0 && b.len() > 0 && c.len() > 0 && a[0] == b[0] && b[0] == c[0] {
        lemma_str_lt_transitive(a.drop_first(), b.drop_first(), c.drop_first());
    }
}

/// Of two different names one comes first.
pub(crate) proof fn lemma_str_lt_total(a: Seq<char>, b: Seq<char>)
    requires
        a != b,
    ensures
        str_lt(a, b) || str_lt(b, a),
    decreases a.len(),
{
    if a.len() > 0 && b.len() > 0 && a[0] == b[0] {
        if a.drop_first() == b.drop_first() {
            assert(a =~= seq![a[0]] + a.drop_first());
            assert(b =~= seq![b[0]] + b.drop_first());
        }
        lemma_str_lt_total(a.drop_first(), b.drop_first());
    } else if a.len() > 0 && b.len() > 0 {
        assert((a[0] as int) != (b[0] as int));
    } else if a.len() == 0 && b.len() == 0 {
        assert(a =~= b);
    }
}

fn char_lt(x: char, y: char) -> (r: bool)
    ensures
        r == ((x as int) < (y as int)),
{
    (x as u32) < (y as u32)
}

/// Whether `a` comes before `b` (see `str_lt`).
pub fn name_less(a: &str, b: &str) -> (r: bool)
    ensures
        r == str_lt(a@, b@),
{
    let av = chars_of(a);
    let bv = chars_of(b);
    let mut i: usize = 0;
    assert(a@.subrange(0, a@.len() as int) =~= a@);
    assert(b@.subrange(0, b@.len() as int) =~= b@);
    while i < av.len() && i < bv.len() && av[i] == bv[i]
        invariant
            i <= av@.len(),
            i <= bv@.len(),
            av@ == a@,
            bv@ == b@,
            str_lt(a@, b@) == str_lt(a@.subrange(i as int, a@.len() as int), b@.subrange(i as int, b@.len() as int)),
        decreases av@.len() - i,
    {
        let ghost sa = a@.subrange(i as int, a@.len() as int);
        let ghost sb = b@.subrange(i as int, b@.len() as int);
        assert(sa.drop_first() =~= a@.subrange(i + 1, a@.len() as int));
        assert(sb.drop_first() =~= b@.subrange(i + 1, b@.len() as int));
        i = i + 1;
    }
    let ghost sa = a@.subrange(i as int, a@.len() as int);
    let ghost sb = b@.subrange(i as int, b@.len() as int);
    if i >= bv.len() {
        false
    } else if i >= av.len() {
        true
    } else {
        assert(sa[0] == av@[i as int] && sb[0] == bv@[i as int]);
        char_lt(av[i], bv[i])
    }
}

fn insert_sorted(v: &mut Vec<String>, s: &String)
    requires
        sorted_names(strs_view(old(v)@)),
    ensures
        sorted_names(strs_view(final(v)@)),
        strs_view(final(v)@).to_set() == strs_view(old(v)@).to_set().insert(s@),
{
    let ghost old_v = strs_view(v@);
    let mut i: usize = 0;
    while i < v.len() && name_less(v[i].as_str(), s.as_str())
        invariant
            i <= v@.len(),
            old_v == strs_view(v@),
            sorted_names(old_v),
            forall|j: int| 0 <= j < i ==> str_lt(#[trigger] old_v[j], s@),
        decreases v@.len() - i,
    {
        assert(old_v[i as int] == v@[i as int]@);
        i = i + 1;
    }
    if i < v.len() && crate::text::str_eq(v[i].as_str(), s.as_str()) {
        proof {
            assert(old_v[i as int] == s@);
            assert(old_v.to_set().insert(s@) =~= old_v.to_set());
        }
        return;
    }
    proof {
        if i < v@.len() {
            assert(old_v[i as int] == v@[i as int]@);
            assert(!str_lt(old_v[i as int], s@));
            assert(old_v[i as int] != s@);
            lemma_str_lt_total(old_v[i as int], s@);
            assert(str_lt(s@, old_v[i as int]));
        }
    }
    v.insert(i, s.clone());
    proof {
        let nv = strs_view(v@);
        assert(nv =~= old_v.subrange(0, i as int).push(s@) + old_v.subrange(i as int, old_v.len() as int));
        assert(nv.len() == old_v.len() + 1);
        assert forall|j: int| 0 <= j < nv.len() implies #[trigger] nv[j] == (if j < i {
            old_v[j]
        } else if j == i {
            s@
        } else {
            old_v[j - 1]
        }) by {}
        assert forall|a: int, b: int| 0 <= a < b < nv.len() implies str_lt(#[trigger] nv[a], #[trigger] nv[b]) by {
            if b < i {
            } else if b == i {
                assert(str_lt(old_v[a], s@));
            } else if a < i {
                if i < old_v.len() {
                    assert(str_lt(old_v[a], s@));
                    if b - 1 > i {
                        assert(str_lt(old_v[i as int], old_v[b - 1]));
                        lemma_str_lt_transitive(s@, old_v[i as int], old_v[b - 1]);
                    }
                    lemma_str_lt_transitive(old_v[a], s@, old_v[b - 1]);
                }
            } else if a == i {
                if b - 1 > i {
                    assert(str_lt(old_v[i as int], old_v[b - 1]));
                    lemma_str_lt_transitive(s@, old_v[i as int], old_v[b - 1]);
                }
            } else {
                assert(str_lt(old_v[a - 1], old_v[b - 1]));
            }
        }
        assert forall|x: Seq<char>| nv.to_set().contains(x) == old_v.to_set().insert(s@).contains(x) by {
            if nv.contains(x) {
                let j = choose|j: int| 0 <= j < nv.len() && nv[j] == x;
                if j < i {
                    assert(old_v[j] == x);
                } else if j > i {
                    assert(old_v[j - 1] == x);
                }
            }
            if old_v.contains(x) {
                let j = choose|j: int| 0 <= j < old_v.len() && old_v[j] == x;
                if j < i {
                    assert(nv[j] == x);
                } else {
                    assert(nv[j + 1] == x);
                }
            }
            if x == s@ {
                assert(nv[i as int] == x);
            }
        }
        assert(nv.to_set() =~= old_v.to_set().insert(s@));
    }
}

/// The slot names of a query, once each, in lexicographic order.
pub fn collect_slot_names(query: &DatalogQuery) -> (r: Vec<String>)
    ensures
        sorted_names(strs_view(r@)),
        strs_view(r@).to_set() == query_slots(query@).to_set(),
{
    let mut all: Vec<String> = Vec::new();
    match &query.as_of {
        Some(AsOf::Slot(name)) => push_str(&mut all, name),
        _ => {},
    }
    let ghost after_as_of = strs_view(all@);
    match &query.valid_at {
        Some(ValidAt::Slot(name)) => push_str(&mut all, name),
        _ => {},
    }
    collect_slots_from_clauses(&query.where_clauses, &mut all);
    proof {
        assert(strs_view(all@) =~= query_slots(query@)) by {
            let a = match query@.as_of {
                Some(AsOfView::Slot(n)) => seq![n],
                _ => Seq::<Seq<char>>::empty(),
            };
            assert(after_as_of =~= Seq::<Seq<char>>::empty() + a);
        }
    }
    let mut out: Vec<String> = Vec::new();
    let ghost av = strs_view(all@);
    let mut k: usize = 0;
    assert(strs_view(out@) =~= Seq::<Seq<char>>::empty());
    assert(av.subrange(0, 0).to_set() =~= Set::<Seq<char>>::empty());
    assert(strs_view(out@).to_set() =~= Set::<Seq<char>>::empty());
    while k < all.len()
        invariant
            k <= all@.len(),
            av == strs_view(all@),
            av.len() == all@.len(),
            sorted_names(strs_view(out@)),
            strs_view(out@).to_set() == av.subrange(0, k as int).to_set(),
        decreases all@.len() - k,
    {
        insert_sorted(&mut out, &all[k]);
        proof {
            assert(av[k as int] == all@[k as int]@);
            assert(av.subrange(0, k + 1) =~= av.subrange(0, k as int).push(av[k as int]));
            assert(av.subrange(0, k as int).push(av[k as int]).to_set() =~= av.subrange(0, k as int).to_set().insert(
                av[k as int],
            )) by {
                let p = av.subrange(0, k as int);
                let x = av[k as int];
                assert forall|y: Seq<char>| p.push(x).to_set().contains(y) == p.to_set().insert(x).contains(y) by {
                    if p.push(x).contains(y) {
                        let j = choose|j: int| 0 <= j < p.len() + 1 && p.push(x)[j] == y;
                        if j < p.len() {
                            assert(p[j] == y);
                        }
                    }
                    if p.contains(y) {
                        let j = choose|j: int| 0 <= j < p.len() && p[j] == y;
                        assert(p.push(x)[j] == y);
                    }
                    if y == x {
                        assert(p.push(x)[p.len() as int] == y);
                    }
                }
            }
        }
        k = k + 1;
    }
    assert(av.subrange(0, all@.len() as int) =~= av);
    out
}

} // verus!
