//! Datalog commands read from EDN text: `(query [...])`, `(transact ...)`,
//! `(retract ...)` and `(rule [...])`, with the binding checks that a query
//! or rule body must pass.
use vstd::prelude::*;
use crate::edn::{
    EdnValue, EdnView, edns_view, lemma_edns_view, lemma_edns_view_subrange, edn_text, msg_with_value,
    view_variable, is_var_name, parse_edn, spec_parse_edn, lemma_list_head_keyword, edns_clone, edns_clone_range,
};
use crate::text::{owned, concat, str_eq, starts_with, int_text, push_i64_text};
use crate::temporal::{parse_timestamp, spec_parse_timestamp, millis_result_view};
use crate::types::{
    FindSpec, FindSpecView, AsOf, AsOfView, ValidAt, ValidAtView, DatalogQuery, QueryView, WhereClause,
    ClauseView, DatalogCommand, CommandView, Rule, RuleView, strs_view, opt_str_view, finds_view,
    clauses_view, lemma_clauses_view,
};
use crate::clauses::{spec_vector_clause, spec_list_clause, parse_vector_clause, parse_list_as_where_clause};
use crate::safety::{
    clauses_vars, clauses_vars_exec, not_safety, not_join_safety, clauses_safety, first_unbound,
    first_unbound_exec, check_not_safety, check_not_join_safety, check_expr_safety, append_strs,
};
use crate::find::{spec_aggregate, parse_aggregate};
use crate::facts::{spec_transact, spec_retract, parse_transact, parse_retract};

verus! {

// ===================== query options =====================

/// The value of `:as-of`: a non-negative transaction counter, a UTC
/// timestamp, or a bind slot.
pub open spec fn as_of_of(v: EdnView) -> Result<AsOfView, Seq<char>> {
    match v {
        EdnView::Integer(n) => if n >= 0 {
            Ok(AsOfView::Counter(n as u64))
        } else {
            Err(":as-of counter must be non-negative, got "@ + int_text(n as int))
        },
        EdnView::Str(s) => match spec_parse_timestamp(s) {
            Ok(t) => Ok(AsOfView::Timestamp(t)),
            Err(m) => Err(m),
        },
        EdnView::BindSlot(n) => Ok(AsOfView::Slot(n)),
        other => Err(":as-of must be an integer (counter) or ISO 8601 string, got "@ + edn_text(other)),
    }
}

/// The value of `:valid-at`: a UTC timestamp, `:any-valid-time`, or a bind
/// slot.
pub open spec fn valid_at_of(v: EdnView) -> Result<ValidAtView, Seq<char>> {
    match v {
        EdnView::Str(s) => match spec_parse_timestamp(s) {
            Ok(t) => Ok(ValidAtView::Timestamp(t)),
            Err(m) => Err(m),
        },
        EdnView::BindSlot(n) => Ok(ValidAtView::Slot(n)),
        EdnView::Keyword(k) => if k == ":any-valid-time"@ {
            Ok(ValidAtView::AnyValidTime)
        } else {
            Err(":valid-at must be an ISO 8601 string or :any-valid-time, got "@ + edn_text(v))
        },
        other => Err(":valid-at must be an ISO 8601 string or :any-valid-time, got "@ + edn_text(other)),
    }
}

/// The value of a limit option (`:max-derived-facts`, `:max-results`): a
/// positive integer.
pub open spec fn limit_of(v: EdnView, name: Seq<char>) -> Result<usize, Seq<char>> {
    match v {
        EdnView::Integer(n) => if n >= 1 {
            Ok(n as usize)
        } else {
            Err(name + " must be >= 1"@)
        },
        _ => Err(name + " must be a positive integer"@),
    }
}

/// The variables of a `:with` run from position `i`, after those in `acc`,
/// and the position where the run ends (the next keyword or the end).
pub open spec fn with_collect(v: Seq<EdnView>, i: int, acc: Seq<Seq<char>>) -> Result<
    (Seq<Seq<char>>, int),
    Seq<char>,
>
    decreases v.len() - i,
{
    if i < 0 || i >= v.len() {
        Ok((acc, i))
    } else {
        match v[i] {
            EdnView::Symbol(s) => if is_var_name(s) {
                with_collect(v, i + 1, acc.push(s))
            } else {
                Err("':with' clause accepts only variables, got "@ + edn_text(v[i]))
            },
            EdnView::Keyword(_) => Ok((acc, i)),
            other => Err("':with' clause accepts only variables, got "@ + edn_text(other)),
        }
    }
}

/// An element of `:find`: a variable, or an aggregate / window list.
pub open spec fn find_item(item: EdnView) -> Result<FindSpecView, Seq<char>> {
    match item {
        EdnView::Symbol(s) => if is_var_name(s) {
            Ok(FindSpecView::Variable(s))
        } else {
            Err("Expected variable or aggregate expression in :find clause, got "@ + edn_text(item))
        },
        EdnView::List(elems) => spec_aggregate(elems),
        other => Err("Expected variable or aggregate expression in :find clause, got "@ + edn_text(other)),
    }
}

/// A clause of `:where` or of a rule body: a vector (pattern or expression
/// clause) or a list (rule invocation, negation, disjunction); anything
/// else is refused with `what` followed by the value.
pub open spec fn clause_item(item: EdnView, what: Seq<char>) -> Result<ClauseView, Seq<char>> {
    match item {
        EdnView::Vector(v) => spec_vector_clause(v),
        EdnView::List(l) => spec_list_clause(l, true),
        _ => Err(what + edn_text(item)),
    }
}

/// The error prefix for a bad `:where` element.
pub open spec fn where_what() -> Seq<char> {
    "Expected pattern vector or rule invocation in :where clause, got "@
}

/// The query vector read from position `i`, with `q` read so far and `cur`
/// the section keyword (`:find`, `:where`, ...) in force: option keywords
/// take their value, `:with` a run of variables, other keywords open a
/// section; other elements belong to the open section.
pub open spec fn query_loop(v: Seq<EdnView>, i: int, q: QueryView, cur: Option<Seq<char>>) -> Result<
    QueryView,
    Seq<char>,
>
    decreases v.len() - i,
{
    if i < 0 || i >= v.len() {
        Ok(q)
    } else {
        match v[i] {
            EdnView::Keyword(k) => if k == ":as-of"@ {
                if v.len() - i < 2 {
                    Err(k + " requires a value"@)
                } else {
                    match as_of_of(v[i + 1]) {
                        Ok(a) => query_loop(v, i + 2, QueryView { as_of: Some(a), ..q }, cur),
                        Err(m) => Err(m),
                    }
                }
            } else if k == ":valid-at"@ {
                if v.len() - i < 2 {
                    Err(k + " requires a value"@)
                } else {
                    match valid_at_of(v[i + 1]) {
                        Ok(a) => query_loop(v, i + 2, QueryView { valid_at: Some(a), ..q }, cur),
                        Err(m) => Err(m),
                    }
                }
            } else if k == ":any-valid-time"@ {
                query_loop(v, i + 1, QueryView { valid_at: Some(ValidAtView::AnyValidTime), ..q }, cur)
            } else if k == ":max-derived-facts"@ {
                if q.max_derived_facts is Some {
                    Err("duplicate "@ + k)
                } else if v.len() - i < 2 {
                    Err(k + " requires a value"@)
                } else {
                    match limit_of(v[i + 1], k) {
                        Ok(n) => query_loop(v, i + 2, QueryView { max_derived_facts: Some(n), ..q }, cur),
                        Err(m) => Err(m),
                    }
                }
            } else if k == ":max-results"@ {
                if q.max_results is Some {
                    Err("duplicate "@ + k)
                } else if v.len() - i < 2 {
                    Err(k + " requires a value"@)
                } else {
                    match limit_of(v[i + 1], k) {
                        Ok(n) => query_loop(v, i + 2, QueryView { max_results: Some(n), ..q }, cur),
                        Err(m) => Err(m),
                    }
                }
            } else if k == ":with"@ {
                match with_collect(v, i + 1, q.with_vars) {
                    Ok((w, j)) => if i < j <= v.len() {
                        query_loop(v, j, QueryView { with_vars: w, ..q }, cur)
                    } else {
                        Ok(q)
                    },
                    Err(m) => Err(m),
                }
            } else {
                query_loop(v, i + 1, q, Some(k))
            },
            item => {
                if cur == Some(":find"@) {
                    match find_item(item) {
                        Ok(f) => query_loop(v, i + 1, QueryView { find: q.find.push(f), ..q }, cur),
                        Err(m) => Err(m),
                    }
                } else if cur == Some(":where"@) {
                    match clause_item(item, where_what()) {
                        Ok(c) => query_loop(v, i + 1, QueryView { where_clauses: q.where_clauses.push(c), ..q }, cur),
                        Err(m) => Err(m),
                    }
                } else {
                    Err("Unexpected element in query: "@ + edn_text(item))
                }
            },
        }
    }
}

/// An `:as-of` followed by an integer sets the query's counter to it when
/// it is non-negative and is refused as negative otherwise, wherever it
/// stands in the query vector.
pub proof fn lemma_as_of_integer(v: Seq<EdnView>, i: int, q: QueryView, cur: Option<Seq<char>>, n: i64)
    requires
        0 <= i,
        i + 1 < v.len(),
        v[i] == EdnView::Keyword(":as-of"@),
        v[i + 1] == EdnView::Integer(n),
    ensures
        n >= 0 ==> query_loop(v, i, q, cur) == query_loop(
            v,
            i + 2,
            QueryView { as_of: Some(AsOfView::Counter(n as u64)), ..q },
            cur,
        ),
        n < 0 ==> query_loop(v, i, q, cur) == Err::<QueryView, Seq<char>>(
            ":as-of counter must be non-negative, got "@ + int_text(n as int),
        ),
{
}

/// A query with no elements read yet.
pub open spec fn empty_query() -> QueryView {
    QueryView {
        find: Seq::empty(),
        where_clauses: Seq::empty(),
        as_of: None,
        valid_at: None,
        with_vars: Seq::empty(),
        max_derived_facts: None,
        max_results: None,
    }
}

/// The variables of the aggregates of `:find`, in order.
pub open spec fn agg_vars(f: Seq<FindSpecView>) -> Seq<Seq<char>>
    decreases f.len(),
{
    if f.len() == 0 {
        Seq::empty()
    } else {
        match f.last() {
            FindSpecView::Aggregate { var, .. } => agg_vars(f.drop_last()).push(var),
            _ => agg_vars(f.drop_last()),
        }
    }
}

/// `:find` holds an aggregate.
pub open spec fn has_aggregate(f: Seq<FindSpecView>) -> bool {
    exists|i: int| 0 <= i < f.len() && #[trigger] f[i] is Aggregate
}

/// The first binding error of a body given the variables bound outside its
/// negations: `(not ...)`, then `(not-join ...)`, then the forward check of
/// expression clauses and disjunctions.
pub open spec fn body_checks(cs: Seq<ClauseView>, outer: Set<Seq<char>>) -> Option<Seq<char>> {
    match not_safety(cs, outer) {
        Some(m) => Some(m),
        None => match not_join_safety(cs, outer) {
            Some(m) => Some(m),
            None => match clauses_safety(cs, 0, Set::empty()) {
                Err(m) => Some(m),
                Ok(_) => None,
            },
        },
    }
}

/// The first error of a read query: the body checks with the variables its
/// `:where` binds, then aggregate and `:with` variables that `:where` does
/// not bind, then `:with` without an aggregate.
pub open spec fn query_checks(q: QueryView) -> Option<Seq<char>> {
    let outer = clauses_vars(q.where_clauses).to_set();
    match body_checks(q.where_clauses, outer) {
        Some(m) => Some(m),
        None => match first_unbound(agg_vars(q.find), outer, false) {
            Some(v) => Some("Aggregate variable "@ + v + " not bound in :where"@),
            None => match first_unbound(q.with_vars, outer, false) {
                Some(v) => Some("':with' variable "@ + v + " not bound in :where"@),
                None => if q.with_vars.len() > 0 && !has_aggregate(q.find) {
                    Some("':with' clause requires at least one aggregate in :find"@)
                } else {
                    None
                },
            },
        },
    }
}

proof fn lemma_none_unbound(vs: Seq<Seq<char>>, bound: Set<Seq<char>>)
    requires
        first_unbound(vs, bound, false) is None,
    ensures
        forall|i: int| 0 <= i < vs.len() ==> bound.contains(#[trigger] vs[i]),
    decreases vs.len(),
{
    if vs.len() > 0 {
        let t = vs.subrange(1, vs.len() as int);
        lemma_none_unbound(t, bound);
        assert forall|i: int| 0 <= i < vs.len() implies bound.contains(#[trigger] vs[i]) by {
            if i > 0 {
                assert(vs[i] == t[i - 1]);
            }
        }
    }
}

proof fn lemma_agg_vars_cover(f: Seq<FindSpecView>)
    ensures
        forall|i: int| 0 <= i < f.len() && #[trigger] f[i] is Aggregate ==> agg_vars(f).contains(f[i]->Aggregate_var),
    decreases f.len(),
{
    if f.len() > 0 {
        let g = f.drop_last();
        lemma_agg_vars_cover(g);
        assert forall|i: int| 0 <= i < f.len() && #[trigger] f[i] is Aggregate implies agg_vars(f).contains(
            f[i]->Aggregate_var,
        ) by {
            if i < f.len() - 1 {
                assert(f[i] == g[i]);
                let j = choose|j: int| 0 <= j < agg_vars(g).len() && agg_vars(g)[j] == g[i]->Aggregate_var;
                if f.last() is Aggregate {
                    assert(agg_vars(f)[j] == agg_vars(g)[j]);
                } else {
                    assert(agg_vars(f)[j] == agg_vars(g)[j]);
                }
            } else {
                assert(agg_vars(f).last() == f[i]->Aggregate_var);
                assert(agg_vars(f)[agg_vars(f).len() - 1] == f[i]->Aggregate_var);
            }
        }
    }
}

/// A read query that parses binds, in its `:where` clauses, every aggregate
/// variable of `:find` and every `:with` variable, and has `:with` only
/// beside an aggregate.
pub proof fn lemma_query_binding(elements: Seq<EdnView>)
    ensures
        spec_query(elements) matches Ok(CommandView::Query(q)) ==> ({
            let b = clauses_vars(q.where_clauses).to_set();
            &&& forall|i: int| 0 <= i < q.find.len() && #[trigger] q.find[i] is Aggregate ==> b.contains(
                q.find[i]->Aggregate_var,
            )
            &&& forall|i: int| 0 <= i < q.with_vars.len() ==> b.contains(#[trigger] q.with_vars[i])
            &&& q.with_vars.len() == 0 || has_aggregate(q.find)
        }),
{
    if let Ok(CommandView::Query(q)) = spec_query(elements) {
        let b = clauses_vars(q.where_clauses).to_set();
        assert(query_checks(q) is None);
        lemma_none_unbound(agg_vars(q.find), b);
        lemma_none_unbound(q.with_vars, b);
        lemma_agg_vars_cover(q.find);
        assert forall|i: int| 0 <= i < q.find.len() && #[trigger] q.find[i] is Aggregate implies b.contains(
            q.find[i]->Aggregate_var,
        ) by {
            let j = choose|j: int| 0 <= j < agg_vars(q.find).len() && agg_vars(q.find)[j] == q.find[i]->Aggregate_var;
            assert(b.contains(agg_vars(q.find)[j]));
        }
    }
}

/// `(query [...])`, given the elements after the command name.
pub open spec fn spec_query(elements: Seq<EdnView>) -> Result<CommandView, Seq<char>> {
    if elements.len() == 0 {
        Err("Query requires a map argument"@)
    } else {
        match elements[0] {
            EdnView::Vector(v) => match query_loop(v, 0, empty_query(), None) {
                Err(m) => Err(m),
                Ok(q) => match query_checks(q) {
                    Some(m) => Err(m),
                    None => Ok(CommandView::Query(q)),
                },
            },
            _ => Err("Query argument must be a vector"@),
        }
    }
}

// ===================== rules =====================

/// The error prefix for a bad rule body element.
pub open spec fn rule_what() -> Seq<char> {
    "Rule body clause must be a vector (pattern) or list (rule invocation / not), got "@
}

/// The clauses of a rule body from position `j` on, after those in `acc`.
pub open spec fn rule_body(b: Seq<EdnView>, j: int, acc: Seq<ClauseView>) -> Result<Seq<ClauseView>, Seq<char>>
    decreases b.len() - j,
{
    if j < 0 || j >= b.len() {
        Ok(acc)
    } else {
        match clause_item(b[j], rule_what()) {
            Ok(c) => rule_body(b, j + 1, acc.push(c)),
            Err(m) => Err(m),
        }
    }
}

/// The variables among a rule head's arguments (anonymous ones included).
pub open spec fn head_vars(args: Seq<EdnView>) -> Seq<Seq<char>>
    decreases args.len(),
{
    if args.len() == 0 {
        Seq::empty()
    } else {
        match view_variable(args.last()) {
            Some(n) => head_vars(args.drop_last()).push(n),
            None => head_vars(args.drop_last()),
        }
    }
}

/// `(rule [(pred ?args...) clauses...])`, given the elements after the
/// command name. The head's variables count as bound for the body checks.
pub open spec fn spec_rule(elements: Seq<EdnView>) -> Result<CommandView, Seq<char>> {
    if elements.len() == 0 {
        Err("Rule must have a body"@)
    } else {
        match elements[0] {
            EdnView::Vector(b) => if b.len() == 0 {
                Err("Rule body cannot be empty"@)
            } else {
                match b[0] {
                    EdnView::List(h) => if h.len() == 0 {
                        Err("Rule head cannot be empty"@)
                    } else if !(h[0] is Symbol) {
                        Err("Rule head must start with a symbol (predicate name)"@)
                    } else {
                        match rule_body(b, 1, Seq::empty()) {
                            Err(m) => Err(m),
                            Ok(body) => if body.len() == 0 {
                                Err("Rule must have at least one pattern or rule invocation in body"@)
                            } else {
                                let outer = (head_vars(h.subrange(1, h.len() as int)) + clauses_vars(body)).to_set();
                                match body_checks(body, outer) {
                                    Some(m) => Err(m),
                                    None => Ok(CommandView::Rule(RuleView { head: h, body })),
                                }
                            },
                        }
                    },
                    _ => Err("Rule head must be a list: (predicate ?args)"@),
                }
            },
            _ => Err("Rule body must be a vector"@),
        }
    }
}

// ===================== commands =====================

/// A command read from text: the EDN value must be a list whose head names
/// the command (as a symbol or keyword).
pub open spec fn spec_command(input: Seq<char>) -> Result<CommandView, Seq<char>> {
    match spec_parse_edn(input) {
        Err(m) => Err(m),
        Ok(e) => match e {
            EdnView::List(els) => if els.len() == 0 {
                Err("Expected a list starting with a command symbol"@)
            } else {
                let name: Option<Seq<char>> = match els[0] {
                    EdnView::Symbol(s) => Some(s),
                    EdnView::Keyword(k) => Some(k),
                    _ => None,
                };
                let rest = els.subrange(1, els.len() as int);
                match name {
                    None => Err("Expected command symbol"@),
                    Some(c) => if c == "query"@ {
                        spec_query(rest)
                    } else if c == "transact"@ {
                        spec_transact(rest)
                    } else if c == "retract"@ {
                        spec_retract(rest)
                    } else if c == "rule"@ {
                        spec_rule(rest)
                    } else {
                        Err("Unknown command: "@ + c)
                    },
                }
            },
            _ => Err("Expected a list starting with a command symbol"@),
        },
    }
}

// ===================== executable parsing =====================

fn as_of_exec(v: &EdnValue) -> (r: Result<AsOf, String>)
    ensures
        match r {
            Ok(a) => as_of_of(v@) == Ok::<AsOfView, Seq<char>>(a@),
            Err(m) => as_of_of(v@) == Err::<AsOfView, Seq<char>>(m@),
        },
{
    match v {
        EdnValue::Integer(n) => {
            if *n >= 0 {
                Ok(AsOf::Counter(*n as u64))
            } else {
                let mut m = owned(":as-of counter must be non-negative, got ");
                push_i64_text(&mut m, *n);
                Err(m)
            }
        },
        EdnValue::String(s) => match parse_timestamp(s.as_str()) {
            Ok(t) => Ok(AsOf::Timestamp(t)),
            Err(m) => Err(m),
        },
        EdnValue::BindSlot(n) => Ok(AsOf::Slot(n.clone())),
        other => Err(msg_with_value(":as-of must be an integer (counter) or ISO 8601 string, got ", other)),
    }
}

fn valid_at_exec(v: &EdnValue) -> (r: Result<ValidAt, String>)
    ensures
        match r {
            Ok(a) => valid_at_of(v@) == Ok::<ValidAtView, Seq<char>>(a@),
            Err(m) => valid_at_of(v@) == Err::<ValidAtView, Seq<char>>(m@),
        },
{
    match v {
        EdnValue::String(s) => match parse_timestamp(s.as_str()) {
            Ok(t) => Ok(ValidAt::Timestamp(t)),
            Err(m) => Err(m),
        },
        EdnValue::BindSlot(n) => Ok(ValidAt::Slot(n.clone())),
        EdnValue::Keyword(k) => {
            if str_eq(k.as_str(), ":any-valid-time") {
                Ok(ValidAt::AnyValidTime)
            } else {
                Err(msg_with_value(":valid-at must be an ISO 8601 string or :any-valid-time, got ", v))
            }
        },
        other => Err(msg_with_value(":valid-at must be an ISO 8601 string or :any-valid-time, got ", other)),
    }
}

fn limit_exec(v: &EdnValue, name: &str) -> (r: Result<usize, String>)
    ensures
        match r {
            Ok(n) => limit_of(v@, name@) == Ok::<usize, Seq<char>>(n),
            Err(m) => limit_of(v@, name@) == Err::<usize, Seq<char>>(m@),
        },
{
    match v {
        EdnValue::Integer(n) => {
            if *n >= 1 {
                Ok(*n as usize)
            } else {
                Err(concat(name, " must be >= 1"))
            }
        },
        _ => Err(concat(name, " must be a positive integer")),
    }
}

fn with_exec(v: &Vec<EdnValue>, i0: usize, acc: &mut Vec<String>) -> (r: Result<usize, String>)
    requires
        i0 <= v@.len(),
    ensures
        match r {
            Ok(j) => i0 <= j <= v@.len() && with_collect(edns_view(v@), i0 as int, strs_view(old(acc)@))
                == Ok::<(Seq<Seq<char>>, int), Seq<char>>((strs_view(final(acc)@), j as int)),
            Err(m) => with_collect(edns_view(v@), i0 as int, strs_view(old(acc)@)) == Err::<
                (Seq<Seq<char>>, int),
                Seq<char>,
            >(m@),
        },
{
    proof {
        lemma_edns_view(v@);
    }
    let ghost vv = edns_view(v@);
    let mut i = i0;
    while i < v.len()
        invariant
            i0 <= i <= v@.len(),
            vv == edns_view(v@),
            vv.len() == v@.len(),
            forall|k: int| 0 <= k < v@.len() ==> #[trigger] vv[k] == v@[k]@,
            with_collect(vv, i0 as int, strs_view(old(acc)@)) == with_collect(vv, i as int, strs_view(acc@)),
        decreases v@.len() - i,
    {
        assert(vv[i as int] == v@[i as int]@);
        match &v[i] {
            EdnValue::Symbol(s) => {
                if starts_with(s.as_str(), "?") {
                    let ghost prev = acc@;
                    acc.push(s.clone());
                    assert(strs_view(acc@) =~= strs_view(prev).push(s@));
                } else {
                    return Err(msg_with_value("':with' clause accepts only variables, got ", &v[i]));
                }
            },
            EdnValue::Keyword(_) => {
                return Ok(i);
            },
            other => {
                return Err(msg_with_value("':with' clause accepts only variables, got ", other));
            },
        }
        i = i + 1;
    }
    Ok(i)
}

fn find_item_exec(item: &EdnValue) -> (r: Result<FindSpec, String>)
    ensures
        match r {
            Ok(f) => find_item(item@) == Ok::<FindSpecView, Seq<char>>(f@),
            Err(m) => find_item(item@) == Err::<FindSpecView, Seq<char>>(m@),
        },
{
    match item {
        EdnValue::Symbol(s) => {
            if starts_with(s.as_str(), "?") {
                Ok(FindSpec::Variable(s.clone()))
            } else {
                Err(msg_with_value("Expected variable or aggregate expression in :find clause, got ", item))
            }
        },
        EdnValue::List(elems) => parse_aggregate(elems),
        other => Err(msg_with_value("Expected variable or aggregate expression in :find clause, got ", other)),
    }
}

fn clause_item_exec(item: &EdnValue, what: &str) -> (r: Result<WhereClause, String>)
    ensures
        match r {
            Ok(c) => clause_item(item@, what@) == Ok::<ClauseView, Seq<char>>(c@),
            Err(m) => clause_item(item@, what@) == Err::<ClauseView, Seq<char>>(m@),
        },
{
    match item {
        EdnValue::Vector(v) => parse_vector_clause(v),
        EdnValue::List(l) => parse_list_as_where_clause(l, true),
        _ => Err(msg_with_value(what, item)),
    }
}

fn section_is(cur: &Option<String>, name: &str) -> (r: bool)
    ensures
        r == (opt_str_view(*cur) == Some(name@)),
{
    match cur {
        Some(c) => str_eq(c.as_str(), name),
        None => false,
    }
}

/// One step of reading a query vector: the element at `i` (and the values
/// it takes), returning where reading goes on.
fn query_step(v: &Vec<EdnValue>, i: usize, q: &mut DatalogQuery, cur: &mut Option<String>) -> (r: Result<
    usize,
    String,
>)
    requires
        i < v@.len(),
    ensures
        match r {
            Ok(j) => i < j <= v@.len() && query_loop(edns_view(v@), i as int, old(q)@, opt_str_view(*old(cur)))
                == query_loop(edns_view(v@), j as int, final(q)@, opt_str_view(*final(cur))),
            Err(m) => query_loop(edns_view(v@), i as int, old(q)@, opt_str_view(*old(cur))) == Err::<
                QueryView,
                Seq<char>,
            >(m@),
        },
{
    proof {
        lemma_edns_view(v@);
    }
    assert(edns_view(v@)[i as int] == v@[i as int]@);
    let n = v.len();
    match &v[i] {
        EdnValue::Keyword(kw) => {
            let k = kw.as_str();
            if str_eq(k, ":as-of") {
                if v.len() - i < 2 {
                    return Err(concat(k, " requires a value"));
                }
                assert(edns_view(v@)[i + 1] == v@[i + 1]@);
                let a = as_of_exec(&v[i + 1])?;
                q.as_of = Some(a);
                Ok(i + 2)
            } else if str_eq(k, ":valid-at") {
                if v.len() - i < 2 {
                    return Err(concat(k, " requires a value"));
                }
                assert(edns_view(v@)[i + 1] == v@[i + 1]@);
                let a = valid_at_exec(&v[i + 1])?;
                q.valid_at = Some(a);
                Ok(i + 2)
            } else if str_eq(k, ":any-valid-time") {
                q.valid_at = Some(ValidAt::AnyValidTime);
                Ok(i + 1)
            } else if str_eq(k, ":max-derived-facts") {
                if q.max_derived_facts.is_some() {
                    return Err(concat("duplicate ", k));
                }
                if v.len() - i < 2 {
                    return Err(concat(k, " requires a value"));
                }
                assert(edns_view(v@)[i + 1] == v@[i + 1]@);
                let n = limit_exec(&v[i + 1], k)?;
                q.max_derived_facts = Some(n);
                Ok(i + 2)
            } else if str_eq(k, ":max-results") {
                if q.max_results.is_some() {
                    return Err(concat("duplicate ", k));
                }
                if v.len() - i < 2 {
                    return Err(concat(k, " requires a value"));
                }
                assert(edns_view(v@)[i + 1] == v@[i + 1]@);
                let n = limit_exec(&v[i + 1], k)?;
                q.max_results = Some(n);
                Ok(i + 2)
            } else if str_eq(k, ":with") {
                let j = with_exec(v, i + 1, &mut q.with_vars)?;
                Ok(j)
            } else {
                *cur = Some(owned(k));
                Ok(i + 1)
            }
        },
        item => {
            if section_is(cur, ":find") {
                let f = find_item_exec(item)?;
                let ghost prev = q.find@;
                q.find.push(f);
                assert(finds_view(q.find@) =~= finds_view(prev).push(f@));
                Ok(i + 1)
            } else if section_is(cur, ":where") {
                let c = clause_item_exec(item, "Expected pattern vector or rule invocation in :where clause, got ");
                let c = c?;
                let ghost prev = q.where_clauses@;
                q.where_clauses.push(c);
                proof {
                    crate::types::lemma_clauses_view_push(prev, c);
                }
                Ok(i + 1)
            } else {
                Err(msg_with_value("Unexpected element in query: ", item))
            }
        },
    }
}

/// Runs the binding checks of a body given the variables bound outside its
/// negations (see `body_checks`).
pub fn check_body(cs: &Vec<WhereClause>, outer: &Vec<String>) -> (r: Result<(), String>)
    ensures
        match r {
            Ok(()) => body_checks(clauses_view(cs@), strs_view(outer@).to_set()) is None,
            Err(m) => body_checks(clauses_view(cs@), strs_view(outer@).to_set()) == Some(m@),
        },
{
    check_not_safety(cs, outer)?;
    check_not_join_safety(cs, outer)?;
    check_expr_safety(cs)
}

fn agg_vars_exec(f: &Vec<FindSpec>) -> (r: Vec<String>)
    ensures
        strs_view(r@) == agg_vars(finds_view(f@)),
{
    let ghost fv = finds_view(f@);
    let mut out: Vec<String> = Vec::new();
    let mut k: usize = 0;
    assert(fv.subrange(0, 0) =~= Seq::<FindSpecView>::empty());
    assert(strs_view(out@) =~= Seq::<Seq<char>>::empty());
    while k < f.len()
        invariant
            k <= f@.len(),
            fv == finds_view(f@),
            fv.len() == f@.len(),
            strs_view(out@) == agg_vars(fv.subrange(0, k as int)),
        decreases f@.len() - k,
    {
        assert(fv.subrange(0, k + 1).drop_last() =~= fv.subrange(0, k as int));
        assert(fv.subrange(0, k + 1).last() == f@[k as int]@);
        match &f[k] {
            FindSpec::Aggregate { var, .. } => {
                let ghost prev = out@;
                out.push(var.clone());
                assert(strs_view(out@) =~= strs_view(prev).push(var@));
            },
            _ => {},
        }
        k = k + 1;
    }
    assert(fv.subrange(0, f@.len() as int) =~= fv);
    out
}

pub(crate) fn has_aggregate_exec(f: &Vec<FindSpec>) -> (r: bool)
    ensures
        r == has_aggregate(finds_view(f@)),
{
    let ghost fv = finds_view(f@);
    let mut k: usize = 0;
    while k < f.len()
        invariant
            k <= f@.len(),
            fv == finds_view(f@),
            fv.len() == f@.len(),
            forall|i: int| 0 <= i < k ==> !(#[trigger] fv[i] is Aggregate),
        decreases f@.len() - k,
    {
        assert(fv[k as int] == f@[k as int]@);
        match &f[k] {
            FindSpec::Aggregate { .. } => {
                return true;
            },
            _ => {},
        }
        k = k + 1;
    }
    false
}

fn check_query(q: &DatalogQuery) -> (r: Result<(), String>)
    ensures
        match r {
            Ok(()) => query_checks(q@) is None,
            Err(m) => query_checks(q@) == Some(m@),
        },
{
    let outer = clauses_vars_exec(&q.where_clauses);
    check_body(&q.where_clauses, &outer)?;
    let aggs = agg_vars_exec(&q.find);
    match first_unbound_exec(&aggs, &outer, false) {
        Some(v) => {
            let mut m = concat("Aggregate variable ", v.as_str());
            m.append(" not bound in :where");
            return Err(m);
        },
        None => {},
    }
    match first_unbound_exec(&q.with_vars, &outer, false) {
        Some(v) => {
            let mut m = concat("':with' variable ", v.as_str());
            m.append(" not bound in :where");
            return Err(m);
        },
        None => {},
    }
    if q.with_vars.len() > 0 && !has_aggregate_exec(&q.find) {
        return Err(owned("':with' clause requires at least one aggregate in :find"));
    }
    Ok(())
}

/// Reads a query vector up to its end, before the binding checks.
fn read_query_vector(v: &Vec<EdnValue>) -> (r: Result<DatalogQuery, String>)
    ensures
        match r {
            Ok(q) => query_loop(edns_view(v@), 0, empty_query(), None) == Ok::<QueryView, Seq<char>>(q@),
            Err(m) => query_loop(edns_view(v@), 0, empty_query(), None) == Err::<QueryView, Seq<char>>(m@),
        },
{
    proof {
        lemma_edns_view(v@);
    }
    let ghost vv = edns_view(v@);
    let mut q = DatalogQuery::new(Vec::new(), Vec::new());
    let mut cur: Option<String> = None;
    proof {
        assert(finds_view(Seq::<FindSpec>::empty()) =~= Seq::<FindSpecView>::empty());
        assert(clauses_view(Seq::<WhereClause>::empty()) =~= Seq::<ClauseView>::empty());
        assert(q@ == empty_query());
    }
    let mut i: usize = 0;
    while i < v.len()
        invariant
            i <= v@.len(),
            vv == edns_view(v@),
            vv.len() == v@.len(),
            query_loop(vv, 0, empty_query(), None) == query_loop(vv, i as int, q@, opt_str_view(cur)),
        decreases v@.len() - i,
    {
        i = query_step(v, i, &mut q, &mut cur)?;
    }
    Ok(q)
}

/// Parses `query` given the elements after the command name (see
/// `spec_query`).
pub fn parse_query(elements: &Vec<EdnValue>) -> (r: Result<DatalogCommand, String>)
    ensures
        match r {
            Ok(c) => spec_query(edns_view(elements@)) == Ok::<CommandView, Seq<char>>(c@),
            Err(m) => spec_query(edns_view(elements@)) == Err::<CommandView, Seq<char>>(m@),
        },
{
    proof {
        lemma_edns_view(elements@);
    }
    if elements.len() == 0 {
        return Err(owned("Query requires a map argument"));
    }
    let v = match elements[0].as_vector() {
        Some(v) => v,
        None => {
            return Err(owned("Query argument must be a vector"));
        },
    };
    let q = read_query_vector(v)?;
    check_query(&q)?;
    Ok(DatalogCommand::Query(q))
}

fn clause_list(b: &Vec<EdnValue>) -> (r: Result<Vec<WhereClause>, String>)
    requires
        b@.len() >= 1,
    ensures
        match r {
            Ok(cs) => rule_body(edns_view(b@), 1, Seq::empty()) == Ok::<Seq<ClauseView>, Seq<char>>(clauses_view(cs@)),
            Err(m) => rule_body(edns_view(b@), 1, Seq::empty()) == Err::<Seq<ClauseView>, Seq<char>>(m@),
        },
{
    proof {
        lemma_edns_view(b@);
    }
    let ghost bv = edns_view(b@);
    let mut out: Vec<WhereClause> = Vec::new();
    let mut j: usize = 1;
    assert(clauses_view(out@) =~= Seq::<ClauseView>::empty());
    while j < b.len()
        invariant
            1 <= j <= b@.len(),
            bv == edns_view(b@),
            bv.len() == b@.len(),
            forall|k: int| 0 <= k < b@.len() ==> #[trigger] bv[k] == b@[k]@,
            rule_body(bv, 1, Seq::empty()) == rule_body(bv, j as int, clauses_view(out@)),
        decreases b@.len() - j,
    {
        assert(bv[j as int] == b@[j as int]@);
        let c = clause_item_exec(
            &b[j],
            "Rule body clause must be a vector (pattern) or list (rule invocation / not), got ",
        );
        let c = c?;
        let ghost prev = out@;
        out.push(c);
        proof {
            crate::types::lemma_clauses_view_push(prev, c);
        }
        j = j + 1;
    }
    Ok(out)
}

fn head_vars_exec(h: &Vec<EdnValue>) -> (r: Vec<String>)
    requires
        h@.len() >= 1,
    ensures
        strs_view(r@) == head_vars(edns_view(h@).subrange(1, h@.len() as int)),
{
    proof {
        lemma_edns_view(h@);
    }
    let ghost hv = edns_view(h@);
    let mut out: Vec<String> = Vec::new();
    let mut k: usize = 1;
    assert(hv.subrange(1, 1) =~= Seq::<EdnView>::empty());
    assert(strs_view(out@) =~= Seq::<Seq<char>>::empty());
    while k < h.len()
        invariant
            1 <= k <= h@.len(),
            hv == edns_view(h@),
            hv.len() == h@.len(),
            forall|i: int| 0 <= i < h@.len() ==> #[trigger] hv[i] == h@[i]@,
            strs_view(out@) == head_vars(hv.subrange(1, k as int)),
        decreases h@.len() - k,
    {
        assert(hv.subrange(1, k + 1).drop_last() =~= hv.subrange(1, k as int));
        assert(hv.subrange(1, k + 1).last() == h@[k as int]@);
        match h[k].as_variable() {
            Some(n) => {
                let ghost prev = out@;
                out.push(owned(n));
                assert(strs_view(out@) =~= strs_view(prev).push(n@));
            },
            None => {},
        }
        k = k + 1;
    }
    out
}

/// Parses `rule` given the elements after the command name (see
/// `spec_rule`).
pub fn parse_rule(elements: &Vec<EdnValue>) -> (r: Result<DatalogCommand, String>)
    ensures
        match r {
            Ok(c) => spec_rule(edns_view(elements@)) == Ok::<CommandView, Seq<char>>(c@),
            Err(m) => spec_rule(edns_view(elements@)) == Err::<CommandView, Seq<char>>(m@),
        },
{
    proof {
        lemma_edns_view(elements@);
    }
    if elements.len() == 0 {
        return Err(owned("Rule must have a body"));
    }
    let b = match elements[0].as_vector() {
        Some(b) => b,
        None => {
            return Err(owned("Rule body must be a vector"));
        },
    };
    proof {
        lemma_edns_view(b@);
    }
    if b.len() == 0 {
        return Err(owned("Rule body cannot be empty"));
    }
    let h = match b[0].as_list() {
        Some(h) => h,
        None => {
            return Err(owned("Rule head must be a list: (predicate ?args)"));
        },
    };
    proof {
        lemma_edns_view(h@);
    }
    if h.len() == 0 {
        return Err(owned("Rule head cannot be empty"));
    }
    match &h[0] {
        EdnValue::Symbol(_) => {},
        _ => {
            return Err(owned("Rule head must start with a symbol (predicate name)"));
        },
    }
    let body = clause_list(b)?;
    if body.len() == 0 {
        proof {
            lemma_clauses_view(body@);
        }
        return Err(owned("Rule must have at least one pattern or rule invocation in body"));
    }
    proof {
        lemma_clauses_view(body@);
    }
    let mut outer = head_vars_exec(h);
    let bound = clauses_vars_exec(&body);
    append_strs(&mut outer, &bound);
    check_body(&body, &outer)?;
    Ok(DatalogCommand::Rule(Rule::new(edns_clone(h), body)))
}

/// A rule that parses has a non-empty head starting with a symbol, a
/// non-empty body, and passes the body checks: every variable a `not` or
/// `not-join` body needs is a head variable or bound by the body.
pub proof fn lemma_rule_shape(elements: Seq<EdnView>)
    ensures
        spec_rule(elements) matches Ok(CommandView::Rule(r)) ==> r.head.len() > 0 && r.head[0] is Symbol && r.body.len()
            > 0 && body_checks(
            r.body,
            (head_vars(r.head.subrange(1, r.head.len() as int)) + clauses_vars(r.body)).to_set(),
        ) is None,
        elements.len() == 0 ==> spec_rule(elements) is Err,
        (elements.len() > 0 && (elements[0] matches EdnView::Vector(b) && b.len() > 0 && b[0] is Vector)) ==> spec_rule(
            elements,
        ) is Err,
{
}

/// A command whose head is a keyword (`:query` and the like) is never
/// accepted: keywords keep their `:`, and the command names have none.
pub proof fn lemma_keyword_head_refused(input: Seq<char>)
    ensures
        (spec_parse_edn(input) matches Ok(EdnView::List(els)) && els.len() > 0 && els[0] is Keyword) ==> spec_command(
            input,
        ) is Err,
{
    lemma_list_head_keyword(input);
    reveal_strlit("query");
    reveal_strlit("transact");
    reveal_strlit("retract");
    reveal_strlit("rule");
    if let Ok(EdnView::List(els)) = spec_parse_edn(input) {
        if els.len() > 0 && els[0] is Keyword {
            let k = els[0]->Keyword_0;
            assert(k[0] == ':');
            assert(k != "query"@ && k != "transact"@ && k != "retract"@ && k != "rule"@) by {
                assert("query"@[0] == 'q');
                assert("transact"@[0] == 't');
                assert("retract"@[0] == 'r');
                assert("rule"@[0] == 'r');
            }
        }
    }
}

/// Parses a Datalog command from its text (see `spec_command`).
pub fn parse_datalog_command(input: &str) -> (r: Result<DatalogCommand, String>)
    ensures
        match r {
            Ok(c) => spec_command(input@) == Ok::<CommandView, Seq<char>>(c@),
            Err(m) => spec_command(input@) == Err::<CommandView, Seq<char>>(m@),
        },
{
    let edn = parse_edn(input)?;
    let elements = match &edn {
        EdnValue::List(e) => e,
        _ => {
            return Err(owned("Expected a list starting with a command symbol"));
        },
    };
    proof {
        lemma_edns_view(elements@);
    }
    if elements.len() == 0 {
        return Err(owned("Expected a list starting with a command symbol"));
    }
    let name: &str = match &elements[0] {
        EdnValue::Symbol(s) => s.as_str(),
        EdnValue::Keyword(k) => k.as_str(),
        _ => {
            return Err(owned("Expected command symbol"));
        },
    };
    let rest = edns_clone_range(elements, 1);
    proof {
        lemma_edns_view_subrange(elements@, 1);
    }
    if str_eq(name, "query") {
        parse_query(&rest)
    } else if str_eq(name, "transact") {
        parse_transact(&rest)
    } else if str_eq(name, "retract") {
        parse_retract(&rest)
    } else if str_eq(name, "rule") {
        parse_rule(&rest)
    } else {
        Err(concat("Unknown command: ", name))
    }
}

} // verus!
