//! The decisions a query makes before any fact is matched: the value bound
//! to `:db/valid-at`, the refusal of per-fact pseudo-attributes outside
//! `:any-valid-time`, the per-query recursion limits,
//! and the clauses the matcher runs, with rule invocations read as patterns
//! over the derived facts.
use vstd::prelude::*;
use crate::edn::{EdnValue, EdnView, edns_view};
use crate::evaluator::{invocation_pattern, rule_invocation_to_pattern};
use crate::executor::{per_fact_clauses, query_uses_per_fact_pseudo_attr};
use crate::recursion::RuleLimits;
use crate::text::{concat, nat_text, owned, push_u64_text};
use crate::types::{
    ClauseView, DatalogQuery, QueryView, ValidAt, ValidAtView, Value,
    ValueView, WhereClause, clause_clone, clause_view, clauses_view, invocations_of, lemma_clauses_view,
};

verus! {

/// What `:db/valid-at` is bound to: the `:valid-at` timestamp, null under
/// `:any-valid-time`, the current time `now` without `:valid-at`; a bind
/// slot still in place is an error.
pub open spec fn spec_valid_at_value(v: Option<ValidAtView>, now: i64) -> Result<ValueView, Seq<char>> {
    match v {
        Some(ValidAtView::Timestamp(t)) => Ok(ValueView::Integer(t)),
        Some(ValidAtView::AnyValidTime) => Ok(ValueView::Null),
        Some(ValidAtView::Slot(_)) => Err("internal: unsubstituted :valid-at bind slot reached the executor"@),
        None => Ok(ValueView::Integer(now)),
    }
}

/// The value `:db/valid-at` is bound to (see `spec_valid_at_value`).
pub fn valid_at_value(valid_at: &Option<ValidAt>, now: i64) -> (r: Result<Value, String>)
    ensures
        match r {
            Ok(v) => spec_valid_at_value(crate::types::opt_valid_at_view(*valid_at), now) == Ok::<ValueView, Seq<char>>(v@),
            Err(m) => spec_valid_at_value(crate::types::opt_valid_at_view(*valid_at), now) == Err::<ValueView, Seq<char>>(m@),
        },
{
    match valid_at {
        Some(ValidAt::Timestamp(t)) => Ok(Value::Integer(*t)),
        Some(ValidAt::AnyValidTime) => Ok(Value::Null),
        Some(ValidAt::Slot(_)) => Err(owned("internal: unsubstituted :valid-at bind slot reached the executor")),
        None => Ok(Value::Integer(now)),
    }
}

/// The refusal of per-fact pseudo-attributes outside `:any-valid-time`.
pub open spec fn pseudo_attr_message() -> Seq<char> {
    "temporal pseudo-attributes :db/valid-from, :db/valid-to, :db/tx-count, and :db/tx-id require :any-valid-time; add :any-valid-time to your query"@
}

/// A query names a per-fact pseudo-attribute without `:any-valid-time`.
pub open spec fn pseudo_attr_refused(q: QueryView) -> bool {
    per_fact_clauses(q.where_clauses) && q.valid_at != Some(ValidAtView::AnyValidTime)
}

/// Refuses a query that names a per-fact pseudo-attribute (valid-from,
/// valid-to, tx-count, tx-id) without `:any-valid-time`.
pub fn check_pseudo_attrs(query: &DatalogQuery) -> (r: Result<(), String>)
    ensures
        r is Err <==> pseudo_attr_refused(query@),
        r matches Err(m) ==> m@ == pseudo_attr_message(),
{
    let any_time = match &query.valid_at {
        Some(ValidAt::AnyValidTime) => true,
        _ => false,
    };
    if query_uses_per_fact_pseudo_attr(query) && !any_time {
        Err(
            owned(
                "temporal pseudo-attributes :db/valid-from, :db/valid-to, :db/tx-count, and :db/tx-id require :any-valid-time; add :any-valid-time to your query",
            ),
        )
    } else {
        Ok(())
    }
}

/// The recursion limits of a query: its own `:max-derived-facts` and
/// `:max-results` where it gives them, else the executor's; at most 1000
/// rounds.
pub open spec fn spec_query_limits(q: QueryView, max_derived: usize, max_results: usize) -> RuleLimits {
    RuleLimits {
        max_iterations: 1000,
        max_derived_facts: match q.max_derived_facts {
            Some(n) => n,
            None => max_derived,
        },
        max_results: match q.max_results {
            Some(n) => n,
            None => max_results,
        },
    }
}

/// The recursion limits of a query (see `spec_query_limits`).
pub fn query_limits(query: &DatalogQuery, max_derived: usize, max_results: usize) -> (r: RuleLimits)
    ensures
        r == spec_query_limits(query@, max_derived, max_results),
{
    RuleLimits {
        max_iterations: 1000,
        max_derived_facts: match query.max_derived_facts {
            Some(n) => n,
            None => max_derived,
        },
        max_results: match query.max_results {
            Some(n) => n,
            None => max_results,
        },
    }
}

/// A clause the matcher runs in order: a pattern, an expression clause or
/// a negation (`or` and `or-join` come after, rule invocations are read as
/// patterns).
pub open spec fn plannable(c: ClauseView) -> bool {
    c is Pattern || c is Expr || c is Not || c is NotJoin
}

/// The plannable clauses, in order.
pub open spec fn planned_clauses(cs: Seq<ClauseView>) -> Seq<ClauseView>
    decreases cs.len(),
{
    if cs.len() == 0 {
        Seq::empty()
    } else if plannable(cs.last()) {
        planned_clauses(cs.drop_last()).push(cs.last())
    } else {
        planned_clauses(cs.drop_last())
    }
}

/// Rule invocations as patterns over the derived facts, in order; one with
/// other than 1 or 2 arguments is an error.
pub open spec fn rule_patterns(invs: Seq<(Seq<char>, Seq<EdnView>)>) -> Result<Seq<ClauseView>, Seq<char>>
    decreases invs.len(),
{
    if invs.len() == 0 {
        Ok(Seq::empty())
    } else {
        match rule_patterns(invs.drop_last()) {
            Err(m) => Err(m),
            Ok(ps) => {
                let (p, args) = invs.last();
                if args.len() == 1 || args.len() == 2 {
                    match invocation_pattern(p, args) {
                        Ok(pat) => Ok(ps.push(ClauseView::Pattern(pat))),
                        Err(m) => Err(m),
                    }
                } else {
                    Err("Rule invocation '"@ + p + "' must have 1 or 2 arguments, got "@ + nat_text(args.len()))
                }
            },
        }
    }
}

/// The clauses the matcher runs: the plannable ones, then, for a query that
/// invokes rules, each top-level invocation as a pattern.
pub open spec fn spec_plan_clauses(q: QueryView) -> Result<Seq<ClauseView>, Seq<char>> {
    let planned = planned_clauses(q.where_clauses);
    let invs = invocations_of(q.where_clauses);
    if invs.len() == 0 {
        Ok(planned)
    } else {
        match rule_patterns(invs) {
            Err(m) => Err(m),
            Ok(ps) => Ok(planned + ps),
        }
    }
}

/// The clauses the matcher runs (see `spec_plan_clauses`).
pub fn plan_clauses(query: &DatalogQuery) -> (r: Result<Vec<WhereClause>, String>)
    ensures
        match r {
            Ok(v) => spec_plan_clauses(query@) == Ok::<Seq<ClauseView>, Seq<char>>(clauses_view(v@)),
            Err(m) => spec_plan_clauses(query@) == Err::<Seq<ClauseView>, Seq<char>>(m@),
        },
{
    let ghost cv = clauses_view(query.where_clauses@);
    proof {
        lemma_clauses_view(query.where_clauses@);
    }
    let mut out: Vec<WhereClause> = Vec::new();
    let mut i: usize = 0;
    assert(cv.subrange(0, 0) =~= Seq::<ClauseView>::empty());
    while i < query.where_clauses.len()
        invariant
            i <= query.where_clauses@.len(),
            cv == clauses_view(query.where_clauses@),
            cv.len() == query.where_clauses@.len(),
            forall|q: int| 0 <= q < query.where_clauses@.len() ==> #[trigger] cv[q] == clause_view(query.where_clauses@[q]),
            clauses_view(out@) == planned_clauses(cv.subrange(0, i as int)),
        decreases query.where_clauses@.len() - i,
    {
        assert(cv.subrange(0, i + 1).drop_last() =~= cv.subrange(0, i as int));
        assert(cv.subrange(0, i + 1).last() == cv[i as int]);
        let c = &query.where_clauses[i];
        let keep = match c {
            WhereClause::Pattern(_) => true,
            WhereClause::Expr { .. } => true,
            WhereClause::Not(_) => true,
            WhereClause::NotJoin { .. } => true,
            _ => false,
        };
        if keep {
            let ghost prev = out@;
            out.push(clause_clone(c));
            proof {
                crate::types::lemma_clauses_view_push(prev, out@.last());
                assert(prev.push(out@.last()) =~= out@);
            }
        }
        i = i + 1;
    }
    assert(cv.subrange(0, query.where_clauses@.len() as int) =~= cv);
    let invs = query.get_rule_invocations();
    let ghost iv = invocations_of(query@.where_clauses);
    if invs.len() == 0 {
        assert(iv.len() == 0);
        return Ok(out);
    }
    let ghost planned = clauses_view(out@);
    let ghost ivw = invs@.map_values(|x: (String, Vec<EdnValue>)| (x.0@, edns_view(x.1@)));
    assert(ivw == iv);
    let mut k: usize = 0;
    assert(iv.subrange(0, 0) =~= Seq::<(Seq<char>, Seq<EdnView>)>::empty());
    while k < invs.len()
        invariant
            k <= invs@.len(),
            ivw == invs@.map_values(|x: (String, Vec<EdnValue>)| (x.0@, edns_view(x.1@))),
            ivw == iv,
            iv == invocations_of(query@.where_clauses),
            planned == planned_clauses(query@.where_clauses),
            iv.len() == invs@.len(),
            invs@.len() > 0,
            rule_patterns(iv.subrange(0, k as int)) matches Ok(ps) && clauses_view(out@) == planned + ps,
        decreases invs@.len() - k,
    {
        assert(iv.subrange(0, k + 1).drop_last() =~= iv.subrange(0, k as int));
        assert(iv.subrange(0, k + 1).last() == iv[k as int]);
        assert(iv[k as int] == (invs@[k as int].0@, edns_view(invs@[k as int].1@)));
        let pred = &invs[k].0;
        let args = &invs[k].1;
        proof {
            crate::edn::lemma_edns_view(args@);
        }
        if args.len() == 1 || args.len() == 2 {
            match rule_invocation_to_pattern(pred.as_str(), args) {
                Ok(p) => {
                    let ghost prev = out@;
                    out.push(WhereClause::Pattern(p));
                    proof {
                        crate::types::lemma_clauses_view_push(prev, out@.last());
                        assert(prev.push(out@.last()) =~= out@);
                    }
                },
                Err(m) => {
                    proof {
                        lemma_rule_patterns_err(iv, k as int + 1);
                    }
                    return Err(m);
                },
            }
        } else {
            let mut m = concat("Rule invocation '", pred.as_str());
            m.append("' must have 1 or 2 arguments, got ");
            push_u64_text(&mut m, args.len() as u64);
            proof {
                assert(iv[k as int].1.len() == args@.len());
                assert(iv[k as int].0 == pred@);
                assert(m@ == "Rule invocation '"@ + iv[k as int].0 + "' must have 1 or 2 arguments, got "@ + nat_text(
                    iv[k as int].1.len(),
                ));
                assert(rule_patterns(iv.subrange(0, k + 1)) is Err);
                lemma_rule_patterns_err(iv, k as int + 1);
            }
            return Err(m);
        }
        k = k + 1;
    }
    assert(iv.subrange(0, invs@.len() as int) =~= iv);
    Ok(out)
}

proof fn lemma_rule_patterns_err(invs: Seq<(Seq<char>, Seq<EdnView>)>, i: int)
    requires
        0 <= i <= invs.len(),
        rule_patterns(invs.subrange(0, i)) is Err,
    ensures
        rule_patterns(invs) == rule_patterns(invs.subrange(0, i)),
    decreases invs.len() - i,
{
    if i < invs.len() {
        assert(invs.subrange(0, i + 1).drop_last() =~= invs.subrange(0, i));
        lemma_rule_patterns_err(invs, i + 1);
    } else {
        assert(invs.subrange(0, i) =~= invs);
    }
}

} // verus!
