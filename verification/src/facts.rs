//! The `transact` and `retract` commands: fact vectors `[e a v]` or
//! `[e a v {opts}]`, and valid-time maps `{:valid-from "ts" :valid-to "ts"}`.
use vstd::prelude::*;
use crate::edn::{
    EdnValue, EdnView, edns_view, pairs_view, lemma_edns_view, lemma_pairs_view, edn_text, msg_with_value,
};
use crate::text::{owned, str_eq, nat_text, push_u64_text};
use crate::temporal::{parse_timestamp, spec_parse_timestamp};
use crate::types::{
    Pattern, PatternView, AttributeView, Transaction, TransactionView, DatalogCommand, CommandView,
    patterns_view,
};
use crate::clauses::{pattern_from_edn, spec_pattern_from_edn};

verus! {

/// The first value when there is one, else the second.
pub open spec fn or_else(a: Option<i64>, b: Option<i64>) -> Option<i64> {
    match a {
        Some(x) => Some(x),
        None => b,
    }
}

/// The bounds of a valid-time map read from pair `j` on, or the first error.
/// Both keys are optional; a later key overrides an earlier one.
pub open spec fn spec_valid_time_map(
    p: Seq<(EdnView, EdnView)>,
    j: int,
    from: Option<i64>,
    to: Option<i64>,
) -> Result<(Option<i64>, Option<i64>), Seq<char>>
    decreases p.len() - j,
{
    if j < 0 || j >= p.len() {
        Ok((from, to))
    } else {
        let (key, val) = p[j];
        if key == EdnView::Keyword(":valid-from"@) {
            match val {
                EdnView::Str(s) => match spec_parse_timestamp(s) {
                    Ok(t) => spec_valid_time_map(p, j + 1, Some(t), to),
                    Err(m) => Err(m),
                },
                other => Err(":valid-from"@ + " must be an ISO 8601 string, got "@ + edn_text(other)),
            }
        } else if key == EdnView::Keyword(":valid-to"@) {
            match val {
                EdnView::Str(s) => match spec_parse_timestamp(s) {
                    Ok(t) => spec_valid_time_map(p, j + 1, from, Some(t)),
                    Err(m) => Err(m),
                },
                other => Err(":valid-to"@ + " must be an ISO 8601 string, got "@ + edn_text(other)),
            }
        } else {
            Err(
                "Unknown key in valid-time map: "@ + edn_text(key)
                    + "; expected :valid-from or :valid-to"@,
            )
        }
    }
}

/// One fact of `transact`: `[e a v]` or `[e a v {opts}]`; its own bounds
/// take precedence over those of the transaction.
pub open spec fn spec_fact(f: EdnView, txf: Option<i64>, txt: Option<i64>) -> Result<PatternView, Seq<char>> {
    match f {
        EdnView::Vector(fv) => if fv.len() < 3 {
            Err("Fact must have at least 3 elements (E A V), got "@ + nat_text(fv.len()))
        } else {
            let bounds = if fv.len() >= 4 {
                match fv[3] {
                    EdnView::Mapping(pairs) => spec_valid_time_map(pairs, 0, None, None),
                    other => Err(
                        "Optional 4th element of a fact must be a map {:valid-from ... :valid-to ...}, got "@
                            + edn_text(other),
                    ),
                }
            } else {
                Ok((None, None))
            };
            match bounds {
                Err(m) => Err(m),
                Ok((ff, ft)) => Ok(
                    PatternView {
                        entity: fv[0],
                        attribute: AttributeView::Real(fv[1]),
                        value: fv[2],
                        valid_from: or_else(ff, txf),
                        valid_to: or_else(ft, txt),
                    },
                ),
            }
        },
        _ => Err("Each fact must be a vector [e a v] or [e a v {opts}]"@),
    }
}

/// The facts from position `k` on, after those in `acc`, or the first error.
pub open spec fn spec_facts(
    fs: Seq<EdnView>,
    k: int,
    txf: Option<i64>,
    txt: Option<i64>,
    acc: Seq<PatternView>,
) -> Result<Seq<PatternView>, Seq<char>>
    decreases fs.len() - k,
{
    if k < 0 || k >= fs.len() {
        Ok(acc)
    } else {
        match spec_fact(fs[k], txf, txt) {
            Ok(p) => spec_facts(fs, k + 1, txf, txt, acc.push(p)),
            Err(m) => Err(m),
        }
    }
}

proof fn lemma_facts_all_ok(
    fs: Seq<EdnView>,
    k: int,
    txf: Option<i64>,
    txt: Option<i64>,
    acc: Seq<PatternView>,
)
    requires
        0 <= k <= fs.len(),
        forall|i: int| k <= i < fs.len() ==> (#[trigger] spec_fact(fs[i], txf, txt)) is Ok,
    ensures
        spec_facts(fs, k, txf, txt, acc) matches Ok(ps) && ps.len() == acc.len() + fs.len() - k && ps.subrange(
            0,
            acc.len() as int,
        ) == acc && forall|i: int| k <= i < fs.len() ==> ps[acc.len() + i - k] == (#[trigger] spec_fact(fs[i], txf, txt))->Ok_0,
    decreases fs.len() - k,
{
    if k < fs.len() {
        let p = spec_fact(fs[k], txf, txt)->Ok_0;
        lemma_facts_all_ok(fs, k + 1, txf, txt, acc.push(p));
        let ps = spec_facts(fs, k + 1, txf, txt, acc.push(p))->Ok_0;
        assert(ps.subrange(0, acc.len() as int) =~= ps.subrange(0, acc.len() + 1 as int).subrange(0, acc.len() as int));
        assert(acc.push(p).subrange(0, acc.len() as int) =~= acc);
        assert(ps[acc.len() as int] == acc.push(p)[acc.len() as int]);
    } else {
        assert(acc.subrange(0, acc.len() as int) =~= acc);
    }
}

/// `(transact {opts} [facts])` with valid options and facts gives one fact
/// per element, in order, each with its own valid-time bounds where it has
/// them and the transaction's otherwise (see `spec_fact`).
pub proof fn lemma_transact_with_options(elements: Seq<EdnView>, tf: Option<i64>, tt: Option<i64>)
    requires
        elements.len() == 2,
        elements[0] matches EdnView::Mapping(m) && spec_valid_time_map(m, 0, None, None) == Ok::<
            (Option<i64>, Option<i64>),
            Seq<char>,
        >((tf, tt)),
        elements[1] matches EdnView::Vector(fs) && forall|i: int| 0 <= i < fs.len() ==> (#[trigger] spec_fact(fs[i], tf, tt)) is Ok,
    ensures
        spec_transact(elements) matches Ok(CommandView::Transact(tx)) && tx.valid_from == tf && tx.valid_to == tt
            && tx.facts.len() == elements[1]->Vector_0.len() && forall|i: int|
            0 <= i < tx.facts.len() ==> tx.facts[i] == (#[trigger] spec_fact(elements[1]->Vector_0[i], tf, tt))->Ok_0,
{
    let fs = elements[1]->Vector_0;
    lemma_facts_all_ok(fs, 0, tf, tt, Seq::empty());
}

/// `(transact [facts])` or `(transact {opts} [facts])`, given the elements
/// after the command name.
pub open spec fn spec_transact(elements: Seq<EdnView>) -> Result<CommandView, Seq<char>> {
    if elements.len() == 0 {
        Err("Transact requires a vector of facts"@)
    } else {
        let opts: Result<(Option<i64>, Option<i64>, EdnView), Seq<char>> = match elements[0] {
            EdnView::Mapping(pairs) => match spec_valid_time_map(pairs, 0, None, None) {
                Err(m) => Err(m),
                Ok((f, t)) => if elements.len() < 2 {
                    Err("Transact with options requires a facts vector after the map"@)
                } else {
                    Ok((f, t, elements[1]))
                },
            },
            other => Ok((None, None, other)),
        };
        match opts {
            Err(m) => Err(m),
            Ok((f, t, fe)) => match fe {
                EdnView::Vector(facts) => match spec_facts(facts, 0, f, t, Seq::empty()) {
                    Ok(ps) => Ok(CommandView::Transact(TransactionView { facts: ps, valid_from: f, valid_to: t })),
                    Err(m) => Err(m),
                },
                _ => Err("Transact argument must be a vector of facts"@),
            },
        }
    }
}

/// The facts of `retract` from position `k` on, after those in `acc`.
pub open spec fn spec_retract_facts(fs: Seq<EdnView>, k: int, acc: Seq<PatternView>) -> Result<
    Seq<PatternView>,
    Seq<char>,
>
    decreases fs.len() - k,
{
    if k < 0 || k >= fs.len() {
        Ok(acc)
    } else {
        match fs[k] {
            EdnView::Vector(fv) => match spec_pattern_from_edn(fv) {
                Ok(p) => spec_retract_facts(fs, k + 1, acc.push(p)),
                Err(m) => Err(m),
            },
            _ => Err("Each fact must be a vector [e a v]"@),
        }
    }
}

/// `(retract [facts])`, given the elements after the command name.
pub open spec fn spec_retract(elements: Seq<EdnView>) -> Result<CommandView, Seq<char>> {
    if elements.len() == 0 {
        Err("Retract requires a vector of facts"@)
    } else {
        match elements[0] {
            EdnView::Vector(fs) => match spec_retract_facts(fs, 0, Seq::empty()) {
                Ok(ps) => Ok(CommandView::Retract(TransactionView { facts: ps, valid_from: None, valid_to: None })),
                Err(m) => Err(m),
            },
            _ => Err("Retract argument must be a vector"@),
        }
    }
}

fn timestamp_of(key: &str, val: &EdnValue) -> (r: Result<i64, String>)
    ensures
        match val@ {
            EdnView::Str(s) => crate::temporal::millis_result_view(r) == spec_parse_timestamp(s),
            other => crate::temporal::millis_result_view(r) == Err::<i64, Seq<char>>(
                key@ + " must be an ISO 8601 string, got "@ + edn_text(other),
            ),
        },
{
    match val {
        EdnValue::String(s) => parse_timestamp(s.as_str()),
        other => {
            let mut m = owned(key);
            m.append(" must be an ISO 8601 string, got ");
            crate::edn::render_edn(other, &mut m);
            Err(m)
        },
    }
}

/// Parses a valid-time map (see `spec_valid_time_map`).
#[verifier::loop_isolation(false)]
pub fn parse_valid_time_map(pairs: &Vec<(EdnValue, EdnValue)>) -> (r: Result<(Option<i64>, Option<i64>), String>)
    ensures
        match r {
            Ok(b) => spec_valid_time_map(pairs_view(pairs@), 0, None, None) == Ok::<
                (Option<i64>, Option<i64>),
                Seq<char>,
            >(b),
            Err(m) => spec_valid_time_map(pairs_view(pairs@), 0, None, None) == Err::<
                (Option<i64>, Option<i64>),
                Seq<char>,
            >(m@),
        },
{
    proof {
        lemma_pairs_view(pairs@);
    }
    let ghost pv = pairs_view(pairs@);
    let mut from: Option<i64> = None;
    let mut to: Option<i64> = None;
    let mut j: usize = 0;
    while j < pairs.len()
        invariant
            j <= pairs@.len(),
            pv == pairs_view(pairs@),
            pv.len() == pairs@.len(),
            forall|i: int| 0 <= i < pairs@.len() ==> #[trigger] pv[i] == (pairs@[i].0@, pairs@[i].1@),
            spec_valid_time_map(pv, 0, None, None) == spec_valid_time_map(pv, j as int, from, to),
        decreases pairs@.len() - j,
    {
        let key = &pairs[j].0;
        let val = &pairs[j].1;
        assert(pv[j as int] == (key@, val@));
        let is_from = match key.as_keyword() {
            Some(k) => str_eq(k, ":valid-from"),
            None => false,
        };
        let is_to = !is_from && match key.as_keyword() {
            Some(k) => str_eq(k, ":valid-to"),
            None => false,
        };
        if is_from {
            match timestamp_of(":valid-from", val) {
                Ok(t) => {
                    from = Some(t);
                },
                Err(m) => {
                    return Err(m);
                },
            }
        } else if is_to {
            match timestamp_of(":valid-to", val) {
                Ok(t) => {
                    to = Some(t);
                },
                Err(m) => {
                    return Err(m);
                },
            }
        } else {
            let mut m = msg_with_value("Unknown key in valid-time map: ", key);
            m.append("; expected :valid-from or :valid-to");
            return Err(m);
        }
        j = j + 1;
    }
    Ok((from, to))
}

fn or_exec(a: Option<i64>, b: Option<i64>) -> (r: Option<i64>)
    ensures
        r == or_else(a, b),
{
    match a {
        Some(x) => Some(x),
        None => b,
    }
}

fn fact_of(f: &EdnValue, txf: Option<i64>, txt: Option<i64>) -> (r: Result<Pattern, String>)
    ensures
        match r {
            Ok(p) => spec_fact(f@, txf, txt) == Ok::<PatternView, Seq<char>>(p@),
            Err(m) => spec_fact(f@, txf, txt) == Err::<PatternView, Seq<char>>(m@),
        },
{
    let fv = match f.as_vector() {
        Some(v) => v,
        None => {
            return Err(owned("Each fact must be a vector [e a v] or [e a v {opts}]"));
        },
    };
    proof {
        lemma_edns_view(fv@);
    }
    if fv.len() < 3 {
        let mut m = owned("Fact must have at least 3 elements (E A V), got ");
        push_u64_text(&mut m, fv.len() as u64);
        return Err(m);
    }
    let (ff, ft) = if fv.len() >= 4 {
        match &fv[3] {
            EdnValue::Mapping(pairs) => parse_valid_time_map(pairs)?,
            other => {
                return Err(
                    msg_with_value(
                        "Optional 4th element of a fact must be a map {:valid-from ... :valid-to ...}, got ",
                        other,
                    ),
                );
            },
        }
    } else {
        (None, None)
    };
    Ok(
        Pattern::with_valid_time(
            crate::edn::edn_clone(&fv[0]),
            crate::edn::edn_clone(&fv[1]),
            crate::edn::edn_clone(&fv[2]),
            or_exec(ff, txf),
            or_exec(ft, txt),
        ),
    )
}

/// Parses `transact` given the elements after the command name (see
/// `spec_transact`).
#[verifier::loop_isolation(false)]
pub fn parse_transact(elements: &Vec<EdnValue>) -> (r: Result<DatalogCommand, String>)
    ensures
        match r {
            Ok(c) => spec_transact(edns_view(elements@)) == Ok::<CommandView, Seq<char>>(c@),
            Err(m) => spec_transact(edns_view(elements@)) == Err::<CommandView, Seq<char>>(m@),
        },
{
    proof {
        lemma_edns_view(elements@);
    }
    if elements.len() == 0 {
        return Err(owned("Transact requires a vector of facts"));
    }
    let first = &elements[0];
    let (txf, txt, facts_element) = match first.as_map() {
        Some(pairs) => {
            let (f, t) = parse_valid_time_map(pairs)?;
            if elements.len() < 2 {
                return Err(owned("Transact with options requires a facts vector after the map"));
            }
            (f, t, &elements[1])
        },
        None => (None, None, first),
    };
    let facts = match facts_element.as_vector() {
        Some(v) => v,
        None => {
            return Err(owned("Transact argument must be a vector of facts"));
        },
    };
    proof {
        lemma_edns_view(facts@);
    }
    let ghost fsv = edns_view(facts@);
    let mut patterns: Vec<Pattern> = Vec::new();
    let mut k: usize = 0;
    assert(patterns_view(patterns@) =~= Seq::<PatternView>::empty());
    while k < facts.len()
        invariant
            k <= facts@.len(),
            fsv == edns_view(facts@),
            fsv.len() == facts@.len(),
            forall|i: int| 0 <= i < facts@.len() ==> #[trigger] fsv[i] == facts@[i]@,
            spec_facts(fsv, 0, txf, txt, Seq::empty()) == spec_facts(
                fsv,
                k as int,
                txf,
                txt,
                patterns_view(patterns@),
            ),
        decreases facts@.len() - k,
    {
        assert(fsv[k as int] == facts@[k as int]@);
        let p = fact_of(&facts[k], txf, txt)?;
        let ghost prev = patterns@;
        patterns.push(p);
        assert(patterns_view(patterns@) =~= patterns_view(prev).push(p@));
        k = k + 1;
    }
    let mut tx = Transaction::new(patterns);
    tx.valid_from = txf;
    tx.valid_to = txt;
    Ok(DatalogCommand::Transact(tx))
}

/// Parses `retract` given the elements after the command name (see
/// `spec_retract`).
#[verifier::loop_isolation(false)]
pub fn parse_retract(elements: &Vec<EdnValue>) -> (r: Result<DatalogCommand, String>)
    ensures
        match r {
            Ok(c) => spec_retract(edns_view(elements@)) == Ok::<CommandView, Seq<char>>(c@),
            Err(m) => spec_retract(edns_view(elements@)) == Err::<CommandView, Seq<char>>(m@),
        },
{
    proof {
        lemma_edns_view(elements@);
    }
    if elements.len() == 0 {
        return Err(owned("Retract requires a vector of facts"));
    }
    let facts = match elements[0].as_vector() {
        Some(v) => v,
        None => {
            return Err(owned("Retract argument must be a vector"));
        },
    };
    proof {
        lemma_edns_view(facts@);
    }
    let ghost fsv = edns_view(facts@);
    let mut patterns: Vec<Pattern> = Vec::new();
    let mut k: usize = 0;
    assert(patterns_view(patterns@) =~= Seq::<PatternView>::empty());
    while k < facts.len()
        invariant
            k <= facts@.len(),
            fsv == edns_view(facts@),
            fsv.len() == facts@.len(),
            forall|i: int| 0 <= i < facts@.len() ==> #[trigger] fsv[i] == facts@[i]@,
            spec_retract_facts(fsv, 0, Seq::empty()) == spec_retract_facts(fsv, k as int, patterns_view(patterns@)),
        decreases facts@.len() - k,
    {
        assert(fsv[k as int] == facts@[k as int]@);
        let fv = match facts[k].as_vector() {
            Some(v) => v,
            None => {
                return Err(owned("Each fact must be a vector [e a v]"));
            },
        };
        let p = pattern_from_edn(fv)?;
        let ghost prev = patterns@;
        patterns.push(p);
        assert(patterns_view(patterns@) =~= patterns_view(prev).push(p@));
        k = k + 1;
    }
    Ok(DatalogCommand::Retract(Transaction::new(patterns)))
}

} // verus!
