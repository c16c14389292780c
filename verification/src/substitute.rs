//! Filling the bind slots (`$name`) of a prepared query with values: an
//! entity id in entity position, a value in value and expression positions,
//! a transaction counter or timestamp for `:as-of`, a timestamp or
//! "any valid time" for `:valid-at`.
use vstd::prelude::*;
use crate::edn::{EdnValue, EdnView, edn_clone, edns_view, lemma_edns_view};
use crate::text::{owned, concat, str_eq};
use crate::types::{
    Value, ValueView, Expr, ExprView, Pattern, PatternView, AttributeSpec, WhereClause, ClauseView, AsOf,
    AsOfView, ValidAt, ValidAtView, DatalogQuery, QueryView, FindSpec, FindSpecView, WindowFunc, WindowSpec,
    clauses_view, branches_view, finds_view, strs_view, value_clone, lemma_clauses_view, lemma_clauses_view_push,
    lemma_branches_view, lemma_branches_view_push, opt_str_view,
};
use crate::safety::clone_strs;

verus! {

/// A value supplied for a bind slot.
#[derive(Debug, PartialEq)]
pub enum BindValue {
    /// An entity id (the 128-bit value of its UUID), for entity positions.
    Entity(u128),
    /// A value, for value and expression positions.
    Val(Value),
    /// A transaction counter, for `:as-of`.
    TxCount(u64),
    /// Milliseconds since the epoch, for `:as-of` or `:valid-at`.
    Timestamp(i64),
    /// No valid-time filtering, for `:valid-at`.
    AnyValidTime,
}

/// The model of a bind value.
pub enum BindView {
    Entity(u128),
    Val(ValueView),
    TxCount(u64),
    Timestamp(i64),
    AnyValidTime,
}

impl View for BindValue {
    type V = BindView;

    open spec fn view(&self) -> BindView {
        match self {
            BindValue::Entity(u) => BindView::Entity(*u),
            BindValue::Val(v) => BindView::Val(v@),
            BindValue::TxCount(n) => BindView::TxCount(*n),
            BindValue::Timestamp(t) => BindView::Timestamp(*t),
            BindValue::AnyValidTime => BindView::AnyValidTime,
        }
    }
}

/// The name of a bind value's kind, for messages.
pub open spec fn bind_kind_name(v: BindView) -> Seq<char> {
    match v {
        BindView::Entity(_) => "Entity"@,
        BindView::Val(_) => "Val"@,
        BindView::TxCount(_) => "TxCount"@,
        BindView::Timestamp(_) => "Timestamp"@,
        BindView::AnyValidTime => "AnyValidTime"@,
    }
}

/// The models of (name, value) bindings.
pub open spec fn binds_view(b: Seq<(String, BindValue)>) -> Seq<(Seq<char>, BindView)> {
    b.map_values(|x: (String, BindValue)| (x.0@, x.1@))
}

/// The value bound to a slot: the last binding of the name wins.
pub open spec fn lookup_bind(b: Seq<(Seq<char>, BindView)>, name: Seq<char>) -> Option<BindView>
    decreases b.len(),
{
    if b.len() == 0 {
        None
    } else if b.last().0 == name {
        Some(b.last().1)
    } else {
        lookup_bind(b.drop_last(), name)
    }
}

/// The message for a slot without a value.
pub open spec fn missing_message(name: Seq<char>) -> Seq<char> {
    "missing bind value for slot '$"@ + name + "'"@
}

/// The message for a value of the wrong kind for its slot's position.
pub open spec fn mismatch_message(name: Seq<char>, position: Seq<char>, wants: Seq<char>, got: BindView) -> Seq<
    char,
> {
    "slot '$"@ + name + "' in "@ + position + " position requires "@ + wants + ", got "@ + bind_kind_name(got)
}

/// The EDN form of a bound value (`nil` for null).
pub open spec fn bound_edn(v: ValueView) -> EdnView {
    match v {
        ValueView::Str(s) => EdnView::Str(s),
        ValueView::Integer(i) => EdnView::Integer(i),
        ValueView::Float(t) => EdnView::Float(t),
        ValueView::Boolean(b) => EdnView::Boolean(b),
        ValueView::Keyword(k) => EdnView::Keyword(k),
        ValueView::Ref(u) => EdnView::Uuid(u),
        ValueView::Null => EdnView::Nil,
    }
}

/// An entity-position slot: an `Entity` value.
pub open spec fn resolve_entity(name: Seq<char>, b: Seq<(Seq<char>, BindView)>) -> Result<EdnView, Seq<char>> {
    match lookup_bind(b, name) {
        Some(BindView::Entity(u)) => Ok(EdnView::Uuid(u)),
        Some(o) => Err(mismatch_message(name, "entity"@, "Entity"@, o)),
        None => Err(missing_message(name)),
    }
}

/// A value-position slot: a `Val` value, as EDN.
pub open spec fn resolve_value(name: Seq<char>, b: Seq<(Seq<char>, BindView)>) -> Result<EdnView, Seq<char>> {
    match lookup_bind(b, name) {
        Some(BindView::Val(v)) => Ok(bound_edn(v)),
        Some(o) => Err(mismatch_message(name, "value"@, "Val"@, o)),
        None => Err(missing_message(name)),
    }
}

/// An expression slot: a `Val` value.
pub open spec fn resolve_val(name: Seq<char>, b: Seq<(Seq<char>, BindView)>) -> Result<ValueView, Seq<char>> {
    match lookup_bind(b, name) {
        Some(BindView::Val(v)) => Ok(v),
        Some(o) => Err(mismatch_message(name, "expression"@, "Val"@, o)),
        None => Err(missing_message(name)),
    }
}

/// An `:as-of` slot: a counter or a timestamp.
pub open spec fn resolve_as_of(name: Seq<char>, b: Seq<(Seq<char>, BindView)>) -> Result<AsOfView, Seq<char>> {
    match lookup_bind(b, name) {
        Some(BindView::TxCount(n)) => Ok(AsOfView::Counter(n)),
        Some(BindView::Timestamp(t)) => Ok(AsOfView::Timestamp(t)),
        Some(o) => Err(mismatch_message(name, ":as-of"@, "TxCount or Timestamp"@, o)),
        None => Err(missing_message(name)),
    }
}

/// A `:valid-at` slot: a timestamp or "any valid time".
pub open spec fn resolve_valid_at(name: Seq<char>, b: Seq<(Seq<char>, BindView)>) -> Result<ValidAtView, Seq<char>> {
    match lookup_bind(b, name) {
        Some(BindView::Timestamp(t)) => Ok(ValidAtView::Timestamp(t)),
        Some(BindView::AnyValidTime) => Ok(ValidAtView::AnyValidTime),
        Some(o) => Err(mismatch_message(name, ":valid-at"@, "Timestamp or AnyValidTime"@, o)),
        None => Err(missing_message(name)),
    }
}

/// A value-position EDN value with its slot filled.
pub open spec fn fill_value(v: EdnView, b: Seq<(Seq<char>, BindView)>) -> Result<EdnView, Seq<char>> {
    match v {
        EdnView::BindSlot(n) => resolve_value(n, b),
        _ => Ok(v),
    }
}

/// An expression with its slots filled, left operand first.
pub open spec fn fill_expr(e: ExprView, b: Seq<(Seq<char>, BindView)>) -> Result<ExprView, Seq<char>>
    decreases e,
{
    match e {
        ExprView::Slot(n) => match resolve_val(n, b) {
            Ok(v) => Ok(ExprView::Lit(v)),
            Err(m) => Err(m),
        },
        ExprView::BinOp(op, l, r) => match fill_expr(*l, b) {
            Err(m) => Err(m),
            Ok(l2) => match fill_expr(*r, b) {
                Err(m) => Err(m),
                Ok(r2) => Ok(ExprView::BinOp(op, Box::new(l2), Box::new(r2))),
            },
        },
        ExprView::UnaryOp(op, a) => match fill_expr(*a, b) {
            Err(m) => Err(m),
            Ok(a2) => Ok(ExprView::UnaryOp(op, Box::new(a2))),
        },
        _ => Ok(e),
    }
}

/// A pattern with its entity and value slots filled (entity first); the
/// attribute is left as it is.
pub open spec fn fill_pattern(p: PatternView, b: Seq<(Seq<char>, BindView)>) -> Result<PatternView, Seq<char>> {
    let entity = match p.entity {
        EdnView::BindSlot(n) => resolve_entity(n, b),
        _ => Ok(p.entity),
    };
    match entity {
        Err(m) => Err(m),
        Ok(e) => match fill_value(p.value, b) {
            Err(m) => Err(m),
            Ok(v) => Ok(PatternView { entity: e, value: v, ..p }),
        },
    }
}

/// Rule-invocation arguments `k..` with their slots filled, after `acc`.
pub open spec fn fill_args(args: Seq<EdnView>, k: int, acc: Seq<EdnView>, b: Seq<(Seq<char>, BindView)>) -> Result<
    Seq<EdnView>,
    Seq<char>,
>
    decreases args.len() - k,
{
    if k < 0 || k >= args.len() {
        Ok(acc)
    } else {
        match fill_value(args[k], b) {
            Err(m) => Err(m),
            Ok(v) => fill_args(args, k + 1, acc.push(v), b),
        }
    }
}

/// A clause with its slots filled, at any depth.
pub open spec fn fill_clause(c: ClauseView, b: Seq<(Seq<char>, BindView)>) -> Result<ClauseView, Seq<char>>
    decreases c, 0int,
{
    match c {
        ClauseView::Pattern(p) => match fill_pattern(p, b) {
            Ok(p2) => Ok(ClauseView::Pattern(p2)),
            Err(m) => Err(m),
        },
        ClauseView::Not(inner) => match fill_clauses(inner, 0, Seq::empty(), b) {
            Ok(i2) => Ok(ClauseView::Not(i2)),
            Err(m) => Err(m),
        },
        ClauseView::NotJoin { join_vars, clauses } => match fill_clauses(clauses, 0, Seq::empty(), b) {
            Ok(i2) => Ok(ClauseView::NotJoin { join_vars, clauses: i2 }),
            Err(m) => Err(m),
        },
        ClauseView::Or(bs) => match fill_branches(bs, 0, Seq::empty(), b) {
            Ok(b2) => Ok(ClauseView::Or(b2)),
            Err(m) => Err(m),
        },
        ClauseView::OrJoin { join_vars, branches } => match fill_branches(branches, 0, Seq::empty(), b) {
            Ok(b2) => Ok(ClauseView::OrJoin { join_vars, branches: b2 }),
            Err(m) => Err(m),
        },
        ClauseView::Expr { expr, binding } => match fill_expr(expr, b) {
            Ok(e2) => Ok(ClauseView::Expr { expr: e2, binding }),
            Err(m) => Err(m),
        },
        ClauseView::RuleInvocation { predicate, args } => match fill_args(args, 0, Seq::empty(), b) {
            Ok(a2) => Ok(ClauseView::RuleInvocation { predicate, args: a2 }),
            Err(m) => Err(m),
        },
    }
}

/// Clauses `k..` with their slots filled, after `acc`.
pub open spec fn fill_clauses(cs: Seq<ClauseView>, k: int, acc: Seq<ClauseView>, b: Seq<(Seq<char>, BindView)>) -> Result<
    Seq<ClauseView>,
    Seq<char>,
>
    decreases cs, cs.len() - k,
{
    if k < 0 || k >= cs.len() {
        Ok(acc)
    } else {
        match fill_clause(cs[k], b) {
            Err(m) => Err(m),
            Ok(c) => fill_clauses(cs, k + 1, acc.push(c), b),
        }
    }
}

/// Branches `k..` with their slots filled, after `acc`.
pub open spec fn fill_branches(
    bs: Seq<Seq<ClauseView>>,
    k: int,
    acc: Seq<Seq<ClauseView>>,
    b: Seq<(Seq<char>, BindView)>,
) -> Result<Seq<Seq<ClauseView>>, Seq<char>>
    decreases bs, bs.len() - k,
{
    if k < 0 || k >= bs.len() {
        Ok(acc)
    } else {
        match fill_clauses(bs[k], 0, Seq::empty(), b) {
            Err(m) => Err(m),
            Ok(c) => fill_branches(bs, k + 1, acc.push(c), b),
        }
    }
}

/// The query with its slots filled: `:as-of`, then `:valid-at`, then the
/// clauses. An `:as-of` or `:valid-at` that is not a slot is dropped.
pub open spec fn fill_query(q: QueryView, b: Seq<(Seq<char>, BindView)>) -> Result<QueryView, Seq<char>> {
    let as_of = match q.as_of {
        Some(AsOfView::Slot(n)) => match resolve_as_of(n, b) {
            Ok(a) => Ok(Some(a)),
            Err(m) => Err(m),
        },
        _ => Ok(None),
    };
    match as_of {
        Err(m) => Err(m),
        Ok(a) => {
            let valid_at = match q.valid_at {
                Some(ValidAtView::Slot(n)) => match resolve_valid_at(n, b) {
                    Ok(v) => Ok(Some(v)),
                    Err(m) => Err(m),
                },
                _ => Ok(None),
            };
            match valid_at {
                Err(m) => Err(m),
                Ok(v) => match fill_clauses(q.where_clauses, 0, Seq::empty(), b) {
                    Err(m) => Err(m),
                    Ok(cs) => Ok(QueryView { as_of: a, valid_at: v, where_clauses: cs, ..q }),
                },
            }
        },
    }
}

fn lookup_exec<'a>(b: &'a Vec<(String, BindValue)>, name: &str) -> (r: Option<&'a BindValue>)
    ensures
        match r {
            Some(v) => lookup_bind(binds_view(b@), name@) == Some(v@),
            None => lookup_bind(binds_view(b@), name@) is None,
        },
{
    let ghost bv = binds_view(b@);
    let mut i = b.len();
    assert(bv.subrange(0, bv.len() as int) =~= bv);
    while i > 0
        invariant
            i <= b@.len(),
            bv == binds_view(b@),
            bv.len() == b@.len(),
            lookup_bind(bv, name@) == lookup_bind(bv.subrange(0, i as int), name@),
        decreases i,
    {
        let ghost pre = bv.subrange(0, i as int);
        assert(pre.last() == (b@[i - 1].0@, b@[i - 1].1@));
        assert(pre.drop_last() =~= bv.subrange(0, i - 1));
        if str_eq(b[i - 1].0.as_str(), name) {
            return Some(&b[i - 1].1);
        }
        i = i - 1;
    }
    None
}

fn kind_name(v: &BindValue) -> (r: &'static str)
    ensures
        r@ == bind_kind_name(v@),
{
    match v {
        BindValue::Entity(_) => "Entity",
        BindValue::Val(_) => "Val",
        BindValue::TxCount(_) => "TxCount",
        BindValue::Timestamp(_) => "Timestamp",
        BindValue::AnyValidTime => "AnyValidTime",
    }
}

fn missing(name: &str) -> (m: String)
    ensures
        m@ == missing_message(name@),
{
    let mut m = concat("missing bind value for slot '$", name);
    m.append("'");
    m
}

fn mismatch(name: &str, position: &str, wants: &str, got: &BindValue) -> (m: String)
    ensures
        m@ == mismatch_message(name@, position@, wants@, got@),
{
    let mut m = concat("slot '$", name);
    m.append("' in ");
    m.append(position);
    m.append(" position requires ");
    m.append(wants);
    m.append(", got ");
    m.append(kind_name(got));
    m
}

fn bound_edn_exec(v: &Value) -> (r: EdnValue)
    ensures
        r@ == bound_edn(v@),
{
    match v {
        Value::String(s) => EdnValue::String(s.clone()),
        Value::Integer(i) => EdnValue::Integer(*i),
        Value::Float(f) => EdnValue::Float(f.clone()),
        Value::Boolean(b) => EdnValue::Boolean(*b),
        Value::Keyword(k) => EdnValue::Keyword(k.clone()),
        Value::Ref(u) => EdnValue::Uuid(*u),
        Value::Null => EdnValue::Nil,
    }
}

fn resolve_entity_slot(name: &str, b: &Vec<(String, BindValue)>) -> (r: Result<EdnValue, String>)
    ensures
        match r {
            Ok(e) => resolve_entity(name@, binds_view(b@)) == Ok::<EdnView, Seq<char>>(e@),
            Err(m) => resolve_entity(name@, binds_view(b@)) == Err::<EdnView, Seq<char>>(m@),
        },
{
    match lookup_exec(b, name) {
        Some(BindValue::Entity(u)) => Ok(EdnValue::Uuid(*u)),
        Some(other) => Err(mismatch(name, "entity", "Entity", other)),
        None => Err(missing(name)),
    }
}

fn resolve_value_slot(name: &str, b: &Vec<(String, BindValue)>) -> (r: Result<EdnValue, String>)
    ensures
        match r {
            Ok(e) => resolve_value(name@, binds_view(b@)) == Ok::<EdnView, Seq<char>>(e@),
            Err(m) => resolve_value(name@, binds_view(b@)) == Err::<EdnView, Seq<char>>(m@),
        },
{
    match lookup_exec(b, name) {
        Some(BindValue::Val(v)) => Ok(bound_edn_exec(v)),
        Some(other) => Err(mismatch(name, "value", "Val", other)),
        None => Err(missing(name)),
    }
}

fn resolve_val_slot(name: &str, b: &Vec<(String, BindValue)>) -> (r: Result<Value, String>)
    ensures
        match r {
            Ok(v) => resolve_val(name@, binds_view(b@)) == Ok::<ValueView, Seq<char>>(v@),
            Err(m) => resolve_val(name@, binds_view(b@)) == Err::<ValueView, Seq<char>>(m@),
        },
{
    match lookup_exec(b, name) {
        Some(BindValue::Val(v)) => Ok(value_clone(v)),
        Some(other) => Err(mismatch(name, "expression", "Val", other)),
        None => Err(missing(name)),
    }
}

fn resolve_as_of_slot(name: &str, b: &Vec<(String, BindValue)>) -> (r: Result<AsOf, String>)
    ensures
        match r {
            Ok(a) => resolve_as_of(name@, binds_view(b@)) == Ok::<AsOfView, Seq<char>>(a@),
            Err(m) => resolve_as_of(name@, binds_view(b@)) == Err::<AsOfView, Seq<char>>(m@),
        },
{
    match lookup_exec(b, name) {
        Some(BindValue::TxCount(n)) => Ok(AsOf::Counter(*n)),
        Some(BindValue::Timestamp(t)) => Ok(AsOf::Timestamp(*t)),
        Some(other) => Err(mismatch(name, ":as-of", "TxCount or Timestamp", other)),
        None => Err(missing(name)),
    }
}

fn resolve_valid_at_slot(name: &str, b: &Vec<(String, BindValue)>) -> (r: Result<ValidAt, String>)
    ensures
        match r {
            Ok(a) => resolve_valid_at(name@, binds_view(b@)) == Ok::<ValidAtView, Seq<char>>(a@),
            Err(m) => resolve_valid_at(name@, binds_view(b@)) == Err::<ValidAtView, Seq<char>>(m@),
        },
{
    match lookup_exec(b, name) {
        Some(BindValue::Timestamp(t)) => Ok(ValidAt::Timestamp(*t)),
        Some(BindValue::AnyValidTime) => Ok(ValidAt::AnyValidTime),
        Some(other) => Err(mismatch(name, ":valid-at", "Timestamp or AnyValidTime", other)),
        None => Err(missing(name)),
    }
}

fn fill_value_exec(v: &EdnValue, b: &Vec<(String, BindValue)>) -> (r: Result<EdnValue, String>)
    ensures
        match r {
            Ok(e) => fill_value(v@, binds_view(b@)) == Ok::<EdnView, Seq<char>>(e@),
            Err(m) => fill_value(v@, binds_view(b@)) == Err::<EdnView, Seq<char>>(m@),
        },
{
    match v {
        EdnValue::BindSlot(n) => resolve_value_slot(n.as_str(), b),
        _ => Ok(edn_clone(v)),
    }
}

fn fill_expr_exec(e: &Expr, b: &Vec<(String, BindValue)>) -> (r: Result<Expr, String>)
    ensures
        match r {
            Ok(x) => fill_expr(e@, binds_view(b@)) == Ok::<ExprView, Seq<char>>(x@),
            Err(m) => fill_expr(e@, binds_view(b@)) == Err::<ExprView, Seq<char>>(m@),
        },
    decreases e,
{
    match e {
        Expr::Slot(n) => {
            let v = resolve_val_slot(n.as_str(), b)?;
            Ok(Expr::Lit(v))
        },
        Expr::BinOp(op, l, r) => {
            let l2 = fill_expr_exec(l, b)?;
            let r2 = fill_expr_exec(r, b)?;
            Ok(Expr::BinOp(crate::types::binop_clone(op), Box::new(l2), Box::new(r2)))
        },
        Expr::UnaryOp(op, a) => {
            let a2 = fill_expr_exec(a, b)?;
            Ok(Expr::UnaryOp(crate::types::unop_clone(op), Box::new(a2)))
        },
        _ => Ok(crate::types::expr_clone(e)),
    }
}

fn fill_pattern_exec(p: &Pattern, b: &Vec<(String, BindValue)>) -> (r: Result<Pattern, String>)
    ensures
        match r {
            Ok(x) => fill_pattern(p@, binds_view(b@)) == Ok::<PatternView, Seq<char>>(x@),
            Err(m) => fill_pattern(p@, binds_view(b@)) == Err::<PatternView, Seq<char>>(m@),
        },
{
    let entity = match &p.entity {
        EdnValue::BindSlot(n) => resolve_entity_slot(n.as_str(), b)?,
        other => edn_clone(other),
    };
    let value = fill_value_exec(&p.value, b)?;
    let attribute = match &p.attribute {
        AttributeSpec::Real(a) => AttributeSpec::Real(edn_clone(a)),
        AttributeSpec::Pseudo(x) => AttributeSpec::Pseudo(*x),
    };
    Ok(Pattern { entity, attribute, value, valid_from: p.valid_from, valid_to: p.valid_to })
}

fn fill_args_exec(args: &Vec<EdnValue>, b: &Vec<(String, BindValue)>) -> (r: Result<Vec<EdnValue>, String>)
    ensures
        match r {
            Ok(x) => fill_args(edns_view(args@), 0, Seq::empty(), binds_view(b@)) == Ok::<Seq<EdnView>, Seq<char>>(
                edns_view(x@),
            ),
            Err(m) => fill_args(edns_view(args@), 0, Seq::empty(), binds_view(b@)) == Err::<Seq<EdnView>, Seq<char>>(
                m@,
            ),
        },
{
    proof {
        lemma_edns_view(args@);
    }
    let ghost av = edns_view(args@);
    let ghost bv = binds_view(b@);
    let mut out: Vec<EdnValue> = Vec::new();
    let mut k: usize = 0;
    assert(edns_view(out@) =~= Seq::<EdnView>::empty());
    while k < args.len()
        invariant
            k <= args@.len(),
            av == edns_view(args@),
            bv == binds_view(b@),
            av.len() == args@.len(),
            forall|i: int| 0 <= i < args@.len() ==> #[trigger] av[i] == args@[i]@,
            fill_args(av, 0, Seq::empty(), bv) == fill_args(av, k as int, edns_view(out@), bv),
        decreases args@.len() - k,
    {
        assert(av[k as int] == args@[k as int]@);
        let v = fill_value_exec(&args[k], b)?;
        proof {
            crate::edn::lemma_edns_view_push(out@, v);
        }
        out.push(v);
        k = k + 1;
    }
    Ok(out)
}

fn fill_clause_exec(c: &WhereClause, b: &Vec<(String, BindValue)>) -> (r: Result<WhereClause, String>)
    ensures
        match r {
            Ok(x) => fill_clause(c@, binds_view(b@)) == Ok::<ClauseView, Seq<char>>(x@),
            Err(m) => fill_clause(c@, binds_view(b@)) == Err::<ClauseView, Seq<char>>(m@),
        },
    decreases c,
{
    match c {
        WhereClause::Pattern(p) => Ok(WhereClause::Pattern(fill_pattern_exec(p, b)?)),
        WhereClause::Not(inner) => Ok(WhereClause::Not(fill_clauses_exec(inner, b)?)),
        WhereClause::NotJoin { join_vars, clauses } => {
            let filled = fill_clauses_exec(clauses, b)?;
            Ok(WhereClause::NotJoin { join_vars: clone_strs(join_vars), clauses: filled })
        },
        WhereClause::Or(bs) => Ok(WhereClause::Or(fill_branches_exec(bs, b)?)),
        WhereClause::OrJoin { join_vars, branches } => {
            let filled = fill_branches_exec(branches, b)?;
            Ok(WhereClause::OrJoin { join_vars: clone_strs(join_vars), branches: filled })
        },
        WhereClause::Expr { expr, binding } => {
            let e = fill_expr_exec(expr, b)?;
            let out = match binding {
                Some(v) => Some(v.clone()),
                None => None,
            };
            Ok(WhereClause::Expr { expr: e, binding: out })
        },
        WhereClause::RuleInvocation { predicate, args } => {
            let a = fill_args_exec(args, b)?;
            Ok(WhereClause::RuleInvocation { predicate: predicate.clone(), args: a })
        },
    }
}

fn fill_clauses_exec(cs: &Vec<WhereClause>, b: &Vec<(String, BindValue)>) -> (r: Result<Vec<WhereClause>, String>)
    ensures
        match r {
            Ok(x) => fill_clauses(clauses_view(cs@), 0, Seq::empty(), binds_view(b@)) == Ok::<
                Seq<ClauseView>,
                Seq<char>,
            >(clauses_view(x@)),
            Err(m) => fill_clauses(clauses_view(cs@), 0, Seq::empty(), binds_view(b@)) == Err::<
                Seq<ClauseView>,
                Seq<char>,
            >(m@),
        },
    decreases cs,
{
    proof {
        lemma_clauses_view(cs@);
    }
    let ghost cv = clauses_view(cs@);
    let ghost bv = binds_view(b@);
    let mut out: Vec<WhereClause> = Vec::new();
    let mut k: usize = 0;
    assert(clauses_view(out@) =~= Seq::<ClauseView>::empty());
    while k < cs.len()
        invariant
            k <= cs@.len(),
            cv == clauses_view(cs@),
            bv == binds_view(b@),
            cv.len() == cs@.len(),
            forall|i: int| 0 <= i < cs@.len() ==> #[trigger] cv[i] == cs@[i]@,
            fill_clauses(cv, 0, Seq::empty(), bv) == fill_clauses(cv, k as int, clauses_view(out@), bv),
        decreases cs@.len() - k,
    {
        assert(cv[k as int] == cs@[k as int]@);
        let c = fill_clause_exec(&cs[k], b)?;
        let ghost prev = out@;
        out.push(c);
        proof {
            lemma_clauses_view_push(prev, c);
        }
        k = k + 1;
    }
    Ok(out)
}

fn fill_branches_exec(bs: &Vec<Vec<WhereClause>>, b: &Vec<(String, BindValue)>) -> (r: Result<
    Vec<Vec<WhereClause>>,
    String,
>)
    ensures
        match r {
            Ok(x) => fill_branches(branches_view(bs@), 0, Seq::empty(), binds_view(b@)) == Ok::<
                Seq<Seq<ClauseView>>,
                Seq<char>,
            >(branches_view(x@)),
            Err(m) => fill_branches(branches_view(bs@), 0, Seq::empty(), binds_view(b@)) == Err::<
                Seq<Seq<ClauseView>>,
                Seq<char>,
            >(m@),
        },
    decreases bs,
{
    proof {
        lemma_branches_view(bs@);
    }
    let ghost bv = branches_view(bs@);
    let ghost bb = binds_view(b@);
    let mut out: Vec<Vec<WhereClause>> = Vec::new();
    let mut k: usize = 0;
    assert(branches_view(out@) =~= Seq::<Seq<ClauseView>>::empty());
    while k < bs.len()
        invariant
            k <= bs@.len(),
            bv == branches_view(bs@),
            bb == binds_view(b@),
            bv.len() == bs@.len(),
            forall|i: int| 0 <= i < bs@.len() ==> #[trigger] bv[i] == clauses_view(bs@[i]@),
            fill_branches(bv, 0, Seq::empty(), bb) == fill_branches(bv, k as int, branches_view(out@), bb),
        decreases bs@.len() - k,
    {
        assert(bv[k as int] == clauses_view(bs@[k as int]@));
        let c = fill_clauses_exec(&bs[k], b)?;
        let ghost prev = out@;
        out.push(c);
        proof {
            lemma_branches_view_push(prev, c);
        }
        k = k + 1;
    }
    Ok(out)
}

fn window_func_clone(f: &WindowFunc) -> (r: WindowFunc)
    ensures
        r@ == f@,
{
    match f {
        WindowFunc::Sum => WindowFunc::Sum,
        WindowFunc::Count => WindowFunc::Count,
        WindowFunc::Min => WindowFunc::Min,
        WindowFunc::Max => WindowFunc::Max,
        WindowFunc::Avg => WindowFunc::Avg,
        WindowFunc::Rank => WindowFunc::Rank,
        WindowFunc::RowNumber => WindowFunc::RowNumber,
        WindowFunc::Udf(n) => WindowFunc::Udf(n.clone()),
    }
}

fn opt_string_clone(o: &Option<String>) -> (r: Option<String>)
    ensures
        opt_str_view(r) == opt_str_view(*o),
{
    match o {
        Some(s) => Some(s.clone()),
        None => None,
    }
}

fn find_clone(f: &FindSpec) -> (r: FindSpec)
    ensures
        r@ == f@,
{
    match f {
        FindSpec::Variable(v) => FindSpec::Variable(v.clone()),
        FindSpec::Aggregate { func, var } => FindSpec::Aggregate { func: func.clone(), var: var.clone() },
        FindSpec::Window(w) => FindSpec::Window(
            WindowSpec {
                func: window_func_clone(&w.func),
                var: opt_string_clone(&w.var),
                partition_by: opt_string_clone(&w.partition_by),
                order_by: w.order_by.clone(),
                order: w.order,
            },
        ),
    }
}

fn finds_clone(fs: &Vec<FindSpec>) -> (r: Vec<FindSpec>)
    ensures
        finds_view(r@) == finds_view(fs@),
{
    let mut out: Vec<FindSpec> = Vec::new();
    let mut k: usize = 0;
    while k < fs.len()
        invariant
            k <= fs@.len(),
            finds_view(out@) == finds_view(fs@.subrange(0, k as int)),
        decreases fs@.len() - k,
    {
        let f = find_clone(&fs[k]);
        let ghost prev = out@;
        out.push(f);
        assert(finds_view(out@) =~= finds_view(prev).push(fs@[k as int]@));
        assert(finds_view(fs@.subrange(0, k + 1)) =~= finds_view(fs@.subrange(0, k as int)).push(fs@[k as int]@));
        k = k + 1;
    }
    assert(fs@.subrange(0, fs@.len() as int) =~= fs@);
    out
}

/// Fills the bind slots of a query template with the given values (the last
/// binding of a name wins; unused bindings are ignored); see `fill_query`.
pub fn substitute(template: &DatalogQuery, bindings: &Vec<(String, BindValue)>) -> (r: Result<DatalogQuery, String>)
    ensures
        match r {
            Ok(q) => fill_query(template@, binds_view(bindings@)) == Ok::<QueryView, Seq<char>>(q@),
            Err(m) => fill_query(template@, binds_view(bindings@)) == Err::<QueryView, Seq<char>>(m@),
        },
{
    let as_of = match &template.as_of {
        Some(AsOf::Slot(n)) => Some(resolve_as_of_slot(n.as_str(), bindings)?),
        _ => None,
    };
    let valid_at = match &template.valid_at {
        Some(ValidAt::Slot(n)) => Some(resolve_valid_at_slot(n.as_str(), bindings)?),
        _ => None,
    };
    let where_clauses = fill_clauses_exec(&template.where_clauses, bindings)?;
    Ok(
        DatalogQuery {
            find: finds_clone(&template.find),
            where_clauses,
            as_of,
            valid_at,
            with_vars: clone_strs(&template.with_vars),
            max_derived_facts: template.max_derived_facts,
            max_results: template.max_results,
        },
    )
}

} // verus!
