//! Collapsing query rows into groups for aggregate `:find` elements
//! (`(count ?e)`, `(sum ?x)`, ...), and the post-processing that turns
//! bindings into result rows.
//!
//! The float arithmetic of built-in aggregates (float sums, means and
//! extremes) is completed by a caller-supplied finishing step, and
//! user-defined aggregates are folded by a caller-supplied aggregate step;
//! both are taken to be functions of their arguments.
use vstd::prelude::*;
use crate::types::{Value, ValueView, FindSpec, FindSpecView, finds_view, value_clone, strs_view};
use crate::evaluator::Bindings;
use crate::expression::{rows_view, rows_result_view, has_infix, contains_text, FloatOp, float_fn, float_step_total, float_step_deterministic};
use crate::functions::{
    Aggregated, AggregatedView, AggImpl, FunctionRegistry, RegistryView, apply_builtin_aggregate,
    spec_aggregate_values, values_view,
};
use crate::executor::find_key;
use crate::text::{owned, concat, nat_text, push_u64_text, str_eq};

verus! {

// ===================== the steps supplied by the caller =====================

/// A finishing step answers alike for outcomes with equal models.
pub open spec fn finish_deterministic<H: Fn(Aggregated) -> Value>(h: H) -> bool {
    forall|a1: Aggregated, o1: Value, a2: Aggregated, o2: Value|
        #![trigger call_ensures(h, (a1,), o1), call_ensures(h, (a2,), o2)]
        a1@ == a2@ && call_ensures(h, (a1,), o1) && call_ensures(h, (a2,), o2) ==> o1@ == o2@
}

/// The finishing step can be called on any outcome.
pub open spec fn finish_total<H: Fn(Aggregated) -> Value>(h: H) -> bool {
    forall|a: Aggregated| call_requires(h, (a,))
}

/// What the finishing step makes of an outcome with model `a`.
pub open spec fn finish_answer<H: Fn(Aggregated) -> Value>(h: H, a: AggregatedView) -> ValueView {
    let (_, o) = choose|x: Aggregated, o: Value| x@ == a && #[trigger] call_ensures(h, (x,), o);
    o@
}

/// The value of a built-in aggregate's outcome: a value as it is, float
/// work by the finishing step.
pub open spec fn finish_fn<H: Fn(Aggregated) -> Value>(h: H) -> spec_fn(AggregatedView) -> ValueView {
    |a: AggregatedView|
        match a {
            AggregatedView::Value(v) => v,
            _ => finish_answer(h, a),
        }
}

proof fn lemma_finish_answer<H: Fn(Aggregated) -> Value>(h: H, a: Aggregated, o: Value)
    requires
        finish_deterministic(h),
        call_ensures(h, (a,), o),
    ensures
        o@ == finish_answer(h, a@),
{
    let (a2, o2) = choose|a2: Aggregated, o2: Value| a2@ == a@ && #[trigger] call_ensures(h, (a2,), o2);
    assert(call_ensures(h, (a2,), o2) && call_ensures(h, (a,), o));
}

/// An aggregate step answers alike for arguments with equal models.
pub open spec fn udf_deterministic<U: Fn(&str, &Vec<Value>) -> Value>(u: U) -> bool {
    forall|n1: &str, v1: &Vec<Value>, o1: Value, n2: &str, v2: &Vec<Value>, o2: Value|
        #![trigger call_ensures(u, (n1, v1), o1), call_ensures(u, (n2, v2), o2)]
        n1@ == n2@ && values_view(v1@) == values_view(v2@) && call_ensures(u, (n1, v1), o1) && call_ensures(
            u,
            (n2, v2),
            o2,
        ) ==> o1@ == o2@
}

/// The aggregate step can be called on any arguments.
pub open spec fn udf_total<U: Fn(&str, &Vec<Value>) -> Value>(u: U) -> bool {
    forall|n: &str, v: &Vec<Value>| call_requires(u, (n, v))
}

/// What the aggregate step makes of the user-defined aggregate `n` over
/// values with models `vs`.
pub open spec fn udf_answer<U: Fn(&str, &Vec<Value>) -> Value>(u: U, n: Seq<char>, vs: Seq<ValueView>) -> ValueView {
    let (_, _, o) = choose|m: &str, x: &Vec<Value>, o: Value|
        m@ == n && values_view(x@) == vs && #[trigger] call_ensures(u, (m, x), o);
    o@
}

/// User-defined aggregates as a function on models.
pub open spec fn udf_fn<U: Fn(&str, &Vec<Value>) -> Value>(u: U) -> spec_fn(Seq<char>, Seq<ValueView>) -> ValueView {
    |n: Seq<char>, vs: Seq<ValueView>| udf_answer(u, n, vs)
}

pub(crate) proof fn lemma_udf_answer<U: Fn(&str, &Vec<Value>) -> Value>(u: U, n: &str, vs: &Vec<Value>, o: Value)
    requires
        udf_deterministic(u),
        call_ensures(u, (n, vs), o),
    ensures
        o@ == udf_answer(u, n@, values_view(vs@)),
{
    let (n2, v2, o2) = choose|n2: &str, v2: &Vec<Value>, o2: Value|
        n2@ == n@ && values_view(v2@) == values_view(vs@) && #[trigger] call_ensures(u, (n2, v2), o2);
    assert(call_ensures(u, (n2, v2), o2) && call_ensures(u, (n, vs), o));
}

// ===================== grouping =====================

/// The variables of the plain `:find` elements, in order.
pub open spec fn find_vars(fs: Seq<FindSpecView>) -> Seq<Seq<char>>
    decreases fs.len(),
{
    if fs.len() == 0 {
        Seq::empty()
    } else {
        match fs.last() {
            FindSpecView::Variable(v) => find_vars(fs.drop_last()).push(v),
            _ => find_vars(fs.drop_last()),
        }
    }
}

/// Some `:find` element is a window expression.
pub open spec fn has_window(fs: Seq<FindSpecView>) -> bool {
    exists|i: int| 0 <= i < fs.len() && #[trigger] fs[i] is Window
}

/// The variables rows are grouped by: the plain `:find` variables, then the
/// `:with` variables unless a window expression runs after aggregation.
pub open spec fn group_vars(fs: Seq<FindSpecView>, with_vars: Seq<Seq<char>>) -> Seq<Seq<char>> {
    find_vars(fs) + if has_window(fs) {
        Seq::empty()
    } else {
        with_vars
    }
}

/// The value of a variable in a row, `nil` where it is unbound.
pub open spec fn value_or_nil(b: Map<Seq<char>, ValueView>, v: Seq<char>) -> ValueView {
    if b.contains_key(v) {
        b[v]
    } else {
        ValueView::Null
    }
}

/// The group key of a row.
pub open spec fn key_of(b: Map<Seq<char>, ValueView>, gv: Seq<Seq<char>>) -> Seq<ValueView> {
    gv.map_values(|v: Seq<char>| value_or_nil(b, v))
}

/// The position of the group with key `k`.
pub open spec fn group_index(gs: Seq<(Seq<ValueView>, Seq<Map<Seq<char>, ValueView>>)>, k: Seq<ValueView>) -> Option<nat>
    decreases gs.len(),
{
    if gs.len() == 0 {
        None
    } else {
        match group_index(gs.drop_last(), k) {
            Some(i) => Some(i),
            None => if gs.last().0 == k {
                Some((gs.len() - 1) as nat)
            } else {
                None
            },
        }
    }
}

/// The groups of rows by key, each group's rows in input order, groups in
/// the order of their first row.
pub open spec fn groups_of(bs: Seq<Map<Seq<char>, ValueView>>, gv: Seq<Seq<char>>) -> Seq<
    (Seq<ValueView>, Seq<Map<Seq<char>, ValueView>>),
>
    decreases bs.len(),
{
    if bs.len() == 0 {
        Seq::empty()
    } else {
        let gs = groups_of(bs.drop_last(), gv);
        let k = key_of(bs.last(), gv);
        match group_index(gs, k) {
            Some(i) => gs.update(i as int, (k, gs[i as int].1.push(bs.last()))),
            None => gs.push((k, seq![bs.last()])),
        }
    }
}

// ===================== one group =====================

/// The binding key under which the aggregate of column `i` is stored.
pub open spec fn agg_key(i: nat) -> Seq<char> {
    "__agg_"@ + nat_text(i)
}

/// The non-null values of `var` in rows, in order.
pub open spec fn non_null_values(rows: Seq<Map<Seq<char>, ValueView>>, var: Seq<char>) -> Seq<ValueView>
    decreases rows.len(),
{
    if rows.len() == 0 {
        Seq::empty()
    } else {
        let prev = non_null_values(rows.drop_last(), var);
        if rows.last().contains_key(var) && !(rows.last()[var] is Null) {
            prev.push(rows.last()[var])
        } else {
            prev
        }
    }
}

/// The message for an aggregate that is not registered.
pub open spec fn unknown_aggregate_function_message(f: Seq<char>) -> Seq<char> {
    "unknown aggregate function: '"@ + f + "'"@
}

/// The value of aggregate `f` over the non-null values `vs` of a group:
/// built-ins compute it here (float work by `fin`), user-defined ones by
/// `ud` (`nil` over no values); an unregistered name is an error.
pub open spec fn aggregate_value(
    f: Seq<char>,
    vs: Seq<ValueView>,
    reg: RegistryView,
    fin: spec_fn(AggregatedView) -> ValueView,
    ud: spec_fn(Seq<char>, Seq<ValueView>) -> ValueView,
    fl: spec_fn(FloatOp, ValueView, ValueView) -> Result<ValueView, ()>,
) -> Result<ValueView, Seq<char>> {
    if !reg.aggregates.contains_key(f) {
        Err(unknown_aggregate_function_message(f))
    } else if !reg.aggregates[f].is_builtin && reg.aggregates[f].impl_ == AggImpl::Udf {
        if vs.len() == 0 {
            Ok(ValueView::Null)
        } else {
            Ok(ud(f, vs))
        }
    } else {
        match spec_aggregate_values(f, vs, fl) {
            Ok(a) => Ok(fin(a)),
            Err(m) => Err(m),
        }
    }
}

/// What becomes of one group.
pub enum GroupOutcome {
    /// The group's result binding.
    Row(Map<Seq<char>, ValueView>),
    /// The group is left out (an aggregate found no non-null values).
    Skip,
    /// Aggregation failed with this message.
    Fail(Seq<char>),
}

/// The marker of the error that leaves a group out rather than failing.
pub open spec fn empty_group_marker() -> Seq<char> {
    "no non-null values in group"@
}

/// The binding of a group's plain variables, from `:find` element `j` on,
/// `p` being the position in the key of the next plain variable.
pub open spec fn var_binding(fs: Seq<FindSpecView>, key: Seq<ValueView>, j: int, p: int, acc: Map<Seq<char>, ValueView>) -> Map<
    Seq<char>,
    ValueView,
>
    decreases fs.len() - j,
{
    if j < 0 || j >= fs.len() {
        acc
    } else {
        match fs[j] {
            FindSpecView::Variable(v) => var_binding(fs, key, j + 1, p + 1, acc.insert(v, key[p])),
            _ => var_binding(fs, key, j + 1, p, acc),
        }
    }
}

/// The aggregates of a group from `:find` element `i` on, into `acc`.
pub open spec fn aggregate_binding(
    fs: Seq<FindSpecView>,
    rows: Seq<Map<Seq<char>, ValueView>>,
    i: int,
    acc: Map<Seq<char>, ValueView>,
    reg: RegistryView,
    fin: spec_fn(AggregatedView) -> ValueView,
    ud: spec_fn(Seq<char>, Seq<ValueView>) -> ValueView,
    fl: spec_fn(FloatOp, ValueView, ValueView) -> Result<ValueView, ()>,
) -> GroupOutcome
    decreases fs.len() - i,
{
    if i < 0 || i >= fs.len() {
        GroupOutcome::Row(acc)
    } else {
        match fs[i] {
            FindSpecView::Aggregate { func, var } => match aggregate_value(
                func,
                non_null_values(rows, var),
                reg,
                fin,
                ud,
                fl,
            ) {
                Ok(v) => aggregate_binding(fs, rows, i + 1, acc.insert(agg_key(i as nat), v), reg, fin, ud, fl),
                Err(m) => if has_infix(m, empty_group_marker()) {
                    GroupOutcome::Skip
                } else {
                    GroupOutcome::Fail(m)
                },
            },
            _ => aggregate_binding(fs, rows, i + 1, acc, reg, fin, ud, fl),
        }
    }
}

/// What becomes of the group with key `key` and rows `rows`.
pub open spec fn group_outcome(
    fs: Seq<FindSpecView>,
    key: Seq<ValueView>,
    rows: Seq<Map<Seq<char>, ValueView>>,
    reg: RegistryView,
    fin: spec_fn(AggregatedView) -> ValueView,
    ud: spec_fn(Seq<char>, Seq<ValueView>) -> ValueView,
    fl: spec_fn(FloatOp, ValueView, ValueView) -> Result<ValueView, ()>,
) -> GroupOutcome {
    aggregate_binding(fs, rows, 0, var_binding(fs, key, 0, 0, Map::empty()), reg, fin, ud, fl)
}

/// The result rows of groups `gs[i..]`, after `acc`: the first failing
/// group fails the whole.
pub open spec fn collect_groups(
    fs: Seq<FindSpecView>,
    gs: Seq<(Seq<ValueView>, Seq<Map<Seq<char>, ValueView>>)>,
    i: int,
    acc: Seq<Map<Seq<char>, ValueView>>,
    reg: RegistryView,
    fin: spec_fn(AggregatedView) -> ValueView,
    ud: spec_fn(Seq<char>, Seq<ValueView>) -> ValueView,
    fl: spec_fn(FloatOp, ValueView, ValueView) -> Result<ValueView, ()>,
) -> Result<Seq<Map<Seq<char>, ValueView>>, Seq<char>>
    decreases gs.len() - i,
{
    if i < 0 || i >= gs.len() {
        Ok(acc)
    } else {
        match group_outcome(fs, gs[i].0, gs[i].1, reg, fin, ud, fl) {
            GroupOutcome::Row(m) => collect_groups(fs, gs, i + 1, acc.push(m), reg, fin, ud, fl),
            GroupOutcome::Skip => collect_groups(fs, gs, i + 1, acc, reg, fin, ud, fl),
            GroupOutcome::Fail(m) => Err(m),
        }
    }
}

/// Some `:find` element is a plain variable.
pub open spec fn has_grouping_var(fs: Seq<FindSpecView>) -> bool {
    exists|i: int| 0 <= i < fs.len() && #[trigger] fs[i] is Variable
}

/// Every `:find` element is `count` or `count-distinct`.
pub open spec fn all_counts(fs: Seq<FindSpecView>) -> bool {
    forall|i: int|
        0 <= i < fs.len() ==> (#[trigger] fs[i] matches FindSpecView::Aggregate { func, .. } && (func == "count"@
            || func == "count-distinct"@))
}

/// The row of zero counts for `:find` elements `..n`.
pub open spec fn zero_counts(n: nat) -> Map<Seq<char>, ValueView>
    decreases n,
{
    if n == 0 {
        Map::empty()
    } else {
        zero_counts((n - 1) as nat).insert(agg_key((n - 1) as nat), ValueView::Integer(0))
    }
}

/// Rows collapsed into one binding per group: the group's plain variables
/// and, under `__agg_i`, the aggregate of column `i`. A group where an
/// aggregate finds no non-null values is left out; no rows give one row of
/// zeros when every element is a count, and no rows otherwise.
pub open spec fn spec_compute_aggregation(
    bs: Seq<Map<Seq<char>, ValueView>>,
    fs: Seq<FindSpecView>,
    with_vars: Seq<Seq<char>>,
    reg: RegistryView,
    fin: spec_fn(AggregatedView) -> ValueView,
    ud: spec_fn(Seq<char>, Seq<ValueView>) -> ValueView,
    fl: spec_fn(FloatOp, ValueView, ValueView) -> Result<ValueView, ()>,
) -> Result<Seq<Map<Seq<char>, ValueView>>, Seq<char>> {
    if bs.len() == 0 {
        if !has_grouping_var(fs) && all_counts(fs) {
            Ok(seq![zero_counts(fs.len())])
        } else {
            Ok(Seq::empty())
        }
    } else {
        collect_groups(fs, groups_of(bs, group_vars(fs, with_vars)), 0, Seq::empty(), reg, fin, ud, fl)
    }
}

/// The row of zero counts holds exactly the keys `__agg_0` .. `__agg_{n-1}`,
/// each mapped to the integer 0.
pub proof fn lemma_zero_counts(n: nat)
    ensures
        forall|k: Seq<char>| #[trigger] zero_counts(n).dom().contains(k) <==> exists|i: nat| i < n && k == agg_key(i),
        forall|i: nat| i < n ==> #[trigger] zero_counts(n)[agg_key(i)] == ValueView::Integer(0),
    decreases n,
{
    if n > 0 {
        lemma_zero_counts((n - 1) as nat);
        assert forall|k: Seq<char>| #[trigger] zero_counts(n).dom().contains(k) implies exists|i: nat|
            i < n && k == agg_key(i) by {
            if k != agg_key((n - 1) as nat) {
                assert(zero_counts((n - 1) as nat).dom().contains(k));
                let i = choose|i: nat| i < n - 1 && k == agg_key(i);
                assert(i < n && k == agg_key(i));
            }
        }
        assert forall|i: nat| i < n implies #[trigger] zero_counts(n)[agg_key(i)] == ValueView::Integer(0) by {
            if agg_key(i) != agg_key((n - 1) as nat) {
                assert(i < n - 1);
            }
        }
    }
}

/// Aggregating no rows gives one row that maps `__agg_i` to 0 for every
/// `:find` element `i` when there is no grouping variable and every element
/// is `count` or `count-distinct`, and no rows otherwise.
pub proof fn lemma_no_rows_aggregation(
    fs: Seq<FindSpecView>,
    with_vars: Seq<Seq<char>>,
    reg: RegistryView,
    fin: spec_fn(AggregatedView) -> ValueView,
    ud: spec_fn(Seq<char>, Seq<ValueView>) -> ValueView,
    fl: spec_fn(FloatOp, ValueView, ValueView) -> Result<ValueView, ()>,
)
    ensures
        ({
            let r = spec_compute_aggregation(Seq::empty(), fs, with_vars, reg, fin, ud, fl);
            if !has_grouping_var(fs) && all_counts(fs) {
                &&& r matches Ok(rows) && rows.len() == 1
                &&& forall|k: Seq<char>|
                    #[trigger] r->Ok_0[0].dom().contains(k) <==> exists|i: nat| i < fs.len() && k == agg_key(i)
                &&& forall|i: nat| i < fs.len() ==> #[trigger] r->Ok_0[0][agg_key(i)] == ValueView::Integer(0)
            } else {
                r == Ok::<Seq<Map<Seq<char>, ValueView>>, Seq<char>>(Seq::empty())
            }
        }),
{
    lemma_zero_counts(fs.len());
}

// ===================== execution =====================

fn find_vars_exec(fs: &Vec<FindSpec>) -> (r: Vec<String>)
    ensures
        strs_view(r@) == find_vars(finds_view(fs@)),
{
    let ghost fv = finds_view(fs@);
    let mut r: Vec<String> = Vec::new();
    let mut i: usize = 0;
    while i < fs.len()
        invariant
            i <= fs@.len(),
            fv == finds_view(fs@),
            strs_view(r@) == find_vars(fv.subrange(0, i as int)),
        decreases fs@.len() - i,
    {
        proof {
            assert(fv.subrange(0, i + 1).drop_last() =~= fv.subrange(0, i as int));
            assert(fv.subrange(0, i + 1).last() == fs@[i as int]@);
        }
        match &fs[i] {
            FindSpec::Variable(v) => {
                let ghost prev = r@;
                r.push(v.clone());
                proof {
                    assert(strs_view(r@) =~= strs_view(prev).push(v@));
                }
            },
            _ => {},
        }
        i = i + 1;
    }
    proof {
        assert(fv.subrange(0, fs@.len() as int) =~= fv);
    }
    r
}

pub(crate) fn has_window_exec(fs: &Vec<FindSpec>) -> (r: bool)
    ensures
        r == has_window(finds_view(fs@)),
{
    let ghost fv = finds_view(fs@);
    let mut i: usize = 0;
    while i < fs.len()
        invariant
            i <= fs@.len(),
            fv == finds_view(fs@),
            forall|j: int| 0 <= j < i ==> !(#[trigger] fv[j] is Window),
        decreases fs@.len() - i,
    {
        assert(fv[i as int] == fs@[i as int]@);
        if let FindSpec::Window(_) = &fs[i] {
            return true;
        }
        i = i + 1;
    }
    false
}

fn has_grouping_var_exec(fs: &Vec<FindSpec>) -> (r: bool)
    ensures
        r == has_grouping_var(finds_view(fs@)),
{
    let ghost fv = finds_view(fs@);
    let mut i: usize = 0;
    while i < fs.len()
        invariant
            i <= fs@.len(),
            fv == finds_view(fs@),
            forall|j: int| 0 <= j < i ==> !(#[trigger] fv[j] is Variable),
        decreases fs@.len() - i,
    {
        assert(fv[i as int] == fs@[i as int]@);
        if let FindSpec::Variable(_) = &fs[i] {
            return true;
        }
        i = i + 1;
    }
    false
}

fn all_counts_exec(fs: &Vec<FindSpec>) -> (r: bool)
    ensures
        r == all_counts(finds_view(fs@)),
{
    let ghost fv = finds_view(fs@);
    let mut i: usize = 0;
    while i < fs.len()
        invariant
            i <= fs@.len(),
            fv == finds_view(fs@),
            forall|j: int|
                0 <= j < i ==> (#[trigger] fv[j] matches FindSpecView::Aggregate { func, .. } && (func == "count"@
                    || func == "count-distinct"@)),
        decreases fs@.len() - i,
    {
        assert(fv[i as int] == fs@[i as int]@);
        let ok = match &fs[i] {
            FindSpec::Aggregate { func, .. } => str_eq(func.as_str(), "count") || str_eq(func.as_str(), "count-distinct"),
            _ => false,
        };
        if !ok {
            return false;
        }
        i = i + 1;
    }
    true
}

fn agg_key_exec(i: usize) -> (r: String)
    ensures
        r@ == agg_key(i as nat),
{
    let mut k = owned("__agg_");
    push_u64_text(&mut k, i as u64);
    k
}

fn key_exec(b: &Bindings, gv: &Vec<String>) -> (r: Vec<Value>)
    ensures
        values_view(r@) == key_of(b@, strs_view(gv@)),
{
    let ghost g = strs_view(gv@);
    let mut r: Vec<Value> = Vec::new();
    let mut i: usize = 0;
    while i < gv.len()
        invariant
            i <= gv@.len(),
            g == strs_view(gv@),
            values_view(r@) == key_of(b@, g.subrange(0, i as int)),
        decreases gv@.len() - i,
    {
        let ghost prev = r@;
        let v = match b.get(gv[i].as_str()) {
            Some(x) => value_clone(x),
            None => Value::Null,
        };
        r.push(v);
        proof {
            assert(g[i as int] == gv@[i as int]@);
            assert(values_view(r@) =~= values_view(prev).push(v@));
            assert(key_of(b@, g.subrange(0, i + 1)) =~= key_of(b@, g.subrange(0, i as int)).push(value_or_nil(b@, g[i as int])));
        }
        i = i + 1;
    }
    proof {
        assert(g.subrange(0, gv@.len() as int) =~= g);
    }
    r
}

fn values_equal(a: &Vec<Value>, b: &Vec<Value>) -> (r: bool)
    ensures
        r == (values_view(a@) == values_view(b@)),
{
    if a.len() != b.len() {
        proof {
            assert(values_view(a@).len() != values_view(b@).len());
        }
        return false;
    }
    let mut i: usize = 0;
    while i < a.len()
        invariant
            i <= a@.len(),
            a@.len() == b@.len(),
            forall|j: int| 0 <= j < i ==> a@[j]@ == b@[j]@,
        decreases a@.len() - i,
    {
        if !crate::functions::value_eq(&a[i], &b[i]) {
            proof {
                assert(values_view(a@)[i as int] != values_view(b@)[i as int]);
            }
            return false;
        }
        i = i + 1;
    }
    proof {
        assert(values_view(a@) =~= values_view(b@));
    }
    true
}

/// The model of the groups built so far.
pub open spec fn groups_view(keys: Seq<Vec<Value>>, members: Seq<Vec<Bindings>>) -> Seq<
    (Seq<ValueView>, Seq<Map<Seq<char>, ValueView>>),
> {
    Seq::new(keys.len(), |i: int| (values_view(keys[i]@), rows_view(members[i]@)))
}

proof fn lemma_group_index(gs: Seq<(Seq<ValueView>, Seq<Map<Seq<char>, ValueView>>)>, k: Seq<ValueView>, i: int)
    requires
        0 <= i <= gs.len(),
        forall|j: int| 0 <= j < i ==> gs[j].0 != k,
    ensures
        i < gs.len() && gs[i].0 == k ==> group_index(gs, k) == Some(i as nat),
        i == gs.len() ==> group_index(gs, k) is None,
    decreases gs.len(),
{
    if gs.len() > 0 {
        let t = gs.drop_last();
        if i < gs.len() {
            if i < t.len() {
                lemma_group_index(t, k, i);
            } else {
                lemma_group_index(t, k, t.len() as int);
            }
        } else {
            lemma_group_index(t, k, t.len() as int);
        }
    }
}

fn find_group(keys: &Vec<Vec<Value>>, k: &Vec<Value>, Ghost(members): Ghost<Seq<Vec<Bindings>>>) -> (r: Option<usize>)
    requires
        members.len() == keys@.len(),
    ensures
        match r {
            Some(i) => group_index(groups_view(keys@, members), values_view(k@)) == Some(i as nat) && i < keys@.len()
                && values_view(keys@[i as int]@) == values_view(k@),
            None => group_index(groups_view(keys@, members), values_view(k@)) is None,
        },
{
    let ghost gs = groups_view(keys@, members);
    let mut i: usize = 0;
    while i < keys.len()
        invariant
            i <= keys@.len(),
            gs == groups_view(keys@, members),
            members.len() == keys@.len(),
            forall|j: int| 0 <= j < i ==> gs[j].0 != values_view(k@),
        decreases keys@.len() - i,
    {
        if values_equal(&keys[i], k) {
            proof {
                lemma_group_index(gs, values_view(k@), i as int);
            }
            return Some(i);
        }
        i = i + 1;
    }
    proof {
        lemma_group_index(gs, values_view(k@), i as int);
    }
    None
}

fn group_vars_exec(fs: &Vec<FindSpec>, with_vars: &Vec<String>) -> (r: Vec<String>)
    ensures
        strs_view(r@) == group_vars(finds_view(fs@), strs_view(with_vars@)),
{
    let mut r = find_vars_exec(fs);
    if !has_window_exec(fs) {
        let ghost start = strs_view(r@);
        let mut i: usize = 0;
        while i < with_vars.len()
            invariant
                i <= with_vars@.len(),
                strs_view(r@) == start + strs_view(with_vars@).subrange(0, i as int),
            decreases with_vars@.len() - i,
        {
            let ghost prev = r@;
            r.push(with_vars[i].clone());
            proof {
                assert(strs_view(r@) =~= strs_view(prev).push(with_vars@[i as int]@));
                assert(strs_view(with_vars@).subrange(0, i + 1) =~= strs_view(with_vars@).subrange(0, i as int).push(
                    with_vars@[i as int]@,
                ));
            }
            i = i + 1;
        }
        proof {
            assert(strs_view(with_vars@).subrange(0, with_vars@.len() as int) =~= strs_view(with_vars@));
        }
    } else {
        proof {
            assert(strs_view(r@) + Seq::<Seq<char>>::empty() =~= strs_view(r@));
        }
    }
    r
}

proof fn lemma_group_index_found(gs: Seq<(Seq<ValueView>, Seq<Map<Seq<char>, ValueView>>)>, k: Seq<ValueView>)
    ensures
        group_index(gs, k) matches Some(j) ==> j < gs.len() && gs[j as int].0 == k,
    decreases gs.len(),
{
    if gs.len() > 0 {
        lemma_group_index_found(gs.drop_last(), k);
    }
}

proof fn lemma_group_keys_len(bs: Seq<Map<Seq<char>, ValueView>>, gv: Seq<Seq<char>>)
    ensures
        forall|i: int| 0 <= i < groups_of(bs, gv).len() ==> (#[trigger] groups_of(bs, gv)[i]).0.len() == gv.len(),
    decreases bs.len(),
{
    if bs.len() > 0 {
        lemma_group_keys_len(bs.drop_last(), gv);
        let gs = groups_of(bs.drop_last(), gv);
        let k = key_of(bs.last(), gv);
        assert(k.len() == gv.len());
        lemma_group_index_found(gs, k);
        assert forall|i: int| 0 <= i < groups_of(bs, gv).len() implies (#[trigger] groups_of(bs, gv)[i]).0.len()
            == gv.len() by {
            match group_index(gs, k) {
                Some(j) => {
                    if i != j {
                        assert(groups_of(bs, gv)[i] == gs[i]);
                    }
                },
                None => {
                    if i < gs.len() {
                        assert(groups_of(bs, gv)[i] == gs[i]);
                    }
                },
            }
        }
    }
}

fn group_rows(bindings: Vec<Bindings>, gv: &Vec<String>) -> (r: (Vec<Vec<Value>>, Vec<Vec<Bindings>>))
    ensures
        r.0@.len() == r.1@.len(),
        groups_view(r.0@, r.1@) == groups_of(rows_view(bindings@), strs_view(gv@)),
{
    let ghost all = rows_view(bindings@);
    let ghost g = strs_view(gv@);
    let mut keys: Vec<Vec<Value>> = Vec::new();
    let mut members: Vec<Vec<Bindings>> = Vec::new();
    proof {
        assert(groups_view(keys@, members@) =~= groups_of(all.take(0), g));
    }
    for b in iter: bindings.into_iter()
        invariant
            iter.seq() == bindings@,
            all == rows_view(bindings@),
            g == strs_view(gv@),
            keys@.len() == members@.len(),
            groups_view(keys@, members@) == groups_of(all.take(iter.index() as int), g),
    {
        let ghost k = iter.index() as int;
        let ghost bv = b@;
        let ghost gs = groups_view(keys@, members@);
        proof {
            assert(all.take(k + 1).drop_last() =~= all.take(k));
            assert(all.take(k + 1).last() == b@);
        }
        let key = key_exec(&b, gv);
        match find_group(&keys, &key, Ghost(members@)) {
            Some(i) => {
                let mut m = members.remove(i);
                let ghost mv = rows_view(m@);
                m.push(b);
                proof {
                    assert(rows_view(m@) =~= mv.push(bv));
                }
                members.insert(i, m);
                proof {
                    assert(groups_view(keys@, members@) =~= gs.update(i as int, (values_view(key@), gs[i as int].1.push(bv))));
                }
            },
            None => {
                let ghost kv = values_view(key@);
                keys.push(key);
                let mut m: Vec<Bindings> = Vec::new();
                m.push(b);
                proof {
                    assert(rows_view(m@) =~= seq![bv]);
                }
                members.push(m);
                proof {
                    assert(groups_view(keys@, members@) =~= gs.push((kv, seq![bv])));
                }
            },
        }
    }
    proof {
        assert(all.take(all.len() as int) =~= all);
    }
    (keys, members)
}

fn non_null_exec(rows: &Vec<Bindings>, var: &str) -> (r: Vec<Value>)
    ensures
        values_view(r@) == non_null_values(rows_view(rows@), var@),
{
    let ghost rv = rows_view(rows@);
    let mut out: Vec<Value> = Vec::new();
    let mut k: usize = 0;
    while k < rows.len()
        invariant
            k <= rows@.len(),
            rv == rows_view(rows@),
            values_view(out@) == non_null_values(rv.take(k as int), var@),
        decreases rows@.len() - k,
    {
        proof {
            assert(rv.take(k + 1).drop_last() =~= rv.take(k as int));
            assert(rv.take(k + 1).last() == rows@[k as int]@);
        }
        match rows[k].get(var) {
            Some(v) => {
                if !matches!(v, Value::Null) {
                    let ghost prev = out@;
                    out.push(value_clone(v));
                    proof {
                        assert(values_view(out@) =~= values_view(prev).push(v@));
                    }
                }
            },
            None => {},
        }
        k = k + 1;
    }
    proof {
        assert(rv.take(rows@.len() as int) =~= rv);
    }
    out
}

pub(crate) fn finish_exec<H: Fn(Aggregated) -> Value>(a: Aggregated, finish: &H) -> (r: Value)
    requires
        finish_total(*finish),
        finish_deterministic(*finish),
    ensures
        r@ == finish_fn(*finish)(a@),
{
    match a {
        Aggregated::Value(v) => v,
        other => {
            let ghost ov = other@;
            let ghost oc = other;
            let r = finish(other);
            proof {
                lemma_finish_answer(*finish, oc, r);
            }
            r
        },
    }
}

/// The model of an aggregate's value or error.
pub open spec fn value_result_view(r: Result<Value, String>) -> Result<ValueView, Seq<char>> {
    match r {
        Ok(v) => Ok(v@),
        Err(e) => Err(e@),
    }
}

fn aggregate_value_exec<
    F: Fn(FloatOp, Value, Value) -> Result<Value, ()>,
    H: Fn(Aggregated) -> Value,
    U: Fn(&str, &Vec<Value>) -> Value,
>(
    func: &str,
    vals: &Vec<Value>,
    registry: &FunctionRegistry,
    float_step: &F,
    finish: &H,
    udf: &U,
) -> (r: Result<Value, String>)
    requires
        finish_total(*finish),
        finish_deterministic(*finish),
        udf_total(*udf),
        udf_deterministic(*udf),
        float_step_total(*float_step),
        float_step_deterministic(*float_step),
    ensures
        value_result_view(r) == aggregate_value(
            func@,
            values_view(vals@),
            registry@,
            finish_fn(*finish),
            udf_fn(*udf),
            float_fn(*float_step),
        ),
{
    match registry.get(func) {
        None => {
            let mut msg = concat("unknown aggregate function: '", func);
            msg.append("'");
            Err(msg)
        },
        Some(d) => {
            if !d.is_builtin && d.impl_ == AggImpl::Udf {
                if vals.len() == 0 {
                    Ok(Value::Null)
                } else {
                    let o = udf(func, vals);
                    proof {
                        lemma_udf_answer(*udf, func, vals, o);
                    }
                    Ok(o)
                }
            } else {
                match apply_builtin_aggregate(func, vals, float_step) {
                    Ok(a) => Ok(finish_exec(a, finish)),
                    Err(m) => Err(m),
                }
            }
        },
    }
}

proof fn lemma_find_vars_step(fv: Seq<FindSpecView>, j: int)
    requires
        0 <= j < fv.len(),
    ensures
        find_vars(fv.take(j + 1)) == (match fv[j] {
            FindSpecView::Variable(v) => find_vars(fv.take(j)).push(v),
            _ => find_vars(fv.take(j)),
        }),
{
    assert(fv.take(j + 1).drop_last() =~= fv.take(j));
    assert(fv.take(j + 1).last() == fv[j]);
}

proof fn lemma_find_vars_prefix(fv: Seq<FindSpecView>, j: int)
    requires
        0 <= j <= fv.len(),
    ensures
        find_vars(fv.take(j)).len() <= find_vars(fv).len(),
    decreases fv.len(),
{
    if j < fv.len() {
        let t = fv.drop_last();
        assert(fv.take(j) =~= t.take(j));
        lemma_find_vars_prefix(t, j);
    } else {
        assert(fv.take(j) =~= fv);
    }
}

fn group_binding<
    F: Fn(FloatOp, Value, Value) -> Result<Value, ()>,
    H: Fn(Aggregated) -> Value,
    U: Fn(&str, &Vec<Value>) -> Value,
>(
    fs: &Vec<FindSpec>,
    key: &Vec<Value>,
    rows: &Vec<Bindings>,
    registry: &FunctionRegistry,
    float_step: &F,
    finish: &H,
    udf: &U,
) -> (r: Result<Option<Bindings>, String>)
    requires
        finish_total(*finish),
        finish_deterministic(*finish),
        udf_total(*udf),
        udf_deterministic(*udf),
        float_step_total(*float_step),
        float_step_deterministic(*float_step),
        key@.len() >= find_vars(finds_view(fs@)).len(),
    ensures
        match r {
            Ok(Some(b)) => group_outcome(
                finds_view(fs@),
                values_view(key@),
                rows_view(rows@),
                registry@,
                finish_fn(*finish),
                udf_fn(*udf),
                float_fn(*float_step),
            ) == GroupOutcome::Row(b@),
            Ok(None) => group_outcome(
                finds_view(fs@),
                values_view(key@),
                rows_view(rows@),
                registry@,
                finish_fn(*finish),
                udf_fn(*udf),
                float_fn(*float_step),
            ) == GroupOutcome::Skip,
            Err(m) => group_outcome(
                finds_view(fs@),
                values_view(key@),
                rows_view(rows@),
                registry@,
                finish_fn(*finish),
                udf_fn(*udf),
                float_fn(*float_step),
            ) == GroupOutcome::Fail(m@),
        },
{
    let ghost fv = finds_view(fs@);
    let ghost kv = values_view(key@);
    let ghost rv = rows_view(rows@);
    let ghost fin = finish_fn(*finish);
    let ghost ud = udf_fn(*udf);
    let ghost fl = float_fn(*float_step);
    let mut acc = Bindings::new();
    let klen: usize = key.len();
    let mut j: usize = 0;
    let mut p: usize = 0;
    while j < fs.len()
        invariant
            j <= fs@.len(),
            fv == finds_view(fs@),
            kv == values_view(key@),
            key@.len() >= find_vars(fv).len(),
            klen == key@.len(),
            p == find_vars(fv.take(j as int)).len(),
            var_binding(fv, kv, 0, 0, Map::empty()) == var_binding(fv, kv, j as int, p as int, acc@),
        decreases fs@.len() - j,
    {
        proof {
            lemma_find_vars_step(fv, j as int);
            lemma_find_vars_prefix(fv, j + 1);
            assert(fv[j as int] == fs@[j as int]@);
        }
        match &fs[j] {
            FindSpec::Variable(v) => {
                assert(find_vars(fv.take(j as int + 1)).len() == p + 1);
                acc.insert(v.clone(), value_clone(&key[p]));
                p = p + 1;
            },
            _ => {},
        }
        j = j + 1;
    }
    let ghost base = acc@;
    proof {
        assert(var_binding(fv, kv, 0, 0, Map::empty()) == base);
    }
    let mut i: usize = 0;
    while i < fs.len()
        invariant
            finish_total(*finish),
            finish_deterministic(*finish),
            udf_total(*udf),
            udf_deterministic(*udf),
            float_step_total(*float_step),
            float_step_deterministic(*float_step),
        float_step_total(*float_step),
        float_step_deterministic(*float_step),
            i <= fs@.len(),
            fv == finds_view(fs@),
            rv == rows_view(rows@),
            fin == finish_fn(*finish),
            ud == udf_fn(*udf),
            fl == float_fn(*float_step),
            kv == values_view(key@),
            base == var_binding(fv, kv, 0, 0, Map::empty()),
            aggregate_binding(fv, rv, 0, base, registry@, fin, ud, fl) == aggregate_binding(
                fv,
                rv,
                i as int,
                acc@,
                registry@,
                fin,
                ud,
                fl,
            ),
        decreases fs@.len() - i,
    {
        assert(fv[i as int] == fs@[i as int]@);
        match &fs[i] {
            FindSpec::Aggregate { func, var } => {
                let vals = non_null_exec(rows, var.as_str());
                match aggregate_value_exec(func.as_str(), &vals, registry, float_step, finish, udf) {
                    Ok(v) => {
                        acc.insert(agg_key_exec(i), v);
                    },
                    Err(m) => {
                        if contains_text(m.as_str(), "no non-null values in group") {
                            return Ok(None);
                        } else {
                            return Err(m);
                        }
                    },
                }
            },
            _ => {},
        }
        i = i + 1;
    }
    Ok(Some(acc))
}

/// Collapses rows into one binding per group (see
/// `spec_compute_aggregation`): rows are grouped by the plain `:find`
/// variables (and, in a query without window expressions, the `:with`
/// variables), and each aggregate `:find` element `i` is stored under
/// `__agg_i`. Groups come out in the order of their first row.
pub fn compute_aggregation<
    F: Fn(FloatOp, Value, Value) -> Result<Value, ()>,
    H: Fn(Aggregated) -> Value,
    U: Fn(&str, &Vec<Value>) -> Value,
>(
    bindings: Vec<Bindings>,
    find_specs: &Vec<FindSpec>,
    with_vars: &Vec<String>,
    registry: &FunctionRegistry,
    float_step: &F,
    finish: &H,
    udf: &U,
) -> (r: Result<Vec<Bindings>, String>)
    requires
        finish_total(*finish),
        finish_deterministic(*finish),
        udf_total(*udf),
        udf_deterministic(*udf),
        float_step_total(*float_step),
        float_step_deterministic(*float_step),
    ensures
        rows_result_view(r) == spec_compute_aggregation(
            rows_view(bindings@),
            finds_view(find_specs@),
            strs_view(with_vars@),
            registry@,
            finish_fn(*finish),
            udf_fn(*udf),
            float_fn(*float_step),
        ),
{
    let ghost fv = finds_view(find_specs@);
    if bindings.len() == 0 {
        proof {
            assert(rows_view(bindings@).len() == 0);
        }
        if !has_grouping_var_exec(find_specs) && all_counts_exec(find_specs) {
            let mut b = Bindings::new();
            let mut i: usize = 0;
            while i < find_specs.len()
                invariant
                    i <= find_specs@.len(),
                    b@ == zero_counts(i as nat),
                decreases find_specs@.len() - i,
            {
                b.insert(agg_key_exec(i), Value::Integer(0));
                i = i + 1;
            }
            let mut out: Vec<Bindings> = Vec::new();
            out.push(b);
            proof {
                assert(rows_view(out@) =~= seq![zero_counts(fv.len())]);
            }
            return Ok(out);
        }
        let out: Vec<Bindings> = Vec::new();
        proof {
            assert(rows_view(out@) =~= Seq::<Map<Seq<char>, ValueView>>::empty());
        }
        return Ok(out);
    }
    let gv = group_vars_exec(find_specs, with_vars);
    let ghost all = rows_view(bindings@);
    let (keys, members) = group_rows(bindings, &gv);
    let ghost gs = groups_view(keys@, members@);
    let ghost fin = finish_fn(*finish);
    let ghost ud = udf_fn(*udf);
    let ghost fl = float_fn(*float_step);
    proof {
        lemma_group_keys_len(all, strs_view(gv@));
    }
    let mut results: Vec<Bindings> = Vec::new();
    let mut g: usize = 0;
    proof {
        assert(rows_view(results@) =~= Seq::<Map<Seq<char>, ValueView>>::empty());
    }
    while g < keys.len()
        invariant
            finish_total(*finish),
            finish_deterministic(*finish),
            udf_total(*udf),
            udf_deterministic(*udf),
            float_step_total(*float_step),
            float_step_deterministic(*float_step),
        float_step_total(*float_step),
        float_step_deterministic(*float_step),
            g <= keys@.len(),
            keys@.len() == members@.len(),
            gs == groups_view(keys@, members@),
            gs == groups_of(all, strs_view(gv@)),
            all == rows_view(bindings@),
            all.len() > 0,
            forall|i: int| 0 <= i < gs.len() ==> (#[trigger] gs[i]).0.len() == strs_view(gv@).len(),
            strs_view(gv@) == group_vars(fv, strs_view(with_vars@)),
            fv == finds_view(find_specs@),
            fin == finish_fn(*finish),
            ud == udf_fn(*udf),
            fl == float_fn(*float_step),
            collect_groups(fv, gs, 0, Seq::empty(), registry@, fin, ud, fl) == collect_groups(
                fv,
                gs,
                g as int,
                rows_view(results@),
                registry@,
                fin,
                ud,
                fl,
            ),
        decreases keys@.len() - g,
    {
        proof {
            assert(gs[g as int] == (values_view(keys@[g as int]@), rows_view(members@[g as int]@)));
            assert(values_view(keys@[g as int]@).len() == keys@[g as int]@.len());
        }
        match group_binding(find_specs, &keys[g], &members[g], registry, float_step, finish, udf) {
            Ok(Some(b)) => {
                let ghost prev = results@;
                results.push(b);
                proof {
                    assert(rows_view(results@) =~= rows_view(prev).push(results@.last()@));
                }
            },
            Ok(None) => {},
            Err(m) => {
                return Err(m);
            },
        }
        g = g + 1;
    }
    Ok(results)
}

// ===================== the grouping law =====================

/// The number of rows in groups.
pub open spec fn total_rows(gs: Seq<(Seq<ValueView>, Seq<Map<Seq<char>, ValueView>>)>) -> nat
    decreases gs.len(),
{
    if gs.len() == 0 {
        0
    } else {
        total_rows(gs.drop_last()) + gs.last().1.len()
    }
}

proof fn lemma_total_rows_update(
    gs: Seq<(Seq<ValueView>, Seq<Map<Seq<char>, ValueView>>)>,
    i: int,
    k: Seq<ValueView>,
    b: Map<Seq<char>, ValueView>,
)
    requires
        0 <= i < gs.len(),
    ensures
        total_rows(gs.update(i, (k, gs[i].1.push(b)))) == total_rows(gs) + 1,
    decreases gs.len(),
{
    let u = gs.update(i, (k, gs[i].1.push(b)));
    if i == gs.len() - 1 {
        assert(u.drop_last() =~= gs.drop_last());
    } else {
        assert(u.drop_last() =~= gs.drop_last().update(i, (k, gs[i].1.push(b))));
        lemma_total_rows_update(gs.drop_last(), i, k, b);
    }
}

proof fn lemma_group_index_absent(gs: Seq<(Seq<ValueView>, Seq<Map<Seq<char>, ValueView>>)>, k: Seq<ValueView>)
    ensures
        group_index(gs, k) is None ==> forall|i: int| 0 <= i < gs.len() ==> gs[i].0 != k,
    decreases gs.len(),
{
    if gs.len() > 0 {
        lemma_group_index_absent(gs.drop_last(), k);
        if group_index(gs, k) is None {
            assert forall|i: int| 0 <= i < gs.len() implies gs[i].0 != k by {
                if i < gs.len() - 1 {
                    assert(gs.drop_last()[i] == gs[i]);
                }
            }
        }
    }
}

/// Grouping partitions the rows: groups have distinct keys, every group has
/// at least one row, every row of a group has the group's key, and the
/// groups hold as many rows as there were.
pub proof fn lemma_groups_partition(bs: Seq<Map<Seq<char>, ValueView>>, gv: Seq<Seq<char>>)
    ensures
        forall|i: int, j: int|
            0 <= i < j < groups_of(bs, gv).len() ==> (#[trigger] groups_of(bs, gv)[i]).0 != (
            #[trigger] groups_of(bs, gv)[j]).0,
        forall|i: int| 0 <= i < groups_of(bs, gv).len() ==> (#[trigger] groups_of(bs, gv)[i]).1.len() >= 1,
        forall|i: int, t: int|
            0 <= i < groups_of(bs, gv).len() && 0 <= t < groups_of(bs, gv)[i].1.len() ==> key_of(
                #[trigger] groups_of(bs, gv)[i].1[t],
                gv,
            ) == groups_of(bs, gv)[i].0,
        total_rows(groups_of(bs, gv)) == bs.len(),
    decreases bs.len(),
{
    if bs.len() > 0 {
        let prev = bs.drop_last();
        lemma_groups_partition(prev, gv);
        let gs = groups_of(prev, gv);
        let b = bs.last();
        let k = key_of(b, gv);
        let ng = groups_of(bs, gv);
        lemma_group_index_found(gs, k);
        lemma_group_index_absent(gs, k);
        match group_index(gs, k) {
            Some(idx) => {
                let idx = idx as int;
                assert(ng == gs.update(idx, (k, gs[idx].1.push(b))));
                lemma_total_rows_update(gs, idx, k, b);
                assert forall|i: int, t: int| 0 <= i < ng.len() && 0 <= t < ng[i].1.len() implies key_of(
                    #[trigger] ng[i].1[t],
                    gv,
                ) == ng[i].0 by {
                    if i == idx {
                        if t < gs[idx].1.len() {
                            assert(ng[i].1[t] == gs[idx].1[t]);
                        }
                    } else {
                        assert(ng[i] == gs[i]);
                    }
                }
                assert forall|i: int, j: int| 0 <= i < j < ng.len() implies (#[trigger] ng[i]).0 != (
                #[trigger] ng[j]).0 by {
                    assert(ng[i].0 == gs[i].0 && ng[j].0 == gs[j].0);
                }
                assert forall|i: int| 0 <= i < ng.len() implies (#[trigger] ng[i]).1.len() >= 1 by {
                    if i != idx {
                        assert(ng[i] == gs[i]);
                    }
                }
            },
            None => {
                assert(ng == gs.push((k, seq![b])));
                assert(ng.drop_last() =~= gs);
                assert forall|i: int, t: int| 0 <= i < ng.len() && 0 <= t < ng[i].1.len() implies key_of(
                    #[trigger] ng[i].1[t],
                    gv,
                ) == ng[i].0 by {
                    if i < gs.len() {
                        assert(ng[i] == gs[i]);
                    }
                }
                assert forall|i: int, j: int| 0 <= i < j < ng.len() implies (#[trigger] ng[i]).0 != (
                #[trigger] ng[j]).0 by {
                    if j < gs.len() {
                        assert(ng[i] == gs[i] && ng[j] == gs[j]);
                    } else {
                        assert(ng[i] == gs[i]);
                    }
                }
                assert forall|i: int| 0 <= i < ng.len() implies (#[trigger] ng[i]).1.len() >= 1 by {
                    if i < gs.len() {
                        assert(ng[i] == gs[i]);
                    }
                }
            },
        }
    }
}

} // verus!
