//! Window expressions in `:find` (`(sum ?x :over (:partition-by ?d
//! :order-by ?t))`): each row is annotated, without collapsing rows, with a
//! value computed over its partition in window order.
use vstd::prelude::*;
use crate::types::{
    Value, ValueView, FindSpec, FindSpecView, WindowSpec, WindowSpecView, WindowFunc, WindowFuncView, Order,
    finds_view, value_clone,
};
use crate::evaluator::Bindings;
use crate::expression::{FloatOp, rows_view, rows_result_view, float_fn, float_step_total, float_step_deterministic};
use crate::aggregation::{
    value_or_nil, finish_fn, udf_fn, finish_total, finish_deterministic, udf_total, udf_deterministic, finish_exec,
    lemma_udf_answer,
};
use crate::functions::{
    Aggregated, AggregatedView, AggImpl, FunctionRegistry, RegistryView, value_order, spec_value_lt, count_value,
    numbers, values_view,
};
use crate::text::{owned, concat, nat_text, push_u64_text, str_eq};
use crate::types::strs_view;
use crate::command::{has_aggregate, has_aggregate_exec};
use crate::aggregation::{has_window, has_window_exec, spec_compute_aggregation, compute_aggregation};
use crate::executor::{project, project_find_specs};
use std::cmp::Ordering;

verus! {

// ===================== partitions =====================

/// The partition a row belongs to: the value of the partition variable, or
/// `None` where there is none or it is unbound.
pub open spec fn partition_key(ws: WindowSpecView, row: Map<Seq<char>, ValueView>) -> Option<ValueView> {
    match ws.partition_by {
        Some(pv) => if row.contains_key(pv) {
            Some(row[pv])
        } else {
            None
        },
        None => None,
    }
}

/// The position of the partition with key `k`.
pub open spec fn partition_index(ps: Seq<(Option<ValueView>, Seq<nat>)>, k: Option<ValueView>) -> Option<nat>
    decreases ps.len(),
{
    if ps.len() == 0 {
        None
    } else {
        match partition_index(ps.drop_last(), k) {
            Some(i) => Some(i),
            None => if ps.last().0 == k {
                Some((ps.len() - 1) as nat)
            } else {
                None
            },
        }
    }
}

/// The partitions of rows `..n`: each the indices of its rows in order,
/// partitions in the order of their first row.
pub open spec fn partitions_of(rows: Seq<Map<Seq<char>, ValueView>>, ws: WindowSpecView, n: nat) -> Seq<
    (Option<ValueView>, Seq<nat>),
>
    decreases n,
{
    if n == 0 {
        Seq::empty()
    } else {
        let ps = partitions_of(rows, ws, (n - 1) as nat);
        let k = partition_key(ws, rows[n - 1]);
        match partition_index(ps, k) {
            Some(i) => ps.update(i as int, (k, ps[i as int].1.push((n - 1) as nat))),
            None => ps.push((k, seq![(n - 1) as nat])),
        }
    }
}

// ===================== window order =====================

/// The value a row is ordered by.
pub open spec fn order_key(ws: WindowSpecView, row: Map<Seq<char>, ValueView>) -> ValueView {
    value_or_nil(row, ws.order_by)
}

/// How two order keys compare in window order (descending reverses).
pub open spec fn window_cmp(
    ord: Order,
    a: ValueView,
    b: ValueView,
    fl: spec_fn(FloatOp, ValueView, ValueView) -> Result<ValueView, ()>,
) -> Ordering {
    let c = value_order(a, b, fl);
    match ord {
        Order::Asc => c,
        Order::Desc => match c {
            Ordering::Less => Ordering::Greater,
            Ordering::Greater => Ordering::Less,
            Ordering::Equal => Ordering::Equal,
        },
    }
}

/// A row with order key `a` comes after one with key `b` in window order.
pub open spec fn comes_after(
    ord: Order,
    a: ValueView,
    b: ValueView,
    fl: spec_fn(FloatOp, ValueView, ValueView) -> Result<ValueView, ()>,
) -> bool {
    window_cmp(ord, a, b, fl) == Ordering::Greater
}

/// `x` inserted into `s` after every element that does not come after it.
pub open spec fn insert_in_order(
    s: Seq<nat>,
    x: nat,
    rows: Seq<Map<Seq<char>, ValueView>>,
    ws: WindowSpecView,
    fl: spec_fn(FloatOp, ValueView, ValueView) -> Result<ValueView, ()>,
) -> Seq<nat>
    decreases s.len(),
{
    if s.len() == 0 {
        seq![x]
    } else if comes_after(ws.order, order_key(ws, rows[s.last() as int]), order_key(ws, rows[x as int]), fl) {
        insert_in_order(s.drop_last(), x, rows, ws, fl).push(s.last())
    } else {
        s.push(x)
    }
}

/// Row indices in window order: a stable sort by order key.
pub open spec fn window_sorted(
    s: Seq<nat>,
    rows: Seq<Map<Seq<char>, ValueView>>,
    ws: WindowSpecView,
    fl: spec_fn(FloatOp, ValueView, ValueView) -> Result<ValueView, ()>,
) -> Seq<nat>
    decreases s.len(),
{
    if s.len() == 0 {
        Seq::empty()
    } else {
        insert_in_order(window_sorted(s.drop_last(), rows, ws, fl), s.last(), rows, ws, fl)
    }
}

// ===================== window values =====================

/// The aggregate name of an accumulating window function.
pub open spec fn window_func_name(f: WindowFuncView) -> Seq<char> {
    match f {
        WindowFuncView::Sum => "sum"@,
        WindowFuncView::Count => "count"@,
        WindowFuncView::Min => "min"@,
        WindowFuncView::Max => "max"@,
        WindowFuncView::Avg => "avg"@,
        WindowFuncView::Rank => "rank"@,
        WindowFuncView::RowNumber => "row-number"@,
        WindowFuncView::Udf(n) => n,
    }
}

/// The message for a window function that is not registered.
pub open spec fn unknown_window_message(n: Seq<char>) -> Seq<char> {
    "unknown window function '"@ + n
        + "' \u{2014} register it with register_aggregate() before querying"@
}

/// The value a row contributes to an accumulating window function.
pub open spec fn window_input(ws: WindowSpecView, row: Map<Seq<char>, ValueView>) -> ValueView {
    match ws.var {
        Some(v) => value_or_nil(row, v),
        None => ValueView::Null,
    }
}

/// The rank at position `t` of keys in window order: a position shares the
/// rank of the one before when their keys are equal, else its rank is its
/// position (from 1).
pub open spec fn rank_at(keys: Seq<ValueView>, t: int) -> int
    decreases t,
{
    if t <= 0 {
        1
    } else if keys[t] == keys[t - 1] {
        rank_at(keys, t - 1)
    } else {
        t + 1
    }
}

/// A run of equal keys in window order starts at `s` and reaches `t`: `s`
/// is the first position or its key differs from the one before, and every
/// key from `s` to `t` equals the one before it.
pub open spec fn tie_run(keys: Seq<ValueView>, s: int, t: int) -> bool {
    &&& 0 <= s <= t < keys.len()
    &&& (s == 0 || keys[s] != keys[s - 1])
    &&& forall|j: int| s < j <= t ==> #[trigger] keys[j] == keys[j - 1]
}

proof fn lemma_rank_run(keys: Seq<ValueView>, s: int, t: int)
    requires
        tie_run(keys, s, t),
    ensures
        rank_at(keys, t) == s + 1,
    decreases t - s,
{
    if t > s {
        assert(keys[t] == keys[t - 1]);
        lemma_rank_run(keys, s, t - 1);
    }
}

/// `rank` numbers the rows of a partition in window order so that tied rows
/// share a rank and a tie skips the ranks after it: the rank of each row is
/// the 1-based position of the first row of its run of equal order keys.
/// So the first row has rank 1, a row whose key differs from the previous
/// one has its own position as rank, a row whose key equals the previous
/// one has the previous rank, and no rank exceeds its row's position.
pub proof fn lemma_rank_skips_after_ties(
    keys: Seq<ValueView>,
    vs: Seq<ValueView>,
    reg: RegistryView,
    fl: spec_fn(FloatOp, ValueView, ValueView) -> Result<ValueView, ()>,
    fin: spec_fn(AggregatedView) -> ValueView,
    ud: spec_fn(Seq<char>, Seq<ValueView>) -> ValueView,
)
    requires
        keys.len() <= i64::MAX,
    ensures
        ({
            let r = window_values(WindowFuncView::Rank, keys, vs, reg, fl, fin, ud);
            &&& r is Ok
            &&& r->Ok_0.len() == keys.len()
            &&& keys.len() > 0 ==> r->Ok_0[0] == ValueView::Integer(1)
            &&& forall|t: int|
                0 < t < keys.len() && keys[t] != keys[t - 1] ==> #[trigger] r->Ok_0[t] == ValueView::Integer(
                    (t + 1) as i64,
                )
            &&& forall|t: int| 0 < t < keys.len() && keys[t] == keys[t - 1] ==> #[trigger] r->Ok_0[t] == r->Ok_0[t - 1]
            &&& forall|s: int, t: int| #[trigger] tie_run(keys, s, t) ==> r->Ok_0[t] == ValueView::Integer((s + 1) as i64)
            &&& forall|t: int|
                0 <= t < keys.len() ==> ((#[trigger] r->Ok_0[t]) matches ValueView::Integer(k) && 1 <= k <= t + 1)
        }),
{
    let r = window_values(WindowFuncView::Rank, keys, vs, reg, fl, fin, ud);
    assert forall|s: int, t: int| #[trigger] tie_run(keys, s, t) implies r->Ok_0[t] == ValueView::Integer(
        (s + 1) as i64,
    ) by {
        lemma_rank_run(keys, s, t);
    }
    assert forall|t: int| 0 <= t < keys.len() implies ((#[trigger] r->Ok_0[t]) matches ValueView::Integer(k) && 1 <= k
        <= t + 1) by {
        let s = choose_run_start(keys, t);
        lemma_rank_run(keys, s, t);
    }
    assert forall|t: int|
        0 < t < keys.len() && keys[t] != keys[t - 1] implies #[trigger] r->Ok_0[t] == ValueView::Integer(
        (t + 1) as i64,
    ) by {
        assert(tie_run(keys, t, t));
        lemma_rank_run(keys, t, t);
    }
}

/// The start of the run of equal keys that reaches `t`.
proof fn choose_run_start(keys: Seq<ValueView>, t: int) -> (s: int)
    requires
        0 <= t < keys.len(),
    ensures
        tie_run(keys, s, t),
    decreases t,
{
    if t == 0 || keys[t] != keys[t - 1] {
        t
    } else {
        let s = choose_run_start(keys, t - 1);
        assert forall|j: int| s < j <= t implies #[trigger] keys[j] == keys[j - 1] by {
            if j < t {
                assert(tie_run(keys, s, t - 1));
            }
        }
        s
    }
}

/// The number of non-null values.
pub open spec fn non_null_count(vs: Seq<ValueView>) -> nat
    decreases vs.len(),
{
    if vs.len() == 0 {
        0
    } else {
        non_null_count(vs.drop_last()) + if vs.last() is Null {
            0nat
        } else {
            1nat
        }
    }
}

/// The running least (`min`) or greatest value of `vs`: the first non-null
/// value, replaced by each later value that orders before (`min`) or after
/// it.
pub open spec fn running_extreme(
    vs: Seq<ValueView>,
    min: bool,
    fl: spec_fn(FloatOp, ValueView, ValueView) -> Result<ValueView, ()>,
) -> Option<ValueView>
    decreases vs.len(),
{
    if vs.len() == 0 {
        None
    } else {
        let cur = running_extreme(vs.drop_last(), min, fl);
        let v = vs.last();
        if v is Null {
            cur
        } else {
            match cur {
                None => Some(v),
                Some(c) => if (if min {
                    spec_value_lt(v, c, fl)
                } else {
                    spec_value_lt(c, v, fl)
                }) {
                    Some(v)
                } else {
                    cur
                },
            }
        }
    }
}

/// The value of a built-in accumulating window function over the values of
/// the rows so far.
pub open spec fn builtin_running(
    name: Seq<char>,
    vs: Seq<ValueView>,
    fl: spec_fn(FloatOp, ValueView, ValueView) -> Result<ValueView, ()>,
    fin: spec_fn(AggregatedView) -> ValueView,
) -> ValueView {
    if name == "count"@ {
        ValueView::Integer(count_value(non_null_count(vs)))
    } else if name == "sum"@ {
        fin(AggregatedView::RunningSum(numbers(vs)))
    } else if name == "min"@ || name == "max"@ {
        match running_extreme(vs, name == "min"@, fl) {
            Some(v) => v,
            None => ValueView::Null,
        }
    } else if name == "avg"@ {
        if numbers(vs).len() == 0 {
            ValueView::Null
        } else {
            fin(AggregatedView::FloatMean(numbers(vs)))
        }
    } else {
        ValueView::Null
    }
}

/// The window values of a partition whose rows, in window order, have order
/// keys `keys` and inputs `vs`.
pub open spec fn window_values(
    f: WindowFuncView,
    keys: Seq<ValueView>,
    vs: Seq<ValueView>,
    reg: RegistryView,
    fl: spec_fn(FloatOp, ValueView, ValueView) -> Result<ValueView, ()>,
    fin: spec_fn(AggregatedView) -> ValueView,
    ud: spec_fn(Seq<char>, Seq<ValueView>) -> ValueView,
) -> Result<Seq<ValueView>, Seq<char>> {
    match f {
        WindowFuncView::RowNumber => if keys.len() > i64::MAX {
            Err("row number overflow"@)
        } else {
            Ok(Seq::new(keys.len(), |t: int| ValueView::Integer((t + 1) as i64)))
        },
        WindowFuncView::Rank => Ok(Seq::new(keys.len(), |t: int| ValueView::Integer(count_value(rank_at(keys, t) as nat)))),
        _ => {
            let name = window_func_name(f);
            if !reg.aggregates.contains_key(name) {
                Err(unknown_window_message(name))
            } else if reg.aggregates[name].impl_ == AggImpl::Udf {
                Ok(Seq::new(vs.len(), |t: int| ud(name, vs.take(t + 1))))
            } else {
                Ok(Seq::new(vs.len(), |t: int| builtin_running(name, vs.take(t + 1), fl, fin)))
            }
        },
    }
}

// ===================== the window column =====================

/// The values a list of positions takes from `vals`, written into `col` in
/// order.
pub open spec fn write_values(col: Seq<ValueView>, sorted: Seq<nat>, vals: Seq<ValueView>) -> Seq<ValueView>
    decreases sorted.len(),
{
    if sorted.len() == 0 {
        col
    } else {
        write_values(col, sorted.drop_last(), vals).update(sorted.last() as int, vals[sorted.len() - 1])
    }
}

/// The order keys of rows in a given order.
pub open spec fn keys_in(sorted: Seq<nat>, rows: Seq<Map<Seq<char>, ValueView>>, ws: WindowSpecView) -> Seq<ValueView> {
    Seq::new(sorted.len(), |t: int| order_key(ws, rows[sorted[t] as int]))
}

/// The inputs of rows in a given order.
pub open spec fn inputs_in(sorted: Seq<nat>, rows: Seq<Map<Seq<char>, ValueView>>, ws: WindowSpecView) -> Seq<ValueView> {
    Seq::new(sorted.len(), |t: int| window_input(ws, rows[sorted[t] as int]))
}

/// The window column after partitions `ps[..j]`: the rows of each partition
/// get their values in window order; rows not reached hold `nil`.
pub open spec fn column_after(
    rows: Seq<Map<Seq<char>, ValueView>>,
    ws: WindowSpecView,
    ps: Seq<(Option<ValueView>, Seq<nat>)>,
    j: int,
    reg: RegistryView,
    fl: spec_fn(FloatOp, ValueView, ValueView) -> Result<ValueView, ()>,
    fin: spec_fn(AggregatedView) -> ValueView,
    ud: spec_fn(Seq<char>, Seq<ValueView>) -> ValueView,
) -> Result<Seq<ValueView>, Seq<char>>
    decreases j,
{
    if j <= 0 {
        Ok(Seq::new(rows.len(), |r: int| ValueView::Null))
    } else {
        match column_after(rows, ws, ps, j - 1, reg, fl, fin, ud) {
            Err(m) => Err(m),
            Ok(col) => {
                let sorted = window_sorted(ps[j - 1].1, rows, ws, fl);
                match window_values(ws.func, keys_in(sorted, rows, ws), inputs_in(sorted, rows, ws), reg, fl, fin, ud) {
                    Err(m) => Err(m),
                    Ok(vals) => Ok(write_values(col, sorted, vals)),
                }
            },
        }
    }
}

/// The binding key under which the window value of column `i` is stored.
pub open spec fn win_key(i: nat) -> Seq<char> {
    "__win_"@ + nat_text(i)
}

/// Rows annotated with the window expression `ws` of column `i`.
pub open spec fn spec_apply_window(
    rows: Seq<Map<Seq<char>, ValueView>>,
    i: nat,
    ws: WindowSpecView,
    reg: RegistryView,
    fl: spec_fn(FloatOp, ValueView, ValueView) -> Result<ValueView, ()>,
    fin: spec_fn(AggregatedView) -> ValueView,
    ud: spec_fn(Seq<char>, Seq<ValueView>) -> ValueView,
) -> Result<Seq<Map<Seq<char>, ValueView>>, Seq<char>> {
    let ps = partitions_of(rows, ws, rows.len());
    match column_after(rows, ws, ps, ps.len() as int, reg, fl, fin, ud) {
        Err(m) => Err(m),
        Ok(col) => Ok(Seq::new(rows.len(), |r: int| rows[r].insert(win_key(i), col[r]))),
    }
}

/// Rows annotated with the window expressions among `:find` elements
/// `j..`, one after the other; the first failure fails the whole.
pub open spec fn spec_apply_windows(
    rows: Seq<Map<Seq<char>, ValueView>>,
    fs: Seq<FindSpecView>,
    j: int,
    reg: RegistryView,
    fl: spec_fn(FloatOp, ValueView, ValueView) -> Result<ValueView, ()>,
    fin: spec_fn(AggregatedView) -> ValueView,
    ud: spec_fn(Seq<char>, Seq<ValueView>) -> ValueView,
) -> Result<Seq<Map<Seq<char>, ValueView>>, Seq<char>>
    decreases fs.len() - j,
{
    if j < 0 || j >= fs.len() {
        Ok(rows)
    } else {
        match fs[j] {
            FindSpecView::Window(ws) => match spec_apply_window(rows, j as nat, ws, reg, fl, fin, ud) {
                Ok(next) => spec_apply_windows(next, fs, j + 1, reg, fl, fin, ud),
                Err(m) => Err(m),
            },
            _ => spec_apply_windows(rows, fs, j + 1, reg, fl, fin, ud),
        }
    }
}

// ===================== partitions, executed =====================

/// Positions as natural numbers.
pub open spec fn idx_view(s: Seq<usize>) -> Seq<nat> {
    s.map_values(|x: usize| x as nat)
}

/// The model of an optional value.
pub open spec fn opt_value_view(o: Option<Value>) -> Option<ValueView> {
    match o {
        Some(v) => Some(v@),
        None => None,
    }
}

/// The model of the partitions built so far.
pub open spec fn parts_view(keys: Seq<Option<Value>>, parts: Seq<Vec<usize>>) -> Seq<(Option<ValueView>, Seq<nat>)> {
    Seq::new(keys.len(), |i: int| (opt_value_view(keys[i]), idx_view(parts[i]@)))
}

fn partition_key_exec(ws: &WindowSpec, row: &Bindings) -> (r: Option<Value>)
    ensures
        opt_value_view(r) == partition_key(ws@, row@),
{
    match &ws.partition_by {
        Some(pv) => match row.get(pv.as_str()) {
            Some(v) => Some(value_clone(v)),
            None => None,
        },
        None => None,
    }
}

fn same_partition(a: &Option<Value>, b: &Option<Value>) -> (r: bool)
    ensures
        r == (opt_value_view(*a) == opt_value_view(*b)),
{
    match (a, b) {
        (Some(x), Some(y)) => crate::functions::value_eq(x, y),
        (None, None) => true,
        _ => false,
    }
}

proof fn lemma_partition_index(ps: Seq<(Option<ValueView>, Seq<nat>)>, k: Option<ValueView>, i: int)
    requires
        0 <= i <= ps.len(),
        forall|j: int| 0 <= j < i ==> ps[j].0 != k,
    ensures
        i < ps.len() && ps[i].0 == k ==> partition_index(ps, k) == Some(i as nat),
        i == ps.len() ==> partition_index(ps, k) is None,
    decreases ps.len(),
{
    if ps.len() > 0 {
        let t = ps.drop_last();
        if i < t.len() {
            lemma_partition_index(t, k, i);
        } else {
            lemma_partition_index(t, k, t.len() as int);
        }
    }
}

proof fn lemma_partitions_bounded(rows: Seq<Map<Seq<char>, ValueView>>, ws: WindowSpecView, n: nat)
    ensures
        forall|i: int, t: int|
            0 <= i < partitions_of(rows, ws, n).len() && 0 <= t < partitions_of(rows, ws, n)[i].1.len()
                ==> #[trigger] partitions_of(rows, ws, n)[i].1[t] < n,
    decreases n,
{
    if n > 0 {
        let m = (n - 1) as nat;
        lemma_partitions_bounded(rows, ws, m);
        let ps = partitions_of(rows, ws, m);
        let k = partition_key(ws, rows[m as int]);
        assert forall|i: int, t: int|
            0 <= i < partitions_of(rows, ws, n).len() && 0 <= t < partitions_of(rows, ws, n)[i].1.len()
                implies #[trigger] partitions_of(rows, ws, n)[i].1[t] < n by {
            match partition_index(ps, k) {
                Some(j) => {
                    lemma_partition_index_found(ps, k);
                    if i == j {
                        if t < ps[i].1.len() {
                            assert(partitions_of(rows, ws, n)[i].1[t] == ps[i].1[t]);
                        }
                    } else {
                        assert(partitions_of(rows, ws, n)[i] == ps[i]);
                    }
                },
                None => {
                    if i < ps.len() {
                        assert(partitions_of(rows, ws, n)[i] == ps[i]);
                    }
                },
            }
        }
    }
}

proof fn lemma_partition_index_found(ps: Seq<(Option<ValueView>, Seq<nat>)>, k: Option<ValueView>)
    ensures
        partition_index(ps, k) matches Some(j) ==> j < ps.len() && ps[j as int].0 == k,
    decreases ps.len(),
{
    if ps.len() > 0 {
        lemma_partition_index_found(ps.drop_last(), k);
    }
}

fn build_partitions(ws: &WindowSpec, rows: &Vec<Bindings>) -> (r: (Vec<Option<Value>>, Vec<Vec<usize>>))
    ensures
        r.0@.len() == r.1@.len(),
        parts_view(r.0@, r.1@) == partitions_of(rows_view(rows@), ws@, rows@.len()),
{
    let ghost rv = rows_view(rows@);
    let mut keys: Vec<Option<Value>> = Vec::new();
    let mut parts: Vec<Vec<usize>> = Vec::new();
    let mut r: usize = 0;
    proof {
        assert(parts_view(keys@, parts@) =~= partitions_of(rv, ws@, 0));
    }
    while r < rows.len()
        invariant
            r <= rows@.len(),
            rv == rows_view(rows@),
            keys@.len() == parts@.len(),
            parts_view(keys@, parts@) == partitions_of(rv, ws@, r as nat),
        decreases rows@.len() - r,
    {
        let ghost ps = parts_view(keys@, parts@);
        let k = partition_key_exec(ws, &rows[r]);
        let ghost kv = opt_value_view(k);
        assert(rv[r as int] == rows@[r as int]@);
        let mut i: usize = 0;
        while i < keys.len()
            invariant
                i <= keys@.len(),
                ps == parts_view(keys@, parts@),
                kv == opt_value_view(k),
                forall|j: int| 0 <= j < i ==> ps[j].0 != kv,
            ensures
                i <= keys@.len(),
                forall|j: int| 0 <= j < i ==> ps[j].0 != kv,
                i < keys@.len() ==> ps[i as int].0 == kv,
            decreases keys@.len() - i,
        {
            if same_partition(&keys[i], &k) {
                break;
            }
            i = i + 1;
        }
        proof {
            lemma_partition_index(ps, kv, i as int);
        }
        if i < keys.len() {
            let mut m = parts.remove(i);
            let ghost mv = idx_view(m@);
            m.push(r);
            proof {
                assert(idx_view(m@) =~= mv.push(r as nat));
            }
            parts.insert(i, m);
            proof {
                assert(parts_view(keys@, parts@) =~= ps.update(i as int, (kv, ps[i as int].1.push(r as nat))));
            }
        } else {
            keys.push(k);
            let mut m: Vec<usize> = Vec::new();
            m.push(r);
            proof {
                assert(idx_view(m@) =~= seq![r as nat]);
            }
            parts.push(m);
            proof {
                assert(parts_view(keys@, parts@) =~= ps.push((kv, seq![r as nat])));
            }
        }
        r = r + 1;
    }
    (keys, parts)
}

// ===================== window order, executed =====================

fn comes_after_exec<F: Fn(FloatOp, Value, Value) -> Result<Value, ()>>(
    ord: Order,
    a: &Value,
    b: &Value,
    float_step: &F,
) -> (r: bool)
    requires
        float_step_total(*float_step),
        float_step_deterministic(*float_step),
    ensures
        r == comes_after(ord, a@, b@, float_fn(*float_step)),
{
    let c = crate::functions::value_cmp(a, b, float_step);
    match ord {
        Order::Asc => match c {
            Ordering::Greater => true,
            _ => false,
        },
        Order::Desc => match c {
            Ordering::Less => true,
            _ => false,
        },
    }
}

fn order_key_exec(ws: &WindowSpec, row: &Bindings) -> (r: Value)
    ensures
        r@ == order_key(ws@, row@),
{
    match row.get(ws.order_by.as_str()) {
        Some(v) => value_clone(v),
        None => Value::Null,
    }
}

proof fn lemma_insert_split(
    s: Seq<nat>,
    x: nat,
    k: int,
    rows: Seq<Map<Seq<char>, ValueView>>,
    ws: WindowSpecView,
    fl: spec_fn(FloatOp, ValueView, ValueView) -> Result<ValueView, ()>,
)
    requires
        0 < k <= s.len(),
        comes_after(ws.order, order_key(ws, rows[s[k - 1] as int]), order_key(ws, rows[x as int]), fl),
    ensures
        insert_in_order(s.take(k), x, rows, ws, fl) + s.skip(k) == insert_in_order(s.take(k - 1), x, rows, ws, fl)
            + s.skip(k - 1),
{
    assert(s.take(k).drop_last() =~= s.take(k - 1));
    assert(s.take(k).last() == s[k - 1]);
    assert(s.skip(k - 1) =~= seq![s[k - 1]] + s.skip(k));
    assert(insert_in_order(s.take(k - 1), x, rows, ws, fl).push(s[k - 1]) + s.skip(k) =~= insert_in_order(
        s.take(k - 1),
        x,
        rows,
        ws,
        fl,
    ) + (seq![s[k - 1]] + s.skip(k)));
}

fn sort_partition<F: Fn(FloatOp, Value, Value) -> Result<Value, ()>>(
    rows: &Vec<Bindings>,
    idxs: &Vec<usize>,
    ws: &WindowSpec,
    float_step: &F,
) -> (r: Vec<usize>)
    requires
        float_step_total(*float_step),
        float_step_deterministic(*float_step),
        forall|t: int| 0 <= t < idxs@.len() ==> idxs@[t] < rows@.len(),
    ensures
        idx_view(r@) == window_sorted(idx_view(idxs@), rows_view(rows@), ws@, float_fn(*float_step)),
        forall|t: int| 0 <= t < r@.len() ==> r@[t] < rows@.len(),
{
    let ghost rv = rows_view(rows@);
    let ghost fl = float_fn(*float_step);
    let ghost iv = idx_view(idxs@);
    let mut sorted: Vec<usize> = Vec::new();
    let mut j: usize = 0;
    proof {
        assert(iv.take(0) =~= Seq::<nat>::empty());
        assert(idx_view(sorted@) =~= Seq::<nat>::empty());
    }
    while j < idxs.len()
        invariant
            float_step_total(*float_step),
            float_step_deterministic(*float_step),
            fl == float_fn(*float_step),
            rv == rows_view(rows@),
            iv == idx_view(idxs@),
            j <= idxs@.len(),
            forall|t: int| 0 <= t < idxs@.len() ==> idxs@[t] < rows@.len(),
            forall|t: int| 0 <= t < sorted@.len() ==> sorted@[t] < rows@.len(),
            idx_view(sorted@) == window_sorted(iv.take(j as int), rv, ws@, fl),
        decreases idxs@.len() - j,
    {
        let x = idxs[j];
        let xk = order_key_exec(ws, &rows[x]);
        let ghost sv = idx_view(sorted@);
        proof {
            assert(iv.take(j + 1).drop_last() =~= iv.take(j as int));
            assert(iv.take(j + 1).last() == x as nat);
            assert(rv[x as int] == rows@[x as int]@);
            assert(sv.take(sv.len() as int) =~= sv);
            assert(sv.skip(sv.len() as int) =~= Seq::<nat>::empty());
            assert(insert_in_order(sv, x as nat, rv, ws@, fl) =~= insert_in_order(sv.take(sv.len() as int), x as nat, rv, ws@, fl) + sv.skip(sv.len() as int));
        }
        let mut k: usize = sorted.len();
        loop
            invariant
                float_step_total(*float_step),
                float_step_deterministic(*float_step),
                fl == float_fn(*float_step),
                rv == rows_view(rows@),
                sv == idx_view(sorted@),
                k <= sorted@.len(),
                forall|t: int| 0 <= t < sorted@.len() ==> sorted@[t] < rows@.len(),
                xk@ == order_key(ws@, rv[x as int]),
                insert_in_order(sv, x as nat, rv, ws@, fl) == insert_in_order(sv.take(k as int), x as nat, rv, ws@, fl)
                    + sv.skip(k as int),
            ensures
                k <= sorted@.len(),
                insert_in_order(sv, x as nat, rv, ws@, fl) == insert_in_order(sv.take(k as int), x as nat, rv, ws@, fl)
                    + sv.skip(k as int),
                k == 0 || !comes_after(ws@.order, order_key(ws@, rv[sv[k - 1] as int]), order_key(ws@, rv[x as int]), fl),
            decreases k,
        {
            if k == 0 {
                break;
            }
            let y = sorted[k - 1];
            let yk = order_key_exec(ws, &rows[y]);
            proof {
                assert(rv[y as int] == rows@[y as int]@);
                assert(sv[k - 1] == y as nat);
            }
            if !comes_after_exec(ws.order, &yk, &xk, float_step) {
                break;
            }
            proof {
                lemma_insert_split(sv, x as nat, k as int, rv, ws@, fl);
            }
            k = k - 1;
        }
        proof {
            if k == 0 {
                assert(sv.take(0) =~= Seq::<nat>::empty());
            } else {
                assert(insert_in_order(sv.take(k as int), x as nat, rv, ws@, fl) == sv.take(k as int).push(x as nat)) by {
                    assert(sv.take(k as int).last() == sv[k - 1]);
                }
            }
        }
        sorted.insert(k, x);
        proof {
            assert(idx_view(sorted@) =~= sv.take(k as int).push(x as nat) + sv.skip(k as int));
        }
        j = j + 1;
    }
    proof {
        assert(iv.take(idxs@.len() as int) =~= iv);
    }
    sorted
}

// ===================== window values, executed =====================

fn window_func_name_exec(f: &WindowFunc) -> (r: String)
    ensures
        r@ == window_func_name(f@),
{
    match f {
        WindowFunc::Sum => owned("sum"),
        WindowFunc::Count => owned("count"),
        WindowFunc::Min => owned("min"),
        WindowFunc::Max => owned("max"),
        WindowFunc::Avg => owned("avg"),
        WindowFunc::Rank => owned("rank"),
        WindowFunc::RowNumber => owned("row-number"),
        WindowFunc::Udf(n) => n.clone(),
    }
}

fn clone_all(vs: &Vec<Value>) -> (r: Vec<Value>)
    ensures
        values_view(r@) == values_view(vs@),
{
    let mut out: Vec<Value> = Vec::new();
    let mut k: usize = 0;
    while k < vs.len()
        invariant
            k <= vs@.len(),
            values_view(out@) == values_view(vs@).take(k as int),
        decreases vs@.len() - k,
    {
        let ghost prev = out@;
        out.push(value_clone(&vs[k]));
        proof {
            assert(values_view(out@) =~= values_view(prev).push(vs@[k as int]@));
            assert(values_view(vs@).take(k + 1) =~= values_view(vs@).take(k as int).push(vs@[k as int]@));
        }
        k = k + 1;
    }
    proof {
        assert(values_view(vs@).take(vs@.len() as int) =~= values_view(vs@));
    }
    out
}

fn builtin_running_exec<F: Fn(FloatOp, Value, Value) -> Result<Value, ()>, H: Fn(Aggregated) -> Value>(
    vs: &Vec<Value>,
    float_step: &F,
    finish: &H,
    kind: u8,
) -> (r: Vec<Value>)
    requires
        float_step_total(*float_step),
        float_step_deterministic(*float_step),
        finish_total(*finish),
        finish_deterministic(*finish),
    ensures
        values_view(r@) == Seq::new(
            vs@.len(),
            |t: int|
                builtin_running(
                    builtin_name(kind),
                    values_view(vs@).take(t + 1),
                    float_fn(*float_step),
                    finish_fn(*finish),
                ),
        ),
{
    let ghost vv = values_view(vs@);
    let ghost fl = float_fn(*float_step);
    let ghost fin = finish_fn(*finish);
    let ghost name = builtin_name(kind);
    let mut out: Vec<Value> = Vec::new();
    let mut count: usize = 0;
    let mut nums: Vec<Value> = Vec::new();
    let mut extreme: Option<Value> = None;
    let mut t: usize = 0;
    proof {
        assert(vv.take(0) =~= Seq::<ValueView>::empty());
    }
    while t < vs.len()
        invariant
            float_step_total(*float_step),
            float_step_deterministic(*float_step),
            finish_total(*finish),
            finish_deterministic(*finish),
            fl == float_fn(*float_step),
            fin == finish_fn(*finish),
            name == builtin_name(kind),
            vv == values_view(vs@),
            t <= vs@.len(),
            count as nat == non_null_count(vv.take(t as int)),
            count <= t,
            values_view(nums@) == numbers(vv.take(t as int)),
            opt_value_view(extreme) == running_extreme(vv.take(t as int), kind == 2, fl),
            values_view(out@) == Seq::new(t as nat, |s: int| builtin_running(name, vv.take(s + 1), fl, fin)),
        decreases vs@.len() - t,
    {
        let v = &vs[t];
        proof {
            assert(vv.take(t + 1).drop_last() =~= vv.take(t as int));
            assert(vv.take(t + 1).last() == v@);
        }
        if !matches!(v, Value::Null) {
            count = count + 1;
        }
        if crate::expression::is_number_value(v) {
            nums.push(value_clone(v));
            proof {
                assert(values_view(nums@) =~= numbers(vv.take(t as int)).push(v@));
            }
        }
        if !matches!(v, Value::Null) {
            let replace = match &extreme {
                None => true,
                Some(c) => if kind == 2 {
                    crate::functions::value_lt(v, c, float_step)
                } else {
                    crate::functions::value_lt(c, v, float_step)
                },
            };
            if replace {
                extreme = Some(value_clone(v));
            }
        }
        let value = if kind == 0 {
            Value::Integer(crate::functions::count_exec(count))
        } else if kind == 1 {
            finish_exec(Aggregated::RunningSum(clone_all(&nums)), finish)
        } else if kind == 2 || kind == 3 {
            match &extreme {
                Some(x) => value_clone(x),
                None => Value::Null,
            }
        } else if kind == 4 {
            if nums.len() == 0 {
                Value::Null
            } else {
                finish_exec(Aggregated::FloatMean(clone_all(&nums)), finish)
            }
        } else {
            Value::Null
        };
        proof {
            reveal_strlit("count");
            reveal_strlit("sum");
            reveal_strlit("min");
            reveal_strlit("max");
            reveal_strlit("avg");
            reveal_strlit("other");
            assert("count"@.len() == 5 && "sum"@.len() == 3 && "min"@.len() == 3 && "max"@.len() == 3 && "avg"@.len() == 3
                && "other"@.len() == 5);
            assert("sum"@[0] == 's' && "min"@[0] == 'm' && "max"@[0] == 'm' && "avg"@[0] == 'a');
            assert("min"@[1] == 'i' && "max"@[1] == 'a');
            assert("count"@[0] == 'c' && "other"@[0] == 'o');
            assert(value@ == builtin_running(name, vv.take(t + 1), fl, fin));
        }
        let ghost prev = out@;
        out.push(value);
        proof {
            assert(values_view(out@) =~= values_view(prev).push(value@));
            assert(values_view(out@) =~= Seq::new((t + 1) as nat, |s: int| builtin_running(name, vv.take(s + 1), fl, fin)));
        }
        t = t + 1;
    }
    out
}

/// The aggregate name a built-in kind stands for.
pub open spec fn builtin_name(kind: u8) -> Seq<char> {
    if kind == 0 {
        "count"@
    } else if kind == 1 {
        "sum"@
    } else if kind == 2 {
        "min"@
    } else if kind == 3 {
        "max"@
    } else if kind == 4 {
        "avg"@
    } else {
        "other"@
    }
}

fn builtin_kind(name: &str) -> (k: u8)
    ensures
        builtin_name(k) == name@ || (k == 5 && name@ != "count"@ && name@ != "sum"@ && name@ != "min"@ && name@
            != "max"@ && name@ != "avg"@),
        k <= 5,
{
    if str_eq(name, "count") {
        0
    } else if str_eq(name, "sum") {
        1
    } else if str_eq(name, "min") {
        2
    } else if str_eq(name, "max") {
        3
    } else if str_eq(name, "avg") {
        4
    } else {
        5
    }
}

/// `row-number` numbers the rows of a partition 1, 2, 3, ... in window
/// order, whatever their keys.
pub proof fn lemma_row_number_counts_rows(
    keys: Seq<ValueView>,
    vs: Seq<ValueView>,
    reg: RegistryView,
    fl: spec_fn(FloatOp, ValueView, ValueView) -> Result<ValueView, ()>,
    fin: spec_fn(AggregatedView) -> ValueView,
    ud: spec_fn(Seq<char>, Seq<ValueView>) -> ValueView,
)
    requires
        keys.len() <= i64::MAX,
    ensures
        ({
            let r = window_values(WindowFuncView::RowNumber, keys, vs, reg, fl, fin, ud);
            &&& r is Ok
            &&& r->Ok_0.len() == keys.len()
            &&& keys.len() > 0 ==> r->Ok_0[0] == ValueView::Integer(1)
            &&& forall|t: int|
                0 < t < keys.len() ==> (#[trigger] r->Ok_0[t]) == ValueView::Integer(
                    (r->Ok_0[t - 1]->Integer_0 + 1) as i64,
                )
        }),
{
}

proof fn lemma_non_null_count_bound(vs: Seq<ValueView>)
    ensures
        non_null_count(vs) <= vs.len(),
    decreases vs.len(),
{
    if vs.len() > 0 {
        lemma_non_null_count_bound(vs.drop_last());
    }
}

proof fn lemma_count_values(
    keys: Seq<ValueView>,
    vs: Seq<ValueView>,
    reg: RegistryView,
    fl: spec_fn(FloatOp, ValueView, ValueView) -> Result<ValueView, ()>,
    fin: spec_fn(AggregatedView) -> ValueView,
    ud: spec_fn(Seq<char>, Seq<ValueView>) -> ValueView,
) -> (counts: Seq<ValueView>)
    requires
        reg.aggregates.contains_key("count"@),
        reg.aggregates["count"@].impl_ != AggImpl::Udf,
        vs.len() < i64::MAX,
    ensures
        window_values(WindowFuncView::Count, keys, vs, reg, fl, fin, ud) == Ok::<Seq<ValueView>, Seq<char>>(counts),
        counts.len() == vs.len(),
        forall|t: int|
            0 <= t < vs.len() ==> #[trigger] counts[t] == ValueView::Integer(non_null_count(vs.take(t + 1)) as i64),
{
    assert(window_func_name(WindowFuncView::Count) == "count"@);
    let counts = Seq::new(vs.len(), |t: int| builtin_running("count"@, vs.take(t + 1), fl, fin));
    assert forall|t: int| 0 <= t < vs.len() implies #[trigger] counts[t] == ValueView::Integer(
        non_null_count(vs.take(t + 1)) as i64,
    ) by {
        lemma_non_null_count_bound(vs.take(t + 1));
    }
    counts
}

/// A built-in running `count` counts the non-null inputs so far: the first
/// row counts 1 when its input is non-null and 0 otherwise, and each later
/// row counts one more than the row before when its input is non-null and
/// the same otherwise.
pub proof fn lemma_running_count_steps(
    keys: Seq<ValueView>,
    vs: Seq<ValueView>,
    reg: RegistryView,
    fl: spec_fn(FloatOp, ValueView, ValueView) -> Result<ValueView, ()>,
    fin: spec_fn(AggregatedView) -> ValueView,
    ud: spec_fn(Seq<char>, Seq<ValueView>) -> ValueView,
)
    requires
        reg.aggregates.contains_key("count"@),
        reg.aggregates["count"@].impl_ != AggImpl::Udf,
        vs.len() < i64::MAX,
    ensures
        ({
            let r = window_values(WindowFuncView::Count, keys, vs, reg, fl, fin, ud);
            &&& r is Ok
            &&& r->Ok_0.len() == vs.len()
            &&& vs.len() > 0 ==> r->Ok_0[0] == ValueView::Integer(if vs[0] is Null { 0 } else { 1 })
            &&& forall|t: int|
                0 < t < vs.len() ==> (#[trigger] r->Ok_0[t]) == ValueView::Integer(
                    (r->Ok_0[t - 1]->Integer_0 + if vs[t] is Null {
                        0int
                    } else {
                        1int
                    }) as i64,
                )
        }),
{
    let counts = lemma_count_values(keys, vs, reg, fl, fin, ud);
    let r = window_values(WindowFuncView::Count, keys, vs, reg, fl, fin, ud);
    assert(r->Ok_0 == counts);
    if vs.len() > 0 {
        assert(vs.take(1).drop_last() =~= Seq::<ValueView>::empty());
        assert(vs.take(1).last() == vs[0]);
        assert(vs.take(1).len() == 1);
        assert(non_null_count(Seq::<ValueView>::empty()) == 0);
        assert(non_null_count(vs.take(1)) == non_null_count(vs.take(1).drop_last()) + if vs.take(1).last() is Null {
            0nat
        } else {
            1nat
        });
        assert(r->Ok_0[0] == ValueView::Integer(non_null_count(vs.take(1)) as i64));
    }
    assert forall|t: int| 0 < t < vs.len() implies (#[trigger] r->Ok_0[t]) == ValueView::Integer(
        (r->Ok_0[t - 1]->Integer_0 + if vs[t] is Null {
            0int
        } else {
            1int
        }) as i64,
    ) by {
        assert(vs.take(t + 1).drop_last() =~= vs.take(t));
        assert(vs.take(t + 1).last() == vs[t]);
        lemma_non_null_count_bound(vs.take(t));
        assert(counts[t - 1] == ValueView::Integer(non_null_count(vs.take(t)) as i64));
        assert(counts[t] == ValueView::Integer(non_null_count(vs.take(t + 1)) as i64));
    }
}

/// Over integers, the running extreme is one of the values and is at most
/// (`min`) or at least (`max`) every one of them.
proof fn lemma_running_extreme_ints(
    vs: Seq<ValueView>,
    min: bool,
    fl: spec_fn(FloatOp, ValueView, ValueView) -> Result<ValueView, ()>,
)
    requires
        vs.len() > 0,
        forall|j: int| 0 <= j < vs.len() ==> #[trigger] vs[j] is Integer,
    ensures
        running_extreme(vs, min, fl) matches Some(ValueView::Integer(m)) && (exists|j: int|
            0 <= j < vs.len() && #[trigger] vs[j] == ValueView::Integer(m)) && (forall|j: int|
            0 <= j < vs.len() ==> if min {
                m <= (#[trigger] vs[j])->Integer_0
            } else {
                m >= vs[j]->Integer_0
            }),
    decreases vs.len(),
{
    let d = vs.drop_last();
    let v = vs.last();
    assert(v == vs[vs.len() - 1]);
    if d.len() == 0 {
        assert(running_extreme(d, min, fl) is None);
        assert(vs[0] == v);
    } else {
        assert forall|j: int| 0 <= j < d.len() implies #[trigger] d[j] is Integer by {
            assert(d[j] == vs[j]);
        }
        lemma_running_extreme_ints(d, min, fl);
        let m0 = running_extreme(d, min, fl)->Some_0->Integer_0;
        let j0 = choose|j: int| 0 <= j < d.len() && #[trigger] d[j] == ValueView::Integer(m0);
        assert(vs[j0] == d[j0]);
        assert forall|j: int| 0 <= j < d.len() implies (if min {
            m0 <= (#[trigger] vs[j])->Integer_0
        } else {
            m0 >= vs[j]->Integer_0
        }) by {
            assert(d[j] == vs[j]);
        }
    }
}

/// A built-in running `min` (or `max`) over integer inputs gives, at each
/// row, one of the inputs so far that is at most (at least) every input so
/// far.
pub proof fn lemma_running_min_max_ints(
    keys: Seq<ValueView>,
    vs: Seq<ValueView>,
    reg: RegistryView,
    fl: spec_fn(FloatOp, ValueView, ValueView) -> Result<ValueView, ()>,
    fin: spec_fn(AggregatedView) -> ValueView,
    ud: spec_fn(Seq<char>, Seq<ValueView>) -> ValueView,
    min: bool,
)
    requires
        reg.aggregates.contains_key(if min { "min"@ } else { "max"@ }),
        reg.aggregates[if min { "min"@ } else { "max"@ }].impl_ != AggImpl::Udf,
        forall|j: int| 0 <= j < vs.len() ==> #[trigger] vs[j] is Integer,
    ensures
        ({
            let f = if min { WindowFuncView::Min } else { WindowFuncView::Max };
            let r = window_values(f, keys, vs, reg, fl, fin, ud);
            &&& r is Ok
            &&& r->Ok_0.len() == vs.len()
        }),
        ({
            let f = if min { WindowFuncView::Min } else { WindowFuncView::Max };
            let r = window_values(f, keys, vs, reg, fl, fin, ud);
            forall|t: int, j: int|
                0 <= j <= t < vs.len() ==> (#[trigger] r->Ok_0[t]) is Integer && (if min {
                    r->Ok_0[t]->Integer_0 <= (#[trigger] vs[j])->Integer_0
                } else {
                    r->Ok_0[t]->Integer_0 >= vs[j]->Integer_0
                })
        }),
        ({
            let f = if min { WindowFuncView::Min } else { WindowFuncView::Max };
            let r = window_values(f, keys, vs, reg, fl, fin, ud);
            forall|t: int| 0 <= t < vs.len() ==> vs.take(t + 1).contains(#[trigger] r->Ok_0[t])
        }),
{
    let f = if min { WindowFuncView::Min } else { WindowFuncView::Max };
    let name = if min { "min"@ } else { "max"@ };
    reveal_strlit("min");
    reveal_strlit("max");
    reveal_strlit("count");
    reveal_strlit("sum");
    assert("min"@[1] != "max"@[1]);
    assert("min"@[0] != "sum"@[0] && "max"@[0] != "sum"@[0]);
    assert("min"@.len() != "count"@.len() && "max"@.len() != "count"@.len());
    assert(window_func_name(f) == name);
    let r = window_values(f, keys, vs, reg, fl, fin, ud);
    assert(f != WindowFuncView::RowNumber && f != WindowFuncView::Rank);
    assert(reg.aggregates.contains_key(name));
    assert(r == Ok::<Seq<ValueView>, Seq<char>>(
        Seq::new(vs.len(), |t: int| builtin_running(name, vs.take(t + 1), fl, fin)),
    ));
    assert forall|t: int| #![trigger r->Ok_0[t]] 0 <= t < vs.len() implies ({
        let e = running_extreme(vs.take(t + 1), min, fl);
        &&& r->Ok_0[t] == e->Some_0
        &&& e matches Some(ValueView::Integer(m))
        &&& (exists|j: int| 0 <= j <= t && #[trigger] vs[j] == e->Some_0)
        &&& forall|j: int| 0 <= j <= t ==> if min {
            m <= (#[trigger] vs[j])->Integer_0
        } else {
            m >= vs[j]->Integer_0
        }
    }) by {
        let w = vs.take(t + 1);
        assert forall|j: int| 0 <= j < w.len() implies #[trigger] w[j] is Integer by {
            assert(w[j] == vs[j]);
        }
        lemma_running_extreme_ints(w, min, fl);
        assert(name == "min"@ || name == "max"@);
        assert((name == "min"@) == min);
        assert(r->Ok_0[t] == builtin_running(name, w, fl, fin));
        let m = running_extreme(w, min, fl)->Some_0->Integer_0;
        let j0 = choose|j: int| 0 <= j < w.len() && #[trigger] w[j] == ValueView::Integer(m);
        assert(vs[j0] == w[j0]);
        assert forall|j: int| 0 <= j <= t implies (if min {
            m <= (#[trigger] vs[j])->Integer_0
        } else {
            m >= vs[j]->Integer_0
        }) by {
            assert(w[j] == vs[j]);
        }
    }
    assert forall|t: int, j: int| 0 <= j <= t < vs.len() implies (#[trigger] r->Ok_0[t]) is Integer && (if min {
        r->Ok_0[t]->Integer_0 <= (#[trigger] vs[j])->Integer_0
    } else {
        r->Ok_0[t]->Integer_0 >= vs[j]->Integer_0
    }) by {
        assert(r->Ok_0[t] == r->Ok_0[t]);
    }
    assert forall|t: int| 0 <= t < vs.len() implies vs.take(t + 1).contains(#[trigger] r->Ok_0[t]) by {
        let e = running_extreme(vs.take(t + 1), min, fl);
        assert(r->Ok_0[t] == e->Some_0);
        let j0 = choose|j: int| 0 <= j <= t && #[trigger] vs[j] == e->Some_0;
        assert(vs.take(t + 1)[j0] == r->Ok_0[t]);
    }
}

/// The model of a list of window values or the error.
pub open spec fn values_result_view(r: Result<Vec<Value>, String>) -> Result<Seq<ValueView>, Seq<char>> {
    match r {
        Ok(v) => Ok(values_view(v@)),
        Err(e) => Err(e@),
    }
}

fn window_values_exec<
    F: Fn(FloatOp, Value, Value) -> Result<Value, ()>,
    H: Fn(Aggregated) -> Value,
    U: Fn(&str, &Vec<Value>) -> Value,
>(
    func: &WindowFunc,
    keys: &Vec<Value>,
    vs: &Vec<Value>,
    registry: &FunctionRegistry,
    float_step: &F,
    finish: &H,
    udf: &U,
) -> (r: Result<Vec<Value>, String>)
    requires
        float_step_total(*float_step),
        float_step_deterministic(*float_step),
        finish_total(*finish),
        finish_deterministic(*finish),
        udf_total(*udf),
        udf_deterministic(*udf),
        keys@.len() == vs@.len(),
    ensures
        values_result_view(r) == window_values(
            func@,
            values_view(keys@),
            values_view(vs@),
            registry@,
            float_fn(*float_step),
            finish_fn(*finish),
            udf_fn(*udf),
        ),
{
    let ghost kv = values_view(keys@);
    let ghost vv = values_view(vs@);
    match func {
        WindowFunc::RowNumber => {
            if keys.len() as u64 > 9223372036854775807u64 {
                return Err(owned("row number overflow"));
            }
            let mut out: Vec<Value> = Vec::new();
            let mut t: usize = 0;
            while t < keys.len()
                invariant
                    t <= keys@.len(),
                    keys@.len() <= i64::MAX,
                    values_view(out@) == Seq::new(t as nat, |s: int| ValueView::Integer((s + 1) as i64)),
                decreases keys@.len() - t,
            {
                let ghost prev = out@;
                out.push(Value::Integer((t + 1) as i64));
                proof {
                    assert(values_view(out@) =~= values_view(prev).push(ValueView::Integer((t + 1) as i64)));
                    assert(values_view(out@) =~= Seq::new((t + 1) as nat, |s: int| ValueView::Integer((s + 1) as i64)));
                }
                t = t + 1;
            }
            Ok(out)
        },
        WindowFunc::Rank => {
            let mut out: Vec<Value> = Vec::new();
            let mut rank: usize = 1;
            let mut t: usize = 0;
            while t < keys.len()
                invariant
                    t <= keys@.len(),
                    kv == values_view(keys@),
                    t > 0 ==> rank == rank_at(kv, t - 1),
                    1 <= rank <= t + 1,
                    values_view(out@) == Seq::new(
                        t as nat,
                        |s: int| ValueView::Integer(count_value(rank_at(kv, s) as nat)),
                    ),
                decreases keys@.len() - t,
            {
                if t == 0 || !crate::functions::value_eq(&keys[t], &keys[t - 1]) {
                    rank = t + 1;
                }
                proof {
                    assert(rank == rank_at(kv, t as int));
                }
                let ghost prev = out@;
                let c = crate::functions::count_exec(rank);
                out.push(Value::Integer(c));
                proof {
                    assert(values_view(out@) =~= values_view(prev).push(ValueView::Integer(c)));
                    assert(values_view(out@) =~= Seq::new(
                        (t + 1) as nat,
                        |s: int| ValueView::Integer(count_value(rank_at(kv, s) as nat)),
                    ));
                }
                t = t + 1;
            }
            Ok(out)
        },
        _ => {
            let name = window_func_name_exec(func);
            match registry.get(name.as_str()) {
                None => {
                    let mut msg = concat("unknown window function '", name.as_str());
                    msg.append("' \u{2014} register it with register_aggregate() before querying");
                    Err(msg)
                },
                Some(d) => {
                    if d.impl_ == AggImpl::Udf {
                        let ghost ud = udf_fn(*udf);
                        let mut prefix: Vec<Value> = Vec::new();
                        let mut out: Vec<Value> = Vec::new();
                        let mut t: usize = 0;
                        while t < vs.len()
                            invariant
                                udf_total(*udf),
                                udf_deterministic(*udf),
                                ud == udf_fn(*udf),
                                vv == values_view(vs@),
                                t <= vs@.len(),
                                values_view(prefix@) == vv.take(t as int),
                                values_view(out@) == Seq::new(t as nat, |s: int| ud(name@, vv.take(s + 1))),
                            decreases vs@.len() - t,
                        {
                            let ghost pp = prefix@;
                            prefix.push(value_clone(&vs[t]));
                            proof {
                                assert(values_view(prefix@) =~= values_view(pp).push(vs@[t as int]@));
                                assert(vv.take(t + 1) =~= vv.take(t as int).push(vs@[t as int]@));
                            }
                            let nm = name.as_str();
                            let o = udf(nm, &prefix);
                            proof {
                                lemma_udf_answer(*udf, nm, &prefix, o);
                            }
                            let ghost prev = out@;
                            out.push(o);
                            proof {
                                assert(values_view(out@) =~= values_view(prev).push(o@));
                                assert(values_view(out@) =~= Seq::new((t + 1) as nat, |s: int| ud(name@, vv.take(s + 1))));
                            }
                            t = t + 1;
                        }
                        Ok(out)
                    } else {
                        let kind = builtin_kind(name.as_str());
                        let out = builtin_running_exec(vs, float_step, finish, kind);
                        proof {
                            if kind == 5 {
                                reveal_strlit("count");
                                reveal_strlit("sum");
                                reveal_strlit("min");
                                reveal_strlit("max");
                                reveal_strlit("avg");
                                reveal_strlit("other");
                                assert("count"@.len() == 5 && "sum"@.len() == 3 && "min"@.len() == 3 && "max"@.len() == 3
                                    && "avg"@.len() == 3 && "other"@.len() == 5);
                                assert("count"@[0] == 'c' && "other"@[0] == 'o');
                                assert(builtin_name(kind) != "count"@ && builtin_name(kind) != "sum"@ && builtin_name(kind)
                                    != "min"@ && builtin_name(kind) != "max"@ && builtin_name(kind) != "avg"@);
                                assert(values_view(out@) =~= Seq::new(
                                    vv.len(),
                                    |t: int| builtin_running(name@, vv.take(t + 1), float_fn(*float_step), finish_fn(*finish)),
                                ));
                            }
                        }
                        Ok(out)
                    }
                },
            }
        },
    }
}

// ===================== applying a window =====================

fn write_column(col: &mut Vec<Value>, sorted: &Vec<usize>, vals: &Vec<Value>)
    requires
        forall|t: int| 0 <= t < sorted@.len() ==> sorted@[t] < old(col)@.len(),
        vals@.len() == sorted@.len(),
    ensures
        final(col)@.len() == old(col)@.len(),
        values_view(final(col)@) == write_values(values_view(old(col)@), idx_view(sorted@), values_view(vals@)),
{
    let ghost c0 = values_view(col@);
    let ghost sv = idx_view(sorted@);
    let ghost vv = values_view(vals@);
    let mut t: usize = 0;
    proof {
        assert(sv.take(0) =~= Seq::<nat>::empty());
    }
    while t < sorted.len()
        invariant
            t <= sorted@.len(),
            vals@.len() == sorted@.len(),
            col@.len() == old(col)@.len(),
            c0 == values_view(old(col)@),
            sv == idx_view(sorted@),
            vv == values_view(vals@),
            forall|s: int| 0 <= s < sorted@.len() ==> sorted@[s] < old(col)@.len(),
            values_view(col@) == write_values(c0, sv.take(t as int), vv),
        decreases sorted@.len() - t,
    {
        let ghost prev = values_view(col@);
        col.set(sorted[t], value_clone(&vals[t]));
        proof {
            assert(sv.take(t + 1).drop_last() =~= sv.take(t as int));
            assert(sv.take(t + 1).last() == sorted@[t as int] as nat);
            assert(values_view(col@) =~= prev.update(sorted@[t as int] as int, vals@[t as int]@));
        }
        t = t + 1;
    }
    proof {
        assert(sv.take(sorted@.len() as int) =~= sv);
    }
}

fn window_input_exec(ws: &WindowSpec, row: &Bindings) -> (r: Value)
    ensures
        r@ == window_input(ws@, row@),
{
    match &ws.var {
        Some(v) => match row.get(v.as_str()) {
            Some(x) => value_clone(x),
            None => Value::Null,
        },
        None => Value::Null,
    }
}

proof fn lemma_insert_len(
    s: Seq<nat>,
    x: nat,
    rows: Seq<Map<Seq<char>, ValueView>>,
    ws: WindowSpecView,
    fl: spec_fn(FloatOp, ValueView, ValueView) -> Result<ValueView, ()>,
)
    ensures
        insert_in_order(s, x, rows, ws, fl).len() == s.len() + 1,
    decreases s.len(),
{
    if s.len() > 0 {
        lemma_insert_len(s.drop_last(), x, rows, ws, fl);
    }
}

proof fn lemma_sorted_len(
    s: Seq<nat>,
    rows: Seq<Map<Seq<char>, ValueView>>,
    ws: WindowSpecView,
    fl: spec_fn(FloatOp, ValueView, ValueView) -> Result<ValueView, ()>,
)
    ensures
        window_sorted(s, rows, ws, fl).len() == s.len(),
    decreases s.len(),
{
    if s.len() > 0 {
        lemma_sorted_len(s.drop_last(), rows, ws, fl);
        lemma_insert_len(window_sorted(s.drop_last(), rows, ws, fl), s.last(), rows, ws, fl);
    }
}

proof fn lemma_column_err(
    rows: Seq<Map<Seq<char>, ValueView>>,
    ws: WindowSpecView,
    ps: Seq<(Option<ValueView>, Seq<nat>)>,
    j0: int,
    j: int,
    reg: RegistryView,
    fl: spec_fn(FloatOp, ValueView, ValueView) -> Result<ValueView, ()>,
    fin: spec_fn(AggregatedView) -> ValueView,
    ud: spec_fn(Seq<char>, Seq<ValueView>) -> ValueView,
)
    requires
        0 < j0 <= j,
        column_after(rows, ws, ps, j0, reg, fl, fin, ud) is Err,
    ensures
        column_after(rows, ws, ps, j, reg, fl, fin, ud) == column_after(rows, ws, ps, j0, reg, fl, fin, ud),
    decreases j - j0,
{
    if j > j0 {
        lemma_column_err(rows, ws, ps, j0, j - 1, reg, fl, fin, ud);
    }
}

fn win_key_exec(i: usize) -> (r: String)
    ensures
        r@ == win_key(i as nat),
{
    let mut k = owned("__win_");
    push_u64_text(&mut k, i as u64);
    k
}

/// Annotates rows with the window expression of column `i` (see
/// `spec_apply_window`): rows are partitioned, each partition is put in
/// window order by a stable sort, and each row gets its partition's value
/// at its position under `__win_i`.
pub fn apply_window<
    F: Fn(FloatOp, Value, Value) -> Result<Value, ()>,
    H: Fn(Aggregated) -> Value,
    U: Fn(&str, &Vec<Value>) -> Value,
>(
    rows: Vec<Bindings>,
    i: usize,
    ws: &WindowSpec,
    registry: &FunctionRegistry,
    float_step: &F,
    finish: &H,
    udf: &U,
) -> (r: Result<Vec<Bindings>, String>)
    requires
        float_step_total(*float_step),
        float_step_deterministic(*float_step),
        finish_total(*finish),
        finish_deterministic(*finish),
        udf_total(*udf),
        udf_deterministic(*udf),
    ensures
        rows_result_view(r) == spec_apply_window(
            rows_view(rows@),
            i as nat,
            ws@,
            registry@,
            float_fn(*float_step),
            finish_fn(*finish),
            udf_fn(*udf),
        ),
{
    let ghost rv = rows_view(rows@);
    let ghost fl = float_fn(*float_step);
    let ghost fin = finish_fn(*finish);
    let ghost ud = udf_fn(*udf);
    let n = rows.len();
    let (pkeys, parts) = build_partitions(ws, &rows);
    let ghost ps = parts_view(pkeys@, parts@);
    proof {
        lemma_partitions_bounded(rv, ws@, n as nat);
    }
    let mut col: Vec<Value> = Vec::new();
    let mut r: usize = 0;
    while r < n
        invariant
            r <= n,
            values_view(col@) == Seq::new(r as nat, |x: int| ValueView::Null),
        decreases n - r,
    {
        let ghost prev = values_view(col@);
        col.push(Value::Null);
        proof {
            assert(values_view(col@) =~= prev.push(ValueView::Null));
            assert(values_view(col@) =~= Seq::new((r + 1) as nat, |x: int| ValueView::Null));
        }
        r = r + 1;
    }
    let mut p: usize = 0;
    while p < parts.len()
        invariant
            float_step_total(*float_step),
            float_step_deterministic(*float_step),
            finish_total(*finish),
            finish_deterministic(*finish),
            udf_total(*udf),
            udf_deterministic(*udf),
            fl == float_fn(*float_step),
            fin == finish_fn(*finish),
            ud == udf_fn(*udf),
            rv == rows_view(rows@),
            n == rows@.len(),
            p <= parts@.len(),
            pkeys@.len() == parts@.len(),
            ps == parts_view(pkeys@, parts@),
            ps == partitions_of(rv, ws@, n as nat),
            forall|a: int, t: int| 0 <= a < ps.len() && 0 <= t < ps[a].1.len() ==> #[trigger] ps[a].1[t] < n,
            col@.len() == n,
            column_after(rv, ws@, ps, p as int, registry@, fl, fin, ud) == Ok::<Seq<ValueView>, Seq<char>>(
                values_view(col@),
            ),
        decreases parts@.len() - p,
    {
        proof {
            assert(ps[p as int].1 == idx_view(parts@[p as int]@));
            assert forall|t: int| 0 <= t < parts@[p as int]@.len() implies parts@[p as int]@[t] < rows@.len() by {
                assert(ps[p as int].1[t] == parts@[p as int]@[t] as nat);
            }
        }
        let sorted = sort_partition(&rows, &parts[p], ws, float_step);
        let ghost sv = idx_view(sorted@);
        let mut keys: Vec<Value> = Vec::new();
        let mut inputs: Vec<Value> = Vec::new();
        let mut t: usize = 0;
        while t < sorted.len()
            invariant
                t <= sorted@.len(),
                sv == idx_view(sorted@),
                rv == rows_view(rows@),
                forall|s: int| 0 <= s < sorted@.len() ==> sorted@[s] < rows@.len(),
                values_view(keys@) == keys_in(sv, rv, ws@).take(t as int),
                values_view(inputs@) == inputs_in(sv, rv, ws@).take(t as int),
            decreases sorted@.len() - t,
        {
            let x = sorted[t];
            let ghost pk = values_view(keys@);
            let ghost pi = values_view(inputs@);
            let kx = order_key_exec(ws, &rows[x]);
            let ix = window_input_exec(ws, &rows[x]);
            keys.push(kx);
            inputs.push(ix);
            proof {
                assert(rv[x as int] == rows@[x as int]@);
                assert(sv[t as int] == x as nat);
                assert(values_view(keys@) =~= pk.push(kx@));
                assert(values_view(inputs@) =~= pi.push(ix@));
                assert(values_view(keys@) =~= keys_in(sv, rv, ws@).take(t + 1));
                assert(values_view(inputs@) =~= inputs_in(sv, rv, ws@).take(t + 1));
            }
            t = t + 1;
        }
        proof {
            assert(keys_in(sv, rv, ws@).take(sorted@.len() as int) =~= keys_in(sv, rv, ws@));
            assert(inputs_in(sv, rv, ws@).take(sorted@.len() as int) =~= inputs_in(sv, rv, ws@));
            lemma_sorted_len(ps[p as int].1, rv, ws@, fl);
        }
        match window_values_exec(&ws.func, &keys, &inputs, registry, float_step, finish, udf) {
            Err(m) => {
                proof {
                    lemma_column_err(rv, ws@, ps, p + 1, ps.len() as int, registry@, fl, fin, ud);
                }
                return Err(m);
            },
            Ok(vals) => {
                proof {
                    assert(values_view(vals@).len() == vals@.len());
                    assert(values_view(keys@).len() == keys@.len());
                }
                write_column(&mut col, &sorted, &vals);
            },
        }
        p = p + 1;
    }
    let key = win_key_exec(i);
    let ghost cv = values_view(col@);
    let mut out: Vec<Bindings> = Vec::new();
    let mut idx: usize = 0;
    for row in iter: rows.into_iter()
        invariant
            idx == iter.index(),
            n == rows@.len(),
            iter.seq() == rows@,
            rv == rows_view(rows@),
            col@.len() == rows@.len(),
            cv == values_view(col@),
            key@ == win_key(i as nat),
            rows_view(out@) == Seq::new(iter.index() as nat, |x: int| rv[x].insert(win_key(i as nat), cv[x])),
    {
        let ghost k = iter.index() as int;
        let mut row = row;
        let ghost before = row@;
        row.insert(key.clone(), value_clone(&col[idx]));
        let ghost prev = rows_view(out@);
        out.push(row);
        proof {
            assert(before == rv[k]);
            assert(rows_view(out@) =~= prev.push(rv[k].insert(win_key(i as nat), cv[k])));
            assert(rows_view(out@) =~= Seq::new((k + 1) as nat, |x: int| rv[x].insert(win_key(i as nat), cv[x])));
        }
        idx = idx + 1;
    }
    Ok(out)
}

/// Annotates rows with every window expression among the `:find`
/// elements, in order (see `spec_apply_windows`).
pub fn apply_window_functions<
    F: Fn(FloatOp, Value, Value) -> Result<Value, ()>,
    H: Fn(Aggregated) -> Value,
    U: Fn(&str, &Vec<Value>) -> Value,
>(
    bindings: Vec<Bindings>,
    find_specs: &Vec<FindSpec>,
    registry: &FunctionRegistry,
    float_step: &F,
    finish: &H,
    udf: &U,
) -> (r: Result<Vec<Bindings>, String>)
    requires
        float_step_total(*float_step),
        float_step_deterministic(*float_step),
        finish_total(*finish),
        finish_deterministic(*finish),
        udf_total(*udf),
        udf_deterministic(*udf),
    ensures
        rows_result_view(r) == spec_apply_windows(
            rows_view(bindings@),
            finds_view(find_specs@),
            0,
            registry@,
            float_fn(*float_step),
            finish_fn(*finish),
            udf_fn(*udf),
        ),
{
    let ghost fv = finds_view(find_specs@);
    let ghost fl = float_fn(*float_step);
    let ghost fin = finish_fn(*finish);
    let ghost ud = udf_fn(*udf);
    let ghost start = rows_view(bindings@);
    let mut rows = bindings;
    let mut i: usize = 0;
    while i < find_specs.len()
        invariant
            float_step_total(*float_step),
            float_step_deterministic(*float_step),
            finish_total(*finish),
            finish_deterministic(*finish),
            udf_total(*udf),
            udf_deterministic(*udf),
            fl == float_fn(*float_step),
            fin == finish_fn(*finish),
            ud == udf_fn(*udf),
            fv == finds_view(find_specs@),
            start == rows_view(bindings@),
            i <= find_specs@.len(),
            spec_apply_windows(start, fv, 0, registry@, fl, fin, ud) == spec_apply_windows(
                rows_view(rows@),
                fv,
                i as int,
                registry@,
                fl,
                fin,
                ud,
            ),
        decreases find_specs@.len() - i,
    {
        assert(fv[i as int] == find_specs@[i as int]@);
        match &find_specs[i] {
            FindSpec::Window(ws) => {
                match apply_window(rows, i, ws, registry, float_step, finish, udf) {
                    Ok(next) => {
                        rows = next;
                    },
                    Err(m) => {
                        return Err(m);
                    },
                }
            },
            _ => {},
        }
        i = i + 1;
    }
    Ok(rows)
}

// ===================== post-processing =====================

/// Result rows from bindings: plain variables are projected directly; with
/// aggregates, rows are first collapsed into groups; window expressions then
/// annotate each row; finally each row is projected in `:find` order.
pub open spec fn spec_post_processing(
    bs: Seq<Map<Seq<char>, ValueView>>,
    fs: Seq<FindSpecView>,
    with_vars: Seq<Seq<char>>,
    reg: RegistryView,
    fl: spec_fn(FloatOp, ValueView, ValueView) -> Result<ValueView, ()>,
    fin: spec_fn(AggregatedView) -> ValueView,
    ud: spec_fn(Seq<char>, Seq<ValueView>) -> ValueView,
) -> Result<Seq<Seq<ValueView>>, Seq<char>> {
    if !has_aggregate(fs) && !has_window(fs) {
        Ok(project(bs, fs))
    } else {
        let collapsed = if has_aggregate(fs) {
            spec_compute_aggregation(bs, fs, with_vars, reg, fin, ud, fl)
        } else {
            Ok(bs)
        };
        match collapsed {
            Err(m) => Err(m),
            Ok(rows) => {
                let annotated = if has_window(fs) {
                    spec_apply_windows(rows, fs, 0, reg, fl, fin, ud)
                } else {
                    Ok(rows)
                };
                match annotated {
                    Err(m) => Err(m),
                    Ok(rows2) => Ok(project(rows2, fs)),
                }
            },
        }
    }
}

/// The model of result rows or an error.
pub open spec fn result_rows_view(r: Result<Vec<Vec<Value>>, String>) -> Result<Seq<Seq<ValueView>>, Seq<char>> {
    match r {
        Ok(rows) => Ok(crate::executor::rows_view(rows@)),
        Err(e) => Err(e@),
    }
}

/// Turns bindings into result rows (see `spec_post_processing`).
pub fn apply_post_processing<
    F: Fn(FloatOp, Value, Value) -> Result<Value, ()>,
    H: Fn(Aggregated) -> Value,
    U: Fn(&str, &Vec<Value>) -> Value,
>(
    bindings: Vec<Bindings>,
    find_specs: &Vec<FindSpec>,
    with_vars: &Vec<String>,
    registry: &FunctionRegistry,
    float_step: &F,
    finish: &H,
    udf: &U,
) -> (r: Result<Vec<Vec<Value>>, String>)
    requires
        float_step_total(*float_step),
        float_step_deterministic(*float_step),
        finish_total(*finish),
        finish_deterministic(*finish),
        udf_total(*udf),
        udf_deterministic(*udf),
    ensures
        result_rows_view(r) == spec_post_processing(
            rows_view(bindings@),
            finds_view(find_specs@),
            strs_view(with_vars@),
            registry@,
            float_fn(*float_step),
            finish_fn(*finish),
            udf_fn(*udf),
        ),
{
    let has_aggregates = has_aggregate_exec(find_specs);
    let has_windows = has_window_exec(find_specs);
    if !has_aggregates && !has_windows {
        return Ok(project_find_specs(&bindings, find_specs));
    }
    let working = if has_aggregates {
        match compute_aggregation(bindings, find_specs, with_vars, registry, float_step, finish, udf) {
            Ok(rows) => rows,
            Err(m) => {
                return Err(m);
            },
        }
    } else {
        bindings
    };
    let annotated = if has_windows {
        match apply_window_functions(working, find_specs, registry, float_step, finish, udf) {
            Ok(rows) => rows,
            Err(m) => {
                return Err(m);
            },
        }
    } else {
        working
    };
    Ok(project_find_specs(&annotated, find_specs))
}

} // verus!
