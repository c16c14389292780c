//! Built-in aggregates over the non-null values of a group: `count`,
//! `count-distinct`, `sum`, `sum-distinct`, `min`, `max`, `avg`.
//!
//! Everything but floating-point arithmetic is decided here; where the
//! result is a float sum, mean or comparison, the values it is taken over
//! are handed back for the caller to compute in `f64`.
use vstd::prelude::*;
use crate::types::{Value, ValueView, value_clone};
use crate::executor::{value_kind_name, value_type_name};
use crate::prepared::{str_lt, name_less, lemma_str_lt_transitive, lemma_str_lt_irreflexive, lemma_str_lt_total};
use crate::text::{owned, concat, str_eq};
use crate::expression::{
    FloatOp, is_number, float_fn, float_step_total, float_step_deterministic, call_float_step, eval_view,
    is_number_value,
};
use std::cmp::Ordering;

verus! {

/// The outcome of a built-in aggregate.
#[derive(Debug, PartialEq)]
pub enum Aggregated {
    /// The aggregate's value.
    Value(Value),
    /// The `f64` sum of these integers and floats, in order.
    FloatSum(Vec<Value>),
    /// The `f64` mean of these integers and floats.
    FloatMean(Vec<Value>),
    /// The least (`min`) or greatest float among these, the first of equals.
    FloatExtreme { values: Vec<Value>, min: bool },
    /// The running `f64` sum of these integers and floats, in order: a
    /// float if any of them is one, else the sum converted to an integer.
    RunningSum(Vec<Value>),
}

/// The model of an aggregate outcome.
pub enum AggregatedView {
    Value(ValueView),
    FloatSum(Seq<ValueView>),
    FloatMean(Seq<ValueView>),
    FloatExtreme { values: Seq<ValueView>, min: bool },
    RunningSum(Seq<ValueView>),
}

/// The models of a list of values.
pub open spec fn values_view(s: Seq<Value>) -> Seq<ValueView> {
    s.map_values(|v: Value| v@)
}

impl View for Aggregated {
    type V = AggregatedView;

    open spec fn view(&self) -> AggregatedView {
        match self {
            Aggregated::Value(v) => AggregatedView::Value(v@),
            Aggregated::FloatSum(vs) => AggregatedView::FloatSum(values_view(vs@)),
            Aggregated::FloatMean(vs) => AggregatedView::FloatMean(values_view(vs@)),
            Aggregated::FloatExtreme { values, min } => AggregatedView::FloatExtreme {
                values: values_view(values@),
                min: *min,
            },
            Aggregated::RunningSum(vs) => AggregatedView::RunningSum(values_view(vs@)),
        }
    }
}

/// Two values are the same for the distinct aggregates: two floats when
/// the float step finds them equal (so `1.0` and `1.00` are one value),
/// other values when they are identical.
pub open spec fn same_value(a: ValueView, b: ValueView, fl: spec_fn(FloatOp, ValueView, ValueView) -> Result<ValueView, ()>) -> bool {
    if a is Float && b is Float {
        fl(FloatOp::Eq, a, b) == Ok::<ValueView, ()>(ValueView::Boolean(true))
    } else {
        a == b
    }
}

/// Some value of `d` is the same as `v`.
pub open spec fn has_same(d: Seq<ValueView>, v: ValueView, fl: spec_fn(FloatOp, ValueView, ValueView) -> Result<ValueView, ()>) -> bool {
    exists|j: int| 0 <= j < d.len() && #[trigger] same_value(d[j], v, fl)
}

/// The values without repeats (see `same_value`), each at its first
/// occurrence.
pub open spec fn distinct(vs: Seq<ValueView>, fl: spec_fn(FloatOp, ValueView, ValueView) -> Result<ValueView, ()>) -> Seq<ValueView>
    decreases vs.len(),
{
    if vs.len() == 0 {
        Seq::empty()
    } else {
        let d = distinct(vs.drop_last(), fl);
        if has_same(d, vs.last(), fl) {
            d
        } else {
            d.push(vs.last())
        }
    }
}

/// An integer or a float.
pub open spec fn numeric(v: ValueView) -> bool {
    v is Integer || v is Float
}

/// The first value that is not an integer or a float.
pub open spec fn first_non_numeric(vs: Seq<ValueView>) -> Option<ValueView>
    decreases vs.len(),
{
    if vs.len() == 0 {
        None
    } else if !numeric(vs[0]) {
        Some(vs[0])
    } else {
        first_non_numeric(vs.drop_first())
    }
}

/// The first value that is not an integer.
pub open spec fn first_non_integer(vs: Seq<ValueView>) -> Option<ValueView>
    decreases vs.len(),
{
    if vs.len() == 0 {
        None
    } else if !(vs[0] is Integer) {
        Some(vs[0])
    } else {
        first_non_integer(vs.drop_first())
    }
}

/// The integers and floats among the values, in order.
pub open spec fn numbers(vs: Seq<ValueView>) -> Seq<ValueView>
    decreases vs.len(),
{
    if vs.len() == 0 {
        Seq::empty()
    } else if numeric(vs.last()) {
        numbers(vs.drop_last()).push(vs.last())
    } else {
        numbers(vs.drop_last())
    }
}

/// `a + b` clamped to the `i64` range.
pub open spec fn sat_add(a: i64, b: i64) -> i64 {
    if a + b > i64::MAX {
        i64::MAX
    } else if a + b < i64::MIN {
        i64::MIN
    } else {
        (a + b) as i64
    }
}

/// The integer of a value (0 for others).
pub open spec fn int_of(v: ValueView) -> i64 {
    match v {
        ValueView::Integer(i) => i,
        _ => 0,
    }
}

/// The saturating sum of integers, added left to right.
pub open spec fn sat_sum(vs: Seq<ValueView>) -> i64
    decreases vs.len(),
{
    if vs.len() == 0 {
        0
    } else {
        sat_add(sat_sum(vs.drop_last()), int_of(vs.last()))
    }
}

/// Two values of the same variant.
pub open spec fn same_kind(a: ValueView, b: ValueView) -> bool {
    value_kind_name(a) == value_kind_name(b)
}

/// The first value after the first whose variant differs from it.
pub open spec fn first_kind_mismatch(vs: Seq<ValueView>, i: int) -> Option<ValueView>
    decreases vs.len() - i,
{
    if i < 1 || i >= vs.len() {
        None
    } else if !same_kind(vs[0], vs[i]) {
        Some(vs[i])
    } else {
        first_kind_mismatch(vs, i + 1)
    }
}

/// `a` orders before `b` (integers by value, strings lexicographically).
pub open spec fn less(a: ValueView, b: ValueView) -> bool {
    match (a, b) {
        (ValueView::Integer(x), ValueView::Integer(y)) => x < y,
        (ValueView::Str(x), ValueView::Str(y)) => str_lt(x, y),
        _ => false,
    }
}

/// The least (`min`) or greatest value of `vs[..i]` starting from `acc`,
/// keeping the earlier of equals.
pub open spec fn extreme(vs: Seq<ValueView>, i: int, acc: ValueView, min: bool) -> ValueView
    decreases vs.len() - i,
{
    if i < 0 || i >= vs.len() {
        acc
    } else {
        let replace = if min {
            less(vs[i], acc)
        } else {
            less(acc, vs[i])
        };
        extreme(vs, i + 1, if replace {
            vs[i]
        } else {
            acc
        }, min)
    }
}

/// The message for a value that `sum` cannot add.
pub open spec fn sum_type_message(v: ValueView) -> Seq<char> {
    "INT-041: sum requires integer or float values, got "@ + value_kind_name(v)
}

/// The message for `min` / `max` of no values.
pub open spec fn no_values_message() -> Seq<char> {
    "INT-042: min/max: no non-null values in group"@
}

/// The message for `min` / `max` over values of different types.
pub open spec fn mixed_types_message(name: Seq<char>, a: ValueView, b: ValueView) -> Seq<char> {
    "INT-043: "@ + name + ": values of different types: "@ + value_kind_name(a) + " and "@ + value_kind_name(b)
}

/// The message for `min` / `max` over values that have no order.
pub open spec fn unordered_message(name: Seq<char>, v: ValueView) -> Seq<char> {
    "INT-044: "@ + name + ": values of type "@ + value_kind_name(v) + " cannot be compared"@
}

/// The message for an unknown aggregate.
pub open spec fn unknown_aggregate_message(name: Seq<char>) -> Seq<char> {
    "INT-029: unknown aggregate function: "@ + name
}

/// The count of values, clamped to the `i64` range.
pub open spec fn count_value(n: nat) -> i64 {
    if n > i64::MAX {
        i64::MAX
    } else {
        n as i64
    }
}

/// `sum` of values: 0 for none; a float sum when some value is a float
/// (and all are numbers); else the saturating integer sum (all integers).
pub open spec fn sum_of(d: Seq<ValueView>) -> Result<AggregatedView, Seq<char>> {
    if d.len() == 0 {
        Ok(AggregatedView::Value(ValueView::Integer(0)))
    } else if exists|i: int| 0 <= i < d.len() && #[trigger] d[i] is Float {
        match first_non_numeric(d) {
            Some(v) => Err(sum_type_message(v)),
            None => Ok(AggregatedView::FloatSum(d)),
        }
    } else {
        match first_non_integer(d) {
            Some(v) => Err(sum_type_message(v)),
            None => Ok(AggregatedView::Value(ValueView::Integer(sat_sum(d)))),
        }
    }
}

/// `min` or `max` of values, which must all be of one type: integers and
/// strings give the extreme value; floats are handed back for an `f64`
/// comparison; other types have no order.
pub open spec fn min_max_of(name: Seq<char>, vs: Seq<ValueView>) -> Result<AggregatedView, Seq<char>> {
    if vs.len() == 0 {
        Err(no_values_message())
    } else {
        match first_kind_mismatch(vs, 1) {
            Some(v) => Err(mixed_types_message(name, vs[0], v)),
            None => if vs[0] is Float {
                Ok(AggregatedView::FloatExtreme { values: vs, min: name == "min"@ })
            } else if vs[0] is Integer || vs[0] is Str {
                Ok(AggregatedView::Value(extreme(vs, 0, vs[0], name == "min"@)))
            } else {
                Err(unordered_message(name, vs[0]))
            },
        }
    }
}

/// A built-in aggregate over the (non-null) values of a group.
pub open spec fn spec_aggregate_values(
    name: Seq<char>,
    vs: Seq<ValueView>,
    fl: spec_fn(FloatOp, ValueView, ValueView) -> Result<ValueView, ()>,
) -> Result<AggregatedView, Seq<char>> {
    if name == "count"@ {
        Ok(AggregatedView::Value(ValueView::Integer(count_value(vs.len()))))
    } else if name == "count-distinct"@ {
        Ok(AggregatedView::Value(ValueView::Integer(count_value(distinct(vs, fl).len()))))
    } else if name == "sum"@ || name == "sum-distinct"@ {
        sum_of(if name == "sum-distinct"@ {
            distinct(vs, fl)
        } else {
            vs
        })
    } else if name == "min"@ || name == "max"@ {
        min_max_of(name, vs)
    } else if name == "avg"@ {
        if numbers(vs).len() == 0 {
            Ok(AggregatedView::Value(ValueView::Null))
        } else {
            Ok(AggregatedView::FloatMean(numbers(vs)))
        }
    } else {
        Err(unknown_aggregate_message(name))
    }
}

/// Whether two values are equal.
pub fn value_eq(a: &Value, b: &Value) -> (r: bool)
    ensures
        r == (a@ == b@),
{
    match (a, b) {
        (Value::String(x), Value::String(y)) => str_eq(x.as_str(), y.as_str()),
        (Value::Integer(x), Value::Integer(y)) => *x == *y,
        (Value::Float(x), Value::Float(y)) => str_eq(x.as_str(), y.as_str()),
        (Value::Boolean(x), Value::Boolean(y)) => *x == *y,
        (Value::Keyword(x), Value::Keyword(y)) => str_eq(x.as_str(), y.as_str()),
        (Value::Ref(x), Value::Ref(y)) => *x == *y,
        (Value::Null, Value::Null) => true,
        _ => false,
    }
}

fn clone_values(vs: &Vec<Value>) -> (r: Vec<Value>)
    ensures
        values_view(r@) == values_view(vs@),
{
    let mut out: Vec<Value> = Vec::new();
    let mut k: usize = 0;
    while k < vs.len()
        invariant
            k <= vs@.len(),
            values_view(out@) == values_view(vs@.subrange(0, k as int)),
        decreases vs@.len() - k,
    {
        let ghost prev = out@;
        out.push(value_clone(&vs[k]));
        assert(values_view(out@) =~= values_view(prev).push(vs@[k as int]@));
        assert(values_view(vs@.subrange(0, k + 1)) =~= values_view(vs@.subrange(0, k as int)).push(vs@[k as int]@));
        k = k + 1;
    }
    assert(vs@.subrange(0, vs@.len() as int) =~= vs@);
    out
}

fn same_value_exec<F: Fn(FloatOp, Value, Value) -> Result<Value, ()>>(a: &Value, b: &Value, float_step: &F) -> (r: bool)
    requires
        float_step_total(*float_step),
        float_step_deterministic(*float_step),
    ensures
        r == same_value(a@, b@, float_fn(*float_step)),
{
    match (a, b) {
        (Value::Float(_), Value::Float(_)) => {
            match call_float_step(float_step, FloatOp::Eq, value_clone(a), value_clone(b)) {
                Ok(Value::Boolean(t)) => t,
                _ => false,
            }
        },
        _ => value_eq(a, b),
    }
}

fn has_same_exec<F: Fn(FloatOp, Value, Value) -> Result<Value, ()>>(vs: &Vec<Value>, v: &Value, float_step: &F) -> (r: bool)
    requires
        float_step_total(*float_step),
        float_step_deterministic(*float_step),
    ensures
        r == has_same(values_view(vs@), v@, float_fn(*float_step)),
{
    let ghost fl = float_fn(*float_step);
    let ghost vv = values_view(vs@);
    let mut k: usize = 0;
    while k < vs.len()
        invariant
            float_step_total(*float_step),
            float_step_deterministic(*float_step),
            fl == float_fn(*float_step),
            vv == values_view(vs@),
            k <= vs@.len(),
            forall|j: int| 0 <= j < k ==> !same_value(#[trigger] vv[j], v@, fl),
        decreases vs@.len() - k,
    {
        if same_value_exec(&vs[k], v, float_step) {
            assert(vv[k as int] == vs@[k as int]@);
            assert(same_value(vv[k as int], v@, fl));
            return true;
        }
        assert(vv[k as int] == vs@[k as int]@);
        k = k + 1;
    }
    false
}

fn distinct_exec<F: Fn(FloatOp, Value, Value) -> Result<Value, ()>>(vs: &Vec<Value>, float_step: &F) -> (r: Vec<Value>)
    requires
        float_step_total(*float_step),
        float_step_deterministic(*float_step),
    ensures
        values_view(r@) == distinct(values_view(vs@), float_fn(*float_step)),
{
    let ghost fl = float_fn(*float_step);
    let ghost vv = values_view(vs@);
    let mut out: Vec<Value> = Vec::new();
    let mut k: usize = 0;
    assert(vv.subrange(0, 0) =~= Seq::<ValueView>::empty());
    assert(values_view(out@) =~= Seq::<ValueView>::empty());
    while k < vs.len()
        invariant
            float_step_total(*float_step),
            float_step_deterministic(*float_step),
            fl == float_fn(*float_step),
            k <= vs@.len(),
            vv == values_view(vs@),
            vv.len() == vs@.len(),
            values_view(out@) == distinct(vv.subrange(0, k as int), fl),
        decreases vs@.len() - k,
    {
        assert(vv.subrange(0, k + 1).drop_last() =~= vv.subrange(0, k as int));
        assert(vv.subrange(0, k + 1).last() == vs@[k as int]@);
        if !has_same_exec(&out, &vs[k], float_step) {
            let ghost prev = out@;
            out.push(value_clone(&vs[k]));
            assert(values_view(out@) =~= values_view(prev).push(vs@[k as int]@));
        }
        k = k + 1;
    }
    assert(vv.subrange(0, vs@.len() as int) =~= vv);
    out
}

pub(crate) fn count_exec(n: usize) -> (r: i64)
    ensures
        r == count_value(n as nat),
{
    if n as u64 > 9223372036854775807u64 {
        9223372036854775807i64
    } else {
        n as i64
    }
}

proof fn lemma_first_non_numeric(vs: Seq<ValueView>, k: int)
    requires
        0 <= k <= vs.len(),
        forall|j: int| 0 <= j < k ==> numeric(#[trigger] vs[j]),
    ensures
        first_non_numeric(vs) == first_non_numeric(vs.subrange(k, vs.len() as int)),
    decreases k,
{
    if k > 0 {
        let t = vs.drop_first();
        assert forall|j: int| 0 <= j < k - 1 implies numeric(#[trigger] t[j]) by {
            assert(t[j] == vs[j + 1]);
        }
        lemma_first_non_numeric(t, k - 1);
        assert(t.subrange(k - 1, t.len() as int) =~= vs.subrange(k, vs.len() as int));
        assert(numeric(vs[0]));
    } else {
        assert(vs.subrange(0, vs.len() as int) =~= vs);
    }
}

proof fn lemma_first_non_integer(vs: Seq<ValueView>, k: int)
    requires
        0 <= k <= vs.len(),
        forall|j: int| 0 <= j < k ==> #[trigger] vs[j] is Integer,
    ensures
        first_non_integer(vs) == first_non_integer(vs.subrange(k, vs.len() as int)),
    decreases k,
{
    if k > 0 {
        let t = vs.drop_first();
        assert forall|j: int| 0 <= j < k - 1 implies #[trigger] t[j] is Integer by {
            assert(t[j] == vs[j + 1]);
        }
        lemma_first_non_integer(t, k - 1);
        assert(t.subrange(k - 1, t.len() as int) =~= vs.subrange(k, vs.len() as int));
    } else {
        assert(vs.subrange(0, vs.len() as int) =~= vs);
    }
}

fn sum_values(d: &Vec<Value>) -> (r: Result<Aggregated, String>)
    requires
        d@.len() > 0,
    ensures
        match r {
            Ok(a) => sum_of(values_view(d@)) == Ok::<AggregatedView, Seq<char>>(a@),
            Err(m) => sum_of(values_view(d@)) == Err::<AggregatedView, Seq<char>>(m@),
        },
{
    let ghost dv = values_view(d@);
    let mut has_float = false;
    let mut k: usize = 0;
    while k < d.len()
        invariant
            k <= d@.len(),
            dv == values_view(d@),
            dv.len() == d@.len(),
            has_float == (exists|i: int| 0 <= i < k && #[trigger] dv[i] is Float),
        decreases d@.len() - k,
    {
        assert(dv[k as int] == d@[k as int]@);
        match &d[k] {
            Value::Float(_) => {
                has_float = true;
            },
            _ => {},
        }
        k = k + 1;
    }
    assert(has_float == (exists|i: int| 0 <= i < dv.len() && #[trigger] dv[i] is Float));
    if has_float {
        let mut j: usize = 0;
        while j < d.len()
            invariant
                j <= d@.len(),
                dv == values_view(d@),
                dv.len() == d@.len(),
                has_float,
                has_float == (exists|i: int| 0 <= i < dv.len() && #[trigger] dv[i] is Float),
                forall|i: int| 0 <= i < j ==> numeric(#[trigger] dv[i]),
            decreases d@.len() - j,
        {
            assert(dv[j as int] == d@[j as int]@);
            match &d[j] {
                Value::Integer(_) | Value::Float(_) => {},
                other => {
                    proof {
                        lemma_first_non_numeric(dv, j as int);
                        assert(dv.subrange(j as int, dv.len() as int)[0] == dv[j as int]);
                    }
                    return Err(concat("INT-041: sum requires integer or float values, got ", value_type_name(other)));
                },
            }
            j = j + 1;
        }
        proof {
            lemma_first_non_numeric(dv, dv.len() as int);
        }
        Ok(Aggregated::FloatSum(clone_values(d)))
    } else {
        let mut sum: i64 = 0;
        let mut j: usize = 0;
        assert(dv.subrange(0, 0) =~= Seq::<ValueView>::empty());
        while j < d.len()
            invariant
                j <= d@.len(),
                dv == values_view(d@),
                dv.len() == d@.len(),
                !has_float,
                has_float == (exists|i: int| 0 <= i < dv.len() && #[trigger] dv[i] is Float),
                forall|i: int| 0 <= i < j ==> #[trigger] dv[i] is Integer,
                sum == sat_sum(dv.subrange(0, j as int)),
            decreases d@.len() - j,
        {
            assert(dv[j as int] == d@[j as int]@);
            assert(dv.subrange(0, j + 1).drop_last() =~= dv.subrange(0, j as int));
            match &d[j] {
                Value::Integer(x) => {
                    sum = sat_add_exec(sum, *x);
                },
                other => {
                    proof {
                        lemma_first_non_integer(dv, j as int);
                        assert(dv.subrange(j as int, dv.len() as int)[0] == dv[j as int]);
                    }
                    return Err(concat("INT-041: sum requires integer or float values, got ", value_type_name(other)));
                },
            }
            j = j + 1;
        }
        proof {
            lemma_first_non_integer(dv, dv.len() as int);
            assert(dv.subrange(0, dv.len() as int) =~= dv);
        }
        Ok(Aggregated::Value(Value::Integer(sum)))
    }
}

fn sat_add_exec(a: i64, b: i64) -> (r: i64)
    ensures
        r == sat_add(a, b),
{
    if b > 0 && a > i64::MAX - b {
        i64::MAX
    } else if b < 0 && a < i64::MIN - b {
        i64::MIN
    } else {
        a + b
    }
}

fn less_exec(a: &Value, b: &Value) -> (r: bool)
    ensures
        r == less(a@, b@),
{
    match (a, b) {
        (Value::Integer(x), Value::Integer(y)) => *x < *y,
        (Value::String(x), Value::String(y)) => name_less(x.as_str(), y.as_str()),
        _ => false,
    }
}

fn same_kind_exec(a: &Value, b: &Value) -> (r: bool)
    ensures
        r == same_kind(a@, b@),
{
    str_eq(value_type_name(a), value_type_name(b))
}

fn min_max(name: &str, vs: &Vec<Value>) -> (r: Result<Aggregated, String>)
    requires
        name@ == "min"@ || name@ == "max"@,
    ensures
        match r {
            Ok(a) => min_max_of(name@, values_view(vs@)) == Ok::<AggregatedView, Seq<char>>(a@),
            Err(m) => min_max_of(name@, values_view(vs@)) == Err::<AggregatedView, Seq<char>>(m@),
        },
{
    let ghost vv = values_view(vs@);
    if vs.len() == 0 {
        return Err(owned("INT-042: min/max: no non-null values in group"));
    }
    assert(vv[0] == vs@[0]@);
    let mut i: usize = 1;
    while i < vs.len()
        invariant
            1 <= i <= vs@.len(),
            vv == values_view(vs@),
            vv.len() == vs@.len(),
            vv[0] == vs@[0]@,
            first_kind_mismatch(vv, 1) == first_kind_mismatch(vv, i as int),
        decreases vs@.len() - i,
    {
        assert(vv[i as int] == vs@[i as int]@);
        if !same_kind_exec(&vs[0], &vs[i]) {
            let mut m = concat("INT-043: ", name);
            m.append(": values of different types: ");
            m.append(value_type_name(&vs[0]));
            m.append(" and ");
            m.append(value_type_name(&vs[i]));
            return Err(m);
        }
        i = i + 1;
    }
    let is_min = str_eq(name, "min");
    assert(is_min == (name@ == "min"@));
    match &vs[0] {
        Value::Float(_) => Ok(Aggregated::FloatExtreme { values: clone_values(vs), min: is_min }),
        Value::Integer(_) | Value::String(_) => {
            let mut acc = value_clone(&vs[0]);
            let mut k: usize = 0;
            while k < vs.len()
                invariant
                    k <= vs@.len(),
                    vv == values_view(vs@),
                    vv.len() == vs@.len(),
                    extreme(vv, 0, vv[0], is_min) == extreme(vv, k as int, acc@, is_min),
                decreases vs@.len() - k,
            {
                assert(vv[k as int] == vs@[k as int]@);
                let replace = if is_min {
                    less_exec(&vs[k], &acc)
                } else {
                    less_exec(&acc, &vs[k])
                };
                if replace {
                    acc = value_clone(&vs[k]);
                }
                k = k + 1;
            }
            Ok(Aggregated::Value(acc))
        },
        other => {
            let mut m = concat("INT-044: ", name);
            m.append(": values of type ");
            m.append(value_type_name(other));
            m.append(" cannot be compared");
            Err(m)
        },
    }
}

pub(crate) fn numbers_exec(vs: &Vec<Value>) -> (r: Vec<Value>)
    ensures
        values_view(r@) == numbers(values_view(vs@)),
{
    let ghost vv = values_view(vs@);
    let mut out: Vec<Value> = Vec::new();
    let mut k: usize = 0;
    assert(vv.subrange(0, 0) =~= Seq::<ValueView>::empty());
    assert(values_view(out@) =~= Seq::<ValueView>::empty());
    while k < vs.len()
        invariant
            k <= vs@.len(),
            vv == values_view(vs@),
            vv.len() == vs@.len(),
            values_view(out@) == numbers(vv.subrange(0, k as int)),
        decreases vs@.len() - k,
    {
        assert(vv.subrange(0, k + 1).drop_last() =~= vv.subrange(0, k as int));
        assert(vv.subrange(0, k + 1).last() == vs@[k as int]@);
        match &vs[k] {
            Value::Integer(_) | Value::Float(_) => {
                let ghost prev = out@;
                out.push(value_clone(&vs[k]));
                assert(values_view(out@) =~= values_view(prev).push(vs@[k as int]@));
            },
            _ => {},
        }
        k = k + 1;
    }
    assert(vv.subrange(0, vs@.len() as int) =~= vv);
    out
}

/// Applies a built-in aggregate to the non-null values of a group (see
/// `spec_aggregate_values`); float sums, means and extremes are handed back
/// as the values they are taken over.
pub fn apply_builtin_aggregate<F: Fn(FloatOp, Value, Value) -> Result<Value, ()>>(
    name: &str,
    values: &Vec<Value>,
    float_step: &F,
) -> (r: Result<Aggregated, String>)
    requires
        float_step_total(*float_step),
        float_step_deterministic(*float_step),
    ensures
        match r {
            Ok(a) => spec_aggregate_values(name@, values_view(values@), float_fn(*float_step)) == Ok::<
                AggregatedView,
                Seq<char>,
            >(a@),
            Err(m) => spec_aggregate_values(name@, values_view(values@), float_fn(*float_step)) == Err::<
                AggregatedView,
                Seq<char>,
            >(m@),
        },
{
    let ghost vv = values_view(values@);
    if str_eq(name, "count") {
        Ok(Aggregated::Value(Value::Integer(count_exec(values.len()))))
    } else if str_eq(name, "count-distinct") {
        let d = distinct_exec(values, float_step);
        Ok(Aggregated::Value(Value::Integer(count_exec(d.len()))))
    } else if str_eq(name, "sum") || str_eq(name, "sum-distinct") {
        let distinct_sum = str_eq(name, "sum-distinct");
        let d = if distinct_sum {
            distinct_exec(values, float_step)
        } else {
            clone_values(values)
        };
        let ghost dv = if name@ == "sum-distinct"@ {
            distinct(vv, float_fn(*float_step))
        } else {
            vv
        };
        assert(values_view(d@) == dv);
        if d.len() == 0 {
            return Ok(Aggregated::Value(Value::Integer(0)));
        }
        sum_values(&d)
    } else if str_eq(name, "min") || str_eq(name, "max") {
        min_max(name, values)
    } else if str_eq(name, "avg") {
        let nums = numbers_exec(values);
        if nums.len() == 0 {
            Ok(Aggregated::Value(Value::Null))
        } else {
            Ok(Aggregated::FloatMean(nums))
        }
    } else {
        Err(concat("INT-029: unknown aggregate function: ", name))
    }
}

// ===================== laws of the built-in aggregates =====================

proof fn lemma_no_non_numeric(vs: Seq<ValueView>)
    ensures
        first_non_numeric(vs) is None <==> forall|j: int| 0 <= j < vs.len() ==> numeric(#[trigger] vs[j]),
    decreases vs.len(),
{
    if vs.len() > 0 {
        let t = vs.drop_first();
        lemma_no_non_numeric(t);
        assert forall|j: int| 0 < j < vs.len() implies vs[j] == t[j - 1] by {}
        if first_non_numeric(vs) is None {
            assert forall|j: int| 0 <= j < vs.len() implies numeric(#[trigger] vs[j]) by {
                if j > 0 {
                    assert(vs[j] == t[j - 1]);
                }
            }
        }
        if forall|j: int| 0 <= j < vs.len() ==> numeric(#[trigger] vs[j]) {
            assert(numeric(vs[0]));
            assert forall|j: int| 0 <= j < t.len() implies numeric(#[trigger] t[j]) by {
                assert(t[j] == vs[j + 1]);
            }
        }
    }
}

proof fn lemma_no_non_integer(vs: Seq<ValueView>)
    ensures
        first_non_integer(vs) is None <==> forall|j: int| 0 <= j < vs.len() ==> (#[trigger] vs[j]) is Integer,
    decreases vs.len(),
{
    if vs.len() > 0 {
        let t = vs.drop_first();
        lemma_no_non_integer(t);
        if first_non_integer(vs) is None {
            assert forall|j: int| 0 <= j < vs.len() implies (#[trigger] vs[j]) is Integer by {
                if j > 0 {
                    assert(vs[j] == t[j - 1]);
                }
            }
        }
        if forall|j: int| 0 <= j < vs.len() ==> (#[trigger] vs[j]) is Integer {
            assert(vs[0] is Integer);
            assert forall|j: int| 0 <= j < t.len() implies (#[trigger] t[j]) is Integer by {
                assert(t[j] == vs[j + 1]);
            }
        }
    }
}

proof fn lemma_aggregate_names()
    ensures
        "min"@ != "count"@,
        "min"@ != "count-distinct"@,
        "min"@ != "sum"@,
        "min"@ != "sum-distinct"@,
        "max"@ != "count"@,
        "max"@ != "count-distinct"@,
        "max"@ != "sum"@,
        "max"@ != "sum-distinct"@,
        "max"@ != "min"@,
        "sum"@ != "count"@,
        "sum"@ != "count-distinct"@,
        "sum"@ != "sum-distinct"@,
{
    reveal_strlit("min");
    reveal_strlit("max");
    reveal_strlit("count");
    reveal_strlit("count-distinct");
    reveal_strlit("sum");
    reveal_strlit("sum-distinct");
    assert("min"@[0] != "count"@[0]);
    assert("min"@.len() != "count-distinct"@.len());
    assert("min"@[0] != "sum"@[0]);
    assert("min"@.len() != "sum-distinct"@.len());
    assert("max"@[0] != "count"@[0]);
    assert("max"@.len() != "count-distinct"@.len());
    assert("max"@[0] != "sum"@[0]);
    assert("max"@.len() != "sum-distinct"@.len());
    assert("max"@[1] != "min"@[1]);
    assert("sum"@[0] != "count"@[0]);
    assert("sum"@.len() != "count-distinct"@.len());
    assert("sum"@.len() != "sum-distinct"@.len());
}

/// `sum` over no values is `0`; over integers alone their saturating sum;
/// over integers and floats with at least one float, the values for an
/// `f64` sum; over anything else an error.
pub proof fn lemma_sum_cases(vs: Seq<ValueView>, fl: spec_fn(FloatOp, ValueView, ValueView) -> Result<ValueView, ()>)
    ensures
        vs.len() == 0 ==> spec_aggregate_values("sum"@, vs, fl) == Ok::<AggregatedView, Seq<char>>(
            AggregatedView::Value(ValueView::Integer(0)),
        ),
        (forall|j: int| 0 <= j < vs.len() ==> (#[trigger] vs[j]) is Integer) ==> spec_aggregate_values("sum"@, vs, fl)
            == Ok::<AggregatedView, Seq<char>>(AggregatedView::Value(ValueView::Integer(sat_sum(vs)))),
        (forall|j: int| 0 <= j < vs.len() ==> numeric(#[trigger] vs[j])) && (exists|j: int|
            0 <= j < vs.len() && (#[trigger] vs[j]) is Float) ==> spec_aggregate_values("sum"@, vs, fl) == Ok::<
            AggregatedView,
            Seq<char>,
        >(AggregatedView::FloatSum(vs)),
        (exists|j: int| 0 <= j < vs.len() && !numeric(#[trigger] vs[j])) ==> spec_aggregate_values("sum"@, vs, fl) is Err,
{
    lemma_aggregate_names();
    lemma_no_non_numeric(vs);
    lemma_no_non_integer(vs);
    if exists|j: int| 0 <= j < vs.len() && !numeric(#[trigger] vs[j]) {
        let j = choose|j: int| 0 <= j < vs.len() && !numeric(#[trigger] vs[j]);
        assert(!(vs[j] is Integer));
    }
    if vs.len() > 0 && forall|j: int| 0 <= j < vs.len() ==> (#[trigger] vs[j]) is Integer {
        assert(!(exists|i: int| 0 <= i < vs.len() && #[trigger] vs[i] is Float));
    }
}

proof fn lemma_kind_mismatch(vs: Seq<ValueView>, i: int)
    requires
        1 <= i <= vs.len(),
    ensures
        first_kind_mismatch(vs, i) is None <==> forall|j: int| i <= j < vs.len() ==> same_kind(vs[0], #[trigger] vs[j]),
    decreases vs.len() - i,
{
    if i < vs.len() {
        lemma_kind_mismatch(vs, i + 1);
    }
}

/// `min` and `max` fail exactly on no values, on values of two types, or on
/// values of a type with no order (not integers, floats or strings); on no
/// values the message says there are none.
pub proof fn lemma_min_max_errors(
    name: Seq<char>,
    vs: Seq<ValueView>,
    fl: spec_fn(FloatOp, ValueView, ValueView) -> Result<ValueView, ()>,
)
    requires
        name == "min"@ || name == "max"@,
    ensures
        spec_aggregate_values(name, vs, fl) is Err <==> (vs.len() == 0 || (exists|j: int|
            0 <= j < vs.len() && !same_kind(vs[0], #[trigger] vs[j])) || !(vs[0] is Integer || vs[0] is Float
            || vs[0] is Str)),
        vs.len() == 0 ==> spec_aggregate_values(name, vs, fl) == Err::<AggregatedView, Seq<char>>(no_values_message()),
{
    lemma_aggregate_names();
    if vs.len() > 0 {
        lemma_kind_mismatch(vs, 1);
        if exists|j: int| 0 <= j < vs.len() && !same_kind(vs[0], #[trigger] vs[j]) {
            let j = choose|j: int| 0 <= j < vs.len() && !same_kind(vs[0], #[trigger] vs[j]);
            assert(j != 0);
        }
    }
}

/// The properties of `less` on two integers or two strings.
proof fn lemma_less_order(a: ValueView, b: ValueView, c: ValueView)
    requires
        (a is Integer && b is Integer && c is Integer) || (a is Str && b is Str && c is Str),
    ensures
        !less(a, a),
        less(a, b) && less(b, c) ==> less(a, c),
        a != b ==> less(a, b) || less(b, a),
{
    if let (ValueView::Str(x), ValueView::Str(y), ValueView::Str(z)) = (a, b, c) {
        lemma_str_lt_irreflexive(x);
        if str_lt(x, y) && str_lt(y, z) {
            lemma_str_lt_transitive(x, y, z);
        }
        if x != y {
            lemma_str_lt_total(x, y);
        }
    }
}

/// `v` is beaten by `w` for `min` (`w < v`) or for `max` (`v < w`).
pub open spec fn beaten(v: ValueView, w: ValueView, min: bool) -> bool {
    if min {
        less(w, v)
    } else {
        less(v, w)
    }
}

proof fn lemma_extreme_first(vs: Seq<ValueView>, i: int, p: int, min: bool)
    requires
        0 <= p < vs.len(),
        p < i <= vs.len(),
        (forall|j: int| 0 <= j < vs.len() ==> (#[trigger] vs[j]) is Integer) || (forall|j: int|
            0 <= j < vs.len() ==> (#[trigger] vs[j]) is Str),
        forall|j: int| 0 <= j < i ==> !beaten(vs[p], #[trigger] vs[j], min),
        forall|j: int| 0 <= j < p ==> beaten(#[trigger] vs[j], vs[p], min),
    ensures
        ({
            let m = extreme(vs, i, vs[p], min);
            exists|q: int|
                0 <= q < vs.len() && vs[q] == m && (forall|j: int| 0 <= j < vs.len() ==> !beaten(m, #[trigger] vs[j], min))
                    && (forall|j: int| 0 <= j < q ==> beaten(#[trigger] vs[j], m, min))
        }),
    decreases vs.len() - i,
{
    if i >= vs.len() {
        assert(extreme(vs, i, vs[p], min) == vs[p]);
    } else {
        let v = vs[i];
        let acc = vs[p];
        let replace = if min {
            less(v, acc)
        } else {
            less(acc, v)
        };
        if replace {
            assert forall|j: int| 0 <= j < i + 1 implies !beaten(vs[i], #[trigger] vs[j], min) by {
                lemma_less_order(vs[j], vs[i], acc);
                lemma_less_order(acc, vs[i], vs[j]);
                lemma_less_order(vs[i], vs[j], acc);
                lemma_less_order(vs[j], acc, vs[i]);
                if j < i {
                    assert(!beaten(acc, vs[j], min));
                }
            }
            assert forall|j: int| 0 <= j < i implies beaten(#[trigger] vs[j], vs[i], min) by {
                lemma_less_order(vs[i], acc, vs[j]);
                lemma_less_order(vs[j], acc, vs[i]);
                lemma_less_order(acc, vs[j], vs[i]);
                lemma_less_order(vs[i], vs[j], acc);
                if j < p {
                    assert(beaten(vs[j], acc, min));
                } else {
                    assert(!beaten(acc, vs[j], min));
                }
            }
            lemma_extreme_first(vs, i + 1, i, min);
        } else {
            assert forall|j: int| 0 <= j < i + 1 implies !beaten(vs[p], #[trigger] vs[j], min) by {}
            lemma_extreme_first(vs, i + 1, p, min);
        }
    }
}

/// `min` (`max`) of integers alone or strings alone is the first value that
/// no value is below (above): no value beats it, and every value before it
/// is beaten by it.
pub proof fn lemma_min_max_first_extreme(
    name: Seq<char>,
    vs: Seq<ValueView>,
    fl: spec_fn(FloatOp, ValueView, ValueView) -> Result<ValueView, ()>,
)
    requires
        name == "min"@ || name == "max"@,
        vs.len() > 0,
        (forall|j: int| 0 <= j < vs.len() ==> (#[trigger] vs[j]) is Integer) || (forall|j: int|
            0 <= j < vs.len() ==> (#[trigger] vs[j]) is Str),
    ensures
        exists|p: int|
            0 <= p < vs.len() && spec_aggregate_values(name, vs, fl) == Ok::<AggregatedView, Seq<char>>(
                AggregatedView::Value(vs[p]),
            ) && (forall|j: int| 0 <= j < vs.len() ==> !beaten(vs[p], #[trigger] vs[j], name == "min"@)) && (forall|
                j: int,
            |
                0 <= j < p ==> beaten(#[trigger] vs[j], vs[p], name == "min"@)),
{
    lemma_aggregate_names();
    let min = name == "min"@;
    assert(vs[0] is Integer || vs[0] is Str);
    assert forall|j: int| 0 <= j < vs.len() implies same_kind(vs[0], #[trigger] vs[j]) by {}
    lemma_kind_mismatch(vs, 1);
    lemma_less_order(vs[0], vs[0], vs[0]);
    assert forall|j: int| 0 <= j < 1 implies !beaten(vs[0], #[trigger] vs[j], min) by {}
    lemma_extreme_first(vs, 1, 0, min);
    assert(extreme(vs, 0, vs[0], min) == extreme(vs, 1, vs[0], min)) by {
        lemma_less_order(vs[0], vs[0], vs[0]);
    }
    let m = extreme(vs, 1, vs[0], min);
    let q = choose|q: int|
        0 <= q < vs.len() && vs[q] == m && (forall|j: int| 0 <= j < vs.len() ==> !beaten(m, #[trigger] vs[j], min))
            && (forall|j: int| 0 <= j < q ==> beaten(#[trigger] vs[j], m, min));
    assert(spec_aggregate_values(name, vs, fl) == Ok::<AggregatedView, Seq<char>>(AggregatedView::Value(vs[q])));
}

// ===================== ordering values =====================

/// `a` orders before `b`: integers by value, strings lexicographically, an
/// integer and a float or two floats as floats (by the float step `fl`);
/// other pairs are incomparable.
pub open spec fn spec_value_lt(
    a: ValueView,
    b: ValueView,
    fl: spec_fn(FloatOp, ValueView, ValueView) -> Result<ValueView, ()>,
) -> bool {
    match (a, b) {
        (ValueView::Integer(x), ValueView::Integer(y)) => x < y,
        (ValueView::Str(x), ValueView::Str(y)) => str_lt(x, y),
        _ => is_number(a) && is_number(b) && fl(FloatOp::Lt, a, b) == Ok::<ValueView, ()>(
            ValueView::Boolean(true),
        ),
    }
}

/// The ordering of two values in one pass, by the rules of `spec_value_lt`;
/// incomparable values (and a NaN) are `Equal`.
pub open spec fn value_order(
    a: ValueView,
    b: ValueView,
    fl: spec_fn(FloatOp, ValueView, ValueView) -> Result<ValueView, ()>,
) -> Ordering {
    match (a, b) {
        (ValueView::Integer(x), ValueView::Integer(y)) => if x < y {
            Ordering::Less
        } else if x > y {
            Ordering::Greater
        } else {
            Ordering::Equal
        },
        (ValueView::Str(x), ValueView::Str(y)) => if str_lt(x, y) {
            Ordering::Less
        } else if str_lt(y, x) {
            Ordering::Greater
        } else {
            Ordering::Equal
        },
        _ => if is_number(a) && is_number(b) {
            if fl(FloatOp::Lt, a, b) == Ok::<ValueView, ()>(ValueView::Boolean(true)) {
                Ordering::Less
            } else if fl(FloatOp::Gt, a, b) == Ok::<ValueView, ()>(ValueView::Boolean(true)) {
                Ordering::Greater
            } else {
                Ordering::Equal
            }
        } else {
            Ordering::Equal
        },
    }
}

/// The float step orders numbers coherently: it answers `a > b` as it
/// answers `b < a`, and never finds both `a < b` and `b < a` (as `f64`
/// comparison does, NaN included).
pub open spec fn float_order_coherent(fl: spec_fn(FloatOp, ValueView, ValueView) -> Result<ValueView, ()>) -> bool {
    forall|a: ValueView, b: ValueView|
        is_number(a) && is_number(b) ==> #[trigger] fl(FloatOp::Gt, a, b) == fl(FloatOp::Lt, b, a) && !(fl(
            FloatOp::Lt,
            a,
            b,
        ) == Ok::<ValueView, ()>(ValueView::Boolean(true)) && fl(FloatOp::Lt, b, a) == Ok::<ValueView, ()>(
            ValueView::Boolean(true),
        ))
}

/// The one-pass ordering agrees with `value_lt`: `a` orders `Less` than `b`
/// exactly when `value_lt(a, b)` holds; with a coherent float step, it
/// orders `Greater` exactly when `value_lt(b, a)` holds, so incomparable
/// pairs are `Equal`.
pub proof fn lemma_value_order_agrees_with_lt(
    a: ValueView,
    b: ValueView,
    fl: spec_fn(FloatOp, ValueView, ValueView) -> Result<ValueView, ()>,
)
    ensures
        (value_order(a, b, fl) == Ordering::Less) == spec_value_lt(a, b, fl),
        float_order_coherent(fl) ==> (value_order(a, b, fl) == Ordering::Greater) == spec_value_lt(b, a, fl),
{
    if let (ValueView::Str(x), ValueView::Str(y)) = (a, b) {
        if str_lt(x, y) && str_lt(y, x) {
            lemma_str_lt_transitive(x, y, x);
            lemma_str_lt_irreflexive(x);
        }
    }
    if float_order_coherent(fl) && is_number(a) && is_number(b) {
        assert(fl(FloatOp::Gt, a, b) == fl(FloatOp::Lt, b, a));
    }
}

fn float_says(float_step_result: Result<Value, ()>) -> (r: bool)
    ensures
        r == (eval_view(float_step_result) == Ok::<ValueView, ()>(ValueView::Boolean(true))),
{
    match float_step_result {
        Ok(Value::Boolean(t)) => t,
        _ => false,
    }
}

/// Whether `a` orders before `b` (see `spec_value_lt`); comparisons that
/// need floating point go to `float_step`.
pub fn value_lt<F: Fn(FloatOp, Value, Value) -> Result<Value, ()>>(a: &Value, b: &Value, float_step: &F) -> (r: bool)
    requires
        float_step_total(*float_step),
        float_step_deterministic(*float_step),
    ensures
        r == spec_value_lt(a@, b@, float_fn(*float_step)),
{
    match (a, b) {
        (Value::Integer(x), Value::Integer(y)) => *x < *y,
        (Value::String(x), Value::String(y)) => name_less(x.as_str(), y.as_str()),
        _ => {
            if is_number_value(a) && is_number_value(b) {
                let res = call_float_step(float_step, FloatOp::Lt, value_clone(a), value_clone(b));
                float_says(res)
            } else {
                false
            }
        },
    }
}

/// The ordering of two values (see `value_order`).
pub fn value_cmp<F: Fn(FloatOp, Value, Value) -> Result<Value, ()>>(a: &Value, b: &Value, float_step: &F) -> (r: Ordering)
    requires
        float_step_total(*float_step),
        float_step_deterministic(*float_step),
    ensures
        r == value_order(a@, b@, float_fn(*float_step)),
{
    match (a, b) {
        (Value::Integer(x), Value::Integer(y)) => if *x < *y {
            Ordering::Less
        } else if *x > *y {
            Ordering::Greater
        } else {
            Ordering::Equal
        },
        (Value::String(x), Value::String(y)) => if name_less(x.as_str(), y.as_str()) {
            Ordering::Less
        } else if name_less(y.as_str(), x.as_str()) {
            Ordering::Greater
        } else {
            Ordering::Equal
        },
        _ => {
            if is_number_value(a) && is_number_value(b) {
                let lt = call_float_step(float_step, FloatOp::Lt, value_clone(a), value_clone(b));
                if float_says(lt) {
                    Ordering::Less
                } else {
                    let gt = call_float_step(float_step, FloatOp::Gt, value_clone(a), value_clone(b));
                    if float_says(gt) {
                        Ordering::Greater
                    } else {
                        Ordering::Equal
                    }
                }
            } else {
                Ordering::Equal
            }
        },
    }
}

// ===================== the function registry =====================

/// How a registered aggregate is computed.
#[derive(Debug, Clone, Copy, PartialEq, Eq, Structural)]
pub enum AggImpl {
    /// One of the built-in aggregates, computed here.
    Builtin,
    /// A user-defined aggregate, folded by the caller's aggregate step.
    Udf,
}

/// One registered aggregate function.
#[derive(Debug, Clone, Copy, PartialEq, Eq, Structural)]
pub struct AggregateDesc {
    pub impl_: AggImpl,
    /// True for the built-in aggregates handled by `apply_builtin_aggregate`.
    pub is_builtin: bool,
}

/// One registered filter predicate; built-in names are held as sentinels
/// that block their registration and are never applied through the registry.
#[derive(Debug, Clone, Copy, PartialEq, Eq, Structural)]
pub struct PredicateDesc {
    pub is_builtin: bool,
}

/// The map a list of (name, entry) pairs gives: the first pair for a name wins.
pub open spec fn first_wins<D>(s: Seq<(Seq<char>, D)>) -> Map<Seq<char>, D>
    decreases s.len(),
{
    if s.len() == 0 {
        Map::empty()
    } else {
        first_wins(s.drop_first()).insert(s[0].0, s[0].1)
    }
}

proof fn lemma_first_wins_lookup<D>(s: Seq<(Seq<char>, D)>, k: Seq<char>, i: int)
    requires
        0 <= i <= s.len(),
        forall|j: int| 0 <= j < i ==> s[j].0 != k,
    ensures
        i < s.len() && s[i].0 == k ==> first_wins(s).contains_key(k) && first_wins(s)[k] == s[i].1,
        i == s.len() ==> !first_wins(s).contains_key(k),
    decreases i,
{
    if s.len() > 0 && i > 0 {
        let t = s.drop_first();
        assert forall|j: int| 0 <= j < i - 1 implies t[j].0 != k by {
            assert(t[j] == s[j + 1]);
        }
        lemma_first_wins_lookup(t, k, i - 1);
        if i < s.len() {
            assert(t[i - 1] == s[i]);
        }
    }
}

proof fn lemma_first_wins_push<D>(s: Seq<(Seq<char>, D)>, x: (Seq<char>, D))
    requires
        !first_wins(s).contains_key(x.0),
    ensures
        first_wins(s.push(x)) == first_wins(s).insert(x.0, x.1),
    decreases s.len(),
{
    if s.len() == 0 {
        assert(s.push(x).drop_first() =~= s);
        assert(first_wins(s.push(x)) =~= first_wins(s).insert(x.0, x.1));
    } else {
        let t = s.drop_first();
        assert(s.push(x).drop_first() =~= t.push(x));
        if s[0].0 != x.0 {
            lemma_first_wins_push(t, x);
        }
        assert(first_wins(s.push(x)) =~= first_wins(s).insert(x.0, x.1));
    }
}

/// The names of named entries, in order.
pub open spec fn names_of<D>(s: Seq<(Seq<char>, D)>) -> Seq<Seq<char>> {
    s.map_values(|p: (Seq<char>, D)| p.0)
}

proof fn lemma_first_wins_uniform<D>(s: Seq<(Seq<char>, D)>, d: D)
    requires
        forall|i: int| 0 <= i < s.len() ==> (#[trigger] s[i]).1 == d,
    ensures
        forall|n: Seq<char>| #[trigger] first_wins(s).contains_key(n) <==> names_of(s).contains(n),
        forall|n: Seq<char>| first_wins(s).contains_key(n) ==> #[trigger] first_wins(s)[n] == d,
    decreases s.len(),
{
    if s.len() > 0 {
        let t = s.drop_first();
        assert forall|i: int| 0 <= i < t.len() implies (#[trigger] t[i]).1 == d by {
            assert(t[i] == s[i + 1]);
        }
        lemma_first_wins_uniform(t, d);
        assert(s[0].1 == d);
        assert(first_wins(s) == first_wins(t).insert(s[0].0, s[0].1));
        let ks = names_of(s);
        let kt = names_of(t);
        assert(ks =~= seq![s[0].0] + kt);
        assert forall|n: Seq<char>| #[trigger] first_wins(s).contains_key(n) <==> ks.contains(n) by {
            if ks.contains(n) {
                let j = choose|j: int| 0 <= j < ks.len() && ks[j] == n;
                if j > 0 {
                    assert(kt[j - 1] == n);
                }
            }
            if kt.contains(n) {
                let j = choose|j: int| 0 <= j < kt.len() && kt[j] == n;
                assert(ks[j + 1] == n);
            }
            if n == s[0].0 {
                assert(ks[0] == n);
            }
        }
    }
}

/// The names of the built-in aggregates.
pub open spec fn builtin_aggregate_name(n: Seq<char>) -> bool {
    n == "count"@ || n == "sum"@ || n == "min"@ || n == "max"@ || n == "avg"@ || n == "count-distinct"@
        || n == "sum-distinct"@
}

/// The names of the built-in predicates.
pub open spec fn builtin_predicate_name(n: Seq<char>) -> bool {
    n == "string?"@ || n == "integer?"@ || n == "float?"@ || n == "boolean?"@ || n == "nil?"@ || n == "starts-with?"@
        || n == "ends-with?"@ || n == "contains?"@ || n == "matches?"@
}

/// The descriptor of every built-in aggregate.
pub open spec fn builtin_aggregate() -> AggregateDesc {
    AggregateDesc { impl_: AggImpl::Builtin, is_builtin: true }
}

/// The model of a registry: its aggregates and its predicates by name.
pub struct RegistryView {
    pub aggregates: Map<Seq<char>, AggregateDesc>,
    pub predicates: Map<Seq<char>, PredicateDesc>,
}

/// The aggregate and predicate functions a query can name.
pub struct FunctionRegistry {
    aggregates: Vec<(String, AggregateDesc)>,
    predicates: Vec<(String, PredicateDesc)>,
}

/// The models of named entries.
pub open spec fn named_view<D>(s: Seq<(String, D)>) -> Seq<(Seq<char>, D)> {
    s.map_values(|e: (String, D)| (e.0@, e.1))
}

impl View for FunctionRegistry {
    type V = RegistryView;

    closed spec fn view(&self) -> RegistryView {
        RegistryView {
            aggregates: first_wins(named_view(self.aggregates@)),
            predicates: first_wins(named_view(self.predicates@)),
        }
    }
}

/// The registry holds every built-in aggregate and predicate, as built-ins.
pub open spec fn holds_builtins(v: RegistryView) -> bool {
    &&& forall|n: Seq<char>|
        #[trigger] builtin_aggregate_name(n) ==> v.aggregates.contains_key(n) && v.aggregates[n] == builtin_aggregate()
    &&& forall|n: Seq<char>|
        #[trigger] builtin_predicate_name(n) ==> v.predicates.contains_key(n) && v.predicates[n].is_builtin
}

/// The message for registering a name that is taken; `lead` names the kind
/// and opens the quote.
pub open spec fn name_taken_message(lead: Seq<char>, n: Seq<char>) -> Seq<char> {
    lead + n + "' is already registered"@
}

fn find_named<D>(s: &Vec<(String, D)>, name: &str) -> (r: usize)
    ensures
        r <= s@.len(),
        forall|j: int| 0 <= j < r ==> s@[j].0@ != name@,
        r < s@.len() ==> s@[r as int].0@ == name@,
{
    let mut i: usize = 0;
    while i < s.len()
        invariant
            i <= s@.len(),
            forall|j: int| 0 <= j < i ==> s@[j].0@ != name@,
        decreases s@.len() - i,
    {
        if str_eq(s[i].0.as_str(), name) {
            return i;
        }
        i = i + 1;
    }
    i
}

fn lookup_named<D: Copy>(s: &Vec<(String, D)>, name: &str) -> (r: Option<D>)
    ensures
        match r {
            Some(d) => first_wins(named_view(s@)).contains_key(name@) && first_wins(named_view(s@))[name@] == d,
            None => !first_wins(named_view(s@)).contains_key(name@),
        },
{
    let ghost v = named_view(s@);
    let i = find_named(s, name);
    proof {
        assert forall|j: int| 0 <= j < i implies v[j].0 != name@ by {
            assert(v[j] == (s@[j].0@, s@[j].1));
        }
        if i < s@.len() {
            assert(v[i as int] == (s@[i as int].0@, s@[i as int].1));
        }
        lemma_first_wins_lookup(v, name@, i as int);
    }
    if i < s.len() {
        Some(s[i].1)
    } else {
        None
    }
}

fn push_named<D>(s: &mut Vec<(String, D)>, name: String, d: D)
    requires
        !first_wins(named_view(old(s)@)).contains_key(name@),
    ensures
        first_wins(named_view(final(s)@)) == first_wins(named_view(old(s)@)).insert(name@, d),
{
    let ghost nv = name@;
    let ghost before = named_view(s@);
    s.push((name, d));
    proof {
        assert(named_view(s@) =~= before.push((nv, d)));
        lemma_first_wins_push(before, (nv, d));
    }
}

fn named_list<D: Copy>(names: Vec<&str>, d: D) -> (r: Vec<(String, D)>)
    ensures
        forall|n: Seq<char>| #[trigger] first_wins(named_view(r@)).contains_key(n) <==> exists|i: int|
            0 <= i < names@.len() && n == names@[i]@,
        forall|n: Seq<char>| first_wins(named_view(r@)).contains_key(n) ==> #[trigger] first_wins(named_view(r@))[n] == d,
{
    let mut r: Vec<(String, D)> = Vec::new();
    let mut k: usize = 0;
    while k < names.len()
        invariant
            k <= names@.len(),
            r@.len() == k,
            forall|i: int| 0 <= i < k ==> (#[trigger] r@[i]).0@ == names@[i]@ && r@[i].1 == d,
        decreases names@.len() - k,
    {
        r.push((owned(names[k]), d));
        k = k + 1;
    }
    proof {
        let v = named_view(r@);
        assert forall|i: int| 0 <= i < v.len() implies (#[trigger] v[i]).1 == d by {
            assert(v[i] == (r@[i].0@, r@[i].1));
        }
        lemma_first_wins_uniform(v, d);
        let ks = names_of(v);
        assert forall|n: Seq<char>| ks.contains(n) <==> exists|i: int| 0 <= i < names@.len() && n == names@[i]@ by {
            if ks.contains(n) {
                let j = choose|j: int| 0 <= j < ks.len() && ks[j] == n;
                assert(v[j] == (r@[j].0@, r@[j].1));
            }
            if exists|i: int| 0 <= i < names@.len() && n == names@[i]@ {
                let j = choose|j: int| 0 <= j < names@.len() && n == names@[j]@;
                assert(v[j] == (r@[j].0@, r@[j].1));
                assert(ks[j] == n);
            }
        }
    }
    r
}

impl FunctionRegistry {
    /// The registry with the built-in aggregates (`count`, `sum`, `min`,
    /// `max`, `avg`, `count-distinct`, `sum-distinct`) and the names of the
    /// built-in predicates reserved.
    pub fn with_builtins() -> (r: FunctionRegistry)
        ensures
            forall|n: Seq<char>| #[trigger] r@.aggregates.contains_key(n) <==> builtin_aggregate_name(n),
            forall|n: Seq<char>| r@.aggregates.contains_key(n) ==> #[trigger] r@.aggregates[n] == builtin_aggregate(),
            forall|n: Seq<char>| #[trigger] r@.predicates.contains_key(n) <==> builtin_predicate_name(n),
            forall|n: Seq<char>| r@.predicates.contains_key(n) ==> (#[trigger] r@.predicates[n]).is_builtin,
            holds_builtins(r@),
    {
        let agg_names = vec!["count", "sum", "min", "max", "avg", "count-distinct", "sum-distinct"];
        let pred_names = vec![
            "string?",
            "integer?",
            "float?",
            "boolean?",
            "nil?",
            "starts-with?",
            "ends-with?",
            "contains?",
            "matches?",
        ];
        let aggregates = named_list(agg_names, AggregateDesc { impl_: AggImpl::Builtin, is_builtin: true });
        let predicates = named_list(pred_names, PredicateDesc { is_builtin: true });
        let ghost av = first_wins(named_view(aggregates@));
        let ghost pv = first_wins(named_view(predicates@));
        proof {
            assert forall|n: Seq<char>| #[trigger] av.contains_key(n) <==> builtin_aggregate_name(n) by {
                if builtin_aggregate_name(n) {
                    if n == "count"@ { assert(n == agg_names@[0]@); }
                    if n == "sum"@ { assert(n == agg_names@[1]@); }
                    if n == "min"@ { assert(n == agg_names@[2]@); }
                    if n == "max"@ { assert(n == agg_names@[3]@); }
                    if n == "avg"@ { assert(n == agg_names@[4]@); }
                    if n == "count-distinct"@ { assert(n == agg_names@[5]@); }
                    if n == "sum-distinct"@ { assert(n == agg_names@[6]@); }
                }
            }
            assert forall|n: Seq<char>| #[trigger] pv.contains_key(n) <==> builtin_predicate_name(n) by {
                if builtin_predicate_name(n) {
                    if n == "string?"@ { assert(n == pred_names@[0]@); }
                    if n == "integer?"@ { assert(n == pred_names@[1]@); }
                    if n == "float?"@ { assert(n == pred_names@[2]@); }
                    if n == "boolean?"@ { assert(n == pred_names@[3]@); }
                    if n == "nil?"@ { assert(n == pred_names@[4]@); }
                    if n == "starts-with?"@ { assert(n == pred_names@[5]@); }
                    if n == "ends-with?"@ { assert(n == pred_names@[6]@); }
                    if n == "contains?"@ { assert(n == pred_names@[7]@); }
                    if n == "matches?"@ { assert(n == pred_names@[8]@); }
                }
            }
        }
        let r = FunctionRegistry { aggregates, predicates };
        r
    }

    /// The aggregate registered under `name`.
    pub fn get(&self, name: &str) -> (r: Option<AggregateDesc>)
        ensures
            match r {
                Some(d) => self@.aggregates.contains_key(name@) && self@.aggregates[name@] == d,
                None => !self@.aggregates.contains_key(name@),
            },
    {
        lookup_named(&self.aggregates, name)
    }

    /// Whether an aggregate is registered under `name`.
    pub fn is_known(&self, name: &str) -> (r: bool)
        ensures
            r == self@.aggregates.contains_key(name@),
    {
        self.get(name).is_some()
    }

    /// Whether `name` can be used as a window function: any registered
    /// aggregate but `count-distinct` and `sum-distinct`.
    pub fn is_window_compatible(&self, name: &str) -> (r: bool)
        ensures
            r == (name@ != "count-distinct"@ && name@ != "sum-distinct"@ && self@.aggregates.contains_key(name@)),
    {
        if str_eq(name, "count-distinct") || str_eq(name, "sum-distinct") {
            false
        } else {
            self.is_known(name)
        }
    }

    /// Registers an aggregate; a name already taken is refused.
    pub fn register_aggregate_desc(&mut self, name: String, desc: AggregateDesc) -> (r: Result<(), String>)
        ensures
            final(self)@.predicates == old(self)@.predicates,
            old(self)@.aggregates.contains_key(name@) ==> r == Err::<(), String>(r->Err_0) && r->Err_0@
                == name_taken_message("INT-040: aggregate function '"@, name@) && final(self)@.aggregates == old(
                self,
            )@.aggregates,
            !old(self)@.aggregates.contains_key(name@) ==> r is Ok && final(self)@.aggregates == old(
                self,
            )@.aggregates.insert(name@, desc),
            holds_builtins(old(self)@) ==> holds_builtins(final(self)@),
            holds_builtins(old(self)@) && builtin_aggregate_name(name@) ==> r is Err,
    {

        if self.get(name.as_str()).is_some() {
            let mut msg = concat("INT-040: aggregate function '", name.as_str());
            msg.append("' is already registered");
            return Err(msg);
        }
        push_named(&mut self.aggregates, name, desc);
        Ok(())
    }

    /// Registers a predicate; a name already taken (a built-in one too) is refused.
    pub fn register_predicate_desc(&mut self, name: String, desc: PredicateDesc) -> (r: Result<(), String>)
        ensures
            final(self)@.aggregates == old(self)@.aggregates,
            old(self)@.predicates.contains_key(name@) ==> r == Err::<(), String>(r->Err_0) && r->Err_0@
                == name_taken_message("INT-040: predicate '"@, name@) && final(self)@.predicates == old(self)@.predicates,
            !old(self)@.predicates.contains_key(name@) ==> r is Ok && final(self)@.predicates == old(
                self,
            )@.predicates.insert(name@, desc),
            holds_builtins(old(self)@) ==> holds_builtins(final(self)@),
            holds_builtins(old(self)@) && builtin_predicate_name(name@) ==> r is Err,
    {

        if lookup_named(&self.predicates, name.as_str()).is_some() {
            let mut msg = concat("INT-040: predicate '", name.as_str());
            msg.append("' is already registered");
            return Err(msg);
        }
        push_named(&mut self.predicates, name, desc);
        Ok(())
    }

    /// The predicate registered under `name`, unless it is a built-in sentinel.
    pub fn get_predicate(&self, name: &str) -> (r: Option<PredicateDesc>)
        ensures
            r == (if self@.predicates.contains_key(name@) && !self@.predicates[name@].is_builtin {
                Some(self@.predicates[name@])
            } else {
                None::<PredicateDesc>
            }),
    {
        match lookup_named(&self.predicates, name) {
            Some(d) => if d.is_builtin {
                None
            } else {
                Some(d)
            },
            None => None,
        }
    }
}

} // verus!
