//! Elements of `:find`: aggregates `(func ?var)` and window expressions
//! `(func ?var :over (:partition-by ?p :order-by ?o :desc))`.
use vstd::prelude::*;
use crate::edn::{EdnValue, EdnView, edns_view, lemma_edns_view, view_variable, edn_text, msg_with_value};
use crate::text::{owned, concat, str_eq, nat_text, push_u64_text};
use crate::types::{FindSpec, FindSpecView, WindowFunc, WindowFuncView, WindowSpec, WindowSpecView, Order};

verus! {

/// Some element is the keyword `:over`.
pub open spec fn has_over(elems: Seq<EdnView>) -> bool {
    exists|i: int| 0 <= i < elems.len() && #[trigger] elems[i] == EdnView::Keyword(":over"@)
}

/// The variable at position `j`, if there is one there.
pub open spec fn var_at(l: Seq<EdnView>, j: int) -> Option<Seq<char>> {
    if 0 <= j < l.len() {
        view_variable(l[j])
    } else {
        None
    }
}

/// Position `j` holds the keyword `k`.
pub open spec fn keyword_at(l: Seq<EdnView>, j: int, k: Seq<char>) -> bool {
    0 <= j < l.len() && l[j] == EdnView::Keyword(k)
}

/// `'name` followed by `rest`, the shape of the window error messages.
pub open spec fn quoted(name: Seq<char>, rest: Seq<char>) -> Seq<char> {
    "'"@ + name + rest
}

/// The window function a name selects, or why it cannot be one.
pub open spec fn spec_window_func(name: Seq<char>) -> Result<WindowFuncView, Seq<char>> {
    if name == "lag"@ || name == "lead"@ {
        Err(quoted(name, "' is not supported in this version; lag/lead are planned for a future release"@))
    } else if name == "sum"@ {
        Ok(WindowFuncView::Sum)
    } else if name == "count"@ {
        Ok(WindowFuncView::Count)
    } else if name == "min"@ {
        Ok(WindowFuncView::Min)
    } else if name == "max"@ {
        Ok(WindowFuncView::Max)
    } else if name == "avg"@ {
        Ok(WindowFuncView::Avg)
    } else if name == "rank"@ {
        Ok(WindowFuncView::Rank)
    } else if name == "row-number"@ {
        Ok(WindowFuncView::RowNumber)
    } else if name == "count-distinct"@ || name == "sum-distinct"@ {
        Err(quoted(name, "' is not window-compatible and cannot be used with ':over'"@))
    } else {
        Ok(WindowFuncView::Udf(name))
    }
}

/// The options of an `:over` list from position `j`: partition variable,
/// order variable and direction, or the first error.
pub open spec fn over_opts(
    l: Seq<EdnView>,
    j: int,
    pb: Option<Seq<char>>,
    ob: Option<Seq<char>>,
    ord: Order,
) -> Result<(Option<Seq<char>>, Option<Seq<char>>, Order), Seq<char>>
    decreases l.len() - j,
{
    if j < 0 || j >= l.len() {
        Ok((pb, ob, ord))
    } else {
        match l[j] {
            EdnView::Keyword(k) => if k == ":partition-by"@ {
                match var_at(l, j + 1) {
                    Some(v) => over_opts(l, j + 2, Some(v), ob, ord),
                    None => Err("':partition-by' requires a variable (starting with ?)"@),
                }
            } else if k == ":order-by"@ {
                match var_at(l, j + 1) {
                    Some(v) => over_opts(l, j + 2, pb, Some(v), ord),
                    None => Err("':order-by' requires a variable (starting with ?)"@),
                }
            } else if k == ":desc"@ {
                over_opts(l, j + 1, pb, ob, Order::Desc)
            } else if k == ":asc"@ {
                over_opts(l, j + 1, pb, ob, Order::Asc)
            } else {
                Err("unknown option in ':over' clause: '"@ + k + "'"@)
            },
            other => Err("unexpected element in ':over' clause: "@ + edn_text(other)),
        }
    }
}

/// The window expression once its function, variable and the position of
/// `:over` are known.
pub open spec fn spec_window_tail(
    elems: Seq<EdnView>,
    func: WindowFuncView,
    var: Option<Seq<char>>,
    idx: int,
) -> Result<FindSpecView, Seq<char>> {
    if idx + 2 != elems.len() {
        Err("unexpected tokens after ':over' clause in window expression"@)
    } else {
        match elems[idx + 1] {
            EdnView::List(l) => match over_opts(l, 0, None, None, Order::Asc) {
                Err(m) => Err(m),
                Ok((pb, ob, ord)) => match ob {
                    None => Err("':order-by' is required in the ':over' clause"@),
                    Some(o) => Ok(
                        FindSpecView::Window(
                            WindowSpecView { func, var, partition_by: pb, order_by: o, order: ord },
                        ),
                    ),
                },
            },
            _ => Err("':over' must be followed by a list, e.g., (:order-by ?var)"@),
        }
    }
}

/// A window expression `(func ?var :over (...))`, or `(rank :over (...))`
/// and `(row-number :over (...))` without a variable.
pub open spec fn spec_window(elems: Seq<EdnView>) -> Result<FindSpecView, Seq<char>> {
    if elems.len() == 0 {
        Err("window expression cannot be empty"@)
    } else {
        match elems[0] {
            EdnView::Symbol(name) => match spec_window_func(name) {
                Err(m) => Err(m),
                Ok(func) => if func is Rank || func is RowNumber {
                    if !keyword_at(elems, 1, ":over"@) {
                        Err(
                            quoted(
                                name,
                                "' requires ':over' immediately after the function name (no variable argument)"@,
                            ),
                        )
                    } else {
                        spec_window_tail(elems, func, None, 1)
                    }
                } else {
                    match var_at(elems, 1) {
                        None => Err(
                            quoted(name, "' requires a variable argument (starting with ?) before ':over'"@),
                        ),
                        Some(v) => if !keyword_at(elems, 2, ":over"@) {
                            Err(quoted(name, "' requires ':over' after the variable argument"@))
                        } else {
                            spec_window_tail(elems, func, Some(v), 2)
                        },
                    }
                },
            },
            _ => Err("window function name must be a symbol"@),
        }
    }
}

/// The symbol a list starts with, if any.
pub open spec fn head_symbol(elems: Seq<EdnView>) -> Option<Seq<char>> {
    if elems.len() > 0 {
        match elems[0] {
            EdnView::Symbol(f) => Some(f),
            _ => None,
        }
    } else {
        None
    }
}

proof fn lemma_over_opts_order_by(
    l: Seq<EdnView>,
    j: int,
    pb: Option<Seq<char>>,
    ob: Option<Seq<char>>,
    ord: Order,
)
    requires
        0 <= j,
        ob is None,
    ensures
        over_opts(l, j, pb, ob, ord) matches Ok((_, Some(_), _)) ==> exists|k: int|
            j <= k < l.len() && l[k] == EdnView::Keyword(":order-by"@),
    decreases l.len() - j,
{
    if j < l.len() {
        if let EdnView::Keyword(k) = l[j] {
            if k == ":partition-by"@ {
                if let Some(v) = var_at(l, j + 1) {
                    lemma_over_opts_order_by(l, j + 2, Some(v), ob, ord);
                }
            } else if k == ":order-by"@ {
            } else if k == ":desc"@ {
                lemma_over_opts_order_by(l, j + 1, pb, ob, Order::Desc);
            } else if k == ":asc"@ {
                lemma_over_opts_order_by(l, j + 1, pb, ob, Order::Asc);
            }
        }
    }
}

/// The shape of window expressions: `lag` and `lead` are refused as not
/// supported, the `-distinct` aggregates as not window-compatible; an
/// accepted window's `:over` list names `:order-by`, and it takes a variable
/// exactly when its function is neither `rank` nor `row-number`.
pub proof fn lemma_window_shape(elems: Seq<EdnView>)
    ensures
        head_symbol(elems) matches Some(f) ==> ((f == "lag"@ || f == "lead"@) ==> spec_window(elems) == Err::<
            FindSpecView,
            Seq<char>,
        >(quoted(f, "' is not supported in this version; lag/lead are planned for a future release"@))),
        head_symbol(elems) matches Some(f) ==> ((f == "count-distinct"@ || f == "sum-distinct"@) ==> spec_window(
            elems,
        ) == Err::<FindSpecView, Seq<char>>(quoted(f, "' is not window-compatible and cannot be used with ':over'"@))),
        spec_window(elems) matches Ok(FindSpecView::Window(ws)) ==> (ws.var is None <==> (ws.func is Rank
            || ws.func is RowNumber)),
        spec_window(elems) matches Ok(FindSpecView::Window(ws)) ==> exists|l: Seq<EdnView>, k: int|
            elems.last() == EdnView::List(l) && 0 <= k < l.len() && l[k] == EdnView::Keyword(":order-by"@),
{
    reveal_strlit("lag");
    reveal_strlit("lead");
    reveal_strlit("sum");
    reveal_strlit("count");
    reveal_strlit("min");
    reveal_strlit("max");
    reveal_strlit("avg");
    reveal_strlit("rank");
    reveal_strlit("row-number");
    reveal_strlit("count-distinct");
    reveal_strlit("sum-distinct");
    if elems.len() > 0 {
        if let EdnView::Symbol(f) = elems[0] {
            if f == "count-distinct"@ || f == "sum-distinct"@ {
                assert(f != "lag"@ && f != "lead"@ && f != "sum"@ && f != "count"@ && f != "min"@);
                assert(f != "max"@ && f != "avg"@ && f != "rank"@ && f != "row-number"@);
            }
            if let Ok(func) = spec_window_func(f) {
                let idx: int = if func is Rank || func is RowNumber { 1 } else { 2 };
                if idx + 2 == elems.len() {
                    if let EdnView::List(l) = elems[idx + 1] {
                        lemma_over_opts_order_by(l, 0, None, None, Order::Asc);
                        assert(elems.last() == elems[idx + 1]);
                    }
                }
            }
        }
    }
}

/// An aggregate `(func ?var)`; a list holding `:over` is a window
/// expression. Names that only make sense as window functions are refused;
/// other unknown names are user-defined aggregates.
pub open spec fn spec_aggregate(elems: Seq<EdnView>) -> Result<FindSpecView, Seq<char>> {
    if has_over(elems) {
        spec_window(elems)
    } else if elems.len() != 2 {
        Err("Aggregate expression must have exactly 2 elements (func ?var), got "@ + nat_text(elems.len()))
    } else {
        match elems[0] {
            EdnView::Symbol(f) => if f == "avg"@ || f == "rank"@ || f == "row-number"@ {
                Err(quoted(f, "' is a window function and requires an ':over (...)' clause"@))
            } else {
                match view_variable(elems[1]) {
                    Some(v) => Ok(FindSpecView::Aggregate { func: f, var: v }),
                    None => Err("Aggregate argument must be a variable (starting with ?)"@),
                }
            },
            other => Err("Aggregate function name must be a symbol, got "@ + edn_text(other)),
        }
    }
}

fn quoted_msg(name: &str, rest: &str) -> (m: String)
    ensures
        m@ == quoted(name@, rest@),
{
    let mut m = concat("'", name);
    m.append(rest);
    m
}

fn window_func(name: &str) -> (r: Result<WindowFunc, String>)
    ensures
        match r {
            Ok(f) => spec_window_func(name@) == Ok::<WindowFuncView, Seq<char>>(f@),
            Err(m) => spec_window_func(name@) == Err::<WindowFuncView, Seq<char>>(m@),
        },
{
    if str_eq(name, "lag") || str_eq(name, "lead") {
        Err(quoted_msg(name, "' is not supported in this version; lag/lead are planned for a future release"))
    } else if str_eq(name, "sum") {
        Ok(WindowFunc::Sum)
    } else if str_eq(name, "count") {
        Ok(WindowFunc::Count)
    } else if str_eq(name, "min") {
        Ok(WindowFunc::Min)
    } else if str_eq(name, "max") {
        Ok(WindowFunc::Max)
    } else if str_eq(name, "avg") {
        Ok(WindowFunc::Avg)
    } else if str_eq(name, "rank") {
        Ok(WindowFunc::Rank)
    } else if str_eq(name, "row-number") {
        Ok(WindowFunc::RowNumber)
    } else if str_eq(name, "count-distinct") || str_eq(name, "sum-distinct") {
        Err(quoted_msg(name, "' is not window-compatible and cannot be used with ':over'"))
    } else {
        Ok(WindowFunc::Udf(owned(name)))
    }
}

fn var_at_exec(l: &Vec<EdnValue>, j: usize) -> (r: Option<String>)
    ensures
        match r {
            Some(v) => var_at(edns_view(l@), j as int) == Some(v@),
            None => var_at(edns_view(l@), j as int) is None,
        },
{
    proof {
        lemma_edns_view(l@);
    }
    if j < l.len() {
        match l[j].as_variable() {
            Some(v) => Some(owned(v)),
            None => None,
        }
    } else {
        None
    }
}

fn keyword_at_exec(l: &Vec<EdnValue>, j: usize, k: &str) -> (r: bool)
    ensures
        r == keyword_at(edns_view(l@), j as int, k@),
{
    proof {
        lemma_edns_view(l@);
    }
    if j < l.len() {
        match &l[j] {
            EdnValue::Keyword(x) => str_eq(x.as_str(), k),
            _ => false,
        }
    } else {
        false
    }
}

fn parse_over(l: &Vec<EdnValue>) -> (r: Result<(Option<String>, Option<String>, Order), String>)
    ensures
        match r {
            Ok((pb, ob, ord)) => over_opts(edns_view(l@), 0, None, None, Order::Asc) == Ok::<
                (Option<Seq<char>>, Option<Seq<char>>, Order),
                Seq<char>,
            >((crate::types::opt_str_view(pb), crate::types::opt_str_view(ob), ord)),
            Err(m) => over_opts(edns_view(l@), 0, None, None, Order::Asc) == Err::<
                (Option<Seq<char>>, Option<Seq<char>>, Order),
                Seq<char>,
            >(m@),
        },
{
    proof {
        lemma_edns_view(l@);
    }
    let ghost lv = edns_view(l@);
    let mut pb: Option<String> = None;
    let mut ob: Option<String> = None;
    let mut ord = Order::Asc;
    let mut j: usize = 0;
    while j < l.len()
        invariant
            lv == edns_view(l@),
            lv.len() == l@.len(),
            forall|i: int| 0 <= i < l@.len() ==> #[trigger] lv[i] == l@[i]@,
            over_opts(lv, 0, None, None, Order::Asc) == over_opts(
                lv,
                j as int,
                crate::types::opt_str_view(pb),
                crate::types::opt_str_view(ob),
                ord,
            ),
        decreases l@.len() - j,
    {
        match &l[j] {
            EdnValue::Keyword(k) => {
                if str_eq(k.as_str(), ":partition-by") {
                    match var_at_exec(l, j + 1) {
                        Some(v) => {
                            pb = Some(v);
                        },
                        None => {
                            return Err(owned("':partition-by' requires a variable (starting with ?)"));
                        },
                    }
                    j = j + 1;
                } else if str_eq(k.as_str(), ":order-by") {
                    match var_at_exec(l, j + 1) {
                        Some(v) => {
                            ob = Some(v);
                        },
                        None => {
                            return Err(owned("':order-by' requires a variable (starting with ?)"));
                        },
                    }
                    j = j + 1;
                } else if str_eq(k.as_str(), ":desc") {
                    ord = Order::Desc;
                } else if str_eq(k.as_str(), ":asc") {
                    ord = Order::Asc;
                } else {
                    let mut m = concat("unknown option in ':over' clause: '", k.as_str());
                    m.append("'");
                    return Err(m);
                }
            },
            other => {
                return Err(msg_with_value("unexpected element in ':over' clause: ", other));
            },
        }
        j = j + 1;
    }
    Ok((pb, ob, ord))
}

fn window_tail(elems: &Vec<EdnValue>, func: WindowFunc, var: Option<String>, idx: usize) -> (r: Result<
    FindSpec,
    String,
>)
    requires
        idx <= 2,
    ensures
        match r {
            Ok(f) => spec_window_tail(edns_view(elems@), func@, crate::types::opt_str_view(var), idx as int)
                == Ok::<FindSpecView, Seq<char>>(f@),
            Err(m) => spec_window_tail(edns_view(elems@), func@, crate::types::opt_str_view(var), idx as int)
                == Err::<FindSpecView, Seq<char>>(m@),
        },
{
    proof {
        lemma_edns_view(elems@);
    }
    if idx + 2 != elems.len() {
        return Err(owned("unexpected tokens after ':over' clause in window expression"));
    }
    match &elems[idx + 1] {
        EdnValue::List(l) => {
            let (pb, ob, ord) = parse_over(l)?;
            match ob {
                None => Err(owned("':order-by' is required in the ':over' clause")),
                Some(o) => Ok(FindSpec::Window(WindowSpec { func, var, partition_by: pb, order_by: o, order: ord })),
            }
        },
        _ => Err(owned("':over' must be followed by a list, e.g., (:order-by ?var)")),
    }
}

/// Parses a window expression (see `spec_window`).
pub fn parse_window_expr(elems: &Vec<EdnValue>) -> (r: Result<FindSpec, String>)
    ensures
        match r {
            Ok(f) => spec_window(edns_view(elems@)) == Ok::<FindSpecView, Seq<char>>(f@),
            Err(m) => spec_window(edns_view(elems@)) == Err::<FindSpecView, Seq<char>>(m@),
        },
{
    proof {
        lemma_edns_view(elems@);
    }
    if elems.len() == 0 {
        return Err(owned("window expression cannot be empty"));
    }
    let name = match &elems[0] {
        EdnValue::Symbol(s) => s.as_str(),
        _ => {
            return Err(owned("window function name must be a symbol"));
        },
    };
    let func = window_func(name)?;
    let no_var = match func {
        WindowFunc::Rank | WindowFunc::RowNumber => true,
        _ => false,
    };
    if no_var {
        if !keyword_at_exec(elems, 1, ":over") {
            return Err(
                quoted_msg(name, "' requires ':over' immediately after the function name (no variable argument)"),
            );
        }
        window_tail(elems, func, None, 1)
    } else {
        match var_at_exec(elems, 1) {
            None => Err(quoted_msg(name, "' requires a variable argument (starting with ?) before ':over'")),
            Some(v) => {
                if !keyword_at_exec(elems, 2, ":over") {
                    return Err(quoted_msg(name, "' requires ':over' after the variable argument"));
                }
                window_tail(elems, func, Some(v), 2)
            },
        }
    }
}

fn has_over_exec(elems: &Vec<EdnValue>) -> (r: bool)
    ensures
        r == has_over(edns_view(elems@)),
{
    proof {
        lemma_edns_view(elems@);
    }
    let ghost ev = edns_view(elems@);
    let mut k: usize = 0;
    while k < elems.len()
        invariant
            k <= elems@.len(),
            ev == edns_view(elems@),
            ev.len() == elems@.len(),
            forall|i: int| 0 <= i < elems@.len() ==> #[trigger] ev[i] == elems@[i]@,
            forall|i: int| 0 <= i < k ==> #[trigger] ev[i] != EdnView::Keyword(":over"@),
        decreases elems@.len() - k,
    {
        match &elems[k] {
            EdnValue::Keyword(x) => {
                if str_eq(x.as_str(), ":over") {
                    assert(ev[k as int] == EdnView::Keyword(":over"@));
                    return true;
                }
            },
            _ => {},
        }
        k = k + 1;
    }
    false
}

/// Parses an aggregate or window expression of `:find` (see `spec_aggregate`).
pub fn parse_aggregate(elems: &Vec<EdnValue>) -> (r: Result<FindSpec, String>)
    ensures
        match r {
            Ok(f) => spec_aggregate(edns_view(elems@)) == Ok::<FindSpecView, Seq<char>>(f@),
            Err(m) => spec_aggregate(edns_view(elems@)) == Err::<FindSpecView, Seq<char>>(m@),
        },
{
    proof {
        lemma_edns_view(elems@);
    }
    if has_over_exec(elems) {
        return parse_window_expr(elems);
    }
    if elems.len() != 2 {
        let mut m = owned("Aggregate expression must have exactly 2 elements (func ?var), got ");
        push_u64_text(&mut m, elems.len() as u64);
        return Err(m);
    }
    let f = match &elems[0] {
        EdnValue::Symbol(s) => s.as_str(),
        other => {
            return Err(msg_with_value("Aggregate function name must be a symbol, got ", other));
        },
    };
    if str_eq(f, "avg") || str_eq(f, "rank") || str_eq(f, "row-number") {
        return Err(quoted_msg(f, "' is a window function and requires an ':over (...)' clause"));
    }
    match elems[1].as_variable() {
        Some(v) => Ok(FindSpec::Aggregate { func: owned(f), var: owned(v) }),
        None => Err(owned("Aggregate argument must be a variable (starting with ?)")),
    }
}

} // verus!
