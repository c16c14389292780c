//! Parsing of `:where` and rule-body clauses: patterns, expression clauses,
//! rule invocations, `not`, `not-join`, `or` and `or-join`.
use vstd::prelude::*;
use crate::edn::{
    EdnValue, EdnView, edn_view, edns_view, edn_text, view_variable, is_var_name, lemma_edns_view,
    edn_clone, edns_clone_range, msg_with_value,
};
use crate::text::{owned, concat, push_u64_text, nat_text, str_eq, starts_with, debug_str, debug_text};
use crate::types::{
    Value, ValueView, UnaryOp, UnaryOpView, BinOp, BinOpView, Expr, ExprView, PseudoAttr,
    pseudo_from_keyword, AttributeView, Pattern, PatternView, WhereClause, ClauseView, clauses_view,
    branches_view, strs_view, lemma_clauses_view_push, lemma_branches_view_push,
};

verus! {

// ===================== expressions =====================

/// The error text regex-lite gives for a pattern it cannot compile (None
/// when it compiles).
pub uninterp spec fn regex_compile_error(p: Seq<char>) -> Option<Seq<char>>;

/// regex-lite's `Regex::new`, reduced to whether it compiles and, if not, the
/// error's text; named (`regex_compile_error`), as the accepted syntax is the
/// crate's grammar.
#[verifier::external_body]
fn regex_check(p: &str) -> (r: Option<String>)
    ensures
        match r {
            Some(e) => regex_compile_error(p@) == Some(e@),
            None => regex_compile_error(p@) is None,
        },
{
    match regex_lite::Regex::new(p) {
        Ok(_) => None,
        Err(e) => Some(e.to_string()),
    }
}

/// The unary predicates and their operators.
pub open spec fn unary_op_of(h: Seq<char>) -> Option<UnaryOpView> {
    if h == "string?"@ {
        Some(UnaryOpView::StringQ)
    } else if h == "integer?"@ {
        Some(UnaryOpView::IntegerQ)
    } else if h == "float?"@ {
        Some(UnaryOpView::FloatQ)
    } else if h == "boolean?"@ {
        Some(UnaryOpView::BooleanQ)
    } else if h == "nil?"@ {
        Some(UnaryOpView::NilQ)
    } else {
        None
    }
}

/// The binary operators other than `matches?`.
pub open spec fn binary_op_of(h: Seq<char>) -> Option<BinOpView> {
    if h == "<"@ {
        Some(BinOpView::Lt)
    } else if h == ">"@ {
        Some(BinOpView::Gt)
    } else if h == "<="@ {
        Some(BinOpView::Lte)
    } else if h == ">="@ {
        Some(BinOpView::Gte)
    } else if h == "="@ {
        Some(BinOpView::Eq)
    } else if h == "!="@ {
        Some(BinOpView::Neq)
    } else if h == "+"@ {
        Some(BinOpView::Add)
    } else if h == "-"@ {
        Some(BinOpView::Sub)
    } else if h == "*"@ {
        Some(BinOpView::Mul)
    } else if h == "/"@ {
        Some(BinOpView::Div)
    } else if h == "starts-with?"@ {
        Some(BinOpView::StartsWith)
    } else if h == "ends-with?"@ {
        Some(BinOpView::EndsWith)
    } else if h == "contains?"@ {
        Some(BinOpView::Contains)
    } else {
        None
    }
}

/// An expression argument: a variable, a literal, a bind slot or a nested
/// expression list.
pub open spec fn spec_expr_arg(e: EdnView) -> Result<ExprView, Seq<char>>
    decreases e,
{
    match e {
        EdnView::Symbol(s) => if is_var_name(s) {
            Ok(ExprView::Var(s))
        } else {
            Err("unsupported expression argument: "@ + edn_text(e))
        },
        EdnView::Integer(n) => Ok(ExprView::Lit(ValueView::Integer(n))),
        EdnView::Float(t) => Ok(ExprView::Lit(ValueView::Float(t))),
        EdnView::Str(s) => Ok(ExprView::Lit(ValueView::Str(s))),
        EdnView::Boolean(b) => Ok(ExprView::Lit(ValueView::Boolean(b))),
        EdnView::Nil => Ok(ExprView::Lit(ValueView::Null)),
        EdnView::Keyword(k) => Ok(ExprView::Lit(ValueView::Keyword(k))),
        EdnView::List(inner) => spec_expr(inner),
        EdnView::BindSlot(n) => Ok(ExprView::Slot(n)),
        _ => Err("unsupported expression argument: "@ + edn_text(e)),
    }
}

/// An expression list `(op arg...)`.
pub open spec fn spec_expr(list: Seq<EdnView>) -> Result<ExprView, Seq<char>>
    decreases list,
{
    if list.len() == 0 {
        Err("expression list cannot be empty"@)
    } else {
        match list[0] {
            EdnView::Symbol(h) => if unary_op_of(h) is Some {
                if list.len() != 2 {
                    Err(h + " takes exactly 1 argument"@)
                } else {
                    match spec_expr_arg(list[1]) {
                        Ok(a) => Ok(ExprView::UnaryOp(unary_op_of(h)->0, Box::new(a))),
                        Err(m) => Err(m),
                    }
                }
            } else if binary_op_of(h) is Some || h == "matches?"@ {
                if list.len() != 3 {
                    Err(h + " takes exactly 2 arguments"@)
                } else {
                    match spec_expr_arg(list[1]) {
                        Err(m) => Err(m),
                        Ok(l) => match spec_expr_arg(list[2]) {
                            Err(m) => Err(m),
                            Ok(r) => if h == "matches?"@ {
                                match r {
                                    ExprView::Lit(ValueView::Str(p)) => match regex_compile_error(p) {
                                        None => Ok(
                                            ExprView::BinOp(
                                                BinOpView::Matches(p),
                                                Box::new(l),
                                                Box::new(ExprView::Lit(ValueView::Str(p))),
                                            ),
                                        ),
                                        Some(e) => Err(
                                            "invalid regex pattern "@ + debug_text(p) + ": "@ + e,
                                        ),
                                    },
                                    _ => Err("matches? second argument must be a string literal"@),
                                }
                            } else {
                                Ok(ExprView::BinOp(binary_op_of(h)->0, Box::new(l), Box::new(r)))
                            },
                        },
                    }
                }
            } else if list.len() == 2 {
                match spec_expr_arg(list[1]) {
                    Ok(a) => Ok(ExprView::UnaryOp(UnaryOpView::Udf(h), Box::new(a))),
                    Err(m) => Err(m),
                }
            } else {
                Err("unknown expression operator: "@ + h)
            },
            _ => Err("expression head must be a symbol, got "@ + edn_text(list[0])),
        }
    }
}

fn unary_op_exec(h: &str) -> (r: Option<UnaryOp>)
    ensures
        match r {
            Some(op) => unary_op_of(h@) == Some(op@),
            None => unary_op_of(h@) is None,
        },
{
    if str_eq(h, "string?") {
        Some(UnaryOp::StringQ)
    } else if str_eq(h, "integer?") {
        Some(UnaryOp::IntegerQ)
    } else if str_eq(h, "float?") {
        Some(UnaryOp::FloatQ)
    } else if str_eq(h, "boolean?") {
        Some(UnaryOp::BooleanQ)
    } else if str_eq(h, "nil?") {
        Some(UnaryOp::NilQ)
    } else {
        None
    }
}

fn binary_op_exec(h: &str) -> (r: Option<BinOp>)
    ensures
        match r {
            Some(op) => binary_op_of(h@) == Some(op@),
            None => binary_op_of(h@) is None,
        },
{
    if str_eq(h, "<") {
        Some(BinOp::Lt)
    } else if str_eq(h, ">") {
        Some(BinOp::Gt)
    } else if str_eq(h, "<=") {
        Some(BinOp::Lte)
    } else if str_eq(h, ">=") {
        Some(BinOp::Gte)
    } else if str_eq(h, "=") {
        Some(BinOp::Eq)
    } else if str_eq(h, "!=") {
        Some(BinOp::Neq)
    } else if str_eq(h, "+") {
        Some(BinOp::Add)
    } else if str_eq(h, "-") {
        Some(BinOp::Sub)
    } else if str_eq(h, "*") {
        Some(BinOp::Mul)
    } else if str_eq(h, "/") {
        Some(BinOp::Div)
    } else if str_eq(h, "starts-with?") {
        Some(BinOp::StartsWith)
    } else if str_eq(h, "ends-with?") {
        Some(BinOp::EndsWith)
    } else if str_eq(h, "contains?") {
        Some(BinOp::Contains)
    } else {
        None
    }
}

/// Converts one EDN value into an expression argument.
pub fn parse_expr_arg(e: &EdnValue) -> (r: Result<Expr, String>)
    ensures
        match r {
            Ok(x) => spec_expr_arg(e@) == Ok::<ExprView, Seq<char>>(x@),
            Err(m) => spec_expr_arg(e@) == Err::<ExprView, Seq<char>>(m@),
        },
    decreases e,
{
    match e {
        EdnValue::Symbol(s) => if starts_with(s.as_str(), "?") {
            Ok(Expr::Var(s.clone()))
        } else {
            Err(msg_with_value("unsupported expression argument: ", e))
        },
        EdnValue::Integer(n) => Ok(Expr::Lit(Value::Integer(*n))),
        EdnValue::Float(t) => Ok(Expr::Lit(Value::Float(t.clone()))),
        EdnValue::String(s) => Ok(Expr::Lit(Value::String(s.clone()))),
        EdnValue::Boolean(b) => Ok(Expr::Lit(Value::Boolean(*b))),
        EdnValue::Nil => Ok(Expr::Lit(Value::Null)),
        EdnValue::Keyword(k) => Ok(Expr::Lit(Value::Keyword(k.clone()))),
        EdnValue::List(inner) => parse_expr(inner),
        EdnValue::BindSlot(n) => Ok(Expr::Slot(n.clone())),
        _ => Err(msg_with_value("unsupported expression argument: ", e)),
    }
}

/// Parses an expression list `(op arg arg?)` into an expression tree. The
/// pattern of `matches?` must be a string literal that compiles as a regex.
pub fn parse_expr(list: &Vec<EdnValue>) -> (r: Result<Expr, String>)
    ensures
        match r {
            Ok(x) => spec_expr(edns_view(list@)) == Ok::<ExprView, Seq<char>>(x@),
            Err(m) => spec_expr(edns_view(list@)) == Err::<ExprView, Seq<char>>(m@),
        },
    decreases list,
{
    proof {
        lemma_edns_view(list@);
    }
    if list.len() == 0 {
        return Err(owned("expression list cannot be empty"));
    }
    let h = match &list[0] {
        EdnValue::Symbol(h) => h,
        other => {
            return Err(msg_with_value("expression head must be a symbol, got ", other));
        },
    };
    if let Some(op) = unary_op_exec(h.as_str()) {
        if list.len() != 2 {
            return Err(concat(h.as_str(), " takes exactly 1 argument"));
        }
        let a = parse_expr_arg(&list[1])?;
        return Ok(Expr::UnaryOp(op, Box::new(a)));
    }
    let bop = binary_op_exec(h.as_str());
    let is_matches = str_eq(h.as_str(), "matches?");
    if bop.is_some() || is_matches {
        if list.len() != 3 {
            return Err(concat(h.as_str(), " takes exactly 2 arguments"));
        }
        let l = parse_expr_arg(&list[1])?;
        let r = parse_expr_arg(&list[2])?;
        if is_matches {
            match &r {
                Expr::Lit(Value::String(p)) => {
                    match regex_check(p.as_str()) {
                        None => {
                            let pat = p.clone();
                            let lit = Expr::Lit(Value::String(p.clone()));
                            return Ok(
                                Expr::BinOp(BinOp::Matches { pattern: pat }, Box::new(l), Box::new(lit)),
                            );
                        },
                        Some(e) => {
                            let quoted = debug_str(p.as_str());
                            let mut m = concat("invalid regex pattern ", quoted.as_str());
                            m.append(": ");
                            m.append(e.as_str());
                            return Err(m);
                        },
                    }
                },
                _ => {
                    return Err(owned("matches? second argument must be a string literal"));
                },
            }
        }
        match bop {
            Some(op) => {
                return Ok(Expr::BinOp(op, Box::new(l), Box::new(r)));
            },
            None => {
                return Err(owned("matches? second argument must be a string literal"));
            },
        }
    }
    if list.len() == 2 {
        let a = parse_expr_arg(&list[1])?;
        Ok(Expr::UnaryOp(UnaryOp::Udf(h.clone()), Box::new(a)))
    } else {
        Err(concat("unknown expression operator: ", h.as_str()))
    }
}


// ===================== expression clauses and patterns =====================

/// An expression clause `[(expr)]` or `[(expr) ?out]`.
pub open spec fn spec_expr_clause(v: Seq<EdnView>) -> Result<ClauseView, Seq<char>> {
    if v.len() == 0 {
        Err("parse_expr_clause called with empty vector"@)
    } else {
        match v[0] {
            EdnView::List(l) => match spec_expr(l) {
                Err(m) => Err(m),
                Ok(e) => if v.len() == 1 {
                    Ok(ClauseView::Expr { expr: e, binding: None })
                } else if v.len() == 2 {
                    match view_variable(v[1]) {
                        Some(out) => Ok(ClauseView::Expr { expr: e, binding: Some(out) }),
                        None => Err("expression output must be a ?variable, got "@ + edn_text(v[1])),
                    }
                } else {
                    Err(
                        "expression clause must be [(expr)] or [(expr) ?out], got "@ + nat_text(
                            v.len(),
                        ) + " elements"@,
                    )
                },
            },
            _ => Err("parse_expr_clause called with non-list element 0"@),
        }
    }
}

/// The pseudo-attribute a keyword value names, if any.
pub open spec fn pseudo_of(v: EdnView) -> Option<PseudoAttr> {
    match v {
        EdnView::Keyword(k) => pseudo_from_keyword(k),
        _ => None,
    }
}

/// The keyword text of a keyword value.
pub open spec fn keyword_text(v: EdnView) -> Seq<char> {
    match v {
        EdnView::Keyword(k) => k,
        _ => Seq::empty(),
    }
}

/// A pattern `[e a v]` of a query or rule body; `:db/*` pseudo-attributes
/// are allowed only in the attribute position.
pub open spec fn spec_query_pattern(v: Seq<EdnView>) -> Result<PatternView, Seq<char>> {
    if v.len() != 3 {
        Err("Pattern must have exactly 3 elements (E A V), got "@ + nat_text(v.len()))
    } else if pseudo_of(v[0]) is Some {
        Err("pseudo-attribute "@ + keyword_text(v[0]) + " is not valid in entity position"@)
    } else if pseudo_of(v[2]) is Some {
        Err("pseudo-attribute "@ + keyword_text(v[2]) + " is not valid in value position"@)
    } else if pseudo_of(v[1]) is Some {
        Ok(
            PatternView {
                entity: v[0],
                attribute: AttributeView::Pseudo(pseudo_of(v[1])->0),
                value: v[2],
                valid_from: None,
                valid_to: None,
            },
        )
    } else {
        Ok(
            PatternView {
                entity: v[0],
                attribute: AttributeView::Real(v[1]),
                value: v[2],
                valid_from: None,
                valid_to: None,
            },
        )
    }
}

/// A pattern `[e a v]` as written in a retraction.
pub open spec fn spec_pattern_from_edn(v: Seq<EdnView>) -> Result<PatternView, Seq<char>> {
    if v.len() != 3 {
        Err("Pattern must have exactly 3 elements (E A V), got "@ + nat_text(v.len()))
    } else {
        Ok(
            PatternView {
                entity: v[0],
                attribute: AttributeView::Real(v[1]),
                value: v[2],
                valid_from: None,
                valid_to: None,
            },
        )
    }
}

/// A vector clause: an expression clause when its first element is a list,
/// a pattern otherwise.
pub open spec fn spec_vector_clause(v: Seq<EdnView>) -> Result<ClauseView, Seq<char>> {
    if v.len() > 0 && v[0] is List {
        spec_expr_clause(v)
    } else {
        match spec_query_pattern(v) {
            Ok(p) => Ok(ClauseView::Pattern(p)),
            Err(m) => Err(m),
        }
    }
}

/// Parses an expression clause `[(expr)]` or `[(expr) ?out]`.
pub fn parse_expr_clause(v: &Vec<EdnValue>) -> (r: Result<WhereClause, String>)
    ensures
        match r {
            Ok(c) => spec_expr_clause(edns_view(v@)) == Ok::<ClauseView, Seq<char>>(c@),
            Err(m) => spec_expr_clause(edns_view(v@)) == Err::<ClauseView, Seq<char>>(m@),
        },
{
    proof {
        lemma_edns_view(v@);
    }
    if v.len() == 0 {
        return Err(owned("parse_expr_clause called with empty vector"));
    }
    let l = match &v[0] {
        EdnValue::List(l) => l,
        _ => {
            return Err(owned("parse_expr_clause called with non-list element 0"));
        },
    };
    let e = parse_expr(l)?;
    if v.len() == 1 {
        Ok(WhereClause::Expr { expr: e, binding: None })
    } else if v.len() == 2 {
        match v[1].as_variable() {
            Some(out) => Ok(WhereClause::Expr { expr: e, binding: Some(owned(out)) }),
            None => Err(msg_with_value("expression output must be a ?variable, got ", &v[1])),
        }
    } else {
        let mut m = owned("expression clause must be [(expr)] or [(expr) ?out], got ");
        push_u64_text(&mut m, v.len() as u64);
        m.append(" elements");
        Err(m)
    }
}

fn pseudo_exec(v: &EdnValue) -> (r: Option<PseudoAttr>)
    ensures
        r == pseudo_of(v@),
{
    match v {
        EdnValue::Keyword(k) => PseudoAttr::from_keyword(k.as_str()),
        _ => None,
    }
}

fn keyword_msg(prefix: &str, v: &EdnValue, suffix: &str) -> (m: String)
    ensures
        m@ == prefix@ + keyword_text(v@) + suffix@,
{
    let mut m = owned(prefix);
    match v {
        EdnValue::Keyword(k) => m.append(k.as_str()),
        _ => {},
    }
    m.append(suffix);
    assert(m@ =~= prefix@ + keyword_text(v@) + suffix@);
    m
}

/// Parses a pattern of a query or rule body.
pub fn parse_query_pattern(v: &Vec<EdnValue>) -> (r: Result<Pattern, String>)
    ensures
        match r {
            Ok(p) => spec_query_pattern(edns_view(v@)) == Ok::<PatternView, Seq<char>>(p@),
            Err(m) => spec_query_pattern(edns_view(v@)) == Err::<PatternView, Seq<char>>(m@),
        },
{
    proof {
        lemma_edns_view(v@);
    }
    if v.len() != 3 {
        let mut m = owned("Pattern must have exactly 3 elements (E A V), got ");
        push_u64_text(&mut m, v.len() as u64);
        return Err(m);
    }
    if pseudo_exec(&v[0]).is_some() {
        return Err(keyword_msg("pseudo-attribute ", &v[0], " is not valid in entity position"));
    }
    if pseudo_exec(&v[2]).is_some() {
        return Err(keyword_msg("pseudo-attribute ", &v[2], " is not valid in value position"));
    }
    match pseudo_exec(&v[1]) {
        Some(p) => Ok(Pattern::pseudo(edn_clone(&v[0]), p, edn_clone(&v[2]))),
        None => Ok(Pattern::new(edn_clone(&v[0]), edn_clone(&v[1]), edn_clone(&v[2]))),
    }
}

/// Builds a pattern from `[e a v]`.
pub fn pattern_from_edn(v: &Vec<EdnValue>) -> (r: Result<Pattern, String>)
    ensures
        match r {
            Ok(p) => spec_pattern_from_edn(edns_view(v@)) == Ok::<PatternView, Seq<char>>(p@),
            Err(m) => spec_pattern_from_edn(edns_view(v@)) == Err::<PatternView, Seq<char>>(m@),
        },
{
    proof {
        lemma_edns_view(v@);
    }
    if v.len() != 3 {
        let mut m = owned("Pattern must have exactly 3 elements (E A V), got ");
        push_u64_text(&mut m, v.len() as u64);
        return Err(m);
    }
    Ok(Pattern::new(edn_clone(&v[0]), edn_clone(&v[1]), edn_clone(&v[2])))
}

pub(crate) fn parse_vector_clause(v: &Vec<EdnValue>) -> (r: Result<WhereClause, String>)
    ensures
        match r {
            Ok(c) => spec_vector_clause(edns_view(v@)) == Ok::<ClauseView, Seq<char>>(c@),
            Err(m) => spec_vector_clause(edns_view(v@)) == Err::<ClauseView, Seq<char>>(m@),
        },
{
    proof {
        lemma_edns_view(v@);
    }
    let first_is_list = v.len() > 0 && match &v[0] {
        EdnValue::List(_) => true,
        _ => false,
    };
    if first_is_list {
        parse_expr_clause(v)
    } else {
        let p = parse_query_pattern(v)?;
        Ok(WhereClause::Pattern(p))
    }
}


// ===================== list clauses =====================

/// The first element is the symbol `name`.
pub open spec fn head_is(list: Seq<EdnView>, name: Seq<char>) -> bool {
    list.len() > 0 && list[0] == EdnView::Symbol(name)
}

/// The join variables of `not-join`/`or-join` (`or_join` picks the message):
/// every element must be a logic variable.
pub open spec fn spec_join_vars(v: Seq<EdnView>, j: int, acc: Seq<Seq<char>>, or_join: bool) -> Result<
    Seq<Seq<char>>,
    Seq<char>,
>
    decreases v.len() - j,
{
    if j < 0 || j >= v.len() {
        Ok(acc)
    } else {
        match view_variable(v[j]) {
            Some(n) => spec_join_vars(v, j + 1, acc.push(n), or_join),
            None => Err(
                (if or_join {
                    "(or-join) join variables must be logic variables, got "@
                } else {
                    "(not-join) join variables must be logic variables, got "@
                }) + edn_text(v[j]),
            ),
        }
    }
}

/// A list clause: `(not ...)`, `(not-join [...] ...)`, `(or ...)`,
/// `(or-join [...] ...)` or a rule invocation `(pred args...)`.
/// `allow_not` is false inside a negation, where negations are rejected.
pub open spec fn spec_list_clause(list: Seq<EdnView>, allow_not: bool) -> Result<ClauseView, Seq<char>>
    decreases list, list.len() + 1,
{
    if list.len() == 0 {
        Err("Empty list in :where clause"@)
    } else if head_is(list, "not"@) {
        if !allow_not {
            Err("(not ...) cannot appear inside another (not ...)"@)
        } else if list.len() < 2 {
            Err("(not) requires at least one clause"@)
        } else {
            match spec_negated_body(list, 1, Seq::empty(), false) {
                Ok(inner) => Ok(ClauseView::Not(inner)),
                Err(m) => Err(m),
            }
        }
    } else if head_is(list, "not-join"@) {
        if !allow_not {
            Err("(not-join ...) cannot appear inside another (not ...) or (not-join ...)"@)
        } else if list.len() < 3 {
            Err("(not-join) requires a join-vars vector and at least one clause"@)
        } else {
            match list[1] {
                EdnView::Vector(jv) => match spec_join_vars(jv, 0, Seq::empty(), false) {
                    Err(m) => Err(m),
                    Ok(join_vars) => match spec_negated_body(list, 2, Seq::empty(), true) {
                        Ok(inner) => Ok(ClauseView::NotJoin { join_vars, clauses: inner }),
                        Err(m) => Err(m),
                    },
                },
                _ => Err("(not-join) first argument must be a vector of join variables"@),
            }
        }
    } else if head_is(list, "or"@) {
        if list.len() < 2 {
            Err("(or) requires at least one branch"@)
        } else {
            match spec_branches(list, 1, Seq::empty()) {
                Ok(bs) => Ok(ClauseView::Or(bs)),
                Err(m) => Err(m),
            }
        }
    } else if head_is(list, "or-join"@) {
        if list.len() < 3 {
            Err("(or-join) requires a join-vars vector and at least one branch"@)
        } else {
            match list[1] {
                EdnView::Vector(jv) => match spec_join_vars(jv, 0, Seq::empty(), true) {
                    Err(m) => Err(m),
                    Ok(join_vars) => match spec_branches(list, 2, Seq::empty()) {
                        Ok(bs) => Ok(ClauseView::OrJoin { join_vars, branches: bs }),
                        Err(m) => Err(m),
                    },
                },
                _ => Err("(or-join) first argument must be a vector of join variables"@),
            }
        }
    } else {
        match list[0] {
            EdnView::Symbol(pred) => Ok(
                ClauseView::RuleInvocation { predicate: pred, args: list.subrange(1, list.len() as int) },
            ),
            _ => Err("Rule invocation must start with predicate name (symbol), got "@ + edn_text(list[0])),
        }
    }
}

/// The body of a negation from element `j`, after the clauses `acc` already
/// read: patterns, expression clauses and (non-negated, non-`or`) list
/// clauses. `join` picks the message wording for `not-join`.
pub open spec fn spec_negated_body(list: Seq<EdnView>, j: int, acc: Seq<ClauseView>, join: bool) -> Result<
    Seq<ClauseView>,
    Seq<char>,
>
    decreases list, list.len() - j,
{
    if j < 0 || j >= list.len() {
        Ok(acc)
    } else {
        match list[j] {
            EdnView::Vector(v) => match spec_vector_clause(v) {
                Ok(c) => spec_negated_body(list, j + 1, acc.push(c), join),
                Err(m) => Err(m),
            },
            EdnView::List(il) => if head_is(il, "or"@) || head_is(il, "or-join"@) {
                Err("(or)/(or-join) cannot appear inside (not)/(not-join)"@)
            } else {
                match spec_list_clause(il, false) {
                    Ok(c) => spec_negated_body(list, j + 1, acc.push(c), join),
                    Err(m) => Err(m),
                }
            },
            _ => Err(
                (if join {
                    "expected pattern or rule invocation inside (not-join), got "@
                } else {
                    "expected pattern or rule invocation inside (not), got "@
                }) + edn_text(list[j]),
            ),
        }
    }
}

/// A list clause headed by a symbol other than `not`, `not-join`, `or` and
/// `or-join` is an invocation of that predicate with the remaining elements
/// as its arguments; an empty list, or one not headed by a symbol, is an
/// error.
pub proof fn lemma_rule_invocation_shape(list: Seq<EdnView>, allow_not: bool)
    ensures
        list.len() == 0 ==> spec_list_clause(list, allow_not) is Err,
        list.len() > 0 ==> match list[0] {
            EdnView::Symbol(p) => (p != "not"@ && p != "not-join"@ && p != "or"@ && p != "or-join"@)
                ==> spec_list_clause(list, allow_not) == Ok::<ClauseView, Seq<char>>(
                ClauseView::RuleInvocation { predicate: p, args: list.subrange(1, list.len() as int) },
            ),
            _ => spec_list_clause(list, allow_not) is Err,
        },
{
}

/// A clause a negation body may hold: a pattern, an expression clause or a
/// rule invocation.
pub open spec fn plain_clause(c: ClauseView) -> bool {
    c is Pattern || c is Expr || c is RuleInvocation
}

proof fn lemma_negated_body_plain(list: Seq<EdnView>, j: int, acc: Seq<ClauseView>, join: bool)
    requires
        0 <= j <= list.len(),
        forall|i: int| 0 <= i < acc.len() ==> plain_clause(#[trigger] acc[i]),
    ensures
        spec_negated_body(list, j, acc, join) matches Ok(r) ==> r.len() == acc.len() + (list.len() - j) && forall|i: int|
            0 <= i < r.len() ==> plain_clause(#[trigger] r[i]),
    decreases list.len() - j,
{
    if j < list.len() {
        match list[j] {
            EdnView::Vector(v) => {
                if let Ok(c) = spec_vector_clause(v) {
                    assert forall|i: int| 0 <= i < acc.push(c).len() implies plain_clause(#[trigger] acc.push(c)[i]) by {
                        if i < acc.len() {
                            assert(acc.push(c)[i] == acc[i]);
                        }
                    }
                    lemma_negated_body_plain(list, j + 1, acc.push(c), join);
                }
            },
            EdnView::List(il) => {
                if !(head_is(il, "or"@) || head_is(il, "or-join"@)) {
                    if let Ok(c) = spec_list_clause(il, false) {
                        assert(c is RuleInvocation);
                        assert forall|i: int| 0 <= i < acc.push(c).len() implies plain_clause(#[trigger] acc.push(c)[i]) by {
                            if i < acc.len() {
                                assert(acc.push(c)[i] == acc[i]);
                            }
                        }
                        lemma_negated_body_plain(list, j + 1, acc.push(c), join);
                    }
                }
            },
            _ => {},
        }
    }
}

proof fn lemma_join_vars_named(v: Seq<EdnView>, j: int, acc: Seq<Seq<char>>, or_join: bool)
    requires
        0 <= j,
        forall|i: int| 0 <= i < acc.len() ==> is_var_name(#[trigger] acc[i]),
    ensures
        spec_join_vars(v, j, acc, or_join) matches Ok(r) ==> forall|i: int| 0 <= i < r.len() ==> is_var_name(#[trigger] r[i]),
    decreases v.len() - j,
{
    if j < v.len() {
        if let Some(n) = view_variable(v[j]) {
            assert forall|i: int| 0 <= i < acc.push(n).len() implies is_var_name(#[trigger] acc.push(n)[i]) by {
                if i < acc.len() {
                    assert(acc.push(n)[i] == acc[i]);
                }
            }
            lemma_join_vars_named(v, j + 1, acc.push(n), or_join);
        }
    }
}

/// A negation is read only where negations are allowed and never with an
/// empty body; its body holds only patterns, expression clauses and rule
/// invocations (no nested negation and no `or`), and the join variables of
/// `not-join` are logic variables.
pub proof fn lemma_negation_shape(list: Seq<EdnView>, allow_not: bool)
    ensures
        spec_list_clause(list, allow_not) matches Ok(ClauseView::Not(inner)) ==> allow_not && inner.len() > 0
            && forall|i: int| 0 <= i < inner.len() ==> plain_clause(#[trigger] inner[i]),
        spec_list_clause(list, allow_not) matches Ok(ClauseView::NotJoin { join_vars, clauses }) ==> allow_not
            && clauses.len() > 0 && (forall|i: int| 0 <= i < clauses.len() ==> plain_clause(#[trigger] clauses[i]))
            && forall|i: int| 0 <= i < join_vars.len() ==> is_var_name(#[trigger] join_vars[i]),
{
    if list.len() >= 2 {
        lemma_negated_body_plain(list, 1, Seq::empty(), false);
    }
    if list.len() >= 3 {
        lemma_negated_body_plain(list, 2, Seq::empty(), true);
        if let EdnView::Vector(jv) = list[1] {
            lemma_join_vars_named(jv, 0, Seq::empty(), false);
        }
    }
}

/// The branches of `or`/`or-join` from element `j`.
pub open spec fn spec_branches(list: Seq<EdnView>, j: int, acc: Seq<Seq<ClauseView>>) -> Result<
    Seq<Seq<ClauseView>>,
    Seq<char>,
>
    decreases list, list.len() - j,
{
    if j < 0 || j >= list.len() {
        Ok(acc)
    } else {
        match spec_or_branch(list[j]) {
            Ok(b) => spec_branches(list, j + 1, acc.push(b)),
            Err(m) => Err(m),
        }
    }
}

/// One branch of `or`/`or-join`: `(and clause...)` or a single clause.
pub open spec fn spec_or_branch(item: EdnView) -> Result<Seq<ClauseView>, Seq<char>>
    decreases item, 1int,
{
    match item {
        EdnView::List(inner) => if head_is(inner, "and"@) {
            if inner.len() < 2 {
                Err("(and) inside or/or-join requires at least one clause"@)
            } else {
                spec_and_items(inner, 1, Seq::empty())
            }
        } else {
            match spec_or_item(item) {
                Ok(c) => Ok(seq![c]),
                Err(m) => Err(m),
            }
        },
        _ => match spec_or_item(item) {
            Ok(c) => Ok(seq![c]),
            Err(m) => Err(m),
        },
    }
}

/// The clauses of `(and ...)` from element `j`.
pub open spec fn spec_and_items(inner: Seq<EdnView>, j: int, acc: Seq<ClauseView>) -> Result<
    Seq<ClauseView>,
    Seq<char>,
>
    decreases inner, inner.len() - j,
{
    if j < 0 || j >= inner.len() {
        Ok(acc)
    } else {
        match spec_or_item(inner[j]) {
            Ok(c) => spec_and_items(inner, j + 1, acc.push(c)),
            Err(m) => Err(m),
        }
    }
}

/// One clause of an `or` branch.
pub open spec fn spec_or_item(item: EdnView) -> Result<ClauseView, Seq<char>>
    decreases item, 0int,
{
    match item {
        EdnView::Vector(v) => spec_vector_clause(v),
        EdnView::List(il) => spec_list_clause(il, true),
        _ => Err("expected clause inside or branch, got "@ + edn_text(item)),
    }
}

fn symbol_is(v: &EdnValue, name: &str) -> (r: bool)
    ensures
        r == (v@ == EdnView::Symbol(name@)),
{
    match v {
        EdnValue::Symbol(s) => str_eq(s.as_str(), name),
        _ => false,
    }
}

fn head_is_exec(list: &Vec<EdnValue>, name: &str) -> (r: bool)
    ensures
        r == head_is(edns_view(list@), name@),
{
    proof {
        lemma_edns_view(list@);
    }
    list.len() > 0 && symbol_is(&list[0], name)
}

fn parse_join_vars(v: &Vec<EdnValue>, or_join: bool) -> (r: Result<Vec<String>, String>)
    ensures
        match r {
            Ok(vs) => spec_join_vars(edns_view(v@), 0, Seq::empty(), or_join) == Ok::<Seq<Seq<char>>, Seq<char>>(
                strs_view(vs@),
            ),
            Err(m) => spec_join_vars(edns_view(v@), 0, Seq::empty(), or_join) == Err::<
                Seq<Seq<char>>,
                Seq<char>,
            >(m@),
        },
{
    proof {
        lemma_edns_view(v@);
    }
    let mut out: Vec<String> = Vec::new();
    let mut j: usize = 0;
    proof {
        assert(strs_view(out@) =~= Seq::<Seq<char>>::empty());
    }
    while j < v.len()
        invariant
            j <= v@.len(),
            edns_view(v@).len() == v@.len(),
            forall|i: int| 0 <= i < v@.len() ==> #[trigger] edns_view(v@)[i] == edn_view(v@[i]),
            spec_join_vars(edns_view(v@), 0, Seq::empty(), or_join) == spec_join_vars(
                edns_view(v@),
                j as int,
                strs_view(out@),
                or_join,
            ),
        decreases v@.len() - j,
    {
        match v[j].as_variable() {
            Some(n) => {
                let ghost prev = out@;
                out.push(owned(n));
                assert(strs_view(out@) =~= strs_view(prev).push(n@));
            },
            None => {
                let m = if or_join {
                    msg_with_value("(or-join) join variables must be logic variables, got ", &v[j])
                } else {
                    msg_with_value("(not-join) join variables must be logic variables, got ", &v[j])
                };
                return Err(m);
            },
        }
        j = j + 1;
    }
    Ok(out)
}

/// Parses a list clause of a `:where` or rule body. `allow_not` is false
/// inside a negation, where `not` and `not-join` are rejected.
#[verifier::loop_isolation(false)]
pub fn parse_list_as_where_clause(list: &Vec<EdnValue>, allow_not: bool) -> (r: Result<WhereClause, String>)
    ensures
        match r {
            Ok(c) => spec_list_clause(edns_view(list@), allow_not) == Ok::<ClauseView, Seq<char>>(c@),
            Err(m) => spec_list_clause(edns_view(list@), allow_not) == Err::<ClauseView, Seq<char>>(m@),
        },
    decreases list, list@.len() + 1,
{
    proof {
        lemma_edns_view(list@);
    }
    let ghost lv = edns_view(list@);
    if list.len() == 0 {
        return Err(owned("Empty list in :where clause"));
    }
    let is_not = head_is_exec(list, "not");
    let is_not_join = !is_not && head_is_exec(list, "not-join");
    if is_not || is_not_join {
        if !allow_not {
            if is_not {
                return Err(owned("(not ...) cannot appear inside another (not ...)"));
            } else {
                return Err(owned("(not-join ...) cannot appear inside another (not ...) or (not-join ...)"));
            }
        }
        let mut join_vars: Vec<String> = Vec::new();
        let start: usize;
        if is_not {
            if list.len() < 2 {
                return Err(owned("(not) requires at least one clause"));
            }
            start = 1;
        } else {
            if list.len() < 3 {
                return Err(owned("(not-join) requires a join-vars vector and at least one clause"));
            }
            match &list[1] {
                EdnValue::Vector(jv) => {
                    join_vars = parse_join_vars(jv, false)?;
                },
                _ => {
                    return Err(owned("(not-join) first argument must be a vector of join variables"));
                },
            }
            start = 2;
        }
        let mut inner: Vec<WhereClause> = Vec::new();
        let mut j: usize = start;
        proof {
            assert(clauses_view(inner@) =~= Seq::<ClauseView>::empty());
        }
        while j < list.len()
            invariant
                start <= j <= list@.len(),
                lv == edns_view(list@),
                lv.len() == list@.len(),
                forall|i: int| 0 <= i < list@.len() ==> #[trigger] lv[i] == edn_view(list@[i]),
                spec_negated_body(lv, start as int, Seq::empty(), is_not_join) == spec_negated_body(
                    lv,
                    j as int,
                    clauses_view(inner@),
                    is_not_join,
                ),
            decreases list@.len() - j,
        {
            let c = match &list[j] {
                EdnValue::Vector(v) => parse_vector_clause(v)?,
                EdnValue::List(il) => {
                    if head_is_exec(il, "or") || head_is_exec(il, "or-join") {
                        return Err(owned("(or)/(or-join) cannot appear inside (not)/(not-join)"));
                    }
                    parse_list_as_where_clause(il, false)?
                },
                other => {
                    if is_not_join {
                        return Err(
                            msg_with_value(
                                "expected pattern or rule invocation inside (not-join), got ",
                                other,
                            ),
                        );
                    } else {
                        return Err(
                            msg_with_value("expected pattern or rule invocation inside (not), got ", other),
                        );
                    }
                },
            };
            proof {
                lemma_clauses_view_push(inner@, c);
            }
            inner.push(c);
            j = j + 1;
        }
        if is_not {
            return Ok(WhereClause::Not(inner));
        } else {
            return Ok(WhereClause::NotJoin { join_vars, clauses: inner });
        }
    }
    let is_or = head_is_exec(list, "or");
    let is_or_join = !is_or && head_is_exec(list, "or-join");
    if is_or || is_or_join {
        let mut join_vars: Vec<String> = Vec::new();
        let start: usize;
        if is_or {
            if list.len() < 2 {
                return Err(owned("(or) requires at least one branch"));
            }
            start = 1;
        } else {
            if list.len() < 3 {
                return Err(owned("(or-join) requires a join-vars vector and at least one branch"));
            }
            match &list[1] {
                EdnValue::Vector(jv) => {
                    join_vars = parse_join_vars(jv, true)?;
                },
                _ => {
                    return Err(owned("(or-join) first argument must be a vector of join variables"));
                },
            }
            start = 2;
        }
        let mut branches: Vec<Vec<WhereClause>> = Vec::new();
        let mut j: usize = start;
        proof {
            assert(branches_view(branches@) =~= Seq::<Seq<ClauseView>>::empty());
        }
        while j < list.len()
            invariant
                start <= j <= list@.len(),
                lv == edns_view(list@),
                lv.len() == list@.len(),
                forall|i: int| 0 <= i < list@.len() ==> #[trigger] lv[i] == edn_view(list@[i]),
                spec_branches(lv, start as int, Seq::empty()) == spec_branches(
                    lv,
                    j as int,
                    branches_view(branches@),
                ),
            decreases list@.len() - j,
        {
            let b = parse_or_branch(&list[j])?;
            proof {
                lemma_branches_view_push(branches@, b);
            }
            branches.push(b);
            j = j + 1;
        }
        if is_or {
            return Ok(WhereClause::Or(branches));
        } else {
            return Ok(WhereClause::OrJoin { join_vars, branches });
        }
    }
    match &list[0] {
        EdnValue::Symbol(pred) => {
            let args = edns_clone_range(list, 1);
            proof {
                crate::edn::lemma_edns_view_subrange(list@, 1);
            }
            Ok(WhereClause::RuleInvocation { predicate: pred.clone(), args })
        },
        other => Err(msg_with_value("Rule invocation must start with predicate name (symbol), got ", other)),
    }
}

/// Parses one branch of `or`/`or-join`: `(and clause...)` or one clause.
pub fn parse_or_branch(item: &EdnValue) -> (r: Result<Vec<WhereClause>, String>)
    ensures
        match r {
            Ok(cs) => spec_or_branch(item@) == Ok::<Seq<ClauseView>, Seq<char>>(clauses_view(cs@)),
            Err(m) => spec_or_branch(item@) == Err::<Seq<ClauseView>, Seq<char>>(m@),
        },
    decreases item, 1int,
{
    match item {
        EdnValue::List(inner) => {
            if head_is_exec(inner, "and") {
                proof {
                    lemma_edns_view(inner@);
                }
                if inner.len() < 2 {
                    return Err(owned("(and) inside or/or-join requires at least one clause"));
                }
                return parse_and_items(inner);
            }
        },
        _ => {},
    }
    let c = parse_or_item(item)?;
    let mut out: Vec<WhereClause> = Vec::new();
    proof {
        lemma_clauses_view_push(out@, c);
        assert(clauses_view(out@) =~= Seq::<ClauseView>::empty());
    }
    let ghost cv = c@;
    out.push(c);
    proof {
        assert(clauses_view(out@) =~= seq![cv]);
    }
    Ok(out)
}

fn parse_and_items(inner: &Vec<EdnValue>) -> (r: Result<Vec<WhereClause>, String>)
    requires
        inner@.len() >= 1,
    ensures
        match r {
            Ok(cs) => spec_and_items(edns_view(inner@), 1, Seq::empty()) == Ok::<Seq<ClauseView>, Seq<char>>(
                clauses_view(cs@),
            ),
            Err(m) => spec_and_items(edns_view(inner@), 1, Seq::empty()) == Err::<Seq<ClauseView>, Seq<char>>(
                m@,
            ),
        },
    decreases inner, 0int,
{
    proof {
        lemma_edns_view(inner@);
    }
    let ghost iv = edns_view(inner@);
    let mut out: Vec<WhereClause> = Vec::new();
    let mut j: usize = 1;
    proof {
        assert(clauses_view(out@) =~= Seq::<ClauseView>::empty());
    }
    while j < inner.len()
        invariant
            1 <= j <= inner@.len(),
            iv == edns_view(inner@),
            iv.len() == inner@.len(),
            forall|i: int| 0 <= i < inner@.len() ==> #[trigger] iv[i] == edn_view(inner@[i]),
            spec_and_items(iv, 1, Seq::empty()) == spec_and_items(iv, j as int, clauses_view(out@)),
        decreases inner@.len() - j,
    {
        let c = parse_or_item(&inner[j])?;
        proof {
            lemma_clauses_view_push(out@, c);
        }
        out.push(c);
        j = j + 1;
    }
    Ok(out)
}

/// Parses one clause of an `or` branch.
pub fn parse_or_item(item: &EdnValue) -> (r: Result<WhereClause, String>)
    ensures
        match r {
            Ok(c) => spec_or_item(item@) == Ok::<ClauseView, Seq<char>>(c@),
            Err(m) => spec_or_item(item@) == Err::<ClauseView, Seq<char>>(m@),
        },
    decreases item, 0int,
{
    match item {
        EdnValue::Vector(v) => parse_vector_clause(v),
        EdnValue::List(il) => parse_list_as_where_clause(il, true),
        _ => Err(msg_with_value("expected clause inside or branch, got ", item)),
    }
}

} // verus!
