//! The Datalog command language: queries, transactions, retractions and
//! rules, as produced by the parser, with their mathematical models.
use vstd::prelude::*;
use crate::edn::{EdnValue, EdnView, edn_view, edns_view, edn_clone, edns_clone, lemma_edns_view_push};
use crate::text::starts_with;

verus! {

/// A literal value in an expression.
///
/// A floating-point literal is kept as its decimal text; a reference as the
/// 128-bit value of the entity's UUID.
#[derive(Debug, PartialEq)]
pub enum Value {
    String(String),
    Integer(i64),
    Float(String),
    Boolean(bool),
    Keyword(String),
    Ref(u128),
    Null,
}

/// The model of a literal value.
pub enum ValueView {
    Str(Seq<char>),
    Integer(i64),
    Float(Seq<char>),
    Boolean(bool),
    Keyword(Seq<char>),
    Ref(u128),
    Null,
}

impl View for Value {
    type V = ValueView;

    open spec fn view(&self) -> ValueView {
        match self {
            Value::String(s) => ValueView::Str(s@),
            Value::Integer(i) => ValueView::Integer(*i),
            Value::Float(t) => ValueView::Float(t@),
            Value::Boolean(b) => ValueView::Boolean(*b),
            Value::Keyword(k) => ValueView::Keyword(k@),
            Value::Ref(u) => ValueView::Ref(*u),
            Value::Null => ValueView::Null,
        }
    }
}

/// A one-argument predicate in an expression clause.
#[derive(Debug, PartialEq)]
pub enum UnaryOp {
    StringQ,
    IntegerQ,
    FloatQ,
    BooleanQ,
    NilQ,
    /// A user-defined predicate, resolved when the query runs.
    Udf(String),
}

/// The model of a unary operator.
pub enum UnaryOpView {
    StringQ,
    IntegerQ,
    FloatQ,
    BooleanQ,
    NilQ,
    Udf(Seq<char>),
}

impl View for UnaryOp {
    type V = UnaryOpView;

    open spec fn view(&self) -> UnaryOpView {
        match self {
            UnaryOp::StringQ => UnaryOpView::StringQ,
            UnaryOp::IntegerQ => UnaryOpView::IntegerQ,
            UnaryOp::FloatQ => UnaryOpView::FloatQ,
            UnaryOp::BooleanQ => UnaryOpView::BooleanQ,
            UnaryOp::NilQ => UnaryOpView::NilQ,
            UnaryOp::Udf(n) => UnaryOpView::Udf(n@),
        }
    }
}

/// A two-argument operator in an expression clause.
#[derive(Debug, PartialEq)]
pub enum BinOp {
    Lt,
    Gt,
    Lte,
    Gte,
    Eq,
    Neq,
    Add,
    Sub,
    Mul,
    Div,
    StartsWith,
    EndsWith,
    Contains,
    /// Regular-expression match; the pattern was checked to compile.
    Matches { pattern: String },
}

/// The model of a binary operator.
pub enum BinOpView {
    Lt,
    Gt,
    Lte,
    Gte,
    Eq,
    Neq,
    Add,
    Sub,
    Mul,
    Div,
    StartsWith,
    EndsWith,
    Contains,
    Matches(Seq<char>),
}

impl View for BinOp {
    type V = BinOpView;

    open spec fn view(&self) -> BinOpView {
        match self {
            BinOp::Lt => BinOpView::Lt,
            BinOp::Gt => BinOpView::Gt,
            BinOp::Lte => BinOpView::Lte,
            BinOp::Gte => BinOpView::Gte,
            BinOp::Eq => BinOpView::Eq,
            BinOp::Neq => BinOpView::Neq,
            BinOp::Add => BinOpView::Add,
            BinOp::Sub => BinOpView::Sub,
            BinOp::Mul => BinOpView::Mul,
            BinOp::Div => BinOpView::Div,
            BinOp::StartsWith => BinOpView::StartsWith,
            BinOp::EndsWith => BinOpView::EndsWith,
            BinOp::Contains => BinOpView::Contains,
            BinOp::Matches { pattern } => BinOpView::Matches(pattern@),
        }
    }
}

/// An expression tree of an expression clause.
#[derive(Debug, PartialEq)]
pub enum Expr {
    Var(String),
    Lit(Value),
    /// A named bind slot (`$name`), filled when a prepared query runs.
    Slot(String),
    BinOp(BinOp, Box<Expr>, Box<Expr>),
    UnaryOp(UnaryOp, Box<Expr>),
}

/// The model of an expression.
pub enum ExprView {
    Var(Seq<char>),
    Lit(ValueView),
    Slot(Seq<char>),
    BinOp(BinOpView, Box<ExprView>, Box<ExprView>),
    UnaryOp(UnaryOpView, Box<ExprView>),
}

/// The model of an expression.
pub open spec fn expr_view(e: Expr) -> ExprView
    decreases e,
{
    match e {
        Expr::Var(v) => ExprView::Var(v@),
        Expr::Lit(v) => ExprView::Lit(v@),
        Expr::Slot(n) => ExprView::Slot(n@),
        Expr::BinOp(op, l, r) => ExprView::BinOp(op@, Box::new(expr_view(*l)), Box::new(expr_view(*r))),
        Expr::UnaryOp(op, a) => ExprView::UnaryOp(op@, Box::new(expr_view(*a))),
    }
}

impl View for Expr {
    type V = ExprView;

    open spec fn view(&self) -> ExprView {
        expr_view(*self)
    }
}

/// A temporal pseudo-attribute usable in the attribute position of a pattern.
#[derive(Debug, Clone, Copy, PartialEq, Eq)]
pub enum PseudoAttr {
    ValidFrom,
    ValidTo,
    TxCount,
    TxId,
    ValidAt,
}

/// The keyword that names each pseudo-attribute.
pub open spec fn pseudo_from_keyword(k: Seq<char>) -> Option<PseudoAttr> {
    if k == ":db/valid-from"@ {
        Some(PseudoAttr::ValidFrom)
    } else if k == ":db/valid-to"@ {
        Some(PseudoAttr::ValidTo)
    } else if k == ":db/tx-count"@ {
        Some(PseudoAttr::TxCount)
    } else if k == ":db/tx-id"@ {
        Some(PseudoAttr::TxId)
    } else if k == ":db/valid-at"@ {
        Some(PseudoAttr::ValidAt)
    } else {
        None
    }
}

impl PseudoAttr {
    /// The pseudo-attribute a keyword names, if any.
    pub fn from_keyword(k: &str) -> (r: Option<PseudoAttr>)
        ensures
            r == pseudo_from_keyword(k@),
    {
        if crate::text::str_eq(k, ":db/valid-from") {
            Some(PseudoAttr::ValidFrom)
        } else if crate::text::str_eq(k, ":db/valid-to") {
            Some(PseudoAttr::ValidTo)
        } else if crate::text::str_eq(k, ":db/tx-count") {
            Some(PseudoAttr::TxCount)
        } else if crate::text::str_eq(k, ":db/tx-id") {
            Some(PseudoAttr::TxId)
        } else if crate::text::str_eq(k, ":db/valid-at") {
            Some(PseudoAttr::ValidAt)
        } else {
            None
        }
    }

    /// Whether the pseudo-attribute is read from each fact: all but
    /// `:db/valid-at`, which names the query's own valid time.
    pub fn is_per_fact(&self) -> (r: bool)
        ensures
            r == !(*self is ValidAt),
    {
        match self {
            PseudoAttr::ValidAt => false,
            _ => true,
        }
    }
}

/// The attribute position of a pattern.
#[derive(Debug, PartialEq)]
pub enum AttributeSpec {
    Real(EdnValue),
    Pseudo(PseudoAttr),
}

/// The model of an attribute position.
pub enum AttributeView {
    Real(EdnView),
    Pseudo(PseudoAttr),
}

impl View for AttributeSpec {
    type V = AttributeView;

    open spec fn view(&self) -> AttributeView {
        match self {
            AttributeSpec::Real(v) => AttributeView::Real(v@),
            AttributeSpec::Pseudo(p) => AttributeView::Pseudo(*p),
        }
    }
}

/// An entity/attribute/value pattern, with optional valid-time bounds (in
/// milliseconds since the epoch) when it is a fact to assert.
#[derive(Debug, PartialEq)]
pub struct Pattern {
    pub entity: EdnValue,
    pub attribute: AttributeSpec,
    pub value: EdnValue,
    pub valid_from: Option<i64>,
    pub valid_to: Option<i64>,
}

/// The model of a pattern.
pub struct PatternView {
    pub entity: EdnView,
    pub attribute: AttributeView,
    pub value: EdnView,
    pub valid_from: Option<i64>,
    pub valid_to: Option<i64>,
}

impl View for Pattern {
    type V = PatternView;

    open spec fn view(&self) -> PatternView {
        PatternView {
            entity: self.entity@,
            attribute: self.attribute@,
            value: self.value@,
            valid_from: self.valid_from,
            valid_to: self.valid_to,
        }
    }
}

impl Pattern {
    /// A pattern with a real attribute and no valid-time bounds.
    pub fn new(entity: EdnValue, attribute: EdnValue, value: EdnValue) -> (p: Pattern)
        ensures
            p@ == (PatternView {
                entity: entity@,
                attribute: AttributeView::Real(attribute@),
                value: value@,
                valid_from: None,
                valid_to: None,
            }),
    {
        Pattern { entity, attribute: AttributeSpec::Real(attribute), value, valid_from: None, valid_to: None }
    }

    /// A pattern with a real attribute and the given valid-time bounds.
    pub fn with_valid_time(
        entity: EdnValue,
        attribute: EdnValue,
        value: EdnValue,
        valid_from: Option<i64>,
        valid_to: Option<i64>,
    ) -> (p: Pattern)
        ensures
            p@ == (PatternView {
                entity: entity@,
                attribute: AttributeView::Real(attribute@),
                value: value@,
                valid_from,
                valid_to,
            }),
    {
        Pattern { entity, attribute: AttributeSpec::Real(attribute), value, valid_from, valid_to }
    }

    /// A pattern over a pseudo-attribute.
    pub fn pseudo(entity: EdnValue, attr: PseudoAttr, value: EdnValue) -> (p: Pattern)
        ensures
            p@ == (PatternView {
                entity: entity@,
                attribute: AttributeView::Pseudo(attr),
                value: value@,
                valid_from: None,
                valid_to: None,
            }),
    {
        Pattern { entity, attribute: AttributeSpec::Pseudo(attr), value, valid_from: None, valid_to: None }
    }
}

/// A clause of a `:where` or rule body.
#[derive(Debug, PartialEq)]
pub enum WhereClause {
    Pattern(Pattern),
    RuleInvocation { predicate: String, args: Vec<EdnValue> },
    Not(Vec<WhereClause>),
    NotJoin { join_vars: Vec<String>, clauses: Vec<WhereClause> },
    Or(Vec<Vec<WhereClause>>),
    OrJoin { join_vars: Vec<String>, branches: Vec<Vec<WhereClause>> },
    Expr { expr: Expr, binding: Option<String> },
}

/// The model of a clause.
pub enum ClauseView {
    Pattern(PatternView),
    RuleInvocation { predicate: Seq<char>, args: Seq<EdnView> },
    Not(Seq<ClauseView>),
    NotJoin { join_vars: Seq<Seq<char>>, clauses: Seq<ClauseView> },
    Or(Seq<Seq<ClauseView>>),
    OrJoin { join_vars: Seq<Seq<char>>, branches: Seq<Seq<ClauseView>> },
    Expr { expr: ExprView, binding: Option<Seq<char>> },
}

/// The models of strings.
pub open spec fn strs_view(s: Seq<String>) -> Seq<Seq<char>> {
    s.map_values(|x: String| x@)
}

/// The model of an optional string.
pub open spec fn opt_str_view(o: Option<String>) -> Option<Seq<char>> {
    match o {
        Some(s) => Some(s@),
        None => None,
    }
}

/// The model of a clause.
pub open spec fn clause_view(c: WhereClause) -> ClauseView
    decreases c,
{
    match c {
        WhereClause::Pattern(p) => ClauseView::Pattern(p@),
        WhereClause::RuleInvocation { predicate, args } => ClauseView::RuleInvocation {
            predicate: predicate@,
            args: edns_view(args@),
        },
        WhereClause::Not(inner) => ClauseView::Not(clauses_view(inner@)),
        WhereClause::NotJoin { join_vars, clauses } => ClauseView::NotJoin {
            join_vars: strs_view(join_vars@),
            clauses: clauses_view(clauses@),
        },
        WhereClause::Or(branches) => ClauseView::Or(branches_view(branches@)),
        WhereClause::OrJoin { join_vars, branches } => ClauseView::OrJoin {
            join_vars: strs_view(join_vars@),
            branches: branches_view(branches@),
        },
        WhereClause::Expr { expr, binding } => ClauseView::Expr {
            expr: expr@,
            binding: opt_str_view(binding),
        },
    }
}

/// The models of a sequence of clauses.
pub open spec fn clauses_view(s: Seq<WhereClause>) -> Seq<ClauseView>
    decreases s,
{
    if s.len() == 0 {
        Seq::empty()
    } else {
        clauses_view(s.drop_last()).push(clause_view(s.last()))
    }
}

/// The models of a sequence of clause groups.
pub open spec fn branches_view(s: Seq<Vec<WhereClause>>) -> Seq<Seq<ClauseView>>
    decreases s,
{
    if s.len() == 0 {
        Seq::empty()
    } else {
        branches_view(s.drop_last()).push(clauses_view(s.last()@))
    }
}

impl View for WhereClause {
    type V = ClauseView;

    open spec fn view(&self) -> ClauseView {
        clause_view(*self)
    }
}

/// Models of a clause sequence keep its length and map element by element.
pub proof fn lemma_clauses_view(s: Seq<WhereClause>)
    ensures
        clauses_view(s).len() == s.len(),
        forall|i: int| 0 <= i < s.len() ==> #[trigger] clauses_view(s)[i] == clause_view(s[i]),
    decreases s.len(),
{
    if s.len() > 0 {
        lemma_clauses_view(s.drop_last());
    }
}

/// The model of a pushed clause sequence.
pub proof fn lemma_clauses_view_push(s: Seq<WhereClause>, c: WhereClause)
    ensures
        clauses_view(s.push(c)) == clauses_view(s).push(clause_view(c)),
{
    assert(s.push(c).drop_last() =~= s);
}

/// Models of a group sequence keep its length and map element by element.
pub proof fn lemma_branches_view(s: Seq<Vec<WhereClause>>)
    ensures
        branches_view(s).len() == s.len(),
        forall|i: int| 0 <= i < s.len() ==> #[trigger] branches_view(s)[i] == clauses_view(s[i]@),
    decreases s.len(),
{
    if s.len() > 0 {
        lemma_branches_view(s.drop_last());
    }
}

/// The model of a pushed group sequence.
pub proof fn lemma_branches_view_push(s: Seq<Vec<WhereClause>>, c: Vec<WhereClause>)
    ensures
        branches_view(s.push(c)) == branches_view(s).push(clauses_view(c@)),
{
    assert(s.push(c).drop_last() =~= s);
}

/// A built-in window function, or a user-defined one.
#[derive(Debug, PartialEq)]
pub enum WindowFunc {
    Sum,
    Count,
    Min,
    Max,
    Avg,
    Rank,
    RowNumber,
    Udf(String),
}

/// The model of a window function.
pub enum WindowFuncView {
    Sum,
    Count,
    Min,
    Max,
    Avg,
    Rank,
    RowNumber,
    Udf(Seq<char>),
}

impl View for WindowFunc {
    type V = WindowFuncView;

    open spec fn view(&self) -> WindowFuncView {
        match self {
            WindowFunc::Sum => WindowFuncView::Sum,
            WindowFunc::Count => WindowFuncView::Count,
            WindowFunc::Min => WindowFuncView::Min,
            WindowFunc::Max => WindowFuncView::Max,
            WindowFunc::Avg => WindowFuncView::Avg,
            WindowFunc::Rank => WindowFuncView::Rank,
            WindowFunc::RowNumber => WindowFuncView::RowNumber,
            WindowFunc::Udf(n) => WindowFuncView::Udf(n@),
        }
    }
}

/// Sort order of a window.
#[derive(Debug, Clone, Copy, PartialEq, Eq)]
pub enum Order {
    Asc,
    Desc,
}

/// A window expression in `:find`.
#[derive(Debug, PartialEq)]
pub struct WindowSpec {
    pub func: WindowFunc,
    pub var: Option<String>,
    pub partition_by: Option<String>,
    pub order_by: String,
    pub order: Order,
}

/// The model of a window expression.
pub struct WindowSpecView {
    pub func: WindowFuncView,
    pub var: Option<Seq<char>>,
    pub partition_by: Option<Seq<char>>,
    pub order_by: Seq<char>,
    pub order: Order,
}

impl View for WindowSpec {
    type V = WindowSpecView;

    open spec fn view(&self) -> WindowSpecView {
        WindowSpecView {
            func: self.func@,
            var: opt_str_view(self.var),
            partition_by: opt_str_view(self.partition_by),
            order_by: self.order_by@,
            order: self.order,
        }
    }
}

/// An element of `:find`.
#[derive(Debug, PartialEq)]
pub enum FindSpec {
    Variable(String),
    Aggregate { func: String, var: String },
    Window(WindowSpec),
}

/// The model of a `:find` element.
pub enum FindSpecView {
    Variable(Seq<char>),
    Aggregate { func: Seq<char>, var: Seq<char> },
    Window(WindowSpecView),
}

impl View for FindSpec {
    type V = FindSpecView;

    open spec fn view(&self) -> FindSpecView {
        match self {
            FindSpec::Variable(v) => FindSpecView::Variable(v@),
            FindSpec::Aggregate { func, var } => FindSpecView::Aggregate { func: func@, var: var@ },
            FindSpec::Window(w) => FindSpecView::Window(w@),
        }
    }
}

/// The models of `:find` elements.
pub open spec fn finds_view(s: Seq<FindSpec>) -> Seq<FindSpecView> {
    s.map_values(|f: FindSpec| f@)
}

/// The transaction time a query reads at.
#[derive(Debug, PartialEq)]
pub enum AsOf {
    Counter(u64),
    Timestamp(i64),
    Slot(String),
}

/// The model of `:as-of`.
pub enum AsOfView {
    Counter(u64),
    Timestamp(i64),
    Slot(Seq<char>),
}

impl View for AsOf {
    type V = AsOfView;

    open spec fn view(&self) -> AsOfView {
        match self {
            AsOf::Counter(n) => AsOfView::Counter(*n),
            AsOf::Timestamp(t) => AsOfView::Timestamp(*t),
            AsOf::Slot(s) => AsOfView::Slot(s@),
        }
    }
}

/// The valid time a query reads at.
#[derive(Debug, PartialEq)]
pub enum ValidAt {
    Timestamp(i64),
    AnyValidTime,
    Slot(String),
}

/// The model of `:valid-at`.
pub enum ValidAtView {
    Timestamp(i64),
    AnyValidTime,
    Slot(Seq<char>),
}

impl View for ValidAt {
    type V = ValidAtView;

    open spec fn view(&self) -> ValidAtView {
        match self {
            ValidAt::Timestamp(t) => ValidAtView::Timestamp(*t),
            ValidAt::AnyValidTime => ValidAtView::AnyValidTime,
            ValidAt::Slot(s) => ValidAtView::Slot(s@),
        }
    }
}

/// The model of an optional `:as-of`.
pub open spec fn opt_as_of_view(o: Option<AsOf>) -> Option<AsOfView> {
    match o {
        Some(a) => Some(a@),
        None => None,
    }
}

/// The model of an optional `:valid-at`.
pub open spec fn opt_valid_at_view(o: Option<ValidAt>) -> Option<ValidAtView> {
    match o {
        Some(a) => Some(a@),
        None => None,
    }
}

/// A query.
#[derive(Debug, PartialEq)]
pub struct DatalogQuery {
    pub find: Vec<FindSpec>,
    pub where_clauses: Vec<WhereClause>,
    pub as_of: Option<AsOf>,
    pub valid_at: Option<ValidAt>,
    pub with_vars: Vec<String>,
    pub max_derived_facts: Option<usize>,
    pub max_results: Option<usize>,
}

/// The model of a query.
pub struct QueryView {
    pub find: Seq<FindSpecView>,
    pub where_clauses: Seq<ClauseView>,
    pub as_of: Option<AsOfView>,
    pub valid_at: Option<ValidAtView>,
    pub with_vars: Seq<Seq<char>>,
    pub max_derived_facts: Option<usize>,
    pub max_results: Option<usize>,
}

impl View for DatalogQuery {
    type V = QueryView;

    open spec fn view(&self) -> QueryView {
        QueryView {
            find: finds_view(self.find@),
            where_clauses: clauses_view(self.where_clauses@),
            as_of: opt_as_of_view(self.as_of),
            valid_at: opt_valid_at_view(self.valid_at),
            with_vars: strs_view(self.with_vars@),
            max_derived_facts: self.max_derived_facts,
            max_results: self.max_results,
        }
    }
}

/// The models of patterns.
pub open spec fn patterns_view(s: Seq<Pattern>) -> Seq<PatternView> {
    s.map_values(|p: Pattern| p@)
}

/// The patterns among clauses, in order.
pub open spec fn patterns_of(s: Seq<ClauseView>) -> Seq<PatternView>
    decreases s.len(),
{
    if s.len() == 0 {
        Seq::empty()
    } else {
        match s.last() {
            ClauseView::Pattern(p) => patterns_of(s.drop_last()).push(p),
            _ => patterns_of(s.drop_last()),
        }
    }
}

/// The rule invocations among clauses, in order, as (predicate, arguments).
pub open spec fn invocations_of(s: Seq<ClauseView>) -> Seq<(Seq<char>, Seq<EdnView>)>
    decreases s.len(),
{
    if s.len() == 0 {
        Seq::empty()
    } else {
        match s.last() {
            ClauseView::RuleInvocation { predicate, args } => invocations_of(s.drop_last()).push(
                (predicate, args),
            ),
            _ => invocations_of(s.drop_last()),
        }
    }
}

/// A copy of an expression.
pub fn expr_clone(e: &Expr) -> (r: Expr)
    ensures
        r@ == e@,
    decreases e,
{
    match e {
        Expr::Var(v) => Expr::Var(v.clone()),
        Expr::Lit(v) => Expr::Lit(value_clone(v)),
        Expr::Slot(n) => Expr::Slot(n.clone()),
        Expr::BinOp(op, l, r) => Expr::BinOp(binop_clone(op), Box::new(expr_clone(l)), Box::new(expr_clone(r))),
        Expr::UnaryOp(op, a) => Expr::UnaryOp(unop_clone(op), Box::new(expr_clone(a))),
    }
}

/// A copy of a value.
pub fn value_clone(v: &Value) -> (r: Value)
    ensures
        r@ == v@,
{
    match v {
        Value::String(s) => Value::String(s.clone()),
        Value::Integer(i) => Value::Integer(*i),
        Value::Float(t) => Value::Float(t.clone()),
        Value::Boolean(b) => Value::Boolean(*b),
        Value::Keyword(k) => Value::Keyword(k.clone()),
        Value::Ref(u) => Value::Ref(*u),
        Value::Null => Value::Null,
    }
}

pub(crate) fn binop_clone(o: &BinOp) -> (r: BinOp)
    ensures
        r@ == o@,
{
    match o {
        BinOp::Lt => BinOp::Lt,
        BinOp::Gt => BinOp::Gt,
        BinOp::Lte => BinOp::Lte,
        BinOp::Gte => BinOp::Gte,
        BinOp::Eq => BinOp::Eq,
        BinOp::Neq => BinOp::Neq,
        BinOp::Add => BinOp::Add,
        BinOp::Sub => BinOp::Sub,
        BinOp::Mul => BinOp::Mul,
        BinOp::Div => BinOp::Div,
        BinOp::StartsWith => BinOp::StartsWith,
        BinOp::EndsWith => BinOp::EndsWith,
        BinOp::Contains => BinOp::Contains,
        BinOp::Matches { pattern } => BinOp::Matches { pattern: pattern.clone() },
    }
}

pub(crate) fn unop_clone(o: &UnaryOp) -> (r: UnaryOp)
    ensures
        r@ == o@,
{
    match o {
        UnaryOp::StringQ => UnaryOp::StringQ,
        UnaryOp::IntegerQ => UnaryOp::IntegerQ,
        UnaryOp::FloatQ => UnaryOp::FloatQ,
        UnaryOp::BooleanQ => UnaryOp::BooleanQ,
        UnaryOp::NilQ => UnaryOp::NilQ,
        UnaryOp::Udf(n) => UnaryOp::Udf(n.clone()),
    }
}

/// A copy of a pattern.
pub fn pattern_clone(p: &Pattern) -> (r: Pattern)
    ensures
        r@ == p@,
{
    Pattern {
        entity: edn_clone(&p.entity),
        attribute: match &p.attribute {
            AttributeSpec::Real(a) => AttributeSpec::Real(edn_clone(a)),
            AttributeSpec::Pseudo(a) => AttributeSpec::Pseudo(*a),
        },
        value: edn_clone(&p.value),
        valid_from: p.valid_from,
        valid_to: p.valid_to,
    }
}

impl DatalogQuery {
    /// A query with the given `:find` and `:where` and no other options.
    pub fn new(find: Vec<FindSpec>, where_clauses: Vec<WhereClause>) -> (q: DatalogQuery)
        ensures
            q@ == (QueryView {
                find: finds_view(find@),
                where_clauses: clauses_view(where_clauses@),
                as_of: None,
                valid_at: None,
                with_vars: Seq::empty(),
                max_derived_facts: None,
                max_results: None,
            }),
    {
        let q = DatalogQuery {
            find,
            where_clauses,
            as_of: None,
            valid_at: None,
            with_vars: Vec::new(),
            max_derived_facts: None,
            max_results: None,
        };
        assert(strs_view(q.with_vars@) =~= Seq::<Seq<char>>::empty());
        q
    }

    /// The top-level patterns of `:where`, in order.
    pub fn get_patterns(&self) -> (r: Vec<Pattern>)
        ensures
            patterns_view(r@) == patterns_of(self@.where_clauses),
    {
        let mut r: Vec<Pattern> = Vec::new();
        let mut k: usize = 0;
        proof {
            lemma_clauses_view(self.where_clauses@);
        }
        while k < self.where_clauses.len()
            invariant
                k <= self.where_clauses@.len(),
                clauses_view(self.where_clauses@).len() == self.where_clauses@.len(),
                forall|i: int| 0 <= i < self.where_clauses@.len() ==> #[trigger] clauses_view(self.where_clauses@)[i] == clause_view(self.where_clauses@[i]),
                patterns_view(r@) == patterns_of(clauses_view(self.where_clauses@).subrange(0, k as int)),
            decreases self.where_clauses@.len() - k,
        {
            let ghost cv = clauses_view(self.where_clauses@);
            proof {
                assert(cv.subrange(0, k + 1).drop_last() =~= cv.subrange(0, k as int));
            }
            match &self.where_clauses[k] {
                WhereClause::Pattern(p) => {
                    let ghost prev = r@;
                    r.push(pattern_clone(p));
                    assert(patterns_view(r@) =~= patterns_view(prev).push(p@));
                },
                _ => {},
            }
            k = k + 1;
        }
        assert(clauses_view(self.where_clauses@).subrange(0, self.where_clauses@.len() as int) =~= clauses_view(self.where_clauses@));
        r
    }

    /// The top-level rule invocations of `:where`, as (predicate, arguments).
    pub fn get_rule_invocations(&self) -> (r: Vec<(String, Vec<EdnValue>)>)
        ensures
            r@.map_values(|x: (String, Vec<EdnValue>)| (x.0@, edns_view(x.1@))) == invocations_of(self@.where_clauses),
    {
        let mut r: Vec<(String, Vec<EdnValue>)> = Vec::new();
        let mut k: usize = 0;
        proof {
            lemma_clauses_view(self.where_clauses@);
        }
        while k < self.where_clauses.len()
            invariant
                k <= self.where_clauses@.len(),
                clauses_view(self.where_clauses@).len() == self.where_clauses@.len(),
                forall|i: int| 0 <= i < self.where_clauses@.len() ==> #[trigger] clauses_view(self.where_clauses@)[i] == clause_view(self.where_clauses@[i]),
                r@.map_values(|x: (String, Vec<EdnValue>)| (x.0@, edns_view(x.1@))) == invocations_of(clauses_view(self.where_clauses@).subrange(0, k as int)),
            decreases self.where_clauses@.len() - k,
        {
            let ghost cv = clauses_view(self.where_clauses@);
            proof {
                assert(cv.subrange(0, k + 1).drop_last() =~= cv.subrange(0, k as int));
            }
            match &self.where_clauses[k] {
                WhereClause::RuleInvocation { predicate, args } => {
                    let ghost prev = r@;
                    r.push((predicate.clone(), edns_clone(args)));
                    assert(r@.map_values(|x: (String, Vec<EdnValue>)| (x.0@, edns_view(x.1@))) =~= prev.map_values(|x: (String, Vec<EdnValue>)| (x.0@, edns_view(x.1@))).push((predicate@, edns_view(args@))));
                },
                _ => {},
            }
            k = k + 1;
        }
        assert(clauses_view(self.where_clauses@).subrange(0, self.where_clauses@.len() as int) =~= clauses_view(self.where_clauses@));
        r
    }

    /// Whether `:where` invokes any rule at top level.
    pub fn uses_rules(&self) -> (r: bool)
        ensures
            r == (invocations_of(self@.where_clauses).len() > 0),
    {
        let inv = self.get_rule_invocations();
        inv.len() > 0
    }
}

/// Facts to assert or retract, with transaction-level valid-time bounds.
#[derive(Debug, PartialEq)]
pub struct Transaction {
    pub facts: Vec<Pattern>,
    pub valid_from: Option<i64>,
    pub valid_to: Option<i64>,
}

/// The model of a transaction.
pub struct TransactionView {
    pub facts: Seq<PatternView>,
    pub valid_from: Option<i64>,
    pub valid_to: Option<i64>,
}

impl View for Transaction {
    type V = TransactionView;

    open spec fn view(&self) -> TransactionView {
        TransactionView { facts: patterns_view(self.facts@), valid_from: self.valid_from, valid_to: self.valid_to }
    }
}

impl Transaction {
    /// A transaction of the given facts with no transaction-level bounds.
    pub fn new(facts: Vec<Pattern>) -> (t: Transaction)
        ensures
            t@ == (TransactionView { facts: patterns_view(facts@), valid_from: None, valid_to: None }),
    {
        Transaction { facts, valid_from: None, valid_to: None }
    }
}

/// A copy of a clause.
pub fn clause_clone(c: &WhereClause) -> (r: WhereClause)
    ensures
        r@ == c@,
    decreases c, 0nat,
{
    match c {
        WhereClause::Pattern(p) => WhereClause::Pattern(pattern_clone(p)),
        WhereClause::RuleInvocation { predicate, args } => WhereClause::RuleInvocation {
            predicate: crate::text::owned(predicate.as_str()),
            args: crate::edn::edns_clone(args),
        },
        WhereClause::Not(inner) => WhereClause::Not(clauses_clone(inner)),
        WhereClause::NotJoin { join_vars, clauses } => WhereClause::NotJoin {
            join_vars: crate::safety::clone_strs(join_vars),
            clauses: clauses_clone(clauses),
        },
        WhereClause::Or(bs) => WhereClause::Or(branches_clone(bs)),
        WhereClause::OrJoin { join_vars, branches } => WhereClause::OrJoin {
            join_vars: crate::safety::clone_strs(join_vars),
            branches: branches_clone(branches),
        },
        WhereClause::Expr { expr, binding } => WhereClause::Expr {
            expr: expr_clone(expr),
            binding: match binding {
                Some(b) => Some(crate::text::owned(b.as_str())),
                None => None,
            },
        },
    }
}

/// A copy of a sequence of clauses.
pub fn clauses_clone(cs: &Vec<WhereClause>) -> (r: Vec<WhereClause>)
    ensures
        clauses_view(r@) == clauses_view(cs@),
    decreases cs, 1nat,
{
    let mut out: Vec<WhereClause> = Vec::new();
    let mut k: usize = 0;
    proof {
        lemma_clauses_view(cs@);
    }
    while k < cs.len()
        invariant
            k <= cs@.len(),
            clauses_view(cs@).len() == cs@.len(),
            forall|i: int| 0 <= i < cs@.len() ==> #[trigger] clauses_view(cs@)[i] == clause_view(cs@[i]),
            clauses_view(out@) == clauses_view(cs@).subrange(0, k as int),
        decreases cs@.len() - k,
    {
        let c = clause_clone(&cs[k]);
        proof {
            lemma_clauses_view_push(out@, c);
        }
        out.push(c);
        assert(clauses_view(out@) =~= clauses_view(cs@).subrange(0, k + 1));
        k = k + 1;
    }
    assert(clauses_view(cs@).subrange(0, cs@.len() as int) =~= clauses_view(cs@));
    out
}

fn branches_clone(bs: &Vec<Vec<WhereClause>>) -> (r: Vec<Vec<WhereClause>>)
    ensures
        branches_view(r@) == branches_view(bs@),
    decreases bs, 1nat,
{
    let mut out: Vec<Vec<WhereClause>> = Vec::new();
    let mut k: usize = 0;
    proof {
        lemma_branches_view(bs@);
    }
    while k < bs.len()
        invariant
            k <= bs@.len(),
            branches_view(bs@).len() == bs@.len(),
            forall|i: int| 0 <= i < bs@.len() ==> #[trigger] branches_view(bs@)[i] == clauses_view(bs@[i]@),
            branches_view(out@) == branches_view(bs@).subrange(0, k as int),
        decreases bs@.len() - k,
    {
        let c = clauses_clone(&bs[k]);
        proof {
            lemma_branches_view_push(out@, c);
        }
        out.push(c);
        assert(branches_view(out@) =~= branches_view(bs@).subrange(0, k + 1));
        k = k + 1;
    }
    assert(branches_view(bs@).subrange(0, bs@.len() as int) =~= branches_view(bs@));
    out
}

/// A rule: a head `(predicate ?args...)` and a body of clauses.
#[derive(Debug, PartialEq)]
pub struct Rule {
    pub head: Vec<EdnValue>,
    pub body: Vec<WhereClause>,
}

/// The model of a rule.
pub struct RuleView {
    pub head: Seq<EdnView>,
    pub body: Seq<ClauseView>,
}

impl View for Rule {
    type V = RuleView;

    open spec fn view(&self) -> RuleView {
        RuleView { head: edns_view(self.head@), body: clauses_view(self.body@) }
    }
}

/// A copy of a rule.
pub fn rule_clone(r: &Rule) -> (c: Rule)
    ensures
        c@ == r@,
{
    Rule { head: crate::edn::edns_clone(&r.head), body: clauses_clone(&r.body) }
}

impl Rule {
    /// A rule with the given head and body.
    pub fn new(head: Vec<EdnValue>, body: Vec<WhereClause>) -> (r: Rule)
        ensures
            r@ == (RuleView { head: edns_view(head@), body: clauses_view(body@) }),
    {
        Rule { head, body }
    }
}

/// A parsed command.
#[derive(Debug, PartialEq)]
pub enum DatalogCommand {
    Query(DatalogQuery),
    Transact(Transaction),
    Retract(Transaction),
    Rule(Rule),
}

/// The model of a command.
pub enum CommandView {
    Query(QueryView),
    Transact(TransactionView),
    Retract(TransactionView),
    Rule(RuleView),
}

impl View for DatalogCommand {
    type V = CommandView;

    open spec fn view(&self) -> CommandView {
        match self {
            DatalogCommand::Query(q) => CommandView::Query(q@),
            DatalogCommand::Transact(t) => CommandView::Transact(t@),
            DatalogCommand::Retract(t) => CommandView::Retract(t@),
            DatalogCommand::Rule(r) => CommandView::Rule(r@),
        }
    }
}

} // verus!
