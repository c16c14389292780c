//! Substituting variable bindings into patterns, and turning rule
//! invocations into patterns over derived facts.
use vstd::prelude::*;
use crate::edn::{EdnValue, EdnView, edn_clone, edns_view, lemma_edns_view, view_variable, is_var_name};
use crate::text::{owned, concat, str_eq, nat_text, push_u64_text};
use crate::types::{Value, ValueView, Pattern, PatternView, AttributeSpec, AttributeView, value_clone};

verus! {

/// The map a list of (variable, value) pairs gives: the first pair for a
/// variable wins.
pub open spec fn bindings_map(s: Seq<(Seq<char>, ValueView)>) -> Map<Seq<char>, ValueView>
    decreases s.len(),
{
    if s.len() == 0 {
        Map::empty()
    } else {
        bindings_map(s.subrange(1, s.len() as int)).insert(s[0].0, s[0].1)
    }
}

/// Values bound to query variables.
pub struct Bindings {
    entries: Vec<(String, Value)>,
}

impl View for Bindings {
    type V = Map<Seq<char>, ValueView>;

    closed spec fn view(&self) -> Map<Seq<char>, ValueView> {
        bindings_map(self.entries@.map_values(|e: (String, Value)| (e.0@, e.1@)))
    }
}

proof fn lemma_bindings_lookup(s: Seq<(Seq<char>, ValueView)>, k: Seq<char>, i: int)
    requires
        0 <= i <= s.len(),
        forall|j: int| 0 <= j < i ==> s[j].0 != k,
    ensures
        i < s.len() && s[i].0 == k ==> bindings_map(s).contains_key(k) && bindings_map(s)[k] == s[i].1,
        i == s.len() ==> !bindings_map(s).contains_key(k),
    decreases i,
{
    if s.len() > 0 && i > 0 {
        let t = s.subrange(1, s.len() as int);
        assert forall|j: int| 0 <= j < i - 1 implies t[j].0 != k by {
            assert(t[j] == s[j + 1]);
        }
        lemma_bindings_lookup(t, k, i - 1);
        if i < s.len() {
            assert(t[i - 1] == s[i]);
        }
    }
}

proof fn lemma_bindings_push(s: Seq<(Seq<char>, ValueView)>, x: (Seq<char>, ValueView))
    requires
        !bindings_map(s).contains_key(x.0),
    ensures
        bindings_map(s.push(x)) == bindings_map(s).insert(x.0, x.1),
    decreases s.len(),
{
    if s.len() == 0 {
        let e = Seq::<(Seq<char>, ValueView)>::empty();
        assert(s.push(x).subrange(1, 1) =~= e);
        assert(bindings_map(e) == Map::<Seq<char>, ValueView>::empty());
        assert(s.push(x)[0] == x);
        assert(s =~= e);
        assert(bindings_map(s.push(x)) == bindings_map(e).insert(x.0, x.1));
    } else {
        let t = s.subrange(1, s.len() as int);
        assert(s.push(x).subrange(1, s.len() + 1 as int) =~= t.push(x));
        assert(!bindings_map(t).contains_key(x.0) || s[0].0 == x.0);
        if s[0].0 != x.0 {
            lemma_bindings_push(t, x);
        }
        assert(bindings_map(s.push(x)) =~= bindings_map(s).insert(x.0, x.1));
    }
}

proof fn lemma_bindings_update(s: Seq<(Seq<char>, ValueView)>, i: int, v: ValueView)
    requires
        0 <= i < s.len(),
        forall|j: int| 0 <= j < i ==> s[j].0 != s[i].0,
    ensures
        bindings_map(s.update(i, (s[i].0, v))) == bindings_map(s).insert(s[i].0, v),
    decreases i,
{
    let t = s.subrange(1, s.len() as int);
    if i == 0 {
        assert(s.update(0, (s[0].0, v)).subrange(1, s.len() as int) =~= t);
        assert(bindings_map(s.update(i, (s[i].0, v))) =~= bindings_map(s).insert(s[i].0, v));
    } else {
        assert(s.update(i, (s[i].0, v)).subrange(1, s.len() as int) =~= t.update(i - 1, (t[i - 1].0, v)));
        assert forall|j: int| 0 <= j < i - 1 implies (#[trigger] t[j]).0 != t[i - 1].0 by {
            assert(t[j] == s[j + 1]);
        }
        lemma_bindings_update(t, i - 1, v);
        assert(bindings_map(s.update(i, (s[i].0, v))) =~= bindings_map(s).insert(s[i].0, v));
    }
}

impl Bindings {
    /// No bindings.
    pub fn new() -> (b: Bindings)
        ensures
            b@ == Map::<Seq<char>, ValueView>::empty(),
    {
        let b = Bindings { entries: Vec::new() };
        assert(b.entries@.map_values(|e: (String, Value)| (e.0@, e.1@)) =~= Seq::<(Seq<char>, ValueView)>::empty());
        b
    }

    fn find(&self, name: &str) -> (r: usize)
        ensures
            r <= self.entries@.len(),
            forall|j: int| 0 <= j < r ==> self.entries@[j].0@ != name@,
            r < self.entries@.len() ==> self.entries@[r as int].0@ == name@,
    {
        let mut i: usize = 0;
        while i < self.entries.len()
            invariant
                i <= self.entries@.len(),
                forall|j: int| 0 <= j < i ==> self.entries@[j].0@ != name@,
            decreases self.entries@.len() - i,
        {
            if str_eq(self.entries[i].0.as_str(), name) {
                return i;
            }
            i = i + 1;
        }
        i
    }

    /// The value bound to a variable.
    pub fn get(&self, name: &str) -> (r: Option<&Value>)
        ensures
            match r {
                Some(v) => self@.contains_key(name@) && v@ == self@[name@],
                None => !self@.contains_key(name@),
            },
    {
        let ghost s = self.entries@.map_values(|e: (String, Value)| (e.0@, e.1@));
        let i = self.find(name);
        proof {
            assert forall|j: int| 0 <= j < i implies s[j].0 != name@ by {
                assert(s[j] == (self.entries@[j].0@, self.entries@[j].1@));
            }
            if i < self.entries@.len() {
                assert(s[i as int] == (self.entries@[i as int].0@, self.entries@[i as int].1@));
            }
            lemma_bindings_lookup(s, name@, i as int);
        }
        if i < self.entries.len() {
            Some(&self.entries[i].1)
        } else {
            None
        }
    }

    /// Binds a variable, replacing any earlier value.
    pub fn insert(&mut self, name: String, value: Value)
        ensures
            final(self)@ == old(self)@.insert(name@, value@),
    {
        proof {
            use_type_invariant(&*self);
        }
        let ghost s = self.entries@.map_values(|e: (String, Value)| (e.0@, e.1@));
        let ghost e0 = self.entries@;
        let i = self.find(name.as_str());
        proof {
            assert forall|j: int| 0 <= j < i implies s[j].0 != name@ by {
                assert(s[j] == (self.entries@[j].0@, self.entries@[j].1@));
            }
        }
        let ghost nv = name@;
        let ghost vv = value@;
        let mut entries: Vec<(String, Value)> = Vec::new();
        std::mem::swap(&mut entries, &mut self.entries);
        assert(entries@ == e0);
        if i < entries.len() {
            let _old = entries.remove(i);
            entries.insert(i, (name, value));
            proof {
                assert(s[i as int] == (e0[i as int].0@, e0[i as int].1@));
                lemma_bindings_update(s, i as int, vv);
                assert(entries@.map_values(|e: (String, Value)| (e.0@, e.1@)) =~= s.update(
                    i as int,
                    (s[i as int].0, vv),
                ));
                assert forall|k: int| 0 <= k < entries@.len() implies (#[trigger] entries@[k]).0@ == e0[k].0@ by {
                    if k != i {
                        assert(entries@[k] == e0[k]);
                    }
                }
            }
        } else {
            proof {
                lemma_bindings_lookup(s, nv, i as int);
            }
            entries.push((name, value));
            proof {
                lemma_bindings_push(s, (nv, vv));
                assert(entries@.map_values(|e: (String, Value)| (e.0@, e.1@)) =~= s.push((nv, vv)));
                assert forall|k: int| 0 <= k < e0.len() implies (#[trigger] entries@[k]) == e0[k] by {}
            }
        }
        self.entries = entries;
    }
}

proof fn lemma_bindings_dom(s: Seq<(Seq<char>, ValueView)>, k: Seq<char>)
    ensures
        bindings_map(s).contains_key(k) <==> exists|i: int| 0 <= i < s.len() && s[i].0 == k,
    decreases s.len(),
{
    if s.len() > 0 {
        let t = s.subrange(1, s.len() as int);
        lemma_bindings_dom(t, k);
        if bindings_map(s).contains_key(k) && s[0].0 != k {
            let i = choose|i: int| 0 <= i < t.len() && t[i].0 == k;
            assert(s[i + 1] == t[i]);
        }
        if exists|i: int| 0 <= i < s.len() && s[i].0 == k {
            let i = choose|i: int| 0 <= i < s.len() && s[i].0 == k;
            if i > 0 {
                assert(t[i - 1] == s[i]);
            }
        }
    }
}

impl Bindings {
    /// The bound variables, each once.
    pub fn names(&self) -> (r: Vec<String>)
        ensures
            forall|i: int| 0 <= i < r@.len() ==> self@.contains_key(#[trigger] r@[i]@),
            forall|k: Seq<char>| #[trigger] self@.contains_key(k) ==> exists|i: int| 0 <= i < r@.len() && r@[i]@ == k,
    {
        let ghost s = self.entries@.map_values(|e: (String, Value)| (e.0@, e.1@));
        let mut r: Vec<String> = Vec::new();
        let mut i: usize = 0;
        while i < self.entries.len()
            invariant
                i <= self.entries@.len(),
                s == self.entries@.map_values(|e: (String, Value)| (e.0@, e.1@)),
                r@.len() == i,
                forall|j: int| 0 <= j < i ==> (#[trigger] r@[j])@ == s[j].0,
            decreases self.entries@.len() - i,
        {
            r.push(owned(self.entries[i].0.as_str()));
            i = i + 1;
        }
        proof {
            assert forall|j: int| 0 <= j < r@.len() implies self@.contains_key(#[trigger] r@[j]@) by {
                lemma_bindings_dom(s, r@[j]@);
            }
            assert forall|k: Seq<char>| #[trigger] self@.contains_key(k) implies exists|j: int|
                0 <= j < r@.len() && r@[j]@ == k by {
                lemma_bindings_dom(s, k);
                let j = choose|j: int| 0 <= j < s.len() && s[j].0 == k;
                assert(r@[j]@ == k);
            }
        }
        r
    }
}

impl Bindings {
    /// No variable is bound twice.
    #[verifier::type_invariant]
    spec fn names_distinct(self) -> bool {
        forall|i: int, j: int|
            0 <= i < j < self.entries@.len() ==> (#[trigger] self.entries@[i]).0@ != (#[trigger] self.entries@[j]).0@
    }
}

/// The EDN form of a stored value (`nil` as the symbol `nil`).
pub open spec fn value_edn(v: ValueView) -> EdnView {
    match v {
        ValueView::Str(s) => EdnView::Str(s),
        ValueView::Integer(i) => EdnView::Integer(i),
        ValueView::Float(t) => EdnView::Float(t),
        ValueView::Boolean(b) => EdnView::Boolean(b),
        ValueView::Ref(u) => EdnView::Uuid(u),
        ValueView::Keyword(k) => EdnView::Keyword(k),
        ValueView::Null => EdnView::Symbol("nil"@),
    }
}

/// Converts a stored value back to EDN (see `value_edn`).
pub fn value_to_edn(value: &Value) -> (r: EdnValue)
    ensures
        r@ == value_edn(value@),
{
    match value {
        Value::String(s) => EdnValue::String(s.clone()),
        Value::Integer(i) => EdnValue::Integer(*i),
        Value::Float(f) => EdnValue::Float(f.clone()),
        Value::Boolean(b) => EdnValue::Boolean(*b),
        Value::Ref(u) => EdnValue::Uuid(*u),
        Value::Keyword(k) => EdnValue::Keyword(k.clone()),
        Value::Null => EdnValue::Symbol(owned("nil")),
    }
}

/// A value with a bound variable replaced by the EDN form of its value;
/// anything else unchanged.
pub open spec fn subst(v: EdnView, b: Map<Seq<char>, ValueView>) -> EdnView {
    match view_variable(v) {
        Some(n) => if b.contains_key(n) {
            value_edn(b[n])
        } else {
            v
        },
        None => v,
    }
}

/// Substituting twice with the same bindings is substituting once: the EDN
/// form of a value is never a variable.
pub proof fn lemma_subst_idempotent(v: EdnView, b: Map<Seq<char>, ValueView>)
    ensures
        subst(subst(v, b), b) == subst(v, b),
{
    reveal_strlit("nil");
    reveal_strlit("?");
    if let Some(n) = view_variable(v) {
        if b.contains_key(n) {
            let x = b[n];
            if x is Null {
                assert("nil"@.subrange(0, 1)[0] == 'n');
                assert("?"@[0] == '?');
                assert(!is_var_name("nil"@));
            }
            assert(view_variable(value_edn(x)) is None);
        }
    }
}

/// Substitutes a single value (see `subst`).
pub fn substitute_value(value: &EdnValue, binding: &Bindings) -> (r: EdnValue)
    ensures
        r@ == subst(value@, binding@),
{
    match value.as_variable() {
        Some(var) => match binding.get(var) {
            Some(v) => value_to_edn(v),
            None => edn_clone(value),
        },
        None => edn_clone(value),
    }
}

/// A pattern with its entity, (real) attribute and value substituted; a
/// pseudo-attribute and the valid-time bounds are kept.
pub open spec fn subst_pattern(p: PatternView, b: Map<Seq<char>, ValueView>) -> PatternView {
    PatternView {
        entity: subst(p.entity, b),
        attribute: match p.attribute {
            AttributeView::Real(a) => AttributeView::Real(subst(a, b)),
            AttributeView::Pseudo(x) => AttributeView::Pseudo(x),
        },
        value: subst(p.value, b),
        valid_from: p.valid_from,
        valid_to: p.valid_to,
    }
}

/// Substituting a pattern twice with the same bindings is substituting it
/// once.
pub proof fn lemma_subst_pattern_idempotent(p: PatternView, b: Map<Seq<char>, ValueView>)
    ensures
        subst_pattern(subst_pattern(p, b), b) == subst_pattern(p, b),
{
    lemma_subst_idempotent(p.entity, b);
    lemma_subst_idempotent(p.value, b);
    if let AttributeView::Real(a) = p.attribute {
        lemma_subst_idempotent(a, b);
    }
}

/// Substitutes bound variables in a pattern (see `subst_pattern`).
pub fn substitute_pattern(pattern: &Pattern, binding: &Bindings) -> (r: Pattern)
    ensures
        r@ == subst_pattern(pattern@, binding@),
{
    let attribute = match &pattern.attribute {
        AttributeSpec::Real(edn) => AttributeSpec::Real(substitute_value(edn, binding)),
        AttributeSpec::Pseudo(p) => AttributeSpec::Pseudo(*p),
    };
    Pattern {
        entity: substitute_value(&pattern.entity, binding),
        attribute,
        value: substitute_value(&pattern.value, binding),
        valid_from: pattern.valid_from,
        valid_to: pattern.valid_to,
    }
}

/// The pattern a rule invocation matches among derived facts: `(p ?x)` is
/// `[?x :p ?_rule_value]`, `(p ?x ?y)` is `[?x :p ?y]`; other arities are
/// refused.
pub open spec fn invocation_pattern(predicate: Seq<char>, args: Seq<EdnView>) -> Result<PatternView, Seq<char>> {
    if args.len() == 1 {
        Ok(
            PatternView {
                entity: args[0],
                attribute: AttributeView::Real(EdnView::Keyword(":"@ + predicate)),
                value: EdnView::Symbol("?_rule_value"@),
                valid_from: None,
                valid_to: None,
            },
        )
    } else if args.len() == 2 {
        Ok(
            PatternView {
                entity: args[0],
                attribute: AttributeView::Real(EdnView::Keyword(":"@ + predicate)),
                value: args[1],
                valid_from: None,
                valid_to: None,
            },
        )
    } else {
        Err(
            "rule invocation "@ + predicate + " must have 1 or 2 arguments, got "@ + nat_text(args.len()),
        )
    }
}

/// Converts a rule invocation to a pattern (see `invocation_pattern`).
pub fn rule_invocation_to_pattern(predicate: &str, args: &Vec<EdnValue>) -> (r: Result<Pattern, String>)
    ensures
        match r {
            Ok(p) => invocation_pattern(predicate@, edns_view(args@)) == Ok::<PatternView, Seq<char>>(p@),
            Err(m) => invocation_pattern(predicate@, edns_view(args@)) == Err::<PatternView, Seq<char>>(m@),
        },
{
    proof {
        lemma_edns_view(args@);
    }
    if args.len() == 1 {
        Ok(Pattern::new(edn_clone(&args[0]), EdnValue::Keyword(concat(":", predicate)), EdnValue::Symbol(owned("?_rule_value"))))
    } else if args.len() == 2 {
        Ok(Pattern::new(edn_clone(&args[0]), EdnValue::Keyword(concat(":", predicate)), edn_clone(&args[1])))
    } else {
        let mut m = concat("rule invocation ", predicate);
        m.append(" must have 1 or 2 arguments, got ");
        push_u64_text(&mut m, args.len() as u64);
        Err(m)
    }
}

/// A rule-head argument under a binding: a variable becomes the EDN form of
/// its value (an unbound one is an error), anything else stays as it is.
pub open spec fn spec_head_arg(e: EdnView, b: Map<Seq<char>, ValueView>) -> Result<EdnView, Seq<char>> {
    match view_variable(e) {
        Some(v) => if b.contains_key(v) {
            Ok(value_edn(b[v]))
        } else {
            Err("Unbound variable in rule head: "@ + v)
        },
        None => Ok(e),
    }
}

/// Substitutes a rule-head argument (see `spec_head_arg`).
pub fn substitute_variable(edn: &EdnValue, binding: &Bindings) -> (r: Result<EdnValue, String>)
    ensures
        match r {
            Ok(e) => spec_head_arg(edn@, binding@) == Ok::<EdnView, Seq<char>>(e@),
            Err(m) => spec_head_arg(edn@, binding@) == Err::<EdnView, Seq<char>>(m@),
        },
{
    match edn.as_variable() {
        Some(var) => match binding.get(var) {
            Some(v) => Ok(value_to_edn(v)),
            None => Err(concat("Unbound variable in rule head: ", var)),
        },
        None => Ok(edn_clone(edn)),
    }
}

} // verus!
