//! EDN values: the data model of the query language, its reader (tokenizer
//! and parser) and a printer used in error messages.
use vstd::prelude::*;
use crate::text::{has_prefix, starts_with, push_u64_text, push_char, str_eq, owned, concat, push_i64_text, int_text, nat_text, alphabetic, numeric, alphanumeric, alpha_char, numeric_char, chars_of, utf8_len, utf8_len_seq, char_utf8_len};

verus! {

/// An EDN value as read from query text.
///
/// A floating-point literal is kept as its decimal text (optional `-`,
/// digits, `.`, digits); a `#uuid` literal as the 128-bit value of the UUID.
#[derive(Debug, PartialEq)]
pub enum EdnValue {
    Nil,
    Boolean(bool),
    Integer(i64),
    Float(String),
    String(String),
    Keyword(String),
    Symbol(String),
    Uuid(u128),
    Vector(Vec<EdnValue>),
    List(Vec<EdnValue>),
    Mapping(Vec<(EdnValue, EdnValue)>),
    BindSlot(String),
}

/// The mathematical model of an EDN value: strings as character sequences.
pub enum EdnView {
    Nil,
    Boolean(bool),
    Integer(i64),
    Float(Seq<char>),
    Str(Seq<char>),
    Keyword(Seq<char>),
    Symbol(Seq<char>),
    Uuid(u128),
    Vector(Seq<EdnView>),
    List(Seq<EdnView>),
    Mapping(Seq<(EdnView, EdnView)>),
    BindSlot(Seq<char>),
}

/// The model of an EDN value.
pub open spec fn edn_view(v: EdnValue) -> EdnView
    decreases v,
{
    match v {
        EdnValue::Nil => EdnView::Nil,
        EdnValue::Boolean(b) => EdnView::Boolean(b),
        EdnValue::Integer(i) => EdnView::Integer(i),
        EdnValue::Float(t) => EdnView::Float(t@),
        EdnValue::String(s) => EdnView::Str(s@),
        EdnValue::Keyword(k) => EdnView::Keyword(k@),
        EdnValue::Symbol(s) => EdnView::Symbol(s@),
        EdnValue::Uuid(u) => EdnView::Uuid(u),
        EdnValue::Vector(items) => EdnView::Vector(edns_view(items@)),
        EdnValue::List(items) => EdnView::List(edns_view(items@)),
        EdnValue::Mapping(pairs) => EdnView::Mapping(pairs_view(pairs@)),
        EdnValue::BindSlot(n) => EdnView::BindSlot(n@),
    }
}

/// The models of a sequence of EDN values.
pub open spec fn edns_view(s: Seq<EdnValue>) -> Seq<EdnView>
    decreases s,
{
    if s.len() == 0 {
        Seq::empty()
    } else {
        edns_view(s.drop_last()).push(edn_view(s.last()))
    }
}

/// The models of a sequence of key/value pairs.
pub open spec fn pairs_view(s: Seq<(EdnValue, EdnValue)>) -> Seq<(EdnView, EdnView)>
    decreases s,
{
    if s.len() == 0 {
        Seq::empty()
    } else {
        pairs_view(s.drop_last()).push((edn_view(s.last().0), edn_view(s.last().1)))
    }
}

impl View for EdnValue {
    type V = EdnView;

    open spec fn view(&self) -> EdnView {
        edn_view(*self)
    }
}

/// Models of a sequence keep its length and map element by element.
pub proof fn lemma_edns_view(s: Seq<EdnValue>)
    ensures
        edns_view(s).len() == s.len(),
        forall|i: int| 0 <= i < s.len() ==> #[trigger] edns_view(s)[i] == edn_view(s[i]),
    decreases s.len(),
{
    if s.len() > 0 {
        lemma_edns_view(s.drop_last());
    }
}

/// Models of a pair sequence keep its length and map pair by pair.
pub proof fn lemma_pairs_view(s: Seq<(EdnValue, EdnValue)>)
    ensures
        pairs_view(s).len() == s.len(),
        forall|i: int|
            0 <= i < s.len() ==> #[trigger] pairs_view(s)[i] == (edn_view(s[i].0), edn_view(s[i].1)),
    decreases s.len(),
{
    if s.len() > 0 {
        lemma_pairs_view(s.drop_last());
    }
}

/// The model of a pushed sequence is the pushed model.
pub proof fn lemma_edns_view_push(s: Seq<EdnValue>, v: EdnValue)
    ensures
        edns_view(s.push(v)) == edns_view(s).push(edn_view(v)),
{
    assert(s.push(v).drop_last() =~= s);
}

/// The model of a pushed pair sequence is the pushed model.
pub proof fn lemma_pairs_view_push(s: Seq<(EdnValue, EdnValue)>, p: (EdnValue, EdnValue))
    ensures
        pairs_view(s.push(p)) == pairs_view(s).push((edn_view(p.0), edn_view(p.1))),
{
    assert(s.push(p).drop_last() =~= s);
}

/// The model of a subrange is the subrange of the model.
pub proof fn lemma_edns_view_subrange(s: Seq<EdnValue>, from: int)
    requires
        0 <= from <= s.len(),
    ensures
        edns_view(s.subrange(from, s.len() as int)) == edns_view(s).subrange(from, s.len() as int),
{
    lemma_edns_view(s);
    lemma_edns_view(s.subrange(from, s.len() as int));
    assert(edns_view(s.subrange(from, s.len() as int)) =~= edns_view(s).subrange(from, s.len() as int));
}

/// A copy of an EDN value.
pub fn edn_clone(v: &EdnValue) -> (r: EdnValue)
    ensures
        r@ == v@,
    decreases v,
{
    match v {
        EdnValue::Nil => EdnValue::Nil,
        EdnValue::Boolean(b) => EdnValue::Boolean(*b),
        EdnValue::Integer(i) => EdnValue::Integer(*i),
        EdnValue::Float(t) => EdnValue::Float(t.clone()),
        EdnValue::String(s) => EdnValue::String(s.clone()),
        EdnValue::Keyword(k) => EdnValue::Keyword(k.clone()),
        EdnValue::Symbol(s) => EdnValue::Symbol(s.clone()),
        EdnValue::Uuid(u) => EdnValue::Uuid(*u),
        EdnValue::Vector(items) => EdnValue::Vector(edns_clone(items)),
        EdnValue::List(items) => EdnValue::List(edns_clone(items)),
        EdnValue::Mapping(pairs) => EdnValue::Mapping(pairs_clone(pairs)),
        EdnValue::BindSlot(n) => EdnValue::BindSlot(n.clone()),
    }
}

/// A copy of a vector of EDN values.
pub fn edns_clone(v: &Vec<EdnValue>) -> (r: Vec<EdnValue>)
    ensures
        edns_view(r@) == edns_view(v@),
    decreases v,
{
    let r = edns_clone_range(v, 0);
    assert(v@.subrange(0, v@.len() as int) =~= v@);
    r
}

/// A copy of the values `v[from..]`.
pub fn edns_clone_range(v: &Vec<EdnValue>, from: usize) -> (r: Vec<EdnValue>)
    requires
        from <= v@.len(),
    ensures
        edns_view(r@) == edns_view(v@.subrange(from as int, v@.len() as int)),
    decreases v, 0nat,
{
    let mut out: Vec<EdnValue> = Vec::new();
    let mut k = from;
    while k < v.len()
        invariant
            from <= k <= v@.len(),
            edns_view(out@) == edns_view(v@.subrange(from as int, k as int)),
        decreases v@.len() - k,
    {
        let c = edn_clone(&v[k]);
        proof {
            lemma_edns_view_push(out@, c);
            lemma_edns_view_push(v@.subrange(from as int, k as int), v@[k as int]);
            assert(v@.subrange(from as int, k as int).push(v@[k as int]) =~= v@.subrange(
                from as int,
                k + 1,
            ));
        }
        out.push(c);
        k = k + 1;
    }
    out
}

fn pairs_clone(v: &Vec<(EdnValue, EdnValue)>) -> (r: Vec<(EdnValue, EdnValue)>)
    ensures
        pairs_view(r@) == pairs_view(v@),
    decreases v,
{
    let mut out: Vec<(EdnValue, EdnValue)> = Vec::new();
    let mut k: usize = 0;
    while k < v.len()
        invariant
            k <= v@.len(),
            pairs_view(out@) == pairs_view(v@.subrange(0, k as int)),
        decreases v@.len() - k,
    {
        let a = edn_clone(&v[k].0);
        let b = edn_clone(&v[k].1);
        proof {
            lemma_pairs_view_push(out@, (a, b));
            lemma_pairs_view_push(v@.subrange(0, k as int), v@[k as int]);
            assert(v@.subrange(0, k as int).push(v@[k as int]) =~= v@.subrange(0, k + 1));
        }
        out.push((a, b));
        k = k + 1;
    }
    assert(v@.subrange(0, v@.len() as int) =~= v@);
    out
}


// ===================== tokenizer =====================

/// Longest string literal, in UTF-8 bytes.
pub const MAX_STRING_LENGTH: usize = 1048576;

/// Longest keyword, in UTF-8 bytes.
pub const MAX_KEYWORD_LENGTH: usize = 1024;

/// Longest symbol, tag or bind-slot name, in UTF-8 bytes.
pub const MAX_SYMBOL_LENGTH: usize = 1024;

/// A lexical token of EDN text.
#[derive(Debug, PartialEq)]
pub enum Token {
    LeftParen,
    RightParen,
    LeftBracket,
    RightBracket,
    LeftBrace,
    RightBrace,
    Keyword(String),
    Symbol(String),
    String(String),
    Integer(i64),
    /// A floating-point literal, as its decimal text.
    Float(String),
    Boolean(bool),
    /// The tag of a tagged literal, e.g. "uuid" for `#uuid`.
    TaggedLiteral(String),
    Nil,
    /// `$name`: a named bind slot.
    BindSlot(String),
}

/// The model of a token.
pub enum TokView {
    LeftParen,
    RightParen,
    LeftBracket,
    RightBracket,
    LeftBrace,
    RightBrace,
    Keyword(Seq<char>),
    Symbol(Seq<char>),
    Str(Seq<char>),
    Integer(i64),
    Float(Seq<char>),
    Boolean(bool),
    TaggedLiteral(Seq<char>),
    Nil,
    BindSlot(Seq<char>),
}

/// The model of a token.
pub open spec fn tok_view(t: Token) -> TokView {
    match t {
        Token::LeftParen => TokView::LeftParen,
        Token::RightParen => TokView::RightParen,
        Token::LeftBracket => TokView::LeftBracket,
        Token::RightBracket => TokView::RightBracket,
        Token::LeftBrace => TokView::LeftBrace,
        Token::RightBrace => TokView::RightBrace,
        Token::Keyword(k) => TokView::Keyword(k@),
        Token::Symbol(k) => TokView::Symbol(k@),
        Token::String(k) => TokView::Str(k@),
        Token::Integer(i) => TokView::Integer(i),
        Token::Float(k) => TokView::Float(k@),
        Token::Boolean(b) => TokView::Boolean(b),
        Token::TaggedLiteral(k) => TokView::TaggedLiteral(k@),
        Token::Nil => TokView::Nil,
        Token::BindSlot(k) => TokView::BindSlot(k@),
    }
}

/// The models of a token sequence.
pub open spec fn toks_view(s: Seq<Token>) -> Seq<TokView> {
    s.map_values(|t: Token| tok_view(t))
}

/// The kinds of runs of word characters the tokenizer reads.
#[derive(Clone, Copy)]
pub enum WordClass {
    Keyword,
    Tag,
    Symbol,
    Slot,
}

/// Whether `c` may continue a word of class `cls`.
pub open spec fn word_char(cls: WordClass, c: char) -> bool {
    let an = alpha_char(c) || numeric_char(c);
    match cls {
        WordClass::Keyword => an || c == '/' || c == '-' || c == '_' || c == '?',
        WordClass::Tag => an || c == '-',
        WordClass::Symbol => an || c == '?' || c == '_' || c == '-' || c == '/',
        WordClass::Slot => an || c == '_' || c == '-',
    }
}

/// The error reported when a word of class `cls` grows past its limit.
pub open spec fn word_limit_error(cls: WordClass) -> Seq<char> {
    match cls {
        WordClass::Keyword => "Keyword exceeds maximum length of 1024 bytes"@,
        WordClass::Tag => "Tagged literal exceeds maximum length of 1024 bytes"@,
        WordClass::Symbol => "Symbol exceeds maximum length of 1024 bytes"@,
        WordClass::Slot => "Bind slot name exceeds maximum length of 1024 bytes"@,
    }
}

/// Where the run of word characters starting at `k` ends, given that the
/// word read so far takes `nb` bytes; an error if a character would be added
/// to a word that already takes 1024 bytes or more.
pub open spec fn word_end(s: Seq<char>, k: int, nb: nat, cls: WordClass) -> Result<int, Seq<char>>
    decreases s.len() - k,
{
    if 0 <= k < s.len() && word_char(cls, s[k]) {
        if nb >= 1024 {
            Err(word_limit_error(cls))
        } else {
            word_end(s, k + 1, nb + utf8_len(s[k]), cls)
        }
    } else {
        Ok(k)
    }
}

/// The character an escape sequence `\c` stands for.
pub open spec fn unescape(c: char) -> char {
    if c == 'n' {
        '\n'
    } else if c == 't' {
        '\t'
    } else if c == 'r' {
        '\r'
    } else {
        c
    }
}

/// Reads the body of a string literal from `k` (after the opening quote):
/// the characters read (escapes resolved) and the position after the closing
/// quote, or the end of the input when the literal is not closed. Reading a
/// plain character into a string that already takes `MAX_STRING_LENGTH`
/// bytes is an error.
pub open spec fn string_body(s: Seq<char>, k: int, acc: Seq<char>, nb: nat) -> Result<
    (Seq<char>, int),
    Seq<char>,
>
    decreases s.len() - k,
{
    if k < 0 || k >= s.len() {
        Ok((acc, k))
    } else if s[k] == '"' {
        Ok((acc, k + 1))
    } else if s[k] == '\\' {
        if k + 1 < s.len() {
            string_body(s, k + 2, acc.push(unescape(s[k + 1])), nb + utf8_len(unescape(s[k + 1])))
        } else {
            Ok((acc, k + 1))
        }
    } else if nb >= MAX_STRING_LENGTH {
        Err("String exceeds maximum length of 1048576 bytes"@)
    } else {
        string_body(s, k + 1, acc.push(s[k]), nb + utf8_len(s[k]))
    }
}

/// Where the digits (and at most one `.`) of a number starting at `k` end,
/// and whether a `.` was read.
pub open spec fn number_end(s: Seq<char>, k: int, is_float: bool) -> (int, bool)
    decreases s.len() - k,
{
    if 0 <= k < s.len() && numeric_char(s[k]) {
        number_end(s, k + 1, is_float)
    } else if 0 <= k < s.len() && s[k] == '.' && !is_float {
        number_end(s, k + 1, true)
    } else {
        (k, is_float)
    }
}

/// An ASCII decimal digit.
pub open spec fn ascii_digit(c: char) -> bool {
    '0' <= c && c <= '9'
}

/// Every character is an ASCII digit or a `.`: the number text that std's
/// integer and float parsers accept (the tokenizer never produces other
/// shapes).
pub open spec fn plain_number(t: Seq<char>) -> bool {
    forall|i: int| 0 <= i < t.len() ==> ascii_digit(#[trigger] t[i]) || t[i] == '.'
}

/// Every character is an ASCII digit.
pub open spec fn all_digits(t: Seq<char>) -> bool {
    forall|i: int| 0 <= i < t.len() ==> ascii_digit(#[trigger] t[i])
}

/// The value of a run of ASCII digits.
pub open spec fn digits_value(t: Seq<char>) -> nat
    decreases t.len(),
{
    if t.len() == 0 {
        0
    } else {
        10 * digits_value(t.drop_last()) + ((t.last() as u32) - 48) as nat
    }
}

/// The token for the number whose digits are `body`, negative when `neg`.
pub open spec fn number_token(body: Seq<char>, is_float: bool, neg: bool) -> Result<TokView, Seq<char>> {
    let text = if neg { seq!['-'] + body } else { body };
    if is_float {
        if plain_number(body) {
            Ok(TokView::Float(text))
        } else {
            Err("Float literal out of range: "@ + text)
        }
    } else if all_digits(body) && neg && digits_value(body) <= 0x8000_0000_0000_0000 {
        Ok(TokView::Integer((-(digits_value(body) as int)) as i64))
    } else if all_digits(body) && !neg && digits_value(body) <= 0x7fff_ffff_ffff_ffff {
        Ok(TokView::Integer(digits_value(body) as i64))
    } else {
        Err("Integer literal out of range: "@ + text)
    }
}

/// Where an end-of-line comment starting at `k` ends (at the newline, which
/// is not consumed, or at the end of input).
pub open spec fn comment_end(s: Seq<char>, k: int) -> int
    decreases s.len() - k,
{
    if 0 <= k < s.len() && s[k] != '\n' {
        comment_end(s, k + 1)
    } else {
        k
    }
}

/// One step of the tokenizer at position `i`.
pub enum LexStep {
    /// Nothing produced; continue at the position.
    Skip(int),
    /// A token; continue at the position.
    Tok(TokView, int),
    /// The input is rejected with this message.
    Fail(Seq<char>),
}

/// The symbol token for a word: `true`, `false` and `nil` are literals.
pub open spec fn symbol_token(w: Seq<char>) -> TokView {
    if w == "true"@ {
        TokView::Boolean(true)
    } else if w == "false"@ {
        TokView::Boolean(false)
    } else if w == "nil"@ {
        TokView::Nil
    } else {
        TokView::Symbol(w)
    }
}

/// The tokenizer's step at position `i` (`0 <= i < s.len()`).
pub open spec fn lex_step(s: Seq<char>, i: int) -> LexStep {
    let n = s.len();
    let c = s[i];
    if c == ' ' || c == '\t' || c == '\n' || c == '\r' || c == ',' {
        LexStep::Skip(i + 1)
    } else if c == '(' {
        LexStep::Tok(TokView::LeftParen, i + 1)
    } else if c == ')' {
        LexStep::Tok(TokView::RightParen, i + 1)
    } else if c == '[' {
        LexStep::Tok(TokView::LeftBracket, i + 1)
    } else if c == ']' {
        LexStep::Tok(TokView::RightBracket, i + 1)
    } else if c == '{' {
        LexStep::Tok(TokView::LeftBrace, i + 1)
    } else if c == '}' {
        LexStep::Tok(TokView::RightBrace, i + 1)
    } else if c == '"' {
        match string_body(s, i + 1, Seq::empty(), 0) {
            Ok((body, j)) => LexStep::Tok(TokView::Str(body), j),
            Err(m) => LexStep::Fail(m),
        }
    } else if c == ':' {
        match word_end(s, i + 1, 1, WordClass::Keyword) {
            Ok(j) => LexStep::Tok(TokView::Keyword(seq![':'] + s.subrange(i + 1, j)), j),
            Err(m) => LexStep::Fail(m),
        }
    } else if c == '#' {
        match word_end(s, i + 1, 0, WordClass::Tag) {
            Ok(j) => LexStep::Tok(TokView::TaggedLiteral(s.subrange(i + 1, j)), j),
            Err(m) => LexStep::Fail(m),
        }
    } else if c == '-' {
        if i + 1 < s.len() {
            if numeric_char(s[i + 1]) {
                let (j, is_float) = number_end(s, i + 1, false);
                match number_token(s.subrange(i + 1, j), is_float, true) {
                    Ok(t) => LexStep::Tok(t, j),
                    Err(m) => LexStep::Fail(m),
                }
            } else {
                match word_end(s, i + 1, 1, WordClass::Symbol) {
                    Ok(j) => LexStep::Tok(TokView::Symbol(seq!['-'] + s.subrange(i + 1, j)), j),
                    Err(m) => LexStep::Fail(m),
                }
            }
        } else {
            LexStep::Tok(TokView::Symbol(seq!['-']), i + 1)
        }
    } else if ascii_digit(c) {
        let (j, is_float) = number_end(s, i, false);
        match number_token(s.subrange(i, j), is_float, false) {
            Ok(t) => LexStep::Tok(t, j),
            Err(m) => LexStep::Fail(m),
        }
    } else if alpha_char(c) || c == '?' || c == '_' {
        match word_end(s, i, 0, WordClass::Symbol) {
            Ok(j) => LexStep::Tok(symbol_token(s.subrange(i, j)), j),
            Err(m) => LexStep::Fail(m),
        }
    } else if c == '<' || c == '>' {
        if i + 1 < s.len() && s[i + 1] == '=' {
            LexStep::Tok(TokView::Symbol(seq![c, '=']), i + 2)
        } else {
            LexStep::Tok(TokView::Symbol(seq![c]), i + 1)
        }
    } else if c == '=' || c == '+' || c == '*' || c == '/' {
        LexStep::Tok(TokView::Symbol(seq![c]), i + 1)
    } else if c == '!' {
        if i + 1 < s.len() && s[i + 1] == '=' {
            LexStep::Tok(TokView::Symbol(seq!['!', '=']), i + 2)
        } else {
            LexStep::Fail("Unexpected character: !"@)
        }
    } else if c == ';' {
        LexStep::Skip(comment_end(s, i + 1))
    } else if c == '$' {
        match word_end(s, i + 1, 0, WordClass::Slot) {
            Ok(j) => if j == i + 1 {
                LexStep::Fail("Bind slot '$' must be followed by an identifier (e.g. $entity)"@)
            } else {
                LexStep::Tok(TokView::BindSlot(s.subrange(i + 1, j)), j)
            },
            Err(m) => LexStep::Fail(m),
        }
    } else {
        LexStep::Fail("Unexpected character: "@.push(c))
    }
}

/// The tokens of `s` from position `i`, after the tokens `acc` already read.
pub open spec fn lex_from(s: Seq<char>, i: int, acc: Seq<TokView>) -> Result<Seq<TokView>, Seq<char>>
    decreases s.len() - i,
{
    if i < 0 || i >= s.len() {
        Ok(acc)
    } else {
        match lex_step(s, i) {
            LexStep::Skip(j) => if i < j && j <= s.len() {
                lex_from(s, j, acc)
            } else {
                Err(Seq::empty())
            },
            LexStep::Tok(t, j) => if i < j && j <= s.len() {
                lex_from(s, j, acc.push(t))
            } else {
                Err(Seq::empty())
            },
            LexStep::Fail(m) => Err(m),
        }
    }
}

/// The tokens of EDN text, or the reason it is rejected.
pub open spec fn spec_tokenize(s: Seq<char>) -> Result<Seq<TokView>, Seq<char>> {
    lex_from(s, 0, Seq::empty())
}


fn is_word_char(cls: WordClass, c: char) -> (r: bool)
    ensures
        r == word_char(cls, c),
{
    let an = alphanumeric(c);
    match cls {
        WordClass::Keyword => an || c == '/' || c == '-' || c == '_' || c == '?',
        WordClass::Tag => an || c == '-',
        WordClass::Symbol => an || c == '?' || c == '_' || c == '-' || c == '/',
        WordClass::Slot => an || c == '_' || c == '-',
    }
}

fn limit_error(cls: WordClass) -> (m: String)
    ensures
        m@ == word_limit_error(cls),
{
    match cls {
        WordClass::Keyword => owned("Keyword exceeds maximum length of 1024 bytes"),
        WordClass::Tag => owned("Tagged literal exceeds maximum length of 1024 bytes"),
        WordClass::Symbol => owned("Symbol exceeds maximum length of 1024 bytes"),
        WordClass::Slot => owned("Bind slot name exceeds maximum length of 1024 bytes"),
    }
}

fn scan_word(s: &Vec<char>, k0: usize, nb0: u32, cls: WordClass) -> (r: Result<usize, String>)
    requires
        k0 <= s@.len(),
        nb0 <= 1,
    ensures
        match r {
            Ok(j) => word_end(s@, k0 as int, nb0 as nat, cls) == Ok::<int, Seq<char>>(j as int)
                && k0 <= j <= s@.len() && (k0 < s@.len() && word_char(cls, s@[k0 as int]) ==> k0 < j),
            Err(m) => word_end(s@, k0 as int, nb0 as nat, cls) == Err::<int, Seq<char>>(m@),
        },
{
    let mut k = k0;
    let mut nb: u32 = nb0;
    while k < s.len() && is_word_char(cls, s[k])
        invariant
            k0 <= k <= s@.len(),
            nb <= 1028,
            word_end(s@, k0 as int, nb0 as nat, cls) == word_end(s@, k as int, nb as nat, cls),
        decreases s@.len() - k,
    {
        if nb >= 1024 {
            return Err(limit_error(cls));
        }
        nb = nb + char_utf8_len(s[k]);
        k = k + 1;
    }
    Ok(k)
}

fn unescape_char(c: char) -> (r: char)
    ensures
        r == unescape(c),
{
    if c == 'n' {
        '\n'
    } else if c == 't' {
        '\t'
    } else if c == 'r' {
        '\r'
    } else {
        c
    }
}

fn scan_string(s: &Vec<char>, k0: usize) -> (r: Result<(String, usize), String>)
    requires
        k0 <= s@.len(),
    ensures
        match r {
            Ok((body, j)) => string_body(s@, k0 as int, Seq::empty(), 0) == Ok::<
                (Seq<char>, int),
                Seq<char>,
            >((body@, j as int)) && k0 <= j <= s@.len(),
            Err(m) => string_body(s@, k0 as int, Seq::empty(), 0) == Err::<(Seq<char>, int), Seq<char>>(
                m@,
            ),
        },
{
    let mut k = k0;
    let mut acc = String::new();
    let mut nb: u128 = 0;
    loop
        invariant
            k0 <= k <= s@.len(),
            nb <= 1048580 + 4 * (k - k0),
            string_body(s@, k0 as int, Seq::empty(), 0) == string_body(s@, k as int, acc@, nb as nat),
        decreases s@.len() - k,
    {
        if k >= s.len() {
            return Ok((acc, k));
        }
        let c = s[k];
        if c == '"' {
            return Ok((acc, k + 1));
        } else if c == '\\' {
            if k + 1 < s.len() {
                let e = unescape_char(s[k + 1]);
                push_char(&mut acc, e);
                nb = nb + char_utf8_len(e) as u128;
                k = k + 2;
            } else {
                return Ok((acc, k + 1));
            }
        } else {
            if nb >= 1048576 {
                return Err(owned("String exceeds maximum length of 1048576 bytes"));
            }
            push_char(&mut acc, c);
            nb = nb + char_utf8_len(c) as u128;
            k = k + 1;
        }
    }
}

fn scan_number(s: &Vec<char>, k0: usize) -> (r: (usize, bool))
    requires
        k0 <= s@.len(),
    ensures
        number_end(s@, k0 as int, false) == (r.0 as int, r.1),
        k0 <= r.0 <= s@.len(),
        k0 < s@.len() && ascii_digit(s@[k0 as int]) ==> k0 < r.0,
{
    let mut k = k0;
    let mut is_float = false;
    loop
        invariant
            k0 <= k <= s@.len(),
            number_end(s@, k0 as int, false) == number_end(s@, k as int, is_float),
        decreases s@.len() - k,
    {
        if k < s.len() && numeric(s[k]) {
            k = k + 1;
        } else if k < s.len() && s[k] == '.' && !is_float {
            is_float = true;
            k = k + 1;
        } else {
            return (k, is_float);
        }
    }
}

proof fn lemma_digits_step(t: Seq<char>, k: int)
    requires
        0 <= k < t.len(),
    ensures
        digits_value(t.subrange(0, k + 1)) == 10 * digits_value(t.subrange(0, k)) + ((t[k] as u32)
            - 48) as nat,
{
    assert(t.subrange(0, k + 1).drop_last() =~= t.subrange(0, k));
}

proof fn lemma_digits_grow(t: Seq<char>, k: int)
    requires
        0 <= k < t.len(),
    ensures
        digits_value(t.subrange(0, k + 1)) >= digits_value(t.subrange(0, k)),
{
    lemma_digits_step(t, k);
}

proof fn lemma_digits_mono(t: Seq<char>, a: int, b: int)
    requires
        0 <= a <= b <= t.len(),
    ensures
        digits_value(t.subrange(0, b)) >= digits_value(t.subrange(0, a)),
    decreases b - a,
{
    if a < b {
        lemma_digits_mono(t, a, b - 1);
        lemma_digits_grow(t, b - 1);
    }
}

fn number_tok(s: &Vec<char>, from: usize, to: usize, is_float: bool, neg: bool) -> (r: Result<Token, String>)
    requires
        from <= to <= s@.len(),
    ensures
        match r {
            Ok(t) => number_token(s@.subrange(from as int, to as int), is_float, neg) == Ok::<
                TokView,
                Seq<char>,
            >(tok_view(t)),
            Err(m) => number_token(s@.subrange(from as int, to as int), is_float, neg) == Err::<
                TokView,
                Seq<char>,
            >(m@),
        },
{
    let ghost body = s@.subrange(from as int, to as int);
    let mut plain = true;
    let mut digits = true;
    let mut over = false;
    let mut value: u128 = 0;
    let mut k = from;
    while k < to
        invariant
            from <= k <= to <= s@.len(),
            body == s@.subrange(from as int, to as int),
            plain == plain_number(body.subrange(0, k - from)),
            digits == all_digits(body.subrange(0, k - from)),
            digits && !over ==> value == digits_value(body.subrange(0, k - from)),
            digits && !over ==> value <= 0x8000_0000_0000_0000,
            digits && over ==> digits_value(body.subrange(0, k - from)) > 0x8000_0000_0000_0000,
        decreases to - k,
    {
        let c = s[k];
        let ghost kk = k - from;
        proof {
            assert(body[kk] == c);
            assert(body.subrange(0, kk + 1) =~= body.subrange(0, kk).push(c));
            lemma_digits_step(body, kk);
        }
        let is_digit = '0' <= c && c <= '9';
        if !(is_digit || c == '.') {
            plain = false;
        }
        if !is_digit {
            digits = false;
        }
        if digits && !over {
            let d = (c as u32 - 48) as u128;
            value = value * 10 + d;
            if value > 0x8000_0000_0000_0000 {
                over = true;
            }
        }
        proof {
            let p1 = body.subrange(0, kk + 1);
            let p0 = body.subrange(0, kk);
            if plain_number(p1) {
                assert forall|i: int| 0 <= i < p0.len() implies ascii_digit(#[trigger] p0[i]) || p0[i] == '.' by {
                    assert(p1[i] == p0[i]);
                }
            }
            if all_digits(p1) {
                assert forall|i: int| 0 <= i < p0.len() implies ascii_digit(#[trigger] p0[i]) by {
                    assert(p1[i] == p0[i]);
                }
            }
            assert(p1[kk] == c);
        }
        k = k + 1;
    }
    proof {
        assert(body.subrange(0, (to - from) as int) =~= body);
    }
    let mut text = if neg { owned("-") } else { String::new() };
    let ghost pre = text@;
    let body_text = crate::text::string_of_range(s, from, to);
    text.append(body_text.as_str());
    proof {
        if neg {
            assert(pre =~= seq!['-']) by { reveal_strlit("-"); }
        } else {
            assert(pre =~= Seq::<char>::empty());
        }
        assert(text@ =~= if neg { seq!['-'] + body } else { body });
    }
    if is_float {
        if plain {
            return Ok(Token::Float(text));
        } else {
            return Err(concat("Float literal out of range: ", text.as_str()));
        }
    }
    if digits && neg && !over {
        let v: i128 = -(value as i128);
        return Ok(Token::Integer(v as i64));
    }
    if digits && !neg && !over && value <= 0x7fff_ffff_ffff_ffff {
        return Ok(Token::Integer(value as i64));
    }
    Err(concat("Integer literal out of range: ", text.as_str()))
}

fn scan_comment(s: &Vec<char>, k0: usize) -> (r: usize)
    requires
        k0 <= s@.len(),
    ensures
        comment_end(s@, k0 as int) == r as int,
        k0 <= r <= s@.len(),
{
    let mut k = k0;
    while k < s.len() && s[k] != '\n'
        invariant
            k0 <= k <= s@.len(),
            comment_end(s@, k0 as int) == comment_end(s@, k as int),
        decreases s@.len() - k,
    {
        k = k + 1;
    }
    k
}


enum Step {
    Skip(usize),
    Tok(Token, usize),
    Fail(String),
}

spec fn step_matches(st: Step, ls: LexStep) -> bool {
    match st {
        Step::Skip(j) => ls == LexStep::Skip(j as int),
        Step::Tok(t, j) => ls == LexStep::Tok(tok_view(t), j as int),
        Step::Fail(m) => ls == LexStep::Fail(m@),
    }
}

fn symbol_tok(w: String) -> (t: Token)
    ensures
        tok_view(t) == symbol_token(w@),
{
    if str_eq(w.as_str(), "true") {
        Token::Boolean(true)
    } else if str_eq(w.as_str(), "false") {
        Token::Boolean(false)
    } else if str_eq(w.as_str(), "nil") {
        Token::Nil
    } else {
        Token::Symbol(w)
    }
}

fn lex_one(s: &Vec<char>, i: usize) -> (st: Step)
    requires
        i < s@.len(),
    ensures
        step_matches(st, lex_step(s@, i as int)),
        match st {
            Step::Skip(j) => i < j <= s@.len(),
            Step::Tok(_, j) => i < j <= s@.len(),
            Step::Fail(_) => true,
        },
{
    let n = s.len();
    let c = s[i];
    if c == ' ' || c == '\t' || c == '\n' || c == '\r' || c == ',' {
        Step::Skip(i + 1)
    } else if c == '(' {
        Step::Tok(Token::LeftParen, i + 1)
    } else if c == ')' {
        Step::Tok(Token::RightParen, i + 1)
    } else if c == '[' {
        Step::Tok(Token::LeftBracket, i + 1)
    } else if c == ']' {
        Step::Tok(Token::RightBracket, i + 1)
    } else if c == '{' {
        Step::Tok(Token::LeftBrace, i + 1)
    } else if c == '}' {
        Step::Tok(Token::RightBrace, i + 1)
    } else if c == '"' {
        match scan_string(s, i + 1) {
            Ok((body, j)) => Step::Tok(Token::String(body), j),
            Err(m) => Step::Fail(m),
        }
    } else if c == ':' {
        match scan_word(s, i + 1, 1, WordClass::Keyword) {
            Ok(j) => {
                let mut k = owned(":");
                let w = string_of_range_local(s, i + 1, j);
                k.append(w.as_str());
                proof {
                    reveal_strlit(":");
                    assert(k@ =~= seq![':'] + s@.subrange(i + 1, j as int));
                }
                Step::Tok(Token::Keyword(k), j)
            },
            Err(m) => Step::Fail(m),
        }
    } else if c == '#' {
        match scan_word(s, i + 1, 0, WordClass::Tag) {
            Ok(j) => Step::Tok(Token::TaggedLiteral(string_of_range_local(s, i + 1, j)), j),
            Err(m) => Step::Fail(m),
        }
    } else if c == '-' {
        if i + 1 < s.len() {
            if numeric(s[i + 1]) {
                let (j, is_float) = scan_number(s, i + 1);
                match number_tok(s, i + 1, j, is_float, true) {
                    Ok(t) => Step::Tok(t, j),
                    Err(m) => Step::Fail(m),
                }
            } else {
                match scan_word(s, i + 1, 1, WordClass::Symbol) {
                    Ok(j) => {
                        let mut k = owned("-");
                        let w = string_of_range_local(s, i + 1, j);
                        k.append(w.as_str());
                        proof {
                            reveal_strlit("-");
                            assert(k@ =~= seq!['-'] + s@.subrange(i + 1, j as int));
                        }
                        Step::Tok(Token::Symbol(k), j)
                    },
                    Err(m) => Step::Fail(m),
                }
            }
        } else {
            let k = owned("-");
            proof {
                reveal_strlit("-");
                assert(k@ =~= seq!['-']);
            }
            Step::Tok(Token::Symbol(k), i + 1)
        }
    } else if '0' <= c && c <= '9' {
        let (j, is_float) = scan_number(s, i);
        match number_tok(s, i, j, is_float, false) {
            Ok(t) => Step::Tok(t, j),
            Err(m) => Step::Fail(m),
        }
    } else if alphabetic(c) || c == '?' || c == '_' {
        match scan_word(s, i, 0, WordClass::Symbol) {
            Ok(j) => {
                proof {
                    assert(word_char(WordClass::Symbol, c));
                }
                Step::Tok(symbol_tok(string_of_range_local(s, i, j)), j)
            },
            Err(m) => Step::Fail(m),
        }
    } else if c == '<' || c == '>' {
        let mut k = String::new();
        push_char(&mut k, c);
        if i + 1 < s.len() && s[i + 1] == '=' {
            push_char(&mut k, '=');
            assert(k@ =~= seq![c, '=']);
            Step::Tok(Token::Symbol(k), i + 2)
        } else {
            assert(k@ =~= seq![c]);
            Step::Tok(Token::Symbol(k), i + 1)
        }
    } else if c == '=' || c == '+' || c == '*' || c == '/' {
        let mut k = String::new();
        push_char(&mut k, c);
        assert(k@ =~= seq![c]);
        Step::Tok(Token::Symbol(k), i + 1)
    } else if c == '!' {
        if i + 1 < s.len() && s[i + 1] == '=' {
            let mut k = String::new();
            push_char(&mut k, '!');
            push_char(&mut k, '=');
            assert(k@ =~= seq!['!', '=']);
            Step::Tok(Token::Symbol(k), i + 2)
        } else {
            Step::Fail(owned("Unexpected character: !"))
        }
    } else if c == ';' {
        Step::Skip(scan_comment(s, i + 1))
    } else if c == '$' {
        match scan_word(s, i + 1, 0, WordClass::Slot) {
            Ok(j) => if j == i + 1 {
                Step::Fail(owned("Bind slot '$' must be followed by an identifier (e.g. $entity)"))
            } else {
                Step::Tok(Token::BindSlot(string_of_range_local(s, i + 1, j)), j)
            },
            Err(m) => Step::Fail(m),
        }
    } else {
        let mut m = owned("Unexpected character: ");
        push_char(&mut m, c);
        Step::Fail(m)
    }
}

fn string_of_range_local(v: &Vec<char>, from: usize, to: usize) -> (r: String)
    requires
        from <= to <= v@.len(),
    ensures
        r@ == v@.subrange(from as int, to as int),
{
    crate::text::string_of_range(v, from, to)
}

/// Splits EDN text into tokens.
pub fn tokenize(input: &str) -> (r: Result<Vec<Token>, String>)
    ensures
        match r {
            Ok(toks) => spec_tokenize(input@) == Ok::<Seq<TokView>, Seq<char>>(toks_view(toks@)),
            Err(m) => spec_tokenize(input@) == Err::<Seq<TokView>, Seq<char>>(m@),
        },
{
    let s = chars_of(input);
    let mut tokens: Vec<Token> = Vec::new();
    let mut i: usize = 0;
    proof {
        assert(toks_view(tokens@) =~= Seq::<TokView>::empty());
    }
    while i < s.len()
        invariant
            i <= s@.len(),
            s@ == input@,
            spec_tokenize(input@) == lex_from(s@, i as int, toks_view(tokens@)),
        decreases s@.len() - i,
    {
        match lex_one(&s, i) {
            Step::Skip(j) => {
                i = j;
            },
            Step::Tok(t, j) => {
                let ghost tv = tok_view(t);
                let ghost prev = tokens@;
                tokens.push(t);
                proof {
                    assert(toks_view(tokens@) =~= toks_view(prev).push(tv));
                }
                i = j;
            },
            Step::Fail(m) => {
                return Err(m);
            },
        }
    }
    Ok(tokens)
}


// ===================== reader =====================

/// The 128-bit value of the UUID written as `s`, if uuid's parser accepts it.
pub uninterp spec fn uuid_value(s: Seq<char>) -> Option<u128>;

/// uuid's `Uuid::parse_str`, giving the UUID's 128-bit value: the result is
/// named (`uuid_value`), as the accepted spellings take the crate's grammar.
#[verifier::external_body]
fn parse_uuid(s: &str) -> (r: Option<u128>)
    ensures
        r == uuid_value(s@),
{
    match uuid::Uuid::parse_str(s) {
        Ok(u) => Some(u.as_u128()),
        Err(_) => None,
    }
}

/// The text of a closing token, as reported in errors.
pub open spec fn closer_name(t: TokView) -> Seq<char> {
    match t {
        TokView::RightParen => "RightParen"@,
        TokView::RightBracket => "RightBracket"@,
        _ => "RightBrace"@,
    }
}

/// Reads one value from token `p`: the value and the position after it.
pub open spec fn read_value(t: Seq<TokView>, p: int) -> Result<(EdnView, int), Seq<char>>
    decreases t.len() - p, 1int,
{
    if p < 0 || p >= t.len() {
        Err("Unexpected end of input"@)
    } else {
        match t[p] {
            TokView::LeftParen => match read_items(t, p + 1, Seq::empty(), true) {
                Ok((items, q)) => Ok((EdnView::List(items), q)),
                Err(m) => Err(m),
            },
            TokView::LeftBracket => match read_items(t, p + 1, Seq::empty(), false) {
                Ok((items, q)) => Ok((EdnView::Vector(items), q)),
                Err(m) => Err(m),
            },
            TokView::LeftBrace => match read_pairs(t, p + 1, Seq::empty()) {
                Ok((pairs, q)) => Ok((EdnView::Mapping(pairs), q)),
                Err(m) => Err(m),
            },
            TokView::Keyword(k) => Ok((EdnView::Keyword(k), p + 1)),
            TokView::Symbol(k) => Ok((EdnView::Symbol(k), p + 1)),
            TokView::Str(k) => Ok((EdnView::Str(k), p + 1)),
            TokView::Integer(i) => Ok((EdnView::Integer(i), p + 1)),
            TokView::Float(k) => Ok((EdnView::Float(k), p + 1)),
            TokView::Boolean(b) => Ok((EdnView::Boolean(b), p + 1)),
            TokView::TaggedLiteral(tag) => if tag == "uuid"@ {
                if p + 1 < t.len() {
                    match t[p + 1] {
                        TokView::Str(u) => match uuid_value(u) {
                            Some(x) => Ok((EdnView::Uuid(x), p + 2)),
                            None => Err("Invalid UUID"@),
                        },
                        _ => Err("Expected UUID string after #uuid tag"@),
                    }
                } else {
                    Err("Expected UUID string after #uuid tag"@)
                }
            } else {
                Err("Unknown tagged literal: #"@ + tag)
            },
            TokView::Nil => Ok((EdnView::Nil, p + 1)),
            TokView::BindSlot(n) => Ok((EdnView::BindSlot(n), p + 1)),
            other => Err("Unexpected token: "@ + closer_name(other)),
        }
    }
}

/// Reads the elements of a list (`list`) or vector from token `p` up to and
/// including the closing token, after the elements `acc` already read.
pub open spec fn read_items(t: Seq<TokView>, p: int, acc: Seq<EdnView>, list: bool) -> Result<
    (Seq<EdnView>, int),
    Seq<char>,
>
    decreases t.len() - p, 2int,
{
    if p < 0 || p >= t.len() {
        if list {
            Err("Unclosed list"@)
        } else {
            Err("Unclosed vector"@)
        }
    } else if (list && t[p] == TokView::RightParen) || (!list && t[p] == TokView::RightBracket) {
        Ok((acc, p + 1))
    } else {
        match read_value(t, p) {
            Ok((v, q)) => if p < q <= t.len() {
                read_items(t, q, acc.push(v), list)
            } else {
                Err(Seq::empty())
            },
            Err(m) => Err(m),
        }
    }
}

/// Reads the key/value pairs of a map from token `p` up to and including
/// the closing brace, after the pairs `acc` already read.
pub open spec fn read_pairs(t: Seq<TokView>, p: int, acc: Seq<(EdnView, EdnView)>) -> Result<
    (Seq<(EdnView, EdnView)>, int),
    Seq<char>,
>
    decreases t.len() - p, 2int,
{
    if p < 0 || p >= t.len() {
        Err("Unterminated map: missing '}'"@)
    } else if t[p] == TokView::RightBrace {
        Ok((acc, p + 1))
    } else {
        match read_value(t, p) {
            Ok((k, q)) => if p < q <= t.len() {
                match read_value(t, q) {
                    Ok((v, q2)) => if q < q2 <= t.len() {
                        read_pairs(t, q2, acc.push((k, v)))
                    } else {
                        Err(Seq::empty())
                    },
                    Err(m) => Err(m),
                }
            } else {
                Err(Seq::empty())
            },
            Err(m) => Err(m),
        }
    }
}

/// The value EDN text denotes (its first value; later tokens are ignored).
pub open spec fn spec_parse_edn(s: Seq<char>) -> Result<EdnView, Seq<char>> {
    match spec_tokenize(s) {
        Ok(t) => match read_value(t, 0) {
            Ok((v, _)) => Ok(v),
            Err(m) => Err(m),
        },
        Err(m) => Err(m),
    }
}

/// Every keyword token starts with `:`.
pub open spec fn keywords_marked(t: Seq<TokView>) -> bool {
    forall|i: int| 0 <= i < t.len() ==> (#[trigger] t[i] matches TokView::Keyword(k) ==> k.len() > 0 && k[0] == ':')
}

proof fn lemma_lex_keywords(s: Seq<char>, i: int, acc: Seq<TokView>)
    requires
        keywords_marked(acc),
    ensures
        lex_from(s, i, acc) matches Ok(t) ==> keywords_marked(t),
    decreases s.len() - i,
{
    if 0 <= i < s.len() {
        match lex_step(s, i) {
            LexStep::Skip(j) => if i < j && j <= s.len() {
                lemma_lex_keywords(s, j, acc);
            },
            LexStep::Tok(t, j) => if i < j && j <= s.len() {
                assert(keywords_marked(acc.push(t))) by {
                    assert forall|k: int| 0 <= k < acc.push(t).len() implies (#[trigger] acc.push(t)[k] matches TokView::Keyword(w) ==> w.len() > 0 && w[0] == ':') by {
                        if k < acc.len() {
                            assert(acc.push(t)[k] == acc[k]);
                        }
                    }
                }
                lemma_lex_keywords(s, j, acc.push(t));
            },
            LexStep::Fail(_) => {},
        }
    }
}

/// Keywords read from EDN text keep their leading `:`, so the head of a
/// list read from text is a keyword only as `:name`.
pub proof fn lemma_list_head_keyword(s: Seq<char>)
    ensures
        spec_parse_edn(s) matches Ok(EdnView::List(els)) ==> (els.len() > 0 && els[0] is Keyword ==> els[0]->Keyword_0.len() > 0 && els[0]->Keyword_0[0] == ':'),
{
    lemma_lex_keywords(s, 0, Seq::empty());
    if let Ok(t) = spec_tokenize(s) {
        if let Ok((EdnView::List(els), _)) = read_value(t, 0) {
            if els.len() > 0 && els[0] is Keyword {
                assert(t[0] == TokView::LeftParen);
                let r1 = read_value(t, 1);
                assert(!(t[1] == TokView::RightParen));
                lemma_items_prefix(t, 1, Seq::empty(), true);
                let (v, q) = r1->Ok_0;
                lemma_items_prefix(t, q, seq![v], true);
                assert(seq![v].push(v)[0] == v);
                assert(els[0] == v);
                assert(t[1] is Keyword);
            }
        }
    }
}

proof fn lemma_items_prefix(t: Seq<TokView>, p: int, acc: Seq<EdnView>, list: bool)
    ensures
        read_items(t, p, acc, list) matches Ok((items, _)) ==> items.len() >= acc.len() && items.subrange(
            0,
            acc.len() as int,
        ) == acc,
    decreases t.len() - p,
{
    if 0 <= p < t.len() && !((list && t[p] == TokView::RightParen) || (!list && t[p] == TokView::RightBracket)) {
        if let Ok((v, q)) = read_value(t, p) {
            if p < q <= t.len() {
                lemma_items_prefix(t, q, acc.push(v), list);
                if let Ok((items, _)) = read_items(t, q, acc.push(v), list) {
                    assert(items.subrange(0, acc.len() as int) =~= items.subrange(0, acc.len() + 1 as int).subrange(
                        0,
                        acc.len() as int,
                    ));
                    assert(acc.push(v).subrange(0, acc.len() as int) =~= acc);
                }
            }
        }
    } else if 0 <= p < t.len() {
        assert(acc.subrange(0, acc.len() as int) =~= acc);
    }
}

proof fn lemma_utf8_cons(t: Seq<char>)
    requires
        t.len() > 0,
    ensures
        utf8_len_seq(t) == utf8_len(t[0]) + utf8_len_seq(t.drop_first()),
        utf8_len(t[0]) >= 1,
    decreases t.len(),
{
    if t.len() > 1 {
        lemma_utf8_cons(t.drop_last());
        assert(t.drop_last().drop_first() =~= t.drop_first().drop_last());
        assert(t.drop_last()[0] == t[0]);
        assert(t.drop_first().last() == t.last());
    } else {
        assert(t.drop_last() =~= Seq::<char>::empty());
        assert(t.drop_first() =~= Seq::<char>::empty());
    }
}

proof fn lemma_word_runs_to_end(s: Seq<char>, k: int, nb: nat, cls: WordClass)
    requires
        0 <= k <= s.len(),
        forall|m: int| k <= m < s.len() ==> word_char(cls, #[trigger] s[m]),
        nb + utf8_len_seq(s.subrange(k, s.len() as int)) <= 1024,
    ensures
        word_end(s, k, nb, cls) == Ok::<int, Seq<char>>(s.len() as int),
    decreases s.len() - k,
{
    if k < s.len() {
        let t = s.subrange(k, s.len() as int);
        lemma_utf8_cons(t);
        assert(t[0] == s[k]);
        assert(t.drop_first() =~= s.subrange(k + 1, s.len() as int));
        lemma_word_runs_to_end(s, k + 1, nb + utf8_len(s[k]), cls);
    }
}

/// `$name` reads as the bind slot `name` when `name` is 1 to 1024 bytes of
/// letters, digits, `_` and `-`; `$` alone is refused.
pub proof fn lemma_bind_slot(name: Seq<char>)
    requires
        forall|m: int| 0 <= m < name.len() ==> word_char(WordClass::Slot, #[trigger] name[m]),
        utf8_len_seq(name) <= 1024,
    ensures
        name.len() > 0 ==> spec_parse_edn(seq!['$'] + name) == Ok::<EdnView, Seq<char>>(EdnView::BindSlot(name)),
        name.len() == 0 ==> spec_parse_edn(seq!['$'] + name) is Err,
{
    let s = seq!['$'] + name;
    assert forall|m: int| 1 <= m < s.len() implies word_char(WordClass::Slot, #[trigger] s[m]) by {
        assert(s[m] == name[m - 1]);
    }
    assert(s.subrange(1, s.len() as int) =~= name);
    lemma_word_runs_to_end(s, 1, 0, WordClass::Slot);
    assert(s[0] == '$');
    if name.len() > 0 {
        let tok = TokView::BindSlot(s.subrange(1, s.len() as int));
        assert(lex_step(s, 0) == LexStep::Tok(tok, s.len() as int));
        assert(lex_from(s, s.len() as int, seq![tok]) == Ok::<Seq<TokView>, Seq<char>>(seq![tok]));
        assert(seq![tok] =~= Seq::<TokView>::empty().push(tok));
        assert(spec_tokenize(s) == Ok::<Seq<TokView>, Seq<char>>(seq![tok]));
    } else {
        assert(lex_step(s, 0) is Fail);
    }
}

proof fn lemma_toks_view(t: Seq<Token>)
    ensures
        toks_view(t).len() == t.len(),
        forall|i: int| 0 <= i < t.len() ==> #[trigger] toks_view(t)[i] == tok_view(t[i]),
{
}

fn read_value_exec(t: &Vec<Token>, p: usize) -> (r: Result<(EdnValue, usize), String>)
    ensures
        match r {
            Ok((v, q)) => read_value(toks_view(t@), p as int) == Ok::<(EdnView, int), Seq<char>>(
                (v@, q as int),
            ) && p < q <= t@.len(),
            Err(m) => read_value(toks_view(t@), p as int) == Err::<(EdnView, int), Seq<char>>(m@),
        },
    decreases t@.len() - p, 1int,
{
    proof {
        lemma_toks_view(t@);
    }
    if p >= t.len() {
        return Err(owned("Unexpected end of input"));
    }
    match &t[p] {
        Token::LeftParen => match read_items_exec(t, p + 1, true) {
            Ok((items, q)) => Ok((EdnValue::List(items), q)),
            Err(m) => Err(m),
        },
        Token::LeftBracket => match read_items_exec(t, p + 1, false) {
            Ok((items, q)) => Ok((EdnValue::Vector(items), q)),
            Err(m) => Err(m),
        },
        Token::LeftBrace => match read_pairs_exec(t, p + 1) {
            Ok((pairs, q)) => Ok((EdnValue::Mapping(pairs), q)),
            Err(m) => Err(m),
        },
        Token::Keyword(k) => Ok((EdnValue::Keyword(k.clone()), p + 1)),
        Token::Symbol(k) => Ok((EdnValue::Symbol(k.clone()), p + 1)),
        Token::String(k) => Ok((EdnValue::String(k.clone()), p + 1)),
        Token::Integer(i) => Ok((EdnValue::Integer(*i), p + 1)),
        Token::Float(k) => Ok((EdnValue::Float(k.clone()), p + 1)),
        Token::Boolean(b) => Ok((EdnValue::Boolean(*b), p + 1)),
        Token::TaggedLiteral(tag) => {
            if str_eq(tag.as_str(), "uuid") {
                if p + 1 < t.len() {
                    match &t[p + 1] {
                        Token::String(u) => match parse_uuid(u.as_str()) {
                            Some(x) => Ok((EdnValue::Uuid(x), p + 2)),
                            None => Err(owned("Invalid UUID")),
                        },
                        _ => Err(owned("Expected UUID string after #uuid tag")),
                    }
                } else {
                    Err(owned("Expected UUID string after #uuid tag"))
                }
            } else {
                Err(concat("Unknown tagged literal: #", tag.as_str()))
            }
        },
        Token::Nil => Ok((EdnValue::Nil, p + 1)),
        Token::BindSlot(n) => Ok((EdnValue::BindSlot(n.clone()), p + 1)),
        Token::RightParen => Err(concat("Unexpected token: ", "RightParen")),
        Token::RightBracket => Err(concat("Unexpected token: ", "RightBracket")),
        Token::RightBrace => Err(concat("Unexpected token: ", "RightBrace")),
    }
}

fn read_items_exec(t: &Vec<Token>, p0: usize, list: bool) -> (r: Result<(Vec<EdnValue>, usize), String>)
    requires
        p0 <= t@.len(),
    ensures
        match r {
            Ok((items, q)) => read_items(toks_view(t@), p0 as int, Seq::empty(), list) == Ok::<
                (Seq<EdnView>, int),
                Seq<char>,
            >((edns_view(items@), q as int)) && p0 < q <= t@.len(),
            Err(m) => read_items(toks_view(t@), p0 as int, Seq::empty(), list) == Err::<
                (Seq<EdnView>, int),
                Seq<char>,
            >(m@),
        },
    decreases t@.len() - p0, 2int,
{
    proof {
        lemma_toks_view(t@);
    }
    let mut acc: Vec<EdnValue> = Vec::new();
    let mut p = p0;
    proof {
        assert(edns_view(acc@) =~= Seq::<EdnView>::empty());
    }
    loop
        invariant
            p0 <= p <= t@.len(),
            read_items(toks_view(t@), p0 as int, Seq::empty(), list) == read_items(
                toks_view(t@),
                p as int,
                edns_view(acc@),
                list,
            ),
        decreases t@.len() - p,
    {
        if p >= t.len() {
            if list {
                return Err(owned("Unclosed list"));
            } else {
                return Err(owned("Unclosed vector"));
            }
        }
        let closes = match &t[p] {
            Token::RightParen => list,
            Token::RightBracket => !list,
            _ => false,
        };
        if closes {
            return Ok((acc, p + 1));
        }
        match read_value_exec(t, p) {
            Ok((v, q)) => {
                proof {
                    lemma_edns_view_push(acc@, v);
                }
                acc.push(v);
                p = q;
            },
            Err(m) => {
                return Err(m);
            },
        }
    }
}

fn read_pairs_exec(t: &Vec<Token>, p0: usize) -> (r: Result<(Vec<(EdnValue, EdnValue)>, usize), String>)
    requires
        p0 <= t@.len(),
    ensures
        match r {
            Ok((pairs, q)) => read_pairs(toks_view(t@), p0 as int, Seq::empty()) == Ok::<
                (Seq<(EdnView, EdnView)>, int),
                Seq<char>,
            >((pairs_view(pairs@), q as int)) && p0 < q <= t@.len(),
            Err(m) => read_pairs(toks_view(t@), p0 as int, Seq::empty()) == Err::<
                (Seq<(EdnView, EdnView)>, int),
                Seq<char>,
            >(m@),
        },
    decreases t@.len() - p0, 2int,
{
    proof {
        lemma_toks_view(t@);
    }
    let mut acc: Vec<(EdnValue, EdnValue)> = Vec::new();
    let mut p = p0;
    proof {
        assert(pairs_view(acc@) =~= Seq::<(EdnView, EdnView)>::empty());
    }
    loop
        invariant
            p0 <= p <= t@.len(),
            read_pairs(toks_view(t@), p0 as int, Seq::empty()) == read_pairs(
                toks_view(t@),
                p as int,
                pairs_view(acc@),
            ),
        decreases t@.len() - p,
    {
        if p >= t.len() {
            return Err(owned("Unterminated map: missing '}'"));
        }
        let closes = match &t[p] {
            Token::RightBrace => true,
            _ => false,
        };
        if closes {
            return Ok((acc, p + 1));
        }
        let (k, q) = match read_value_exec(t, p) {
            Ok(x) => x,
            Err(m) => {
                return Err(m);
            },
        };
        let (v, q2) = match read_value_exec(t, q) {
            Ok(x) => x,
            Err(m) => {
                return Err(m);
            },
        };
        proof {
            lemma_pairs_view_push(acc@, (k, v));
        }
        acc.push((k, v));
        p = q2;
    }
}

/// Reads the first EDN value of `input`.
pub fn parse_edn(input: &str) -> (r: Result<EdnValue, String>)
    ensures
        match r {
            Ok(v) => spec_parse_edn(input@) == Ok::<EdnView, Seq<char>>(v@),
            Err(m) => spec_parse_edn(input@) == Err::<EdnView, Seq<char>>(m@),
        },
{
    let tokens = tokenize(input)?;
    match read_value_exec(&tokens, 0) {
        Ok((v, _)) => Ok(v),
        Err(m) => Err(m),
    }
}


// ===================== accessors and printing =====================

/// A logic variable: a symbol starting with `?`.
pub open spec fn is_var_name(s: Seq<char>) -> bool {
    has_prefix(s, "?"@)
}

/// The variable named by a value, if it is a symbol starting with `?`.
pub open spec fn view_variable(v: EdnView) -> Option<Seq<char>> {
    match v {
        EdnView::Symbol(s) => if is_var_name(s) {
            Some(s)
        } else {
            None
        },
        _ => None,
    }
}

impl EdnValue {
    /// The elements of a vector.
    pub fn as_vector(&self) -> (r: Option<&Vec<EdnValue>>)
        ensures
            (r is Some) == (self is Vector),
            r matches Some(v) ==> *self == EdnValue::Vector(*v),
    {
        match self {
            EdnValue::Vector(v) => Some(v),
            _ => None,
        }
    }

    /// The elements of a list.
    pub fn as_list(&self) -> (r: Option<&Vec<EdnValue>>)
        ensures
            (r is Some) == (self is List),
            r matches Some(v) ==> *self == EdnValue::List(*v),
    {
        match self {
            EdnValue::List(v) => Some(v),
            _ => None,
        }
    }

    /// The pairs of a map.
    pub fn as_map(&self) -> (r: Option<&Vec<(EdnValue, EdnValue)>>)
        ensures
            (r is Some) == (self is Mapping),
            r matches Some(v) ==> *self == EdnValue::Mapping(*v),
    {
        match self {
            EdnValue::Mapping(v) => Some(v),
            _ => None,
        }
    }

    /// Whether the value is a map.
    pub fn is_map(&self) -> (r: bool)
        ensures
            r == (self is Mapping),
    {
        match self {
            EdnValue::Mapping(_) => true,
            _ => false,
        }
    }

    /// The text of a keyword.
    pub fn as_keyword(&self) -> (r: Option<&str>)
        ensures
            (r is Some) == (self is Keyword),
            r matches Some(k) ==> self@ == EdnView::Keyword(k@),
    {
        match self {
            EdnValue::Keyword(k) => Some(k.as_str()),
            _ => None,
        }
    }

    /// The name of a logic variable: a symbol starting with `?`.
    pub fn as_variable(&self) -> (r: Option<&str>)
        ensures
            match r {
                Some(n) => view_variable(self@) == Some(n@),
                None => view_variable(self@) is None,
            },
    {
        match self {
            EdnValue::Symbol(s) => if starts_with(s.as_str(), "?") {
                Some(s.as_str())
            } else {
                None
            },
            _ => None,
        }
    }
}

/// The printed form of a value, used in error messages.
pub open spec fn edn_text(v: EdnView) -> Seq<char>
    decreases v,
{
    match v {
        EdnView::Nil => "nil"@,
        EdnView::Boolean(b) => if b {
            "true"@
        } else {
            "false"@
        },
        EdnView::Integer(i) => int_text(i as int),
        EdnView::Float(t) => t,
        EdnView::Str(s) => "\""@ + s + "\""@,
        EdnView::Keyword(k) => k,
        EdnView::Symbol(s) => s,
        EdnView::Uuid(u) => "#uuid "@ + nat_text(u as nat),
        EdnView::Vector(items) => "["@ + items_text(items) + "]"@,
        EdnView::List(items) => "("@ + items_text(items) + ")"@,
        EdnView::Mapping(pairs) => "{"@ + pairs_text(pairs) + "}"@,
        EdnView::BindSlot(n) => "$"@ + n,
    }
}

/// The printed forms of values, separated by spaces.
pub open spec fn items_text(s: Seq<EdnView>) -> Seq<char>
    decreases s,
{
    if s.len() == 0 {
        Seq::empty()
    } else if s.len() == 1 {
        edn_text(s[0])
    } else {
        items_text(s.drop_last()) + " "@ + edn_text(s.last())
    }
}

/// The printed forms of key/value pairs, separated by spaces.
pub open spec fn pairs_text(s: Seq<(EdnView, EdnView)>) -> Seq<char>
    decreases s,
{
    if s.len() == 0 {
        Seq::empty()
    } else if s.len() == 1 {
        edn_text(s[0].0) + " "@ + edn_text(s[0].1)
    } else {
        pairs_text(s.drop_last()) + " "@ + edn_text(s.last().0) + " "@ + edn_text(s.last().1)
    }
}

/// Appends the printed form of a value to `out`.
pub fn render_edn(v: &EdnValue, out: &mut String)
    ensures
        final(out)@ == old(out)@ + edn_text(v@),
    decreases v,
{
    match v {
        EdnValue::Nil => out.append("nil"),
        EdnValue::Boolean(b) => if *b {
            out.append("true")
        } else {
            out.append("false")
        },
        EdnValue::Integer(i) => push_i64_text(out, *i),
        EdnValue::Float(t) => out.append(t.as_str()),
        EdnValue::String(s) => {
            out.append("\"");
            out.append(s.as_str());
            out.append("\"");
            assert(out@ =~= old(out)@ + ("\""@ + s@ + "\""@));
        },
        EdnValue::Keyword(k) => out.append(k.as_str()),
        EdnValue::Symbol(k) => out.append(k.as_str()),
        EdnValue::Uuid(u) => {
            out.append("#uuid ");
            push_u128_text(out, *u);
            assert(out@ =~= old(out)@ + ("#uuid "@ + nat_text(*u as nat)));
        },
        EdnValue::Vector(items) => {
            out.append("[");
            render_items(items, out);
            out.append("]");
            assert(out@ =~= old(out)@ + ("["@ + items_text(edns_view(items@)) + "]"@));
        },
        EdnValue::List(items) => {
            out.append("(");
            render_items(items, out);
            out.append(")");
            assert(out@ =~= old(out)@ + ("("@ + items_text(edns_view(items@)) + ")"@));
        },
        EdnValue::Mapping(pairs) => {
            out.append("{");
            render_pairs(pairs, out);
            out.append("}");
            assert(out@ =~= old(out)@ + ("{"@ + pairs_text(pairs_view(pairs@)) + "}"@));
        },
        EdnValue::BindSlot(n) => {
            out.append("$");
            out.append(n.as_str());
        },
    }
}

fn push_u128_text(out: &mut String, n: u128)
    ensures
        final(out)@ == old(out)@ + nat_text(n as nat),
    decreases n,
{
    if n >= 10 {
        push_u128_text(out, n / 10);
        let d = (n % 10) as u64;
        let ghost mid = out@;
        push_u64_text(out, d);
        assert(nat_text(d as nat) == seq![crate::text::digit_char(d as nat)]);
        assert(nat_text(n as nat) == nat_text((n / 10) as nat).push(crate::text::digit_char((n % 10) as nat)));
        assert(out@ =~= old(out)@ + nat_text(n as nat));
    } else {
        push_u64_text(out, n as u64);
    }
}

/// Appends the printed forms of `items`, separated by spaces.
pub fn render_items(items: &Vec<EdnValue>, out: &mut String)
    ensures
        final(out)@ == old(out)@ + items_text(edns_view(items@)),
    decreases items,
{
    let mut k: usize = 0;
    proof {
        assert(edns_view(items@.subrange(0, 0)) =~= Seq::<EdnView>::empty());
        assert(old(out)@ + items_text(Seq::<EdnView>::empty()) =~= old(out)@);
    }
    while k < items.len()
        invariant
            k <= items@.len(),
            out@ == old(out)@ + items_text(edns_view(items@.subrange(0, k as int))),
        decreases items@.len() - k,
    {
        let ghost prev = items@.subrange(0, k as int);
        proof {
            lemma_edns_view_push(prev, items@[k as int]);
            assert(prev.push(items@[k as int]) =~= items@.subrange(0, k + 1));
            lemma_edns_view(prev);
        }
        if k > 0 {
            out.append(" ");
        }
        render_edn(&items[k], out);
        proof {
            let pv = edns_view(prev);
            let nv = edns_view(items@.subrange(0, k + 1));
            assert(nv == pv.push(edn_view(items@[k as int])));
            assert(nv.drop_last() =~= pv);
            if k == 0 {
                assert(pv.len() == 0);
                assert(items_text(pv) =~= Seq::<char>::empty());
                assert(out@ =~= old(out)@ + items_text(nv));
            } else {
                assert(out@ =~= old(out)@ + items_text(nv));
            }
        }
        k = k + 1;
    }
    proof {
        assert(items@.subrange(0, items@.len() as int) =~= items@);
    }
}

/// Appends the printed forms of `pairs`, separated by spaces.
pub fn render_pairs(pairs: &Vec<(EdnValue, EdnValue)>, out: &mut String)
    ensures
        final(out)@ == old(out)@ + pairs_text(pairs_view(pairs@)),
    decreases pairs,
{
    let mut k: usize = 0;
    proof {
        assert(pairs_view(pairs@.subrange(0, 0)) =~= Seq::<(EdnView, EdnView)>::empty());
        assert(old(out)@ + pairs_text(Seq::<(EdnView, EdnView)>::empty()) =~= old(out)@);
    }
    while k < pairs.len()
        invariant
            k <= pairs@.len(),
            out@ == old(out)@ + pairs_text(pairs_view(pairs@.subrange(0, k as int))),
        decreases pairs@.len() - k,
    {
        let ghost prev = pairs@.subrange(0, k as int);
        proof {
            lemma_pairs_view_push(prev, pairs@[k as int]);
            assert(prev.push(pairs@[k as int]) =~= pairs@.subrange(0, k + 1));
            lemma_pairs_view(prev);
        }
        if k > 0 {
            out.append(" ");
        }
        render_edn(&pairs[k].0, out);
        out.append(" ");
        render_edn(&pairs[k].1, out);
        proof {
            let pv = pairs_view(prev);
            let nv = pairs_view(pairs@.subrange(0, k + 1));
            assert(nv == pv.push((edn_view(pairs@[k as int].0), edn_view(pairs@[k as int].1))));
            assert(nv.drop_last() =~= pv);
            if k == 0 {
                assert(pv.len() == 0);
                assert(pairs_text(pv) =~= Seq::<char>::empty());
                assert(out@ =~= old(out)@ + pairs_text(nv));
            } else {
                assert(out@ =~= old(out)@ + pairs_text(nv));
            }
        }
        k = k + 1;
    }
    proof {
        assert(pairs@.subrange(0, pairs@.len() as int) =~= pairs@);
    }
}

/// A message made of `prefix` and the printed form of `v`.
pub fn msg_with_value(prefix: &str, v: &EdnValue) -> (r: String)
    ensures
        r@ == prefix@ + edn_text(v@),
{
    let mut s = owned(prefix);
    render_edn(v, &mut s);
    s
}

} // verus!
