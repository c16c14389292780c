//! Small string helpers shared by the library: building strings, comparing
//! them and rendering integers in decimal.
use vstd::prelude::*;

verus! {

/// Appends one character to a string (std's `String::push`).
#[verifier::external_body]
pub(crate) fn push_char(s: &mut String, c: char)
    ensures
        final(s)@ == old(s)@.push(c),
{
    s.push(c)
}

/// Compares two string slices for equality (std's `str == str`).
#[verifier::external_body]
pub(crate) fn str_eq(a: &str, b: &str) -> (r: bool)
    ensures
        r == (a@ == b@),
{
    a == b
}

/// What std's `Debug` formatting gives for a string slice: its text in
/// double quotes, with quotes, backslashes and unprintable characters
/// escaped. It depends on the text alone.
pub uninterp spec fn debug_text(s: Seq<char>) -> Seq<char>;

/// std's `Debug` formatting of a string slice, as `format!("{:?}", s)`
/// gives it; the result is named, not spelled out.
#[verifier::external_body]
pub(crate) fn debug_str(s: &str) -> (r: String)
    ensures
        r@ == debug_text(s@),
{
    format!("{:?}", s)
}

/// `p` is a prefix of `s`.
pub open spec fn has_prefix(s: Seq<char>, p: Seq<char>) -> bool {
    p.len() <= s.len() && s.subrange(0, p.len() as int) == p
}

/// std's `str::starts_with` with a string pattern.
#[verifier::external_body]
pub(crate) fn starts_with(s: &str, p: &str) -> (r: bool)
    ensures
        r == has_prefix(s@, p@),
{
    s.starts_with(p)
}

/// A fresh string holding the text of `a`.
pub fn owned(a: &str) -> (r: String)
    ensures
        r@ == a@,
{
    String::from_str(a)
}

/// A fresh string holding the text of `a` followed by that of `b`.
pub fn concat(a: &str, b: &str) -> (r: String)
    ensures
        r@ == a@ + b@,
{
    let mut s = String::from_str(a);
    s.append(b);
    s
}

/// The decimal digit character for `d` (0..=9).
pub open spec fn digit_char(d: nat) -> char {
    if d == 0 { '0' }
    else if d == 1 { '1' }
    else if d == 2 { '2' }
    else if d == 3 { '3' }
    else if d == 4 { '4' }
    else if d == 5 { '5' }
    else if d == 6 { '6' }
    else if d == 7 { '7' }
    else if d == 8 { '8' }
    else { '9' }
}

/// The decimal text of a natural number, most significant digit first, no leading zeros.
pub open spec fn nat_text(n: nat) -> Seq<char>
    decreases n,
{
    if n < 10 {
        seq![digit_char(n)]
    } else {
        nat_text(n / 10).push(digit_char(n % 10))
    }
}

/// The decimal text of an integer, with a leading `-` when negative.
pub open spec fn int_text(n: int) -> Seq<char> {
    if n < 0 {
        seq!['-'] + nat_text((-n) as nat)
    } else {
        nat_text(n as nat)
    }
}

fn digit(d: u64) -> (c: char)
    requires
        d < 10,
    ensures
        c == digit_char(d as nat),
{
    if d == 0 { '0' }
    else if d == 1 { '1' }
    else if d == 2 { '2' }
    else if d == 3 { '3' }
    else if d == 4 { '4' }
    else if d == 5 { '5' }
    else if d == 6 { '6' }
    else if d == 7 { '7' }
    else if d == 8 { '8' }
    else { '9' }
}

fn push_nat(s: &mut String, n: u64)
    ensures
        final(s)@ == old(s)@ + nat_text(n as nat),
    decreases n,
{
    if n >= 10 {
        push_nat(s, n / 10);
        push_char(s, digit(n % 10));
        assert(nat_text(n as nat) == nat_text((n / 10) as nat).push(digit_char((n % 10) as nat)));
    } else {
        push_char(s, digit(n));
    }
}

/// Appends the decimal text of `n` to `s`.
pub fn push_u64_text(s: &mut String, n: u64)
    ensures
        final(s)@ == old(s)@ + nat_text(n as nat),
{
    push_nat(s, n);
}

/// Appends the decimal text of `n` (with a `-` when negative) to `s`.
pub fn push_i64_text(s: &mut String, n: i64)
    ensures
        final(s)@ == old(s)@ + int_text(n as int),
{
    if n < 0 {
        push_char(s, '-');
        let m: u64 = if n == i64::MIN { 9223372036854775808u64 } else { (-n) as u64 };
        push_nat(s, m);
        assert(old(s)@.push('-') + nat_text(m as nat) == old(s)@ + (seq!['-'] + nat_text(m as nat)));
    } else {
        push_nat(s, n as u64);
    }
}


/// Whether std classifies `c` as alphabetic (Unicode `Alphabetic`).
pub uninterp spec fn char_alphabetic(c: char) -> bool;

/// Whether std classifies `c` as numeric (Unicode `Numeric`).
pub uninterp spec fn char_numeric(c: char) -> bool;

/// std's `char::is_alphabetic`.
#[verifier::external_body]
pub(crate) fn is_alphabetic(c: char) -> (r: bool)
    ensures
        r == char_alphabetic(c),
{
    c.is_alphabetic()
}

/// std's `char::is_numeric`; its documentation counts the ASCII digits as numeric.
#[verifier::external_body]
pub(crate) fn is_numeric(c: char) -> (r: bool)
    ensures
        r == char_numeric(c),
        '0' <= c && c <= '9' ==> r,
{
    c.is_numeric()
}

/// std's `char::is_alphanumeric`, which its documentation defines as
/// `is_alphabetic() || is_numeric()`.
#[verifier::external_body]
pub(crate) fn is_alphanumeric(c: char) -> (r: bool)
    ensures
        r == (char_alphabetic(c) || char_numeric(c)),
{
    c.is_alphanumeric()
}

/// `c` is a letter: for ASCII, `A`-`Z` and `a`-`z`; beyond ASCII, as std
/// classifies it (Unicode `Alphabetic`).
pub open spec fn alpha_char(c: char) -> bool {
    if (c as u32) < 128 {
        ('a' <= c && c <= 'z') || ('A' <= c && c <= 'Z')
    } else {
        char_alphabetic(c)
    }
}

/// `c` is numeric: for ASCII, `0`-`9`; beyond ASCII, as std classifies it
/// (Unicode `Numeric`).
pub open spec fn numeric_char(c: char) -> bool {
    if (c as u32) < 128 {
        '0' <= c && c <= '9'
    } else {
        char_numeric(c)
    }
}

/// Whether `c` is a letter (see `alpha_char`); std is asked only beyond ASCII.
pub fn alphabetic(c: char) -> (r: bool)
    ensures
        r == alpha_char(c),
{
    if (c as u32) < 128 {
        ('a' <= c && c <= 'z') || ('A' <= c && c <= 'Z')
    } else {
        is_alphabetic(c)
    }
}

/// Whether `c` is numeric (see `numeric_char`); std is asked only beyond ASCII.
pub fn numeric(c: char) -> (r: bool)
    ensures
        r == numeric_char(c),
{
    if (c as u32) < 128 {
        '0' <= c && c <= '9'
    } else {
        is_numeric(c)
    }
}

/// Whether `c` is a letter or numeric; std is asked only beyond ASCII.
pub fn alphanumeric(c: char) -> (r: bool)
    ensures
        r == (alpha_char(c) || numeric_char(c)),
{
    if (c as u32) < 128 {
        ('a' <= c && c <= 'z') || ('A' <= c && c <= 'Z') || ('0' <= c && c <= '9')
    } else {
        is_alphanumeric(c)
    }
}

/// The characters of a string slice, in order (std's `str::chars` collected).
#[verifier::external_body]
pub(crate) fn chars_of(s: &str) -> (v: Vec<char>)
    ensures
        v@ == s@,
{
    s.chars().collect()
}

/// The number of bytes `c` takes in UTF-8.
pub open spec fn utf8_len(c: char) -> nat {
    if (c as u32) < 0x80u32 {
        1
    } else if (c as u32) < 0x800u32 {
        2
    } else if (c as u32) < 0x10000u32 {
        3
    } else {
        4
    }
}

/// The number of bytes `s` takes in UTF-8.
pub open spec fn utf8_len_seq(s: Seq<char>) -> nat
    decreases s.len(),
{
    if s.len() == 0 {
        0
    } else {
        utf8_len_seq(s.drop_last()) + utf8_len(s.last())
    }
}

/// The UTF-8 length of one character.
pub fn char_utf8_len(c: char) -> (n: u32)
    ensures
        n == utf8_len(c),
{
    let v = c as u32;
    if v < 0x80u32 {
        1
    } else if v < 0x800u32 {
        2
    } else if v < 0x10000u32 {
        3
    } else {
        4
    }
}

/// A string made of the characters `v[from..to]`.
pub fn string_of_range(v: &Vec<char>, from: usize, to: usize) -> (r: String)
    requires
        from <= to <= v@.len(),
    ensures
        r@ == v@.subrange(from as int, to as int),
{
    let mut s = String::new();
    let mut k = from;
    while k < to
        invariant
            from <= k <= to <= v@.len(),
            s@ == v@.subrange(from as int, k as int),
        decreases to - k,
    {
        push_char(&mut s, v[k]);
        k = k + 1;
        assert(s@ =~= v@.subrange(from as int, k as int));
    }
    s
}

} // verus!
