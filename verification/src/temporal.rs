//! Timestamp parsing for bi-temporal queries: UTC ISO 8601 strings to
//! milliseconds since the UNIX epoch. Timezone offsets are rejected.
use vstd::prelude::*;
use crate::text::{chars_of, concat, utf8_len, utf8_len_seq, char_utf8_len, int_text, push_i64_text};

verus! {

/// The milliseconds since the epoch that chrono gives for `s` read as a
/// `DateTime<Utc>` (relaxed RFC 3339), or chrono's error text.
pub uninterp spec fn utc_datetime_millis(s: Seq<char>) -> Result<i64, Seq<char>>;

/// The milliseconds since the epoch of midnight UTC of the day that chrono
/// reads from `s` as a `NaiveDate` (`YYYY-MM-DD`), or chrono's error text.
pub uninterp spec fn utc_date_millis(s: Seq<char>) -> Result<i64, Seq<char>>;

/// The model of a `Result<i64, String>`.
pub open spec fn millis_result_view(r: Result<i64, String>) -> Result<i64, Seq<char>> {
    match r {
        Ok(m) => Ok(m),
        Err(e) => Err(e@),
    }
}

/// chrono: `s.parse::<DateTime<Utc>>()` and `timestamp_millis`; the result
/// is named (`utc_datetime_millis`), since the accepted forms take chrono's
/// grammar to state.
#[verifier::external_body]
fn parse_utc_datetime(s: &str) -> (r: Result<i64, String>)
    ensures
        millis_result_view(r) == utc_datetime_millis(s@),
{
    match s.parse::<chrono::DateTime<chrono::Utc>>() {
        Ok(dt) => Ok(dt.timestamp_millis()),
        Err(e) => Err(e.to_string()),
    }
}

/// chrono: `s.parse::<NaiveDate>()`, then midnight of that day as UTC and its
/// `timestamp_millis`; the result is named (`utc_date_millis`).
#[verifier::external_body]
fn parse_utc_date(s: &str) -> (r: Result<i64, String>)
    ensures
        millis_result_view(r) == utc_date_millis(s@),
{
    match s.parse::<chrono::NaiveDate>() {
        Ok(d) => Ok(d.and_time(chrono::NaiveTime::MIN).and_utc().timestamp_millis()),
        Err(e) => Err(e.to_string()),
    }
}

/// The text carries a timezone offset: it holds a `+`, or a `-` at or after
/// byte 10 (when byte 10 starts a character), i.e. after the date part.
pub open spec fn has_tz_offset(s: Seq<char>) -> bool {
    s.contains('+') || exists|k: int|
        0 <= k <= s.len() && utf8_len_seq(s.subrange(0, k)) == 10 && #[trigger] s.subrange(
            k,
            s.len() as int,
        ).contains('-')
}

/// The message for a timestamp with a timezone offset.
pub open spec fn tz_offset_message() -> Seq<char> {
    "INT-004: timezone offsets are not supported; use UTC (Z) timestamps only. chrono's local timezone handling (GHSA-wcg3-cvx6-7396) is avoided by design."@
}

/// The milliseconds a timestamp string denotes, or why it is rejected:
/// offsets are rejected; a string with a `T` is a UTC date-time, any other a
/// date (midnight UTC).
pub open spec fn spec_parse_timestamp(s: Seq<char>) -> Result<i64, Seq<char>> {
    if has_tz_offset(s) {
        Err(tz_offset_message())
    } else if s.contains('T') {
        match utc_datetime_millis(s) {
            Ok(m) => Ok(m),
            Err(e) => Err("INT-004: invalid UTC timestamp '"@ + s + "': "@ + e),
        }
    } else {
        match utc_date_millis(s) {
            Ok(m) => Ok(m),
            Err(e) => Err("INT-004: invalid date '"@ + s + "': "@ + e),
        }
    }
}

proof fn lemma_utf8_prefix_step(s: Seq<char>, i: int)
    requires
        0 <= i < s.len(),
    ensures
        utf8_len_seq(s.subrange(0, i + 1)) == utf8_len_seq(s.subrange(0, i)) + utf8_len(s[i]),
        utf8_len(s[i]) >= 1,
{
    assert(s.subrange(0, i + 1).drop_last() =~= s.subrange(0, i));
}

proof fn lemma_utf8_prefix_increasing(s: Seq<char>, a: int, b: int)
    requires
        0 <= a < b <= s.len(),
    ensures
        utf8_len_seq(s.subrange(0, a)) < utf8_len_seq(s.subrange(0, b)),
    decreases b - a,
{
    lemma_utf8_prefix_step(s, b - 1);
    if a < b - 1 {
        lemma_utf8_prefix_increasing(s, a, b - 1);
    }
}

fn contains_char(v: &Vec<char>, from: usize, c: char) -> (r: bool)
    requires
        from <= v@.len(),
    ensures
        r == v@.subrange(from as int, v@.len() as int).contains(c),
{
    let mut k = from;
    while k < v.len()
        invariant
            from <= k <= v@.len(),
            forall|j: int| from <= j < k ==> v@[j] != c,
        decreases v@.len() - k,
    {
        if v[k] == c {
            assert(v@.subrange(from as int, v@.len() as int)[k - from] == c);
            return true;
        }
        k = k + 1;
    }
    proof {
        let sub = v@.subrange(from as int, v@.len() as int);
        if sub.contains(c) {
            let w = choose|j: int| 0 <= j < sub.len() && sub[j] == c;
            assert(v@[from + w] == c);
        }
    }
    false
}

fn tz_offset(s: &str) -> (r: bool)
    ensures
        r == has_tz_offset(s@),
{
    let v = chars_of(s);
    if contains_char(&v, 0, '+') {
        assert(v@.subrange(0, v@.len() as int) =~= v@);
        return true;
    }
    assert(v@.subrange(0, v@.len() as int) =~= v@);
    // find the character index that starts at byte 10, if any
    let mut i: usize = 0;
    let mut cum: u64 = 0;
    let mut found: Option<usize> = None;
    loop
        invariant
            i <= v@.len(),
            v@ == s@,
            cum == (if utf8_len_seq(v@.subrange(0, i as int)) <= 11 { utf8_len_seq(v@.subrange(0, i as int)) } else { 11 }),
            found matches Some(k) ==> k <= i && utf8_len_seq(v@.subrange(0, k as int)) == 10,
            found is None ==> forall|k: int| 0 <= k < i ==> utf8_len_seq(v@.subrange(0, k)) != 10,
        ensures
            found matches Some(k) ==> k <= v@.len() && utf8_len_seq(v@.subrange(0, k as int)) == 10,
            found is None ==> forall|k: int| 0 <= k <= v@.len() ==> utf8_len_seq(v@.subrange(0, k)) != 10,
        decreases v@.len() - i,
    {
        if cum == 10 && found.is_none() {
            found = Some(i);
        }
        if i >= v.len() {
            break;
        }
        proof {
            lemma_utf8_prefix_step(v@, i as int);
        }
        let n = char_utf8_len(v[i]) as u64;
        cum = if cum + n > 11 { 11 } else { cum + n };
        i = i + 1;
    }
    assert(v@.subrange(0, v@.len() as int) =~= v@);
    match found {
        Some(k) => {
            let r = contains_char(&v, k, '-');
            proof {
                if has_tz_offset(s@) {
                    let w = choose|w: int|
                        0 <= w <= v@.len() && utf8_len_seq(v@.subrange(0, w)) == 10 && #[trigger] v@.subrange(
                            w,
                            v@.len() as int,
                        ).contains('-');
                    if w < k {
                        lemma_utf8_prefix_increasing(v@, w, k as int);
                    } else if w > k {
                        lemma_utf8_prefix_increasing(v@, k as int, w);
                    }
                }
            }
            r
        },
        None => {
            proof {
                assert(forall|k: int| 0 <= k <= v@.len() ==> utf8_len_seq(v@.subrange(0, k)) != 10);
            }
            false
        },
    }
}

/// Parses a UTC ISO 8601 string to milliseconds since the UNIX epoch:
/// `"2024-01-15T10:00:00Z"` (a date-time) or `"2023-06-01"` (a date, read as
/// midnight UTC). Strings with a timezone offset are rejected.
pub fn parse_timestamp(s: &str) -> (r: Result<i64, String>)
    ensures
        millis_result_view(r) == spec_parse_timestamp(s@),
{
    if tz_offset(s) {
        return Err(
            crate::text::owned(
                "INT-004: timezone offsets are not supported; use UTC (Z) timestamps only. chrono's local timezone handling (GHSA-wcg3-cvx6-7396) is avoided by design.",
            ),
        );
    }
    let v = chars_of(s);
    let has_t = contains_char(&v, 0, 'T');
    assert(v@.subrange(0, v@.len() as int) =~= v@);
    if has_t {
        match parse_utc_datetime(s) {
            Ok(m) => Ok(m),
            Err(e) => {
                let mut msg = concat("INT-004: invalid UTC timestamp '", s);
                msg.append("': ");
                msg.append(e.as_str());
                Err(msg)
            },
        }
    } else {
        match parse_utc_date(s) {
            Ok(m) => Ok(m),
            Err(e) => {
                let mut msg = concat("INT-004: invalid date '", s);
                msg.append("': ");
                msg.append(e.as_str());
                Err(msg)
            },
        }
    }
}

/// The text chrono gives for the instant `millis` milliseconds after the
/// epoch, formatted `%Y-%m-%dT%H:%M:%SZ`, or `None` where the instant lies
/// outside chrono's range.
pub uninterp spec fn utc_timestamp_text(millis: i64) -> Option<Seq<char>>;

/// The model of an `Option<String>`.
pub open spec fn text_option_view(r: Option<String>) -> Option<Seq<char>> {
    match r {
        Some(t) => Some(t@),
        None => None,
    }
}

/// chrono: `DateTime::<Utc>::from_timestamp_millis(millis)`, then
/// `format("%Y-%m-%dT%H:%M:%SZ")`; the result is named (`utc_timestamp_text`).
#[verifier::external_body]
fn format_utc_millis(millis: i64) -> (r: Option<String>)
    ensures
        text_option_view(r) == utc_timestamp_text(millis),
{
    match chrono::DateTime::<chrono::Utc>::from_timestamp_millis(millis) {
        Some(dt) => Some(dt.format("%Y-%m-%dT%H:%M:%SZ").to_string()),
        None => None,
    }
}

/// The timestamp text for `millis` given what the formatter made of it:
/// the text itself, or, where the instant is out of range, an error that
/// carries the milliseconds in decimal.
pub open spec fn spec_timestamp_text(millis: i64, formatted: Option<Seq<char>>) -> Result<Seq<char>, Seq<char>> {
    match formatted {
        Some(t) => Ok(t),
        None => Err("INT-005: timestamp out of range: "@ + int_text(millis as int)),
    }
}

/// The model of a `Result<String, String>`.
pub open spec fn text_result_view(r: Result<String, String>) -> Result<Seq<char>, Seq<char>> {
    match r {
        Ok(t) => Ok(t@),
        Err(e) => Err(e@),
    }
}

/// Turns what the formatter made of `millis` into the result of
/// `millis_to_timestamp_string`.
pub fn timestamp_text_result(millis: i64, formatted: Option<String>) -> (r: Result<String, String>)
    ensures
        text_result_view(r) == spec_timestamp_text(millis, text_option_view(formatted)),
{
    match formatted {
        Some(t) => Ok(t),
        None => {
            let mut msg = crate::text::owned("INT-005: timestamp out of range: ");
            push_i64_text(&mut msg, millis);
            Err(msg)
        },
    }
}

/// Formats milliseconds since the UNIX epoch as a UTC ISO 8601 string
/// (`YYYY-MM-DDTHH:MM:SSZ`); an instant out of range is an error.
pub fn millis_to_timestamp_string(millis: i64) -> (r: Result<String, String>)
    ensures
        text_result_view(r) == spec_timestamp_text(millis, utc_timestamp_text(millis)),
{
    let formatted = format_utc_millis(millis);
    timestamp_text_result(millis, formatted)
}

} // verus!
