//! Packed fact pages: many serialised facts per page.
//!
//! ```text
//! 0      page type (0x02)
//! 1      reserved (0)
//! 2..4   record count (u16 LE)
//! 4..12  next page (u64 LE, 0: none)
//! 12..   record directory: per record, offset (u16 LE) and length (u16 LE)
//!        of its bytes, measured from the page start
//! ...    record bytes, written from the end of the page backwards
//! ```
//!
//! This module handles the page layout on record bytes; turning facts into
//! bytes and back is the caller's.
use vstd::prelude::*;
use crate::header::PAGE_SIZE;
use crate::storage::StorageBackend;
use crate::text::{owned, push_u64_text, nat_text, push_char};

verus! {

/// Page type byte of a packed fact page.
pub const PAGE_TYPE_PACKED: u8 = 0x02;

/// Page type byte of an overflow page (reserved).
pub const PAGE_TYPE_OVERFLOW: u8 = 0x03;

/// Header bytes of a packed page.
pub const PACKED_HEADER_SIZE: usize = 12;

/// The largest record a packed page can hold: the page less its header and
/// one directory entry.
pub const MAX_FACT_BYTES: usize = 4080;

/// The `u16` whose little-endian bytes are `lo`, `hi`.
pub open spec fn le_u16(lo: u8, hi: u8) -> u16 {
    (lo as u16) | ((hi as u16) << 8u16)
}

/// The number of records a packed page says it holds.
pub open spec fn record_count(page: Seq<u8>) -> u16 {
    le_u16(page[2], page[3])
}

/// The bytes of record `slot` of a page, or nothing when the page is not a
/// full packed page, the slot is past the record count, the directory entry
/// is past the page end, or the record runs past the page size.
pub open spec fn slot_record(page: Seq<u8>, slot: u16) -> Option<Seq<u8>> {
    if page.len() < PAGE_SIZE || page[0] != PAGE_TYPE_PACKED || slot >= record_count(page) {
        None
    } else {
        let base = 12 + 4 * slot;
        if base + 3 >= page.len() {
            None
        } else {
            let offset = le_u16(page[base], page[base + 1]) as int;
            let length = le_u16(page[base + 2], page[base + 3]) as int;
            if offset + length > PAGE_SIZE {
                None
            } else {
                Some(page.subrange(offset, offset + length))
            }
        }
    }
}

/// The records of slots `s..count` of a page, after `acc`.
pub open spec fn page_records(page: Seq<u8>, s: int, count: int, acc: Seq<Seq<u8>>) -> Option<Seq<Seq<u8>>>
    decreases count - s,
{
    if s >= count || s < 0 || s > u16::MAX {
        Some(acc)
    } else {
        match slot_record(page, s as u16) {
            Some(r) => page_records(page, s + 1, count, acc.push(r)),
            None => None,
        }
    }
}

/// The page id of the `i`-th page from `first`, saturating at the largest id.
pub open spec fn nth_page_id(first: u64, i: int) -> u64 {
    if first + i > u64::MAX {
        u64::MAX
    } else {
        (first + i) as u64
    }
}

/// The records of pages `i..num` from `first`, after `acc`: pages that are
/// not full packed pages are skipped; a missing page or a bad slot gives
/// nothing.
pub open spec fn all_records(pg: Map<u64, Seq<u8>>, first: u64, i: int, num: int, acc: Seq<Seq<u8>>) -> Option<
    Seq<Seq<u8>>,
>
    decreases num - i,
{
    if i >= num || i < 0 {
        Some(acc)
    } else {
        let id = nth_page_id(first, i);
        if !pg.contains_key(id) {
            None
        } else {
            let page = pg[id];
            if page.len() < PAGE_SIZE || page[0] != PAGE_TYPE_PACKED {
                all_records(pg, first, i + 1, num, acc)
            } else {
                match page_records(page, 0, record_count(page) as int, acc) {
                    Some(a2) => all_records(pg, first, i + 1, num, a2),
                    None => None,
                }
            }
        }
    }
}

/// A fresh packed page: the type byte, then zeros.
pub fn new_packed_page() -> (page: Vec<u8>)
    ensures
        page@.len() == PAGE_SIZE,
        page@[0] == PAGE_TYPE_PACKED,
        forall|i: int| 1 <= i < PAGE_SIZE ==> page@[i] == 0,
{
    let mut page: Vec<u8> = Vec::new();
    page.push(PAGE_TYPE_PACKED);
    let mut i: usize = 1;
    while i < PAGE_SIZE
        invariant
            1 <= i <= PAGE_SIZE,
            page@.len() == i,
            page@[0] == PAGE_TYPE_PACKED,
            forall|j: int| 1 <= j < i ==> page@[j] == 0,
        decreases PAGE_SIZE - i,
    {
        page.push(0u8);
        i = i + 1;
    }
    page
}

/// Stores the record count in bytes 2..4 of a page (when it has them).
pub fn write_record_count(page: &mut Vec<u8>, count: u16)
    ensures
        final(page)@.len() == old(page)@.len(),
        old(page)@.len() >= 4 ==> final(page)@ == old(page)@.update(2, (count & 0xff) as u8).update(
            3,
            (count >> 8u16) as u8,
        ),
        old(page)@.len() < 4 ==> final(page)@ == old(page)@,
{
    if page.len() >= 4 {
        page.set(2, (count & 0xff) as u8);
        page.set(3, (count >> 8u16) as u8);
    }
}

fn u16_at(page: &Vec<u8>, i: usize) -> (r: u16)
    requires
        i + 1 < page@.len(),
    ensures
        r == le_u16(page@[i as int], page@[i + 1]),
{
    let _n = page.len();
    (page[i] as u16) | ((page[i + 1] as u16) << 8u16)
}

/// The lowercase hexadecimal digit of `d` (below 16).
pub open spec fn hex_digit(d: u8) -> char {
    if d < 10 {
        (48 + d) as char
    } else {
        (87 + d) as char
    }
}

/// A byte as two lowercase hexadecimal digits.
pub open spec fn hex_byte(b: u8) -> Seq<char> {
    seq![hex_digit(b / 16), hex_digit(b % 16)]
}

fn push_hex_byte(m: &mut String, b: u8)
    ensures
        final(m)@ == old(m)@ + hex_byte(b),
{
    let hi = b / 16;
    let lo = b % 16;
    let ch: char = if hi < 10 { (48 + hi) as char } else { (87 + hi) as char };
    let cl: char = if lo < 10 { (48 + lo) as char } else { (87 + lo) as char };
    push_char(m, ch);
    push_char(m, cl);
    assert(final(m)@ =~= old(m)@ + hex_byte(b)) by {
        assert(ch == hex_digit(b / 16));
        assert(cl == hex_digit(b % 16));
    }
}

/// Why a read of slot `slot` fails, checked in this order: a page shorter
/// than a page; a page of another type (STG-014); a slot past the record
/// count; a directory entry past the page end; a record running past the
/// page size (STG-015).
pub open spec fn slot_error(page: Seq<u8>, slot: u16) -> Seq<char> {
    if page.len() < PAGE_SIZE {
        "Page too short: "@ + nat_text(page.len()) + " bytes (expected 4096)"@
    } else if page[0] != PAGE_TYPE_PACKED {
        "STG-014: unexpected packed page type 0x"@ + hex_byte(page[0])
    } else if slot >= record_count(page) {
        "Slot "@ + nat_text(slot as nat) + " out of bounds (page has "@ + nat_text(record_count(page) as nat)
            + " records)"@
    } else {
        let base = 12 + 4 * slot;
        if base >= page.len() {
            "packed page dir entry "@ + nat_text(slot as nat) + " out of bounds"@
        } else if base + 1 >= page.len() {
            "packed page dir entry "@ + nat_text(slot as nat) + " byte 1 out of bounds"@
        } else if base + 2 >= page.len() {
            "packed page dir entry "@ + nat_text(slot as nat) + " byte 2 out of bounds"@
        } else {
            if base + 3 >= page.len() {
                "packed page dir entry "@ + nat_text(slot as nat) + " byte 3 out of bounds"@
            } else {
                "STG-015: record at slot "@ + nat_text(slot as nat) + " extends past the page boundary"@
            }
        }
    }
}

fn dir_entry_error(slot: u16, byte: u8) -> (m: String)
    requires
        byte < 4,
    ensures
        m@ == "packed page dir entry "@ + nat_text(slot as nat) + if byte == 0 {
            " out of bounds"@
        } else if byte == 1 {
            " byte 1 out of bounds"@
        } else if byte == 2 {
            " byte 2 out of bounds"@
        } else {
            " byte 3 out of bounds"@
        },
{
    let mut m = owned("packed page dir entry ");
    push_u64_text(&mut m, slot as u64);
    if byte == 0 {
        m.append(" out of bounds");
    } else if byte == 1 {
        m.append(" byte 1 out of bounds");
    } else if byte == 2 {
        m.append(" byte 2 out of bounds");
    } else {
        m.append(" byte 3 out of bounds");
    }
    m
}

/// The bytes of record `slot` of a packed page (see `slot_record`), or why
/// there are none (see `slot_error`).
pub fn read_slot(page: &Vec<u8>, slot: u16) -> (r: Result<Vec<u8>, String>)
    ensures
        match r {
            Ok(b) => slot_record(page@, slot) == Some(b@),
            Err(m) => slot_record(page@, slot) is None && m@ == slot_error(page@, slot),
        },
{
    if page.len() < PAGE_SIZE {
        let mut m = owned("Page too short: ");
        push_u64_text(&mut m, page.len() as u64);
        m.append(" bytes (expected 4096)");
        return Err(m);
    }
    if page[0] != PAGE_TYPE_PACKED {
        let mut m = owned("STG-014: unexpected packed page type 0x");
        push_hex_byte(&mut m, page[0]);
        return Err(m);
    }
    let count = u16_at(page, 2);
    if slot >= count {
        let mut m = owned("Slot ");
        push_u64_text(&mut m, slot as u64);
        m.append(" out of bounds (page has ");
        push_u64_text(&mut m, count as u64);
        m.append(" records)");
        return Err(m);
    }
    let base: usize = 12 + 4 * (slot as usize);
    if base >= page.len() {
        return Err(dir_entry_error(slot, 0));
    }
    if base + 1 >= page.len() {
        return Err(dir_entry_error(slot, 1));
    }
    if base + 2 >= page.len() {
        return Err(dir_entry_error(slot, 2));
    }
    if base + 3 >= page.len() {
        return Err(dir_entry_error(slot, 3));
    }
    let offset = u16_at(page, base) as usize;
    let length = u16_at(page, base + 2) as usize;
    if offset + length > PAGE_SIZE {
        let mut m = owned("STG-015: record at slot ");
        push_u64_text(&mut m, slot as u64);
        m.append(" extends past the page boundary");
        return Err(m);
    }
    let mut out: Vec<u8> = Vec::new();
    let mut k = offset;
    while k < offset + length
        invariant
            offset <= k <= offset + length,
            offset + length <= PAGE_SIZE,
            PAGE_SIZE <= page@.len(),
            out@ == page@.subrange(offset as int, k as int),
        decreases offset + length - k,
    {
        out.push(page[k]);
        assert(out@ =~= page@.subrange(offset as int, k + 1));
        k = k + 1;
    }
    Ok(out)
}

/// The record bytes of all packed pages among `num_pages` pages from
/// `first_page_id`, in page and slot order; other pages are skipped (see
/// `all_records`). Fails on a missing page or a bad slot, or when the backend
/// fails a read.
#[verifier::loop_isolation(false)]
pub fn read_all_from_pages<B: StorageBackend>(backend: &B, first_page_id: u64, num_pages: u64) -> (r: Result<
    Vec<Vec<u8>>,
    String,
>)
    ensures
        r matches Ok(rs) ==> all_records(backend.pages(), first_page_id, 0, num_pages as int, Seq::empty())
            == Some(rs@.map_values(|v: Vec<u8>| v@)),
        all_records(backend.pages(), first_page_id, 0, num_pages as int, Seq::empty()) is None ==> r is Err,
        backend.infallible() && all_records(backend.pages(), first_page_id, 0, num_pages as int, Seq::empty())
            is Some ==> r is Ok,
{
    let ghost pg = backend.pages();
    let mut out: Vec<Vec<u8>> = Vec::new();
    let mut i: u64 = 0;
    assert(out@.map_values(|v: Vec<u8>| v@) =~= Seq::<Seq<u8>>::empty());
    while i < num_pages
        invariant
            i <= num_pages,
            pg == backend.pages(),
            all_records(pg, first_page_id, 0, num_pages as int, Seq::empty()) == all_records(
                pg,
                first_page_id,
                i as int,
                num_pages as int,
                out@.map_values(|v: Vec<u8>| v@),
            ),
        decreases num_pages - i,
    {
        let id = first_page_id.saturating_add(i);
        assert(id == nth_page_id(first_page_id, i as int));
        let page = backend.read_page(id)?;
        if page.len() >= PAGE_SIZE && page[0] == PAGE_TYPE_PACKED {
            let count = u16_at(&page, 2);
            let ghost acc0 = out@.map_values(|v: Vec<u8>| v@);
            let mut s: u16 = 0;
            while s < count
                invariant
                    s <= count,
                    count == record_count(page@),
                    page@ == pg[id],
                    page@.len() >= PAGE_SIZE,
                    page@[0] == PAGE_TYPE_PACKED,
                    page_records(page@, 0, count as int, acc0) == page_records(
                        page@,
                        s as int,
                        count as int,
                        out@.map_values(|v: Vec<u8>| v@),
                    ),
                decreases count - s,
            {
                let rec = read_slot(&page, s)?;
                let ghost prev = out@;
                out.push(rec);
                assert(out@.map_values(|v: Vec<u8>| v@) =~= prev.map_values(|v: Vec<u8>| v@).push(rec@));
                s = s + 1;
            }
        }
        i = i + 1;
    }
    Ok(out)
}

// ===================== packing records into pages =====================

/// The records of full packed pages `ps[i..]`, in page and slot order,
/// after `acc`; nothing when a slot holds no record.
pub open spec fn pages_records(ps: Seq<Seq<u8>>, i: int, acc: Seq<Seq<u8>>) -> Option<Seq<Seq<u8>>>
    decreases ps.len() - i,
{
    if i >= ps.len() || i < 0 {
        Some(acc)
    } else {
        match page_records(ps[i], 0, record_count(ps[i]) as int, acc) {
            Some(a2) => pages_records(ps, i + 1, a2),
            None => None,
        }
    }
}

/// Directory entry `s` of a page describes record `r`, whose bytes lie at or
/// after `data`.
pub open spec fn entry_holds(page: Seq<u8>, s: int, r: Seq<u8>, data: int) -> bool {
    let base = 12 + 4 * s;
    let off = le_u16(page[base], page[base + 1]) as int;
    let len = le_u16(page[base + 2], page[base + 3]) as int;
    &&& off >= data
    &&& len == r.len()
    &&& off + len <= PAGE_SIZE
    &&& page.subrange(off, off + len) == r
}

/// A page being filled holds records `rs` in slots `0..rs.len()`; its
/// directory ends at `dir` and its record bytes start at `data`.
pub open spec fn page_holds(page: Seq<u8>, rs: Seq<Seq<u8>>, dir: int, data: int) -> bool {
    &&& page.len() == PAGE_SIZE
    &&& page[0] == PAGE_TYPE_PACKED
    &&& dir == 12 + 4 * rs.len()
    &&& dir <= data <= PAGE_SIZE
    &&& forall|s: int| 0 <= s < rs.len() ==> #[trigger] entry_holds(page, s, rs[s], data)
}

/// The message for a record too large for a page.
pub open spec fn oversize_message(len: nat) -> Seq<char> {
    "Fact serialised size "@ + nat_text(len) + " bytes exceeds maximum slot size 4080 bytes"@
}

/// The first record, from `j` on, too large for a page.
pub open spec fn first_oversize(rs: Seq<Seq<u8>>, j: int) -> Option<nat>
    decreases rs.len() - j,
{
    if j >= rs.len() || j < 0 {
        None
    } else if rs[j].len() > MAX_FACT_BYTES {
        Some(rs[j].len())
    } else {
        first_oversize(rs, j + 1)
    }
}

/// The models of byte vectors.
pub open spec fn bytes_view(s: Seq<Vec<u8>>) -> Seq<Seq<u8>> {
    s.map_values(|v: Vec<u8>| v@)
}

pub(crate) proof fn lemma_le_u16_roundtrip(x: u16)
    ensures
        le_u16((x & 0xff) as u8, (x >> 8u16) as u8) == x,
{
    assert((((x & 0xff) as u8) as u16) | ((((x >> 8u16) as u8) as u16) << 8u16) == x) by (bit_vector);
}

proof fn lemma_flush(page: Seq<u8>, rs: Seq<Seq<u8>>, dir: int, data: int, acc: Seq<Seq<u8>>, s: int)
    requires
        page_holds(page, rs, dir, data),
        rs.len() <= u16::MAX,
        record_count(page) == rs.len(),
        0 <= s <= rs.len(),
    ensures
        page_records(page, s, rs.len() as int, acc + rs.take(s)) == Some(acc + rs),
    decreases rs.len() - s,
{
    if s < rs.len() {
        assert(entry_holds(page, s, rs[s], data));
        assert(slot_record(page, s as u16) == Some(rs[s]));
        assert((acc + rs.take(s)).push(rs[s]) =~= acc + rs.take(s + 1));
        lemma_flush(page, rs, dir, data, acc, s + 1);
    } else {
        assert(rs.take(s) =~= rs);
    }
}

proof fn lemma_count_written(page: Seq<u8>, rs: Seq<Seq<u8>>, dir: int, data: int, c: u16)
    requires
        page_holds(page, rs, dir, data),
    ensures
        page_holds(page.update(2, (c & 0xff) as u8).update(3, (c >> 8u16) as u8), rs, dir, data),
        record_count(page.update(2, (c & 0xff) as u8).update(3, (c >> 8u16) as u8)) == c,
{
    let p2 = page.update(2, (c & 0xff) as u8).update(3, (c >> 8u16) as u8);
    lemma_le_u16_roundtrip(c);
    assert forall|s: int| 0 <= s < rs.len() implies #[trigger] entry_holds(p2, s, rs[s], data) by {
        assert(entry_holds(page, s, rs[s], data));
        let base = 12 + 4 * s;
        let off = le_u16(page[base], page[base + 1]) as int;
        let len = le_u16(page[base + 2], page[base + 3]) as int;
        assert(p2.subrange(off, off + len) =~= page.subrange(off, off + len));
    }
}

fn write_u16_le(page: &mut Vec<u8>, at: usize, x: u16)
    requires
        at + 2 <= old(page)@.len(),
    ensures
        final(page)@ == old(page)@.update(at as int, (x & 0xff) as u8).update(at + 1, (x >> 8u16) as u8),
{
    let _n = page.len();
    page.set(at, (x & 0xff) as u8);
    page.set(at + 1, (x >> 8u16) as u8);
}

fn add_record(page: &mut Vec<u8>, rec: &Vec<u8>, dir: usize, data: usize, Ghost(rs): Ghost<Seq<Seq<u8>>>) -> (nd: usize)
    requires
        page_holds(old(page)@, rs, dir as int, data as int),
        rec@.len() + 4 <= data - dir,
    ensures
        nd == data - rec@.len(),
        page_holds(final(page)@, rs.push(rec@), dir + 4, nd as int),
        final(page)@[2] == old(page)@[2],
        final(page)@[3] == old(page)@[3],
        forall|i: int| 0 <= i < 12 ==> final(page)@[i] == old(page)@[i],
{
    let ghost p0 = page@;
    let len = rec.len();
    let nd = data - len;
    let mut k: usize = 0;
    while k < len
        invariant
            k <= len,
            len == rec@.len(),
            nd + len == data,
            data <= PAGE_SIZE,
            page@.len() == p0.len(),
            p0.len() == PAGE_SIZE,
            forall|i: int| 0 <= i < p0.len() ==> #[trigger] page@[i] == if nd <= i < nd + k {
                rec@[i - nd]
            } else {
                p0[i]
            },
        decreases len - k,
    {
        page.set(nd + k, rec[k]);
        k = k + 1;
    }
    let ghost p1 = page@;
    proof {
        assert(p1.subrange(nd as int, data as int) =~= rec@);
    }
    write_u16_le(page, dir, nd as u16);
    write_u16_le(page, dir + 2, len as u16);
    proof {
        let p2 = page@;
        lemma_le_u16_roundtrip(nd as u16);
        lemma_le_u16_roundtrip(len as u16);
        assert forall|i: int| 0 <= i < p2.len() && !(dir <= i < dir + 4) implies p2[i] == p1[i] by {}
        let r2 = rs.push(rec@);
        assert forall|s: int| 0 <= s < r2.len() implies #[trigger] entry_holds(p2, s, r2[s], nd as int) by {
            if s < rs.len() {
                assert(entry_holds(p0, s, rs[s], data as int));
                let base = 12 + 4 * s;
                assert(base + 3 < dir);
                let off = le_u16(p0[base], p0[base + 1]) as int;
                let ln = le_u16(p0[base + 2], p0[base + 3]) as int;
                assert(p2[base] == p0[base] && p2[base + 1] == p0[base + 1] && p2[base + 2] == p0[base + 2] && p2[base
                    + 3] == p0[base + 3]);
                assert(p2.subrange(off, off + ln) =~= p0.subrange(off, off + ln));
            } else {
                assert(p2.subrange(nd as int, data as int) =~= p1.subrange(nd as int, data as int));
            }
        }
    }
    nd
}

proof fn lemma_flush_slots(page: Seq<u8>, rs: Seq<Seq<u8>>, dir: int, data: int)
    requires
        page_holds(page, rs, dir, data),
        rs.len() <= u16::MAX,
        record_count(page) == rs.len(),
    ensures
        forall|s: int| 0 <= s < rs.len() ==> #[trigger] slot_record(page, s as u16) == Some(rs[s]),
{
    assert forall|s: int| 0 <= s < rs.len() implies #[trigger] slot_record(page, s as u16) == Some(rs[s]) by {
        assert(entry_holds(page, s, rs[s], data));
    }
}

proof fn lemma_pages_records_push(ps: Seq<Seq<u8>>, page: Seq<u8>, i: int, acc: Seq<Seq<u8>>)
    requires
        0 <= i <= ps.len(),
    ensures
        pages_records(ps.push(page), i, acc) == match pages_records(ps, i, acc) {
            Some(d) => page_records(page, 0, record_count(page) as int, d),
            None => None,
        },
    decreases ps.len() - i,
{
    if i < ps.len() {
        assert(ps.push(page)[i] == ps[i]);
        match page_records(ps[i], 0, record_count(ps[i]) as int, acc) {
            Some(a2) => {
                lemma_pages_records_push(ps, page, i + 1, a2);
            },
            None => {},
        }
    } else {
        assert(ps.push(page)[i] == page);
        match page_records(page, 0, record_count(page) as int, acc) {
            Some(a2) => {
                assert(pages_records(ps.push(page), i + 1, a2) == Some(a2));
            },
            None => {},
        }
    }
}

/// What packing `records` from page id `start` into `pages` with record
/// places `refs` means: no record was too large; there is at least one page,
/// each a full packed page; reading the pages back gives the records in
/// order; and record `j` sits in the slot `refs[j]` names of the page with
/// the id `refs[j]` names.
pub open spec fn packed_ok(records: Seq<Vec<u8>>, start: u64, pages: Seq<Vec<u8>>, refs: Seq<(u64, u16)>) -> bool {
    &&& first_oversize(bytes_view(records), 0) is None
    &&& pages.len() >= 1
    &&& forall|p: int| 0 <= p < pages.len() ==> (#[trigger] pages[p])@.len() == PAGE_SIZE && pages[p]@[0] == PAGE_TYPE_PACKED
    &&& pages_records(bytes_view(pages), 0, Seq::empty()) == Some(bytes_view(records))
    &&& refs.len() == records.len()
    &&& forall|j: int| 0 <= j < refs.len() ==> #[trigger] record_placed(records, start, pages, refs, j)
}

/// Where packing stands: the index of the page being filled, its record
/// count, where its directory ends and where its record bytes start.
pub struct PackState {
    pub page: int,
    pub count: int,
    pub dir: int,
    pub data: int,
}

/// A record of `len` bytes fits the page being filled: room for its
/// directory entry and its bytes, and a record count below 65535.
pub open spec fn fits(st: PackState, len: int) -> bool {
    st.dir + 4 <= st.data && len <= st.data - (st.dir + 4) && st.count < 65535
}

/// The state a record of `len` bytes is placed in: the current page if it
/// fits, else a fresh next page.
pub open spec fn placing(st: PackState, len: int) -> PackState {
    if fits(st, len) {
        st
    } else {
        PackState { page: st.page + 1, count: 0, dir: 12, data: 4096 }
    }
}

/// The state after placing a record of `len` bytes.
pub open spec fn placed(st: PackState, len: int) -> PackState {
    let s = placing(st, len);
    PackState { page: s.page, count: s.count + 1, dir: s.dir + 4, data: s.data - len }
}

/// The state after packing `rs`, greedily, from a fresh first page.
pub open spec fn pack_state(rs: Seq<Seq<u8>>) -> PackState
    decreases rs.len(),
{
    if rs.len() == 0 {
        PackState { page: 0, count: 0, dir: 12, data: 4096 }
    } else {
        placed(pack_state(rs.drop_last()), rs.last().len() as int)
    }
}

/// The page index and slot greedy packing gives record `j` of `rs`.
pub open spec fn greedy_slot(rs: Seq<Seq<u8>>, j: int) -> (int, int) {
    let s = placing(pack_state(rs.take(j)), rs[j].len() as int);
    (s.page, s.count)
}

/// The header bytes packing does not use are zero: byte 1 and the
/// next-page link in bytes 4..12.
pub open spec fn header_clean(page: Seq<u8>) -> bool {
    page[1] == 0 && forall|i: int| 4 <= i < 12 ==> page[i] == 0
}

/// The layout is the greedy one: record `j` goes to the slot `greedy_slot`
/// gives, a page being closed only when the next record does not fit, and
/// there are exactly as many pages as that takes.
pub open spec fn packed_greedily(records: Seq<Vec<u8>>, start: u64, pages: Seq<Vec<u8>>, refs: Seq<(u64, u16)>) -> bool {
    let rv = bytes_view(records);
    &&& pages.len() == pack_state(rv).page + 1
    &&& forall|p: int| 0 <= p < pages.len() ==> header_clean(#[trigger] pages[p]@)
    &&& forall|j: int|
        0 <= j < refs.len() ==> #[trigger] refs[j] == (
            nth_page_id(start, greedy_slot(rv, j).0),
            greedy_slot(rv, j).1 as u16,
        )
}

/// Record `j` sits in the slot `refs[j]` names of the page with the id
/// `refs[j]` names.
pub open spec fn record_placed(records: Seq<Vec<u8>>, start: u64, pages: Seq<Vec<u8>>, refs: Seq<(u64, u16)>, j: int) -> bool {
    exists|p: int|
        #![trigger nth_page_id(start, p)]
        0 <= p < pages.len() && refs[j].0 == nth_page_id(start, p) && slot_record(pages[p]@, refs[j].1) == Some(
            records[j]@,
        )
}

/// Packs records into packed pages (see `pages_records`): records go into
/// the current page while they fit, the page filling its directory from the
/// front and its record bytes from the back; a record that does not fit
/// starts a new page. Page `i` gets id `start_page_id + i`; each record's
/// page id and slot are returned with the pages. A record larger than
/// `MAX_FACT_BYTES` fails the whole.
pub fn pack_records(records: &Vec<Vec<u8>>, start_page_id: u64) -> (r: Result<(Vec<Vec<u8>>, Vec<(u64, u16)>), String>)
    ensures
        match r {
            Ok((pages, refs)) => packed_ok(records@, start_page_id, pages@, refs@) && packed_greedily(
                records@,
                start_page_id,
                pages@,
                refs@,
            ),
            Err(m) => first_oversize(bytes_view(records@), 0) matches Some(n) && m@ == oversize_message(n),
        },
{
    let ghost rv = bytes_view(records@);
    let mut pages: Vec<Vec<u8>> = Vec::new();
    let mut refs: Vec<(u64, u16)> = Vec::new();
    let mut cur = new_packed_page();
    let mut count: u16 = 0;
    let mut dir: usize = PACKED_HEADER_SIZE;
    let mut data: usize = PAGE_SIZE;
    let ghost mut done: Seq<Seq<u8>> = Seq::empty();
    let ghost mut on_page: Seq<Seq<u8>> = Seq::empty();
    let ghost mut ref_pages: Seq<int> = Seq::empty();
    let mut j: usize = 0;
    proof {
        assert(page_holds(cur@, on_page, dir as int, data as int));
        assert(rv.take(0) =~= done + on_page);
        assert(bytes_view(pages@) =~= Seq::<Seq<u8>>::empty());
    }
    while j < records.len()
        invariant
            j <= records@.len(),
            rv == bytes_view(records@),
            first_oversize(rv, 0) == first_oversize(rv, j as int),
            page_holds(cur@, on_page, dir as int, data as int),
            count as nat == on_page.len(),
            rv.take(j as int) == done + on_page,
            pages_records(bytes_view(pages@), 0, Seq::empty()) == Some(done),
            forall|p: int| 0 <= p < pages@.len() ==> (#[trigger] pages@[p])@.len() == PAGE_SIZE && pages@[p]@[0]
                == PAGE_TYPE_PACKED,
            refs@.len() == j,
            ref_pages.len() == j,
            pack_state(rv.take(j as int)) == (PackState {
                page: pages@.len() as int,
                count: count as int,
                dir: dir as int,
                data: data as int,
            }),
            header_clean(cur@),
            forall|p: int| 0 <= p < pages@.len() ==> header_clean(#[trigger] pages@[p]@),
            forall|t: int|
                0 <= t < j ==> #[trigger] refs@[t] == (
                    nth_page_id(start_page_id, greedy_slot(rv, t).0),
                    greedy_slot(rv, t).1 as u16,
                ),
            forall|t: int|
                0 <= t < j ==> {
                    &&& 0 <= #[trigger] ref_pages[t] <= pages@.len()
                    &&& refs@[t].0 == nth_page_id(start_page_id, ref_pages[t])
                    &&& ref_pages[t] < pages@.len() ==> slot_record(pages@[ref_pages[t]]@, refs@[t].1) == Some(rv[t])
                    &&& ref_pages[t] == pages@.len() ==> refs@[t].1 < on_page.len() && on_page[refs@[t].1 as int]
                        == rv[t]
                },
        decreases records@.len() - j,
    {
        let len = records[j].len();
        if len > MAX_FACT_BYTES {
            let mut m = owned("Fact serialised size ");
            push_u64_text(&mut m, len as u64);
            m.append(" bytes exceeds maximum slot size 4080 bytes");
            proof {
                assert(rv[j as int] == records@[j as int]@);
            }
            return Err(m);
        }
        proof {
            assert(rv[j as int] == records@[j as int]@);
        }
        if data < dir + 4 || len > data - (dir + 4) || count == 65535 {
            let ghost before = cur@;
            write_record_count(&mut cur, count);
            proof {
                lemma_count_written(before, on_page, dir as int, data as int, count);
                lemma_flush(cur@, on_page, dir as int, data as int, done, 0);
                assert(done + on_page.take(0) =~= done);
                lemma_flush_slots(cur@, on_page, dir as int, data as int);
                lemma_pages_records_push(bytes_view(pages@), cur@, 0, Seq::empty());
            }
            let ghost old_pages = pages@;
            let ghost cur_view = cur@;
            pages.push(cur);
            proof {
                assert(bytes_view(pages@) =~= bytes_view(old_pages).push(pages@.last()@));
                assert forall|t: int| 0 <= t < j implies {
                    &&& 0 <= #[trigger] ref_pages[t] <= pages@.len()
                    &&& refs@[t].0 == nth_page_id(start_page_id, ref_pages[t])
                    &&& ref_pages[t] < pages@.len() ==> slot_record(pages@[ref_pages[t]]@, refs@[t].1) == Some(rv[t])
                } by {
                    if ref_pages[t] < old_pages.len() {
                        assert(pages@[ref_pages[t]] == old_pages[ref_pages[t]]);
                    } else {
                        let sl = refs@[t].1 as int;
                        assert(pages@[ref_pages[t]]@ == cur_view);
                        assert(slot_record(cur_view, sl as u16) == Some(on_page[sl]));
                    }
                }
                done = done + on_page;
                on_page = Seq::empty();
            }
            cur = new_packed_page();
            count = 0;
            dir = PACKED_HEADER_SIZE;
            data = PAGE_SIZE;
            proof {
                assert(page_holds(cur@, on_page, dir as int, data as int));
                assert(done + on_page =~= done);
            }
        }
        proof {
            assert(rv.take(j + 1).drop_last() =~= rv.take(j as int));
            assert(rv.take(j + 1).last() == rv[j as int]);
        }
        let page_id = start_page_id.saturating_add(pages.len() as u64);
        assert(len + 4 <= data - dir);
        let ghost before_page = on_page;
        let nd = add_record(&mut cur, &records[j], dir, data, Ghost(on_page));
        refs.push((page_id, count));
        proof {
            on_page = on_page.push(rv[j as int]);
            ref_pages = ref_pages.push(pages@.len() as int);
            assert(rv.take(j + 1) =~= rv.take(j as int).push(rv[j as int]));
            assert(done + on_page =~= (done + before_page).push(rv[j as int]));
            assert(on_page[count as int] == rv[j as int]);
            assert forall|t: int| 0 <= t < j && #[trigger] ref_pages[t] == pages@.len() implies refs@[t].1
                < on_page.len() && on_page[refs@[t].1 as int] == rv[t] by {
                if ref_pages[t] == pages@.len() {
                    assert(on_page[refs@[t].1 as int] == before_page[refs@[t].1 as int]);
                }
            }
        }
        count = count + 1;
        dir = dir + 4;
        data = nd;
        j = j + 1;
    }
    let ghost before = cur@;
    write_record_count(&mut cur, count);
    proof {
        lemma_count_written(before, on_page, dir as int, data as int, count);
        lemma_flush(cur@, on_page, dir as int, data as int, done, 0);
        assert(done + on_page.take(0) =~= done);
        lemma_flush_slots(cur@, on_page, dir as int, data as int);
        lemma_pages_records_push(bytes_view(pages@), cur@, 0, Seq::empty());
        assert(rv.take(j as int) =~= rv);
    }
    let ghost old_pages = pages@;
    let ghost cur_view = cur@;
    pages.push(cur);
    proof {
        assert(bytes_view(pages@) =~= bytes_view(old_pages).push(pages@.last()@));
    }
    proof {
        assert forall|t: int| 0 <= t < refs@.len() implies #[trigger] record_placed(
            records@,
            start_page_id,
            pages@,
            refs@,
            t,
        ) by {
            let p = ref_pages[t];
            assert(0 <= p <= old_pages.len());
            assert(rv[t] == records@[t]@);
            if p < old_pages.len() {
                assert(pages@[p] == old_pages[p]);
            } else {
                let sl = refs@[t].1 as int;
                assert(pages@[p]@ == cur_view);
                assert(slot_record(cur_view, sl as u16) == Some(on_page[sl]));
            }
            assert(nth_page_id(start_page_id, p) == refs@[t].0);
        }
    }
    Ok((pages, refs))
}

proof fn lemma_all_records_of_pages(pg: Map<u64, Seq<u8>>, first: u64, ps: Seq<Seq<u8>>, i: int, acc: Seq<Seq<u8>>)
    requires
        0 <= i <= ps.len(),
        forall|k: int|
            #![trigger nth_page_id(first, k)]
            0 <= k < ps.len() ==> pg.contains_key(nth_page_id(first, k)) && pg[nth_page_id(first, k)] == ps[k],
        forall|k: int| 0 <= k < ps.len() ==> (#[trigger] ps[k]).len() == PAGE_SIZE && ps[k][0] == PAGE_TYPE_PACKED,
    ensures
        all_records(pg, first, i, ps.len() as int, acc) == pages_records(ps, i, acc),
    decreases ps.len() - i,
{
    if i < ps.len() {
        assert(pg.contains_key(nth_page_id(first, i)) && pg[nth_page_id(first, i)] == ps[i]);
        match page_records(ps[i], 0, record_count(ps[i]) as int, acc) {
            Some(a2) => lemma_all_records_of_pages(pg, first, ps, i + 1, a2),
            None => {},
        }
    }
}

/// Reading back packed pages gives the records packed: when the pages that
/// `pack_records` made from `records` sit at ids `start`, `start + 1`, ...,
/// the records of those pages, read in page and slot order
/// (`read_all_from_pages`), are `records`.
pub proof fn lemma_pack_read_back(
    records: Seq<Vec<u8>>,
    start: u64,
    pages: Seq<Vec<u8>>,
    refs: Seq<(u64, u16)>,
    pg: Map<u64, Seq<u8>>,
)
    requires
        packed_ok(records, start, pages, refs),
        forall|k: int|
            #![trigger nth_page_id(start, k)]
            0 <= k < pages.len() ==> pg.contains_key(nth_page_id(start, k)) && pg[nth_page_id(start, k)] == pages[k]@,
    ensures
        all_records(pg, start, 0, pages.len() as int, Seq::empty()) == Some(bytes_view(records)),
{
    let ps = bytes_view(pages);
    assert forall|k: int| #![trigger nth_page_id(start, k)] 0 <= k < ps.len() implies pg.contains_key(nth_page_id(start, k))
        && pg[nth_page_id(start, k)] == ps[k] by {
        assert(ps[k] == pages[k]@);
    }
    assert forall|k: int| 0 <= k < ps.len() implies (#[trigger] ps[k]).len() == PAGE_SIZE && ps[k][0] == PAGE_TYPE_PACKED by {
        assert(ps[k] == pages[k]@);
    }
    lemma_all_records_of_pages(pg, start, ps, 0, Seq::empty());
}

} // verus!
