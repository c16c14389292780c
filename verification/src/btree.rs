//! Index blobs on pages: a byte string (a serialised index) is cut into
//! chunks of `DATA_BYTES_PER_PAGE` bytes, each stored in one page after a
//! 10-byte header:
//!
//! ```text
//! 0      1  page type (0x11)
//! 1..5   4  total blob length (u32 LE)
//! 5..9   4  bytes of blob data in this page (u32 LE)
//! 9      1  1 on the last page of the blob, else 0
//! 10..   the data, padded with zeros to the page size
//! ```
//!
//! An empty blob still takes one page.
use vstd::prelude::*;
use crate::header::{PAGE_SIZE, u32_le, le_u32_at, lemma_u32_le_roundtrip, push_u32_le};
use crate::storage::StorageBackend;
use crate::text::{owned, push_u64_text, nat_text};

verus! {

/// Page type byte of an index data page.
pub const PAGE_TYPE_INDEX: u8 = 0x11;

/// Header bytes of an index data page.
pub const PAGE_HEADER_SIZE: usize = 10;

/// Blob bytes held by one page.
pub const DATA_BYTES_PER_PAGE: usize = 4086;

/// The number of pages a blob of `len` bytes takes: at least one.
pub open spec fn blob_page_count(len: nat) -> nat {
    if len == 0 {
        1
    } else if len % 4086 == 0 {
        len / 4086
    } else {
        len / 4086 + 1
    }
}

/// The smaller of two integers.
pub open spec fn min_int(a: int, b: int) -> int {
    if a <= b {
        a
    } else {
        b
    }
}

/// The part of the blob stored in page `i` of it.
pub open spec fn chunk_of(blob: Seq<u8>, i: nat) -> Seq<u8> {
    blob.subrange(min_int((i * 4086) as int, blob.len() as int), min_int((i * 4086 + 4086) as int, blob.len() as int))
}

/// `n` zero bytes.
pub open spec fn zeros(n: nat) -> Seq<u8> {
    Seq::new(n, |i: int| 0u8)
}

/// Page `i` of a blob.
pub open spec fn index_page(blob: Seq<u8>, i: nat) -> Seq<u8> {
    let c = chunk_of(blob, i);
    let last: u8 = if i + 1 == blob_page_count(blob.len()) {
        1
    } else {
        0
    };
    seq![PAGE_TYPE_INDEX] + u32_le(blob.len() as u32) + u32_le(c.len() as u32) + seq![last] + c + zeros(
        (4086 - c.len()) as nat,
    )
}

/// The pages after writing the first `j` pages of a blob from `start`.
pub open spec fn written(pg: Map<u64, Seq<u8>>, blob: Seq<u8>, start: u64, j: nat) -> Map<u64, Seq<u8>>
    decreases j,
{
    if j == 0 {
        pg
    } else {
        written(pg, blob, start, (j - 1) as nat).insert((start + j - 1) as u64, index_page(blob, (j - 1) as nat))
    }
}

/// The blob read from the pages, starting at page `id` with `acc` read so
/// far: pages are followed until one marked last; reading fails on a
/// missing page, a page of another type or too short, a chunk length past
/// the page end, or running out of page ids.
pub open spec fn read_chain(pg: Map<u64, Seq<u8>>, id: u64, acc: Seq<u8>) -> Option<Seq<u8>>
    decreases u64::MAX - id,
{
    if !pg.contains_key(id) {
        None
    } else {
        let p = pg[id];
        if p.len() < 10 || p[0] != PAGE_TYPE_INDEX {
            None
        } else {
            let clen = le_u32_at(p, 5) as int;
            if clen > 0 && 10 + clen > p.len() {
                None
            } else {
                let acc2 = if clen > 0 {
                    acc + p.subrange(10, 10 + clen)
                } else {
                    acc
                };
                if p[9] == 1 {
                    Some(acc2)
                } else if id == u64::MAX {
                    None
                } else {
                    read_chain(pg, (id + 1) as u64, acc2)
                }
            }
        }
    }
}

/// The blob stored from page `start`, if the pages hold one.
pub open spec fn stored_blob(pg: Map<u64, Seq<u8>>, start: u64) -> Option<Seq<u8>> {
    if pg.contains_key(start) && pg[start].len() >= 5 && pg[start][0] == PAGE_TYPE_INDEX {
        read_chain(pg, start, Seq::empty())
    } else {
        None
    }
}

/// The message of a blob too long for its length field.
pub open spec fn blob_too_large_message(len: nat) -> Seq<char> {
    "INT-048: index blob too large to serialize: "@ + nat_text(len) + " bytes (max 4294967295)"@
}

/// The message of running out of page ids.
pub open spec fn page_id_overflow_message() -> Seq<char> {
    "INT-048: btree write_blob: page_id overflow"@
}

proof fn lemma_page_count(len: nat)
    ensures
        blob_page_count(len) >= 1,
        len > 0 ==> (blob_page_count(len) - 1) * 4086 < len <= blob_page_count(len) * 4086,
        len == 0 ==> blob_page_count(len) == 1,
{
    if len > 0 {
        assert((len / 4086) * 4086 + len % 4086 == len) by (nonlinear_arith);
        assert(len % 4086 < 4086) by (nonlinear_arith);
        if len % 4086 == 0 {
            assert(len / 4086 >= 1) by (nonlinear_arith)
                requires
                    len > 0,
                    (len / 4086) * 4086 + len % 4086 == len,
                    len % 4086 == 0,
            ;
        }
    }
}

proof fn lemma_index_page(blob: Seq<u8>, i: nat)
    requires
        blob.len() <= u32::MAX,
    ensures
        ({
            let p = index_page(blob, i);
            let c = chunk_of(blob, i);
            &&& c.len() <= 4086
            &&& p.len() == PAGE_SIZE
            &&& p[0] == PAGE_TYPE_INDEX
            &&& le_u32_at(p, 5) == c.len()
            &&& (p[9] == 1) == (i + 1 == blob_page_count(blob.len()))
            &&& p.subrange(10, 10 + c.len() as int) == c
        }),
{
    let p = index_page(blob, i);
    let c = chunk_of(blob, i);
    let last: u8 = if i + 1 == blob_page_count(blob.len()) {
        1
    } else {
        0
    };
    let head = seq![PAGE_TYPE_INDEX] + u32_le(blob.len() as u32) + u32_le(c.len() as u32) + seq![last];
    assert(head.len() == 10);
    assert(p == head + c + zeros((4086 - c.len()) as nat));
    assert(p.subrange(5, 9) =~= u32_le(c.len() as u32));
    lemma_u32_le_roundtrip(c.len() as u32, p, 5);
    assert(p[9] == last);
    assert(p.subrange(10, 10 + c.len() as int) =~= c);
}

proof fn lemma_written_at(pg: Map<u64, Seq<u8>>, blob: Seq<u8>, start: u64, j: nat, i: nat)
    requires
        i < j,
        start + j <= u64::MAX + 1,
    ensures
        written(pg, blob, start, j).contains_key((start + i) as u64),
        written(pg, blob, start, j)[(start + i) as u64] == index_page(blob, i),
    decreases j,
{
    if i < j - 1 {
        lemma_written_at(pg, blob, start, (j - 1) as nat, i);
    }
}

/// Page `id` is present and holds `page`.
pub open spec fn page_is(pg: Map<u64, Seq<u8>>, id: u64, page: Seq<u8>) -> bool {
    pg.contains_key(id) && pg[id] == page
}

/// The pages from `start` on are the pages of `blob`.
pub open spec fn holds_blob(pg: Map<u64, Seq<u8>>, blob: Seq<u8>, start: u64) -> bool {
    &&& start + blob_page_count(blob.len()) <= u64::MAX + 1
    &&& forall|k: nat|
        k < blob_page_count(blob.len()) ==> page_is(pg, (start + k) as u64, #[trigger] index_page(blob, k))
}

proof fn lemma_chain_from(pg: Map<u64, Seq<u8>>, blob: Seq<u8>, start: u64, i: nat)
    requires
        blob.len() <= u32::MAX,
        holds_blob(pg, blob, start),
        i < blob_page_count(blob.len()),
    ensures
        read_chain(pg, (start + i) as u64, blob.subrange(0, min_int((i * 4086) as int, blob.len() as int)))
            == Some(blob),
    decreases blob_page_count(blob.len()) - i,
{
    let n = blob_page_count(blob.len());
    let id = (start + i) as u64;
    lemma_page_count(blob.len());
    lemma_index_page(blob, i);
    let p = index_page(blob, i);
    let c = chunk_of(blob, i);
    let acc = blob.subrange(0, min_int((i * 4086) as int, blob.len() as int));
    let acc2 = blob.subrange(0, min_int((i * 4086 + 4086) as int, blob.len() as int));
    assert(acc + c =~= acc2);
    if c.len() == 0 {
        assert(acc =~= acc2);
    }
    if i + 1 == n {
        if blob.len() > 0 {
            assert(i * 4086 < blob.len());
            assert(blob.len() <= i * 4086 + 4086);
        }
        assert(acc2 =~= blob);
    } else {
        assert(id < u64::MAX);
        lemma_chain_from(pg, blob, start, i + 1);
        assert((start + (i + 1)) as u64 == (id + 1) as u64);
        assert((i + 1) * 4086 == i * 4086 + 4086);
    }
}

/// Pages holding a blob from `start` give it back when read from there.
pub proof fn lemma_stored_blob(pg: Map<u64, Seq<u8>>, blob: Seq<u8>, start: u64)
    requires
        blob.len() <= u32::MAX,
        holds_blob(pg, blob, start),
    ensures
        stored_blob(pg, start) == Some(blob),
{
    lemma_page_count(blob.len());
    lemma_index_page(blob, 0);
    assert((start + 0nat) as u64 == start);
    lemma_chain_from(pg, blob, start, 0);
    assert(blob.subrange(0, min_int(0, blob.len() as int)) =~= Seq::<u8>::empty());
}

proof fn lemma_written_holds(pg: Map<u64, Seq<u8>>, blob: Seq<u8>, start: u64)
    requires
        start + blob_page_count(blob.len()) <= u64::MAX + 1,
    ensures
        holds_blob(written(pg, blob, start, blob_page_count(blob.len())), blob, start),
{
    let n = blob_page_count(blob.len());
    assert forall|k: nat| k < n implies page_is(written(pg, blob, start, n), (start + k) as u64, #[trigger] index_page(blob, k)) by {
        lemma_written_at(pg, blob, start, n, k);
    }
}

proof fn lemma_written_below(pg: Map<u64, Seq<u8>>, blob: Seq<u8>, start: u64, j: nat, id: u64)
    requires
        id < start,
        start + j <= u64::MAX + 1,
    ensures
        written(pg, blob, start, j).contains_key(id) == pg.contains_key(id),
        pg.contains_key(id) ==> written(pg, blob, start, j)[id] == pg[id],
    decreases j,
{
    if j > 0 {
        lemma_written_below(pg, blob, start, (j - 1) as nat, id);
        assert((start + j - 1) as u64 != id || start + j - 1 > u64::MAX);
        if start + j - 1 > u64::MAX {
            assert((start + j - 1) as u64 >= 0);
        }
    }
}

/// Writing a blob at or after the end of another leaves the other's pages
/// as they were.
pub proof fn lemma_written_keeps(
    pg: Map<u64, Seq<u8>>,
    blob: Seq<u8>,
    start: u64,
    other: Seq<u8>,
    at: u64,
    j: nat,
)
    requires
        holds_blob(pg, blob, start),
        start + blob_page_count(blob.len()) <= at,
        at + j <= u64::MAX + 1,
    ensures
        holds_blob(written(pg, other, at, j), blob, start),
{
    let n = blob_page_count(blob.len());
    assert forall|k: nat| k < n implies page_is(written(pg, other, at, j), (start + k) as u64, #[trigger] index_page(blob, k)) by {
        assert(page_is(pg, (start + k) as u64, index_page(blob, k)));
        lemma_written_below(pg, other, at, j, (start + k) as u64);
    }
}

/// Reading back the pages that writing a blob from `start` leaves gives the
/// blob: whatever other pages there are, the blob's own pages hold it.
pub proof fn lemma_blob_roundtrip(pg: Map<u64, Seq<u8>>, blob: Seq<u8>, start: u64)
    requires
        blob.len() <= u32::MAX,
        start + blob_page_count(blob.len()) <= u64::MAX + 1,
    ensures
        stored_blob(written(pg, blob, start, blob_page_count(blob.len())), start) == Some(blob),
{
    lemma_written_holds(pg, blob, start);
    lemma_stored_blob(written(pg, blob, start, blob_page_count(blob.len())), blob, start);
}

fn build_index_page(blob: &[u8], from: usize, to: usize, last: bool) -> (page: Vec<u8>)
    requires
        from <= to <= blob@.len(),
        to - from <= 4086,
        blob@.len() <= u32::MAX,
    ensures
        page@ == seq![PAGE_TYPE_INDEX] + u32_le(blob@.len() as u32) + u32_le((to - from) as u32) + seq![
            if last {
                1u8
            } else {
                0u8
            },
        ] + blob@.subrange(from as int, to as int) + zeros((4086 - (to - from)) as nat),
{
    let mut page: Vec<u8> = Vec::new();
    page.push(PAGE_TYPE_INDEX);
    push_u32_le(&mut page, blob.len() as u32);
    push_u32_le(&mut page, (to - from) as u32);
    page.push(if last {
        1u8
    } else {
        0u8
    });
    let ghost head = page@;
    let mut k = from;
    while k < to
        invariant
            from <= k <= to,
            to <= blob@.len(),
            page@ == head + blob@.subrange(from as int, k as int),
        decreases to - k,
    {
        page.push(blob[k]);
        assert(page@ =~= head + blob@.subrange(from as int, k + 1));
        k = k + 1;
    }
    let ghost body = page@;
    let pad = 4086 - (to - from);
    let mut z: usize = 0;
    while z < pad
        invariant
            z <= pad,
            page@ == body + zeros(z as nat),
        decreases pad - z,
    {
        page.push(0u8);
        assert(page@ =~= body + zeros((z + 1) as nat));
        z = z + 1;
    }
    page
}

/// Writes `blob` to consecutive pages from `start_page_id` and returns the
/// page id after the last one written.
///
/// Fails when the blob is longer than its length field can say, when page
/// ids run out, or when the backend refuses a write; the pages written
/// before a failure stay written.
pub fn write_blob<B: StorageBackend>(blob: &[u8], backend: &mut B, start_page_id: u64) -> (r: Result<u64, String>)
    ensures
        final(backend).infallible() == old(backend).infallible(),
        match r {
            Ok(next) => {
                &&& blob@.len() <= u32::MAX
                &&& next == start_page_id + blob_page_count(blob@.len())
                &&& final(backend).pages() == written(
                    old(backend).pages(),
                    blob@,
                    start_page_id,
                    blob_page_count(blob@.len()),
                )
            },
            Err(m) => {
                &&& exists|k: nat|
                    k <= blob_page_count(blob@.len()) && final(backend).pages() == #[trigger] written(
                        old(backend).pages(),
                        blob@,
                        start_page_id,
                        k,
                    )
                &&& blob@.len() > u32::MAX ==> m@ == blob_too_large_message(blob@.len())
                    && final(backend).pages() == old(backend).pages()
                &&& (blob@.len() <= u32::MAX && start_page_id + blob_page_count(blob@.len()) > u64::MAX
                    && old(backend).infallible()) ==> m@ == page_id_overflow_message()
                &&& (blob@.len() <= u32::MAX && start_page_id + blob_page_count(blob@.len()) <= u64::MAX
                    && old(backend).infallible()) ==> false
            },
        },
{
    if blob.len() > 4294967295usize {
        let mut m = owned("INT-048: index blob too large to serialize: ");
        push_u64_text(&mut m, blob.len() as u64);
        m.append(" bytes (max 4294967295)");
        assert(backend.pages() == written(backend.pages(), blob@, start_page_id, 0));
        return Err(m);
    }
    let len = blob.len();
    let num_pages: usize = if len == 0 {
        1
    } else if len % 4086 == 0 {
        len / 4086
    } else {
        len / 4086 + 1
    };
    proof {
        lemma_page_count(len as nat);
    }
    let ghost pg0 = backend.pages();
    let mut i: usize = 0;
    let mut pos: usize = 0;
    while i < num_pages
        invariant
            len == blob@.len(),
            len <= u32::MAX,
            num_pages == blob_page_count(len as nat),
            i <= num_pages,
            pos as int == min_int((i * 4086) as int, len as int),
            backend.infallible() == old(backend).infallible(),
            pg0 == old(backend).pages(),
            backend.pages() == written(pg0, blob@, start_page_id, i as nat),
            start_page_id + i <= u64::MAX + 1,
        decreases num_pages - i,
    {
        let end = if len - pos > 4086 {
            pos + 4086
        } else {
            len
        };
        assert(end as int == min_int((i * 4086 + 4086) as int, len as int));
        let last = i == num_pages - 1;
        let page = build_index_page(blob, pos, end, last);
        proof {
            assert(page@ == index_page(blob@, i as nat));
            lemma_index_page(blob@, i as nat);
        }
        if start_page_id > u64::MAX - (i as u64) {
            return Err(owned("INT-048: btree write_blob: page_id overflow"));
        }
        let id = start_page_id + i as u64;
        match backend.write_page(id, page.as_slice()) {
            Ok(()) => {},
            Err(m) => {
                return Err(m);
            },
        }
        pos = end;
        i = i + 1;
    }
    if start_page_id > u64::MAX - (num_pages as u64) {
        return Err(owned("INT-048: btree write_blob: page_id overflow"));
    }
    Ok(start_page_id + num_pages as u64)
}

/// Reads the blob stored from page `start_page_id` (see `stored_blob`).
/// Fails where the pages hold no blob there, or when the backend fails a
/// read.
pub fn read_blob<B: StorageBackend>(backend: &B, start_page_id: u64) -> (r: Result<Vec<u8>, String>)
    ensures
        r matches Ok(b) ==> stored_blob(backend.pages(), start_page_id) == Some(b@),
        stored_blob(backend.pages(), start_page_id) is None ==> r is Err,
        backend.infallible() && stored_blob(backend.pages(), start_page_id) is Some ==> r is Ok,
{
    let ghost pg = backend.pages();
    let first = backend.read_page(start_page_id)?;
    if first.len() < 5 || first[0] != PAGE_TYPE_INDEX {
        return Err(owned("INT-049: btree read_blob: first page is not an index page"));
    }
    let mut blob: Vec<u8> = Vec::new();
    let mut page_id = start_page_id;
    loop
        invariant
            pg == backend.pages(),
            stored_blob(pg, start_page_id) == read_chain(pg, page_id, blob@),
        decreases u64::MAX - page_id,
    {
        let page = backend.read_page(page_id)?;
        if page.len() == 0 {
            return Err(owned("INT-049: btree read_blob: empty page in the chain"));
        }
        if page[0] != PAGE_TYPE_INDEX {
            let mut m = owned("STG-012: index blob page ");
            push_u64_text(&mut m, page_id);
            m.append(" is not an index page");
            return Err(m);
        }
        if page.len() < 10 {
            return Err(owned("INT-049: btree read_blob: page too short for its header"));
        }
        let clen = match crate::header::read_u32_le(page.as_slice(), 5) {
            Ok(c) => c as usize,
            Err(_) => {
                return Err(owned("INT-049: btree read_blob: page too short for its chunk length"));
            },
        };
        if clen > 0 {
            if clen > page.len() - 10 {
                return Err(owned("INT-049: btree read_blob: chunk runs past the page end"));
            }
            let mut k: usize = 10;
            let end = 10 + clen;
            let ghost before = blob@;
            while k < end
                invariant
                    10 <= k <= end,
                    end == 10 + clen,
                    end <= page@.len(),
                    blob@ == before + page@.subrange(10, k as int),
                decreases end - k,
            {
                blob.push(page[k]);
                assert(blob@ =~= before + page@.subrange(10, k + 1));
                k = k + 1;
            }
        }
        if page[9] == 1 {
            return Ok(blob);
        }
        if page_id == u64::MAX {
            return Err(owned("INT-048: btree read_blob: page_id overflow"));
        }
        page_id = page_id + 1;
    }
}

/// Four blobs fit from `start`: each fits its length field and all their
/// pages have ids.
pub open spec fn indexes_fit(e: Seq<u8>, a: Seq<u8>, v: Seq<u8>, t: Seq<u8>, start: u64) -> bool {
    &&& e.len() <= u32::MAX
    &&& a.len() <= u32::MAX
    &&& v.len() <= u32::MAX
    &&& t.len() <= u32::MAX
    &&& start + blob_page_count(e.len()) + blob_page_count(a.len()) + blob_page_count(v.len())
        + blob_page_count(t.len()) <= u64::MAX
}

/// The first pages of four blobs stored one after another from `start`.
pub open spec fn index_roots(e: Seq<u8>, a: Seq<u8>, v: Seq<u8>, start: u64) -> (u64, u64, u64, u64) {
    let ra = start + blob_page_count(e.len());
    let rv = ra + blob_page_count(a.len());
    let rt = rv + blob_page_count(v.len());
    (start, ra as u64, rv as u64, rt as u64)
}

/// The pages after writing four blobs one after another from `start`.
pub open spec fn indexes_written(
    pg: Map<u64, Seq<u8>>,
    e: Seq<u8>,
    a: Seq<u8>,
    v: Seq<u8>,
    t: Seq<u8>,
    start: u64,
) -> Map<u64, Seq<u8>> {
    let (re, ra, rv, rt) = index_roots(e, a, v, start);
    let p1 = written(pg, e, re, blob_page_count(e.len()));
    let p2 = written(p1, a, ra, blob_page_count(a.len()));
    let p3 = written(p2, v, rv, blob_page_count(v.len()));
    written(p3, t, rt, blob_page_count(t.len()))
}

/// Writes four encoded indexes (EAVT, AEVT, AVET, VAET) one after another
/// from `start_page_id` and returns the first page of each.
///
/// Fails only when a blob is too long for its length field, when page ids
/// run out, or when the backend refuses a write.
pub fn write_all_indexes<B: StorageBackend>(
    eavt: &[u8],
    aevt: &[u8],
    avet: &[u8],
    vaet: &[u8],
    backend: &mut B,
    start_page_id: u64,
) -> (r: Result<(u64, u64, u64, u64), String>)
    ensures
        final(backend).infallible() == old(backend).infallible(),
        match r {
            Ok(roots) => {
                &&& indexes_fit(eavt@, aevt@, avet@, vaet@, start_page_id)
                &&& roots == index_roots(eavt@, aevt@, avet@, start_page_id)
                &&& final(backend).pages() == indexes_written(
                    old(backend).pages(),
                    eavt@,
                    aevt@,
                    avet@,
                    vaet@,
                    start_page_id,
                )
            },
            Err(_) => !old(backend).infallible() || !indexes_fit(eavt@, aevt@, avet@, vaet@, start_page_id),
        },
{
    let eavt_root = start_page_id;
    let aevt_root = write_blob(eavt, backend, eavt_root)?;
    let avet_root = write_blob(aevt, backend, aevt_root)?;
    let vaet_root = write_blob(avet, backend, avet_root)?;
    let _end = write_blob(vaet, backend, vaet_root)?;
    Ok((eavt_root, aevt_root, avet_root, vaet_root))
}

/// Reading each index back from the root that writing all four returned
/// gives that index: the later writes leave the earlier blobs' pages alone.
pub proof fn lemma_indexes_read_back(
    pg: Map<u64, Seq<u8>>,
    e: Seq<u8>,
    a: Seq<u8>,
    v: Seq<u8>,
    t: Seq<u8>,
    start: u64,
)
    requires
        indexes_fit(e, a, v, t, start),
    ensures
        ({
            let (re, ra, rv, rt) = index_roots(e, a, v, start);
            let w = indexes_written(pg, e, a, v, t, start);
            &&& stored_blob(w, re) == Some(e)
            &&& stored_blob(w, ra) == Some(a)
            &&& stored_blob(w, rv) == Some(v)
            &&& stored_blob(w, rt) == Some(t)
        }),
{
    let (re, ra, rv, rt) = index_roots(e, a, v, start);
    let ne = blob_page_count(e.len());
    let na = blob_page_count(a.len());
    let nv = blob_page_count(v.len());
    let nt = blob_page_count(t.len());
    let p1 = written(pg, e, re, ne);
    let p2 = written(p1, a, ra, na);
    let p3 = written(p2, v, rv, nv);
    let p4 = written(p3, t, rt, nt);
    lemma_written_holds(pg, e, re);
    lemma_written_keeps(p1, e, re, a, ra, na);
    lemma_written_keeps(p2, e, re, v, rv, nv);
    lemma_written_keeps(p3, e, re, t, rt, nt);
    lemma_stored_blob(p4, e, re);
    lemma_written_holds(p1, a, ra);
    lemma_written_keeps(p2, a, ra, v, rv, nv);
    lemma_written_keeps(p3, a, ra, t, rt, nt);
    lemma_stored_blob(p4, a, ra);
    lemma_written_holds(p2, v, rv);
    lemma_written_keeps(p3, v, rv, t, rt, nt);
    lemma_stored_blob(p4, v, rv);
    lemma_written_holds(p3, t, rt);
    lemma_stored_blob(p4, t, rt);
}

} // verus!
