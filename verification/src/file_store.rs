//! The decisions of the file-backed page store, apart from its file I/O:
//! what a lock attempt means, how long to wait before retrying, where a page
//! lives in the file, how the page count grows, and the messages for each
//! refusal. The store itself (opening, locking, seeking, reading, writing)
//! drives these from the outside.
use vstd::prelude::*;
use crate::header::{PAGE_SIZE, FileHeader, header_bytes};
use crate::text::{owned, concat, push_u64_text, nat_text};

verus! {

/// What an attempt to take the file lock returned.
#[derive(Debug, Clone, Copy, PartialEq, Eq, Structural)]
pub enum LockAttempt {
    /// The lock is ours.
    Taken,
    /// Another open file description holds it (possibly in this process).
    WouldBlock,
    /// The filesystem cannot lock.
    Failed,
}

/// What the store does about a lock attempt.
#[derive(Debug, Clone, Copy, PartialEq, Eq, Structural)]
pub enum LockOutcome {
    /// We hold the lock.
    Acquired,
    /// Someone else holds it.
    Held,
    /// The filesystem cannot lock and the caller did not accept running without.
    Unsupported,
    /// The filesystem cannot lock and the caller accepted the risk.
    ProceedUnlocked,
}

/// How many times a lock held possibly by another process is tried again.
pub const LOCK_RETRY_ATTEMPTS: u32 = 10;

/// The first wait before trying the lock again, in milliseconds.
pub const LOCK_RETRY_INITIAL_DELAY_MS: u64 = 5;

/// The longest wait between tries, in milliseconds.
pub const LOCK_RETRY_MAX_DELAY_MS: u64 = 50;

/// What a lock attempt means; `allow_unlocked` is consulted only when the
/// filesystem cannot lock, never when someone holds the lock.
pub open spec fn spec_classify(attempt: LockAttempt, allow_unlocked: bool) -> LockOutcome {
    match attempt {
        LockAttempt::Taken => LockOutcome::Acquired,
        LockAttempt::WouldBlock => LockOutcome::Held,
        LockAttempt::Failed => if allow_unlocked {
            LockOutcome::ProceedUnlocked
        } else {
            LockOutcome::Unsupported
        },
    }
}

/// Decides what a lock attempt means (see `spec_classify`).
pub fn classify(attempt: LockAttempt, allow_unlocked: bool) -> (r: LockOutcome)
    ensures
        r == spec_classify(attempt, allow_unlocked),
{
    match attempt {
        LockAttempt::Taken => LockOutcome::Acquired,
        LockAttempt::WouldBlock => LockOutcome::Held,
        LockAttempt::Failed => if allow_unlocked {
            LockOutcome::ProceedUnlocked
        } else {
            LockOutcome::Unsupported
        },
    }
}

/// A held lock is worth waiting for only when this process does not hold
/// the file itself: waiting on our own lock cannot succeed.
pub fn should_retry(attempt: LockAttempt, open_here: bool) -> (r: bool)
    ensures
        r == (attempt == LockAttempt::WouldBlock && !open_here),
{
    attempt == LockAttempt::WouldBlock && !open_here
}

/// The wait after one of `delay_ms`: doubled, at most `LOCK_RETRY_MAX_DELAY_MS`.
pub fn next_retry_delay(delay_ms: u64) -> (r: u64)
    ensures
        r == if 2 * delay_ms > LOCK_RETRY_MAX_DELAY_MS {
            LOCK_RETRY_MAX_DELAY_MS as int
        } else {
            2 * delay_ms
        },
{
    if delay_ms > LOCK_RETRY_MAX_DELAY_MS / 2 {
        LOCK_RETRY_MAX_DELAY_MS
    } else {
        2 * delay_ms
    }
}

/// The waits between the tries of a held lock, in order.
pub open spec fn retry_delay(k: nat) -> int
    decreases k,
{
    if k == 0 {
        LOCK_RETRY_INITIAL_DELAY_MS as int
    } else {
        let d = retry_delay((k - 1) as nat);
        if 2 * d > LOCK_RETRY_MAX_DELAY_MS {
            LOCK_RETRY_MAX_DELAY_MS as int
        } else {
            2 * d
        }
    }
}

/// The waits never exceed the cap, so the whole retry budget is bounded.
pub proof fn lemma_retry_delay_bounded(k: nat)
    ensures
        0 < retry_delay(k) <= LOCK_RETRY_MAX_DELAY_MS,
    decreases k,
{
    if k > 0 {
        lemma_retry_delay_bounded((k - 1) as nat);
    }
}

// ===================== messages =====================

/// The message for a second open of a file this process has open.
pub open spec fn already_open_message(path: Seq<char>) -> Seq<char> {
    "Database is already open in this process ("@ + path
        + "). A second handle on one file would give each its own page table and corrupt both \u{2014} reuse the existing handle instead. `Minigraf` is cheap to clone and all clones share the same database."@
}

/// The message for a file locked by another process.
pub open spec fn locked_message(path: Seq<char>) -> Seq<char> {
    "Database is locked by another process ("@ + path
        + "). The lock is held on the file itself and is released automatically when the holding process exits, so there is no lock file to clean up."@
}

/// The message for a filesystem that cannot lock.
pub open spec fn unsupported_lock_message(path: Seq<char>, err: Seq<char>) -> Seq<char> {
    "Failed to lock database at "@ + path + ": "@ + err
        + ". This filesystem does not support file locking (common on NFSv3 without lockd, and on some FUSE mounts). Set `allow_unlocked` in `OpenOptions` to open anyway \u{2014} that accepts the risk that concurrent writers corrupt the file."@
}

/// The refusal, if any, for opening `path` after a lock outcome: a held lock
/// is refused (differently when this process has the file open), as is an
/// unsupported one; proceeding unlocked is refused only when this process
/// already has the file open.
pub open spec fn spec_open_refusal(outcome: LockOutcome, open_here: bool, path: Seq<char>, err: Seq<char>) -> Option<
    Seq<char>,
> {
    match outcome {
        LockOutcome::Acquired => None,
        LockOutcome::Held => if open_here {
            Some(already_open_message(path))
        } else {
            Some(locked_message(path))
        },
        LockOutcome::Unsupported => Some(unsupported_lock_message(path, err)),
        LockOutcome::ProceedUnlocked => if open_here {
            Some(already_open_message(path))
        } else {
            None
        },
    }
}

/// The model of an optional message.
pub open spec fn opt_text_view(o: Option<String>) -> Option<Seq<char>> {
    match o {
        Some(t) => Some(t@),
        None => None,
    }
}

fn already_open_text(p: &str) -> (m: String)
    ensures
        m@ == already_open_message(p@),
{
    let mut m = concat("Database is already open in this process (", p);
    m.append(
        "). A second handle on one file would give each its own page table and corrupt both \u{2014} reuse the existing handle instead. `Minigraf` is cheap to clone and all clones share the same database.",
    );
    m
}

/// Decides whether opening `path` is refused after a lock outcome (see
/// `spec_open_refusal`); `err` is the locking error's text.
pub fn open_refusal(outcome: LockOutcome, open_here: bool, path: &str, err: &str) -> (r: Option<String>)
    ensures
        opt_text_view(r) == spec_open_refusal(outcome, open_here, path@, err@),
{
    match outcome {
        LockOutcome::Acquired => None,
        LockOutcome::Held => if open_here {
            Some(already_open_text(path))
        } else {
            let mut m = concat("Database is locked by another process (", path);
            m.append(
                "). The lock is held on the file itself and is released automatically when the holding process exits, so there is no lock file to clean up.",
            );
            Some(m)
        },
        LockOutcome::Unsupported => {
            let mut m = concat("Failed to lock database at ", path);
            m.append(": ");
            m.append(err);
            m.append(
                ". This filesystem does not support file locking (common on NFSv3 without lockd, and on some FUSE mounts). Set `allow_unlocked` in `OpenOptions` to open anyway \u{2014} that accepts the risk that concurrent writers corrupt the file.",
            );
            Some(m)
        },
        LockOutcome::ProceedUnlocked => if open_here {
            Some(already_open_text(path))
        } else {
            None
        },
    }
}

// ===================== pages in the file =====================

/// A file shorter than one page holds no database yet.
pub fn file_is_new(file_len: u64) -> (r: bool)
    ensures
        r == (file_len < PAGE_SIZE),
{
    file_len < PAGE_SIZE as u64
}

/// The message for a page whose byte offset does not fit in a `u64`.
pub open spec fn offset_overflow_message(id: u64) -> Seq<char> {
    "page offset overflow for page_id "@ + nat_text(id as nat)
}

/// The byte offset of a page in the file.
pub fn page_offset(page_id: u64) -> (r: Result<u64, String>)
    ensures
        match r {
            Ok(o) => page_id * PAGE_SIZE <= u64::MAX && o == page_id * PAGE_SIZE,
            Err(m) => page_id * PAGE_SIZE > u64::MAX && m@ == offset_overflow_message(page_id),
        },
{
    match page_id.checked_mul(PAGE_SIZE as u64) {
        Some(o) => Ok(o),
        None => {
            let mut m = owned("page offset overflow for page_id ");
            push_u64_text(&mut m, page_id);
            Err(m)
        },
    }
}

/// The message for a read past the last page.
pub open spec fn out_of_bounds_message(id: u64, count: u64) -> Seq<char> {
    "Page "@ + nat_text(id as nat) + " out of bounds (total pages: "@ + nat_text(count as nat) + ")"@
}

/// A read of page `page_id` is refused when the file has no such page.
pub fn read_refusal(page_id: u64, page_count: u64) -> (r: Option<String>)
    ensures
        opt_text_view(r) == if page_id >= page_count {
            Some(out_of_bounds_message(page_id, page_count))
        } else {
            None::<Seq<char>>
        },
{
    if page_id >= page_count {
        let mut m = owned("Page ");
        push_u64_text(&mut m, page_id);
        m.append(" out of bounds (total pages: ");
        push_u64_text(&mut m, page_count);
        m.append(")");
        Some(m)
    } else {
        None
    }
}

/// The message for a write of a page that is not exactly one page long.
pub open spec fn invalid_page_size_message(len: nat) -> Seq<char> {
    "Invalid page size: "@ + nat_text(len) + " bytes (expected 4096)"@
}

/// A write of `len` bytes is refused unless it is exactly one page.
pub fn write_refusal(len: usize) -> (r: Option<String>)
    ensures
        opt_text_view(r) == if len != PAGE_SIZE {
            Some(invalid_page_size_message(len as nat))
        } else {
            None::<Seq<char>>
        },
{
    if len != PAGE_SIZE {
        let mut m = owned("Invalid page size: ");
        push_u64_text(&mut m, len as u64);
        m.append(" bytes (expected 4096)");
        Some(m)
    } else {
        None
    }
}

/// The message for a page count that would pass the largest `u64`.
pub open spec fn count_overflow_message(id: u64) -> Seq<char> {
    "page_count overflow for page_id "@ + nat_text(id as nat)
}

/// The page count after writing a data page (not page 0): a page past the
/// end extends the count to just after it; other writes keep it.
pub fn page_count_after_write(page_id: u64, page_count: u64) -> (r: Result<u64, String>)
    ensures
        match r {
            Ok(c) => c == if page_id >= page_count {
                page_id + 1
            } else {
                page_count as int
            },
            Err(m) => page_id >= page_count && page_id == u64::MAX && m@ == count_overflow_message(page_id),
        },
{
    if page_id >= page_count {
        if page_id == u64::MAX {
            let mut m = owned("page_count overflow for page_id ");
            push_u64_text(&mut m, page_id);
            Err(m)
        } else {
            Ok(page_id + 1)
        }
    } else {
        Ok(page_count)
    }
}

/// The first page of the file: the header's bytes, then zeros.
pub fn header_page(header: FileHeader) -> (page: Vec<u8>)
    ensures
        page@.len() == PAGE_SIZE,
        page@.subrange(0, 84) == header_bytes(header),
        forall|i: int| 84 <= i < PAGE_SIZE ==> page@[i] == 0,
{
    let mut page = header.to_bytes();
    let ghost hb = page@;
    while page.len() < PAGE_SIZE
        invariant
            84 <= page@.len() <= PAGE_SIZE,
            page@.subrange(0, 84) == hb,
            hb == header_bytes(header),
            forall|i: int| 84 <= i < page@.len() ==> page@[i] == 0,
        decreases PAGE_SIZE - page@.len(),
    {
        let ghost prev = page@;
        page.push(0u8);
        assert(page@.subrange(0, 84) =~= prev.subrange(0, 84));
    }
    page
}

} // verus!
