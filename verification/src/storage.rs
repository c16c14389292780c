//! Page storage: the backend interface, the in-memory backend, and the
//! paged-blob format that spreads a byte string over consecutive index pages.
use vstd::prelude::*;
use std::collections::HashMap;
use crate::header::{PAGE_SIZE, u32_le, le_u32_at, lemma_u32_le_roundtrip, push_u32_le};
use crate::text::{owned, push_u64_text, nat_text};

verus! {

// ===================== backends =====================

/// A page store. Its model is the map from page id to page bytes.
pub trait StorageBackend {
    /// The stored pages.
    spec fn pages(&self) -> Map<u64, Seq<u8>>;

    /// Writes of full pages and reads of stored pages always succeed.
    spec fn infallible(&self) -> bool;

    /// Stores `data` (exactly one page) at `page_id`.
    fn write_page(&mut self, page_id: u64, data: &[u8]) -> (r: Result<(), String>)
        ensures
            final(self).infallible() == old(self).infallible(),
            r is Ok ==> final(self).pages() == old(self).pages().insert(page_id, data@),
            r is Err ==> final(self).pages() == old(self).pages(),
            data@.len() != PAGE_SIZE ==> r is Err,
            old(self).infallible() && data@.len() == PAGE_SIZE ==> r is Ok,
    ;

    /// The page stored at `page_id`.
    fn read_page(&self, page_id: u64) -> (r: Result<Vec<u8>, String>)
        ensures
            r matches Ok(p) ==> self.pages().contains_key(page_id) && p@ == self.pages()[page_id],
            !self.pages().contains_key(page_id) ==> r is Err,
            self.infallible() && self.pages().contains_key(page_id) ==> r is Ok,
    ;

    /// Makes pending writes durable.
    fn sync(&mut self) -> (r: Result<(), String>)
        ensures
            final(self).pages() == old(self).pages(),
            final(self).infallible() == old(self).infallible(),
    ;

    /// The number of pages in the store.
    fn page_count(&self) -> (r: Result<u64, String>);

    /// Flushes and releases the store.
    fn close(&mut self) -> (r: Result<(), String>)
        ensures
            final(self).pages() == old(self).pages(),
            final(self).infallible() == old(self).infallible(),
    ;

    /// A name for diagnostics.
    fn backend_name(&self) -> &'static str;

    /// Whether the store was created empty.
    fn is_new(&self) -> bool;
}

/// Pages held in memory.
pub struct MemoryBackend {
    pages: HashMap<u64, Vec<u8>>,
}

fn copy_bytes(data: &[u8]) -> (r: Vec<u8>)
    ensures
        r@ == data@,
{
    let mut v: Vec<u8> = Vec::new();
    let mut i: usize = 0;
    while i < data.len()
        invariant
            i <= data@.len(),
            v@ == data@.subrange(0, i as int),
        decreases data@.len() - i,
    {
        v.push(data[i]);
        assert(v@ =~= data@.subrange(0, i + 1));
        i = i + 1;
    }
    assert(data@.subrange(0, data@.len() as int) =~= data@);
    v
}

/// The message of a write whose data is not one page long.
pub open spec fn page_size_message(len: nat) -> Seq<char> {
    "INT-051: page data must be exactly 4096 bytes, got "@ + nat_text(len)
}

/// The message of a read of a page that was never written.
pub open spec fn missing_page_message(id: u64) -> Seq<char> {
    "INT-052: page not found: "@ + nat_text(id as nat)
}

impl MemoryBackend {
    /// An empty store.
    pub fn new() -> (b: MemoryBackend)
        ensures
            b.pages() == Map::<u64, Seq<u8>>::empty(),
            b.infallible(),
    {
        let b = MemoryBackend { pages: HashMap::new() };
        assert(b.pages() =~= Map::<u64, Seq<u8>>::empty());
        b
    }

    fn page_count_internal(&self) -> (r: u64)
        ensures
            r == self.pages().dom().len(),
    {
        proof {
            assert(self.pages().dom() =~= self.pages@.dom());
        }
        self.pages.len() as u64
    }
}

impl StorageBackend for MemoryBackend {
    closed spec fn pages(&self) -> Map<u64, Seq<u8>> {
        self.pages@.map_values(|v: Vec<u8>| v@)
    }

    closed spec fn infallible(&self) -> bool {
        true
    }

    fn write_page(&mut self, page_id: u64, data: &[u8]) -> (r: Result<(), String>)
        ensures
            r is Ok <==> data@.len() == PAGE_SIZE,
            r matches Err(m) ==> m@ == page_size_message(data@.len()),
            r is Err ==> final(self).pages() == old(self).pages(),
    {
        if data.len() != PAGE_SIZE {
            let mut m = owned("INT-051: page data must be exactly 4096 bytes, got ");
            push_u64_text(&mut m, data.len() as u64);
            return Err(m);
        }
        let v = copy_bytes(data);
        self.pages.insert(page_id, v);
        assert(self.pages() =~= old(self).pages().insert(page_id, data@));
        Ok(())
    }

    fn read_page(&self, page_id: u64) -> (r: Result<Vec<u8>, String>)
        ensures
            r is Ok <==> self.pages().contains_key(page_id),
            r matches Err(m) ==> m@ == missing_page_message(page_id),
    {
        match self.pages.get(&page_id) {
            Some(v) => Ok(copy_bytes(v.as_slice())),
            None => {
                let mut m = owned("INT-052: page not found: ");
                push_u64_text(&mut m, page_id);
                Err(m)
            },
        }
    }

    fn sync(&mut self) -> (r: Result<(), String>)
        ensures
            r is Ok,
    {
        Ok(())
    }

    fn page_count(&self) -> (r: Result<u64, String>)
        ensures
            r == Ok::<u64, String>(self.pages().dom().len() as u64),
    {
        Ok(self.page_count_internal())
    }

    fn close(&mut self) -> (r: Result<(), String>)
        ensures
            r is Ok,
    {
        Ok(())
    }

    fn backend_name(&self) -> (r: &'static str)
        ensures
            r@ == "memory"@,
    {
        "memory"
    }

    fn is_new(&self) -> (r: bool)
        ensures
            r,
    {
        true
    }
}

} // verus!
