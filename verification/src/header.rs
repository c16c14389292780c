//! The `.graph` file header: its byte layout, decoding of every format
//! version and the consistency checks applied before a file is used.
//!
//! Layout (all fields little-endian), 84 bytes in the current version:
//!   0..4 magic "MGRF", 4..8 version, 8..16 page_count, 16..24 node_count,
//!   24..32 last_checkpointed_tx_count, 32..40 eavt_root_page,
//!   40..48 aevt_root_page, 48..56 avet_root_page, 56..64 vaet_root_page,
//!   64..68 index_checksum, 68 fact_page_format, 69..72 padding,
//!   72..80 fact_page_count (version 6 on), 80..84 header_checksum (version 7 on).
use vstd::prelude::*;
use crate::text::{owned, push_u64_text, nat_text};

verus! {

/// Page size for the storage engine.
pub const PAGE_SIZE: usize = 4096;

/// Current file format version.
pub const FORMAT_VERSION: u32 = 7;

/// fact_page_format: legacy one fact per page.
pub const FACT_PAGE_FORMAT_ONE_PER_PAGE: u8 = 0x01;

/// fact_page_format: packed pages.
pub const FACT_PAGE_FORMAT_PACKED: u8 = 0x02;

/// The magic bytes "MGRF" at the start of every file.
pub open spec fn magic_seq() -> Seq<u8> {
    seq![0x4Du8, 0x47u8, 0x52u8, 0x46u8]
}

/// The magic number "MGRF".
pub fn magic_number() -> (m: [u8; 4])
    ensures
        m@ == magic_seq(),
{
    let m: [u8; 4] = [0x4Du8, 0x47u8, 0x52u8, 0x46u8];
    assert(m@ =~= magic_seq());
    m
}

// ----- little-endian encoding -----

/// The four little-endian bytes of `x`.
pub open spec fn u32_le(x: u32) -> Seq<u8> {
    seq![x as u8, (x >> 8u32) as u8, (x >> 16u32) as u8, (x >> 24u32) as u8]
}

/// The eight little-endian bytes of `x`.
pub open spec fn u64_le(x: u64) -> Seq<u8> {
    seq![
        x as u8,
        (x >> 8u64) as u8,
        (x >> 16u64) as u8,
        (x >> 24u64) as u8,
        (x >> 32u64) as u8,
        (x >> 40u64) as u8,
        (x >> 48u64) as u8,
        (x >> 56u64) as u8,
    ]
}

/// The `u32` whose little-endian bytes start at `off` in `b`.
pub open spec fn le_u32_at(b: Seq<u8>, off: int) -> u32 {
    (b[off] as u32) | ((b[off + 1] as u32) << 8u32) | ((b[off + 2] as u32) << 16u32) | ((b[off
        + 3] as u32) << 24u32)
}

/// The `u64` whose little-endian bytes start at `off` in `b`.
pub open spec fn le_u64_at(b: Seq<u8>, off: int) -> u64 {
    (b[off] as u64) | ((b[off + 1] as u64) << 8u64) | ((b[off + 2] as u64) << 16u64) | ((b[off
        + 3] as u64) << 24u64) | ((b[off + 4] as u64) << 32u64) | ((b[off + 5] as u64) << 40u64)
        | ((b[off + 6] as u64) << 48u64) | ((b[off + 7] as u64) << 56u64)
}

/// Decoding the encoding of a `u32` gives it back.
pub proof fn lemma_u32_le_roundtrip(x: u32, b: Seq<u8>, off: int)
    requires
        0 <= off,
        off + 4 <= b.len(),
        b.subrange(off, off + 4) == u32_le(x),
    ensures
        le_u32_at(b, off) == x,
{
    assert(b[off] == u32_le(x)[0]);
    assert(b[off + 1] == u32_le(x)[1]);
    assert(b[off + 2] == u32_le(x)[2]);
    assert(b[off + 3] == u32_le(x)[3]);
    assert(((x as u8) as u32) | ((((x >> 8u32) as u8) as u32) << 8u32) | ((((x >> 16u32) as u8) as u32) << 16u32)
        | ((((x >> 24u32) as u8) as u32) << 24u32) == x) by (bit_vector);
}

/// Decoding the encoding of a `u64` gives it back.
pub proof fn lemma_u64_le_roundtrip(x: u64, b: Seq<u8>, off: int)
    requires
        0 <= off,
        off + 8 <= b.len(),
        b.subrange(off, off + 8) == u64_le(x),
    ensures
        le_u64_at(b, off) == x,
{
    assert(b[off] == u64_le(x)[0]);
    assert(b[off + 1] == u64_le(x)[1]);
    assert(b[off + 2] == u64_le(x)[2]);
    assert(b[off + 3] == u64_le(x)[3]);
    assert(b[off + 4] == u64_le(x)[4]);
    assert(b[off + 5] == u64_le(x)[5]);
    assert(b[off + 6] == u64_le(x)[6]);
    assert(b[off + 7] == u64_le(x)[7]);
    assert(((x as u8) as u64) | ((((x >> 8u64) as u8) as u64) << 8u64) | ((((x >> 16u64) as u8) as u64) << 16u64)
        | ((((x >> 24u64) as u8) as u64) << 24u64) | ((((x >> 32u64) as u8) as u64) << 32u64)
        | ((((x >> 40u64) as u8) as u64) << 40u64) | ((((x >> 48u64) as u8) as u64) << 48u64)
        | ((((x >> 56u64) as u8) as u64) << 56u64) == x) by (bit_vector);
}

pub(crate) fn push_u32_le(b: &mut Vec<u8>, x: u32)
    ensures
        final(b)@ == old(b)@ + u32_le(x),
{
    b.push(x as u8);
    b.push((x >> 8u32) as u8);
    b.push((x >> 16u32) as u8);
    b.push((x >> 24u32) as u8);
    assert(b@ =~= old(b)@ + u32_le(x));
}

fn push_u64_le(b: &mut Vec<u8>, x: u64)
    ensures
        final(b)@ == old(b)@ + u64_le(x),
{
    b.push(x as u8);
    b.push((x >> 8u64) as u8);
    b.push((x >> 16u64) as u8);
    b.push((x >> 24u64) as u8);
    b.push((x >> 32u64) as u8);
    b.push((x >> 40u64) as u8);
    b.push((x >> 48u64) as u8);
    b.push((x >> 56u64) as u8);
    assert(b@ =~= old(b)@ + u64_le(x));
}

// ----- errors -----

/// Why a header could not be decoded or is not consistent.
#[derive(Debug, Clone, PartialEq, Eq)]
pub enum HeaderError {
    /// Fewer than 64 bytes (STG-001).
    TooShort { len: usize },
    /// The first four bytes are not "MGRF" (STG-002).
    BadMagic,
    /// A version 4+ header with fewer than 72 bytes (STG-003).
    TooShortV4 { len: usize },
    /// A version 6+ header with fewer than 80 bytes (STG-004).
    TooShortV6 { len: usize },
    /// A version 7+ header with fewer than 84 bytes (STG-005).
    TooShortV7 { len: usize },
    /// The version is 0 or newer than this library (STG-006).
    UnsupportedVersion { version: u32, max: u32 },
    /// page_count is zero (STG-007).
    ZeroPageCount,
    /// eavt_root_page is set but not below page_count (STG-008).
    EavtRootOutOfBounds { root: u64, page_count: u64 },
    /// fact_page_count exceeds page_count (STG-009).
    FactPageCountOutOfBounds { fact_page_count: u64, page_count: u64 },
    /// The magic number of an in-memory header is wrong.
    InvalidMagic,
    /// A field read ran past the end of the buffer.
    Truncated { end: usize, len: usize },
}

/// The stable error code of each header error.
pub open spec fn code_of(e: HeaderError) -> Seq<char> {
    match e {
        HeaderError::TooShort { .. } => "STG-001"@,
        HeaderError::BadMagic => "STG-002"@,
        HeaderError::TooShortV4 { .. } => "STG-003"@,
        HeaderError::TooShortV6 { .. } => "STG-004"@,
        HeaderError::TooShortV7 { .. } => "STG-005"@,
        HeaderError::UnsupportedVersion { .. } => "STG-006"@,
        HeaderError::ZeroPageCount => "STG-007"@,
        HeaderError::EavtRootOutOfBounds { .. } => "STG-008"@,
        HeaderError::FactPageCountOutOfBounds { .. } => "STG-009"@,
        HeaderError::InvalidMagic => "STG-010"@,
        HeaderError::Truncated { .. } => "STG-011"@,
    }
}

/// The human-readable text of each header error.
pub open spec fn message_of(e: HeaderError) -> Seq<char> {
    match e {
        HeaderError::TooShort { len } =>
            "STG-001: header too short: need at least 64 bytes, got "@ + nat_text(len as nat),
        HeaderError::BadMagic => "STG-002: bad magic number (not a .graph file)"@,
        HeaderError::TooShortV4 { len } =>
            "STG-003: header too short for version 4+: need 72 bytes, got "@ + nat_text(len as nat),
        HeaderError::TooShortV6 { len } =>
            "STG-004: header too short for version 6+: need 80 bytes, got "@ + nat_text(len as nat),
        HeaderError::TooShortV7 { len } =>
            "STG-005: header too short for version 7+: need 84 bytes, got "@ + nat_text(len as nat),
        HeaderError::UnsupportedVersion { version, max } =>
            "STG-006: unsupported format version "@ + nat_text(version as nat)
                + " (supported: 1.."@ + nat_text(max as nat) + ")"@,
        HeaderError::ZeroPageCount => "STG-007: page_count must be at least 1"@,
        HeaderError::EavtRootOutOfBounds { root, page_count } =>
            "STG-008: eavt_root_page "@ + nat_text(root as nat) + " is not below page_count "@
                + nat_text(page_count as nat),
        HeaderError::FactPageCountOutOfBounds { fact_page_count, page_count } =>
            "STG-009: fact_page_count "@ + nat_text(fact_page_count as nat)
                + " exceeds page_count "@ + nat_text(page_count as nat),
        HeaderError::InvalidMagic => "Invalid magic number"@,
        HeaderError::Truncated { end, len } =>
            "header too short: need "@ + nat_text(end as nat) + " bytes, got "@ + nat_text(
                len as nat,
            ),
    }
}

impl HeaderError {
    /// The stable error code, such as "STG-001".
    pub fn code(&self) -> (r: &'static str)
        ensures
            r@ == code_of(*self),
    {
        match self {
            HeaderError::TooShort { .. } => "STG-001",
            HeaderError::BadMagic => "STG-002",
            HeaderError::TooShortV4 { .. } => "STG-003",
            HeaderError::TooShortV6 { .. } => "STG-004",
            HeaderError::TooShortV7 { .. } => "STG-005",
            HeaderError::UnsupportedVersion { .. } => "STG-006",
            HeaderError::ZeroPageCount => "STG-007",
            HeaderError::EavtRootOutOfBounds { .. } => "STG-008",
            HeaderError::FactPageCountOutOfBounds { .. } => "STG-009",
            HeaderError::InvalidMagic => "STG-010",
            HeaderError::Truncated { .. } => "STG-011",
        }
    }

    /// The human-readable message.
    pub fn message(&self) -> (r: String)
        ensures
            r@ == message_of(*self),
    {
        match self {
            HeaderError::TooShort { len } => {
                let mut s = owned("STG-001: header too short: need at least 64 bytes, got ");
                push_u64_text(&mut s, *len as u64);
                s
            },
            HeaderError::BadMagic => owned("STG-002: bad magic number (not a .graph file)"),
            HeaderError::TooShortV4 { len } => {
                let mut s = owned("STG-003: header too short for version 4+: need 72 bytes, got ");
                push_u64_text(&mut s, *len as u64);
                s
            },
            HeaderError::TooShortV6 { len } => {
                let mut s = owned("STG-004: header too short for version 6+: need 80 bytes, got ");
                push_u64_text(&mut s, *len as u64);
                s
            },
            HeaderError::TooShortV7 { len } => {
                let mut s = owned("STG-005: header too short for version 7+: need 84 bytes, got ");
                push_u64_text(&mut s, *len as u64);
                s
            },
            HeaderError::UnsupportedVersion { version, max } => {
                let mut s = owned("STG-006: unsupported format version ");
                push_u64_text(&mut s, *version as u64);
                s.append(" (supported: 1..");
                push_u64_text(&mut s, *max as u64);
                s.append(")");
                s
            },
            HeaderError::ZeroPageCount => owned("STG-007: page_count must be at least 1"),
            HeaderError::EavtRootOutOfBounds { root, page_count } => {
                let mut s = owned("STG-008: eavt_root_page ");
                push_u64_text(&mut s, *root);
                s.append(" is not below page_count ");
                push_u64_text(&mut s, *page_count);
                s
            },
            HeaderError::FactPageCountOutOfBounds { fact_page_count, page_count } => {
                let mut s = owned("STG-009: fact_page_count ");
                push_u64_text(&mut s, *fact_page_count);
                s.append(" exceeds page_count ");
                push_u64_text(&mut s, *page_count);
                s
            },
            HeaderError::InvalidMagic => owned("Invalid magic number"),
            HeaderError::Truncated { end, len } => {
                let mut s = owned("header too short: need ");
                push_u64_text(&mut s, *end as u64);
                s.append(" bytes, got ");
                push_u64_text(&mut s, *len as u64);
                s
            },
        }
    }
}


/// The file header of a `.graph` file.
#[derive(Debug, Clone, Copy)]
pub struct FileHeader {
    pub magic: [u8; 4],
    pub version: u32,
    pub page_count: u64,
    /// Reused as the fact count.
    pub node_count: u64,
    pub last_checkpointed_tx_count: u64,
    pub eavt_root_page: u64,
    pub aevt_root_page: u64,
    pub avet_root_page: u64,
    pub vaet_root_page: u64,
    pub index_checksum: u32,
    /// 0x00 = unset/legacy, 0x01 = one fact per page, 0x02 = packed.
    pub fact_page_format: u8,
    pub _padding: [u8; 3],
    /// Number of pages (from page 1) holding committed facts; zero before version 6.
    pub fact_page_count: u64,
    /// Checksum of the first 80 header bytes; zero before version 7.
    pub header_checksum: u32,
}

/// The serialized form of a header: every field in layout order.
pub open spec fn header_bytes(h: FileHeader) -> Seq<u8> {
    h.magic@ + u32_le(h.version) + u64_le(h.page_count) + u64_le(h.node_count) + u64_le(
        h.last_checkpointed_tx_count,
    ) + u64_le(h.eavt_root_page) + u64_le(h.aevt_root_page) + u64_le(h.avet_root_page) + u64_le(
        h.vaet_root_page,
    ) + u32_le(h.index_checksum) + seq![h.fact_page_format] + h._padding@ + u64_le(
        h.fact_page_count,
    ) + u32_le(h.header_checksum)
}

/// Which error, if any, decoding `b` gives.
pub open spec fn decode_error(b: Seq<u8>) -> Option<HeaderError> {
    if b.len() < 64 {
        Some(HeaderError::TooShort { len: b.len() as usize })
    } else if b.subrange(0, 4) != magic_seq() {
        Some(HeaderError::BadMagic)
    } else if le_u32_at(b, 4) <= 3 {
        None
    } else if b.len() < 72 {
        Some(HeaderError::TooShortV4 { len: b.len() as usize })
    } else if le_u32_at(b, 4) >= 6 && b.len() < 80 {
        Some(HeaderError::TooShortV6 { len: b.len() as usize })
    } else if le_u32_at(b, 4) >= 7 && b.len() < 84 {
        Some(HeaderError::TooShortV7 { len: b.len() as usize })
    } else {
        None
    }
}

/// `h` is the header decoded from `b` (given that decoding succeeds): the
/// fields of version 3 and earlier headers that the format did not yet hold
/// are zero, as are fact_page_count before version 6 and header_checksum
/// before version 7.
pub open spec fn decodes_to(b: Seq<u8>, h: FileHeader) -> bool {
    let version = le_u32_at(b, 4);
    &&& h.magic@ == b.subrange(0, 4)
    &&& h.version == version
    &&& h.page_count == le_u64_at(b, 8)
    &&& h.node_count == le_u64_at(b, 16)
    &&& h.last_checkpointed_tx_count == le_u64_at(b, 24)
    &&& if version <= 3 {
        &&& h.eavt_root_page == 0
        &&& h.aevt_root_page == 0
        &&& h.avet_root_page == 0
        &&& h.vaet_root_page == 0
        &&& h.index_checksum == 0
        &&& h.fact_page_format == 0
        &&& h._padding@ == seq![0u8, 0u8, 0u8]
        &&& h.fact_page_count == 0
        &&& h.header_checksum == 0
    } else {
        &&& h.eavt_root_page == le_u64_at(b, 32)
        &&& h.aevt_root_page == le_u64_at(b, 40)
        &&& h.avet_root_page == le_u64_at(b, 48)
        &&& h.vaet_root_page == le_u64_at(b, 56)
        &&& h.index_checksum == le_u32_at(b, 64)
        &&& h.fact_page_format == b[68]
        &&& h._padding@ == b.subrange(69, 72)
        &&& h.fact_page_count == (if version >= 6 { le_u64_at(b, 72) } else { 0 })
        &&& h.header_checksum == (if version >= 7 { le_u32_at(b, 80) } else { 0 })
    }
}

/// Which consistency rule, if any, a header breaks (checked in this order).
pub open spec fn validate_error(h: FileHeader) -> Option<HeaderError> {
    if h.magic@ != magic_seq() {
        Some(HeaderError::InvalidMagic)
    } else if h.version < 1 || h.version > FORMAT_VERSION {
        Some(HeaderError::UnsupportedVersion { version: h.version, max: FORMAT_VERSION })
    } else if h.page_count == 0 {
        Some(HeaderError::ZeroPageCount)
    } else if h.eavt_root_page != 0 && h.eavt_root_page >= h.page_count {
        Some(HeaderError::EavtRootOutOfBounds { root: h.eavt_root_page, page_count: h.page_count })
    } else if h.fact_page_count > h.page_count {
        Some(
            HeaderError::FactPageCountOutOfBounds {
                fact_page_count: h.fact_page_count,
                page_count: h.page_count,
            },
        )
    } else {
        None
    }
}

/// Reads a little-endian `u32` at `offset`.
pub fn read_u32_le(bytes: &[u8], offset: usize) -> (r: Result<u32, HeaderError>)
    ensures
        offset + 4 <= bytes@.len() ==> r == Ok::<u32, HeaderError>(le_u32_at(bytes@, offset as int)),
        offset + 4 > bytes@.len() ==> r == Err::<u32, HeaderError>(
            HeaderError::Truncated {
                end: if offset + 4 <= usize::MAX { (offset + 4) as usize } else { usize::MAX },
                len: bytes@.len() as usize,
            },
        ),
{
    if offset > bytes.len() || bytes.len() - offset < 4 {
        let end: usize = if offset <= usize::MAX - 4 { offset + 4 } else { usize::MAX };
        return Err(HeaderError::Truncated { end, len: bytes.len() });
    }
    Ok((bytes[offset] as u32) | ((bytes[offset + 1] as u32) << 8u32) | ((bytes[offset + 2] as u32)
        << 16u32) | ((bytes[offset + 3] as u32) << 24u32))
}

/// Reads a little-endian `u64` at `offset`.
pub fn read_u64_le(bytes: &[u8], offset: usize) -> (r: Result<u64, HeaderError>)
    ensures
        offset + 8 <= bytes@.len() ==> r == Ok::<u64, HeaderError>(le_u64_at(bytes@, offset as int)),
        offset + 8 > bytes@.len() ==> r == Err::<u64, HeaderError>(
            HeaderError::Truncated {
                end: if offset + 8 <= usize::MAX { (offset + 8) as usize } else { usize::MAX },
                len: bytes@.len() as usize,
            },
        ),
{
    if offset > bytes.len() || bytes.len() - offset < 8 {
        let end: usize = if offset <= usize::MAX - 8 { offset + 8 } else { usize::MAX };
        return Err(HeaderError::Truncated { end, len: bytes.len() });
    }
    Ok((bytes[offset] as u64) | ((bytes[offset + 1] as u64) << 8u64) | ((bytes[offset + 2] as u64)
        << 16u64) | ((bytes[offset + 3] as u64) << 24u64) | ((bytes[offset + 4] as u64) << 32u64)
        | ((bytes[offset + 5] as u64) << 40u64) | ((bytes[offset + 6] as u64) << 48u64) | ((bytes[offset
        + 7] as u64) << 56u64))
}

fn magic_ok(m: &[u8; 4]) -> (r: bool)
    ensures
        r == (m@ == magic_seq()),
{
    let r = m[0] == 0x4Du8 && m[1] == 0x47u8 && m[2] == 0x52u8 && m[3] == 0x46u8;
    proof {
        if r {
            assert(m@ =~= magic_seq());
        } else {
            if m@ == magic_seq() {
                assert(m@[0] == 0x4Du8 && m@[1] == 0x47u8 && m@[2] == 0x52u8 && m@[3] == 0x46u8);
            }
        }
    }
    r
}

impl FileHeader {
    /// A header for a fresh file: current version, one page (the header page),
    /// packed fact pages, every other field zero.
    pub fn new() -> (h: Self)
        ensures
            h.magic@ == magic_seq(),
            h.version == FORMAT_VERSION,
            h.page_count == 1,
            h.node_count == 0,
            h.last_checkpointed_tx_count == 0,
            h.eavt_root_page == 0,
            h.aevt_root_page == 0,
            h.avet_root_page == 0,
            h.vaet_root_page == 0,
            h.index_checksum == 0,
            h.fact_page_format == FACT_PAGE_FORMAT_PACKED,
            h._padding@ == seq![0u8, 0u8, 0u8],
            h.fact_page_count == 0,
            h.header_checksum == 0,
    {
        let pad: [u8; 3] = [0u8; 3];
        assert(pad@ =~= seq![0u8, 0u8, 0u8]);
        FileHeader {
            magic: magic_number(),
            version: FORMAT_VERSION,
            page_count: 1,
            node_count: 0,
            last_checkpointed_tx_count: 0,
            eavt_root_page: 0,
            aevt_root_page: 0,
            avet_root_page: 0,
            vaet_root_page: 0,
            index_checksum: 0,
            fact_page_format: FACT_PAGE_FORMAT_PACKED,
            _padding: pad,
            fact_page_count: 0,
            header_checksum: 0,
        }
    }

    /// Serializes the header: 84 bytes in layout order.
    pub fn to_bytes(self) -> (b: Vec<u8>)
        ensures
            b@ == header_bytes(self),
            b@.len() == 84,
    {
        let mut b: Vec<u8> = Vec::with_capacity(84);
        b.push(self.magic[0]);
        b.push(self.magic[1]);
        b.push(self.magic[2]);
        b.push(self.magic[3]);
        assert(b@ =~= self.magic@);
        push_u32_le(&mut b, self.version);
        push_u64_le(&mut b, self.page_count);
        push_u64_le(&mut b, self.node_count);
        push_u64_le(&mut b, self.last_checkpointed_tx_count);
        push_u64_le(&mut b, self.eavt_root_page);
        push_u64_le(&mut b, self.aevt_root_page);
        push_u64_le(&mut b, self.avet_root_page);
        push_u64_le(&mut b, self.vaet_root_page);
        push_u32_le(&mut b, self.index_checksum);
        b.push(self.fact_page_format);
        let ghost before_pad = b@;
        b.push(self._padding[0]);
        b.push(self._padding[1]);
        b.push(self._padding[2]);
        assert(b@ =~= before_pad + self._padding@);
        push_u64_le(&mut b, self.fact_page_count);
        push_u32_le(&mut b, self.header_checksum);
        b
    }

    /// Decodes a header of any version from 1 to 7 (and newer, whose extra
    /// bytes are ignored). Version 3 and earlier need 64 bytes, versions 4 and
    /// 5 need 72, version 6 needs 80 and version 7 on needs 84.
    pub fn from_bytes(bytes: &[u8]) -> (r: Result<Self, HeaderError>)
        ensures
            match r {
                Ok(h) => decode_error(bytes@) is None && decodes_to(bytes@, h),
                Err(e) => decode_error(bytes@) == Some(e),
            },
    {
        let len = bytes.len();
        if len < 64 {
            return Err(HeaderError::TooShort { len });
        }
        let magic: [u8; 4] = [bytes[0], bytes[1], bytes[2], bytes[3]];
        assert(magic@ =~= bytes@.subrange(0, 4));
        if !magic_ok(&magic) {
            return Err(HeaderError::BadMagic);
        }
        let version = read_u32_le(bytes, 4)?;
        let page_count = read_u64_le(bytes, 8)?;
        let node_count = read_u64_le(bytes, 16)?;
        let last_checkpointed_tx_count = read_u64_le(bytes, 24)?;
        if version <= 3 {
            let pad: [u8; 3] = [0u8; 3];
            assert(pad@ =~= seq![0u8, 0u8, 0u8]);
            return Ok(
                FileHeader {
                    magic,
                    version,
                    page_count,
                    node_count,
                    last_checkpointed_tx_count,
                    eavt_root_page: 0,
                    aevt_root_page: 0,
                    avet_root_page: 0,
                    vaet_root_page: 0,
                    index_checksum: 0,
                    fact_page_format: 0,
                    _padding: pad,
                    fact_page_count: 0,
                    header_checksum: 0,
                },
            );
        }
        if len < 72 {
            return Err(HeaderError::TooShortV4 { len });
        }
        let fact_page_count = if version >= 6 {
            if len < 80 {
                return Err(HeaderError::TooShortV6 { len });
            }
            read_u64_le(bytes, 72)?
        } else {
            0
        };
        let header_checksum = if version >= 7 {
            if len < 84 {
                return Err(HeaderError::TooShortV7 { len });
            }
            read_u32_le(bytes, 80)?
        } else {
            0
        };
        let pad: [u8; 3] = [bytes[69], bytes[70], bytes[71]];
        assert(pad@ =~= bytes@.subrange(69, 72));
        Ok(
            FileHeader {
                magic,
                version,
                page_count,
                node_count,
                last_checkpointed_tx_count,
                eavt_root_page: read_u64_le(bytes, 32)?,
                aevt_root_page: read_u64_le(bytes, 40)?,
                avet_root_page: read_u64_le(bytes, 48)?,
                vaet_root_page: read_u64_le(bytes, 56)?,
                index_checksum: read_u32_le(bytes, 64)?,
                fact_page_format: bytes[68],
                _padding: pad,
                fact_page_count,
                header_checksum,
            },
        )
    }

    /// Checks the header's consistency: magic, supported version, at least one
    /// page, eavt_root_page (when set) below page_count, and fact_page_count
    /// not above page_count.
    pub fn validate(&self) -> (r: Result<(), HeaderError>)
        ensures
            match r {
                Ok(()) => validate_error(*self) is None,
                Err(e) => validate_error(*self) == Some(e),
            },
    {
        if !magic_ok(&self.magic) {
            return Err(HeaderError::InvalidMagic);
        }
        if self.version < 1 || self.version > FORMAT_VERSION {
            return Err(HeaderError::UnsupportedVersion { version: self.version, max: FORMAT_VERSION });
        }
        if self.page_count == 0 {
            return Err(HeaderError::ZeroPageCount);
        }
        if self.eavt_root_page != 0 && self.eavt_root_page >= self.page_count {
            return Err(
                HeaderError::EavtRootOutOfBounds {
                    root: self.eavt_root_page,
                    page_count: self.page_count,
                },
            );
        }
        if self.fact_page_count > self.page_count {
            return Err(
                HeaderError::FactPageCountOutOfBounds {
                    fact_page_count: self.fact_page_count,
                    page_count: self.page_count,
                },
            );
        }
        Ok(())
    }
}

/// A fresh header is consistent.
pub proof fn lemma_new_header_is_valid(h: FileHeader)
    requires
        h.magic@ == magic_seq(),
        h.version == FORMAT_VERSION,
        h.page_count == 1,
        h.eavt_root_page == 0,
        h.fact_page_count == 0,
    ensures
        validate_error(h) is None,
{
}

/// Serializing a header of the current format (magic "MGRF", version 7 or
/// later) and decoding the bytes gives back the same header, field for field.
pub proof fn lemma_header_roundtrip(h: FileHeader)
    requires
        h.magic@ == magic_seq(),
        h.version >= 7,
    ensures
        decode_error(header_bytes(h)) is None,
        decodes_to(header_bytes(h), h),
        header_bytes(h).len() == 84,
{
    let b = header_bytes(h);
    assert(h.magic@.len() == 4);
    assert(h._padding@.len() == 3);
    assert(b.len() == 84);
    assert(b.subrange(0, 4) =~= h.magic@);
    assert(b.subrange(4, 8) =~= u32_le(h.version));
    lemma_u32_le_roundtrip(h.version, b, 4);
    assert(b.subrange(8, 16) =~= u64_le(h.page_count));
    lemma_u64_le_roundtrip(h.page_count, b, 8);
    assert(b.subrange(16, 24) =~= u64_le(h.node_count));
    lemma_u64_le_roundtrip(h.node_count, b, 16);
    assert(b.subrange(24, 32) =~= u64_le(h.last_checkpointed_tx_count));
    lemma_u64_le_roundtrip(h.last_checkpointed_tx_count, b, 24);
    assert(b.subrange(32, 40) =~= u64_le(h.eavt_root_page));
    lemma_u64_le_roundtrip(h.eavt_root_page, b, 32);
    assert(b.subrange(40, 48) =~= u64_le(h.aevt_root_page));
    lemma_u64_le_roundtrip(h.aevt_root_page, b, 40);
    assert(b.subrange(48, 56) =~= u64_le(h.avet_root_page));
    lemma_u64_le_roundtrip(h.avet_root_page, b, 48);
    assert(b.subrange(56, 64) =~= u64_le(h.vaet_root_page));
    lemma_u64_le_roundtrip(h.vaet_root_page, b, 56);
    assert(b.subrange(64, 68) =~= u32_le(h.index_checksum));
    lemma_u32_le_roundtrip(h.index_checksum, b, 64);
    assert(b[68] == h.fact_page_format);
    assert(b.subrange(69, 72) =~= h._padding@);
    assert(b.subrange(72, 80) =~= u64_le(h.fact_page_count));
    lemma_u64_le_roundtrip(h.fact_page_count, b, 72);
    assert(b.subrange(80, 84) =~= u32_le(h.header_checksum));
    lemma_u32_le_roundtrip(h.header_checksum, b, 80);
}

} // verus!
