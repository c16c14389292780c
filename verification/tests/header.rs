use minigraf::header::{FileHeader, FACT_PAGE_FORMAT_PACKED, FORMAT_VERSION};

#[test]
fn test_file_header_from_bytes_v3_accepted() {
    // v3 files have a 64-byte header. from_bytes must accept them and
    // return zeroed index fields.
    let mut bytes = vec![0u8; 64];
    bytes[0..4].copy_from_slice(b"MGRF");
    bytes[4..8].copy_from_slice(&3u32.to_le_bytes()); // version = 3
    bytes[8..16].copy_from_slice(&1u64.to_le_bytes()); // page_count = 1
    let header = FileHeader::from_bytes(&bytes).unwrap();
    assert_eq!(header.version, 3);
    assert_eq!(header.eavt_root_page, 0);
    assert_eq!(header.index_checksum, 0);
}

#[test]
fn test_file_header_validation() {
    let header = FileHeader::new();
    assert!(header.validate().is_ok());

    let mut invalid = header;
    invalid.magic = *b"XXXX";
    assert!(invalid.validate().is_err());
}

#[test]
fn test_format_version_is_7() {
    assert_eq!(FORMAT_VERSION, 7);
}

#[test]
fn test_validate_accepts_version_7() {
    let mut h = FileHeader::new();
    h.version = 7;
    assert!(h.validate().is_ok());
}

#[test]
fn test_validate_page_count_must_be_positive() {
    let mut h = FileHeader::new();
    h.page_count = 0;
    let result = h.validate();
    assert!(result.is_err());
    assert!(result.unwrap_err().message().contains("page_count"));
}

#[test]
fn test_validate_eavt_root_page_bounds() {
    let mut h = FileHeader::new();
    h.page_count = 10;
    h.eavt_root_page = 10; // equal to page_count, should fail
    let result = h.validate();
    assert!(result.is_err());
    assert!(result.unwrap_err().message().contains("eavt_root_page"));

    // Should pass when 0
    h.eavt_root_page = 0;
    assert!(h.validate().is_ok());

    // Should pass when valid
    h.eavt_root_page = 5;
    assert!(h.validate().is_ok());
}

#[test]
fn test_validate_fact_page_count_bounds() {
    let mut h = FileHeader::new();
    h.page_count = 10;
    h.fact_page_count = 11; // exceeds page_count
    let result = h.validate();
    assert!(result.is_err());
    assert!(result.unwrap_err().message().contains("fact_page_count"));

    // Should pass when within bounds
    h.fact_page_count = 5;
    assert!(h.validate().is_ok());
}

#[test]
fn test_new_header_has_version_7() {
    let header = FileHeader::new();
    assert_eq!(header.version, FORMAT_VERSION);
    assert_eq!(header.version, 7);
}

#[test]
fn test_file_header_serialization_v7() {
    let header = FileHeader::new();
    let bytes = header.to_bytes();
    assert_eq!(bytes.len(), 84);
}

#[test]
fn test_file_header_roundtrip_v7() {
    let mut header = FileHeader::new();
    header.header_checksum = 0xDEAD_BEEF;
    let bytes = header.to_bytes();
    let parsed = FileHeader::from_bytes(&bytes).unwrap();
    assert_eq!(parsed.header_checksum, 0xDEAD_BEEF);
}

#[test]
fn test_file_header_v7_byte_layout_all_fields() {
    let mut h = FileHeader::new();
    h.page_count = 0x0102_0304_0506_0708_u64;
    h.node_count = 0x1112_1314_1516_1718_u64;
    h.last_checkpointed_tx_count = 0x2122_2324_2526_2728_u64;
    h.eavt_root_page = 0x3132_3334_3536_3738_u64;
    h.aevt_root_page = 0x4142_4344_4546_4748_u64;
    h.avet_root_page = 0x5152_5354_5556_5758_u64;
    h.vaet_root_page = 0x6162_6364_6566_6768_u64;
    h.index_checksum = 0x7172_7374_u32;
    h.fact_page_format = 0x02;
    h._padding = [0x00; 3];
    h.fact_page_count = 0xA1A2_A3A4_A5A6_A7A8_u64;
    h.header_checksum = 0xC1C2_C3C4_u32;

    let b = h.to_bytes();
    assert_eq!(b.len(), 84, "v7 header must be exactly 84 bytes");

    assert_eq!(&b[0..4], b"MGRF");
    assert_eq!(&b[4..8], &7u32.to_le_bytes());
    assert_eq!(&b[8..16], &0x0102_0304_0506_0708_u64.to_le_bytes());
    assert_eq!(&b[16..24], &0x1112_1314_1516_1718_u64.to_le_bytes());
    assert_eq!(&b[24..32], &0x2122_2324_2526_2728_u64.to_le_bytes());
    assert_eq!(&b[32..40], &0x3132_3334_3536_3738_u64.to_le_bytes());
    assert_eq!(&b[40..48], &0x4142_4344_4546_4748_u64.to_le_bytes());
    assert_eq!(&b[48..56], &0x5152_5354_5556_5758_u64.to_le_bytes());
    assert_eq!(&b[56..64], &0x6162_6364_6566_6768_u64.to_le_bytes());
    assert_eq!(&b[64..68], &0x7172_7374_u32.to_le_bytes());
    assert_eq!(b[68], 0x02);
    assert_eq!(&b[69..72], &[0x00u8; 3]);
    assert_eq!(&b[72..80], &0xA1A2_A3A4_A5A6_A7A8_u64.to_le_bytes());
    assert_eq!(&b[80..84], &0xC1C2_C3C4_u32.to_le_bytes());
}

#[test]
fn test_file_header_v6_reads_header_checksum_zero() {
    let mut bytes = vec![0u8; 80];
    bytes[0..4].copy_from_slice(b"MGRF");
    bytes[4..8].copy_from_slice(&6u32.to_le_bytes());
    bytes[8..16].copy_from_slice(&2u64.to_le_bytes());
    let h = FileHeader::from_bytes(&bytes).unwrap();
    assert_eq!(h.version, 6);
    assert_eq!(h.header_checksum, 0);
}

#[test]
fn test_file_header_v7_truncated_rejected() {
    let mut bytes = vec![0u8; 80];
    bytes[0..4].copy_from_slice(b"MGRF");
    bytes[4..8].copy_from_slice(&7u32.to_le_bytes());
    assert!(FileHeader::from_bytes(&bytes).is_err());
}

#[test]
fn test_validate_accepts_versions_1_to_7() {
    let mut h = FileHeader::new();
    for v in 1u32..=7 {
        h.version = v;
        assert!(h.validate().is_ok(), "version {} should be accepted", v);
    }
}

#[test]
fn test_file_header_v7_header_checksum_roundtrip() {
    let mut h = FileHeader::new();
    h.header_checksum = 42;
    let bytes = h.to_bytes();
    assert_eq!(bytes.len(), 84);
    let parsed = FileHeader::from_bytes(&bytes).unwrap();
    assert_eq!(parsed.header_checksum, 42);
}

#[test]
fn test_file_header_from_bytes_truncated_v4_rejected() {
    // A header that claims version=4 but has fewer than 72 bytes must be rejected.
    let mut bytes = vec![0u8; 68]; // only 68 bytes, not 72
    bytes[0..4].copy_from_slice(b"MGRF");
    bytes[4..8].copy_from_slice(&4u32.to_le_bytes()); // version = 4
    let result = FileHeader::from_bytes(&bytes);
    assert!(result.is_err(), "truncated v4 header must be rejected");
}

#[test]
fn test_file_header_v5_fact_page_format_roundtrip() {
    let mut h = FileHeader::new();
    h.fact_page_format = FACT_PAGE_FORMAT_PACKED;
    let bytes = h.to_bytes();
    let parsed = FileHeader::from_bytes(&bytes).unwrap();
    assert_eq!(parsed.fact_page_format, FACT_PAGE_FORMAT_PACKED);
}

#[test]
fn test_v4_header_reads_fact_page_format_zero() {
    // v4 header has _padding = 0, so fact_page_format must come back as 0
    let mut bytes = vec![0u8; 72];
    bytes[0..4].copy_from_slice(b"MGRF");
    bytes[4..8].copy_from_slice(&4u32.to_le_bytes()); // version = 4
    bytes[8..16].copy_from_slice(&2u64.to_le_bytes()); // page_count = 2
    let h = FileHeader::from_bytes(&bytes).unwrap();
    assert_eq!(h.fact_page_format, 0);
}

#[test]
fn test_validate_accepts_version_5() {
    let mut h = FileHeader::new();
    h.version = 5;
    assert!(h.validate().is_ok());
}


#[test]
fn from_bytes_too_short_returns_stg_001() {
    let bytes = vec![0u8; 10]; // < 64 bytes
    let err = FileHeader::from_bytes(&bytes).expect_err("10 bytes is too short");
    assert_eq!(err.code(), "STG-001");
}

#[test]
fn from_bytes_v4_too_short_returns_stg_003() {
    let mut bytes = vec![0u8; 70]; // >= 64, < 72
    bytes[0..4].copy_from_slice(b"MGRF");
    bytes[4..8].copy_from_slice(&4u32.to_le_bytes()); // version = 4
    let err = FileHeader::from_bytes(&bytes).expect_err("70 bytes is too short for v4");
    assert_eq!(err.code(), "STG-003");
}

#[test]
fn from_bytes_v6_too_short_returns_stg_004() {
    let mut bytes = vec![0u8; 75]; // >= 72, < 80
    bytes[0..4].copy_from_slice(b"MGRF");
    bytes[4..8].copy_from_slice(&6u32.to_le_bytes()); // version = 6
    let err = FileHeader::from_bytes(&bytes).expect_err("75 bytes is too short for v6");
    assert_eq!(err.code(), "STG-004");
}

#[test]
fn from_bytes_v7_too_short_returns_stg_005() {
    let mut bytes = vec![0u8; 82]; // >= 80, < 84
    bytes[0..4].copy_from_slice(b"MGRF");
    bytes[4..8].copy_from_slice(&7u32.to_le_bytes()); // version = 7
    let err = FileHeader::from_bytes(&bytes).expect_err("82 bytes is too short for v7");
    assert_eq!(err.code(), "STG-005");
}
