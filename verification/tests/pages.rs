use minigraf::btree::{read_blob, write_all_indexes, write_blob, DATA_BYTES_PER_PAGE};
use minigraf::header::PAGE_SIZE;
use minigraf::packed::{pack_records, read_all_from_pages, read_slot, MAX_FACT_BYTES, PACKED_HEADER_SIZE, PAGE_TYPE_PACKED};
use minigraf::storage::{MemoryBackend, StorageBackend};

fn record(i: usize, len: usize) -> Vec<u8> {
    (0..len).map(|k| ((i * 31 + k) % 251) as u8).collect()
}

#[test]
fn packed_records_read_back_by_slot() {
    let records: Vec<Vec<u8>> = (0..30).map(|i| record(i, 60 + i)).collect();
    let (pages, refs) = pack_records(&records, 1).unwrap();
    assert_eq!(refs.len(), 30);
    for (i, rec) in records.iter().enumerate() {
        let (page_id, slot) = refs[i];
        let page = &pages[(page_id - 1) as usize];
        assert_eq!(&read_slot(page, slot).unwrap(), rec, "record {} mismatched", i);
    }
}

#[test]
fn many_records_share_pages() {
    let records: Vec<Vec<u8>> = (0..50).map(|i| record(i, 100)).collect();
    let (pages, refs) = pack_records(&records, 1).unwrap();
    assert!(pages.len() < 50);
    assert_eq!(refs.len(), 50);
    assert!(pages.iter().all(|p| p.len() == PAGE_SIZE && p[0] == PAGE_TYPE_PACKED));
}

#[test]
fn packed_page_header_and_directory_layout() {
    let records: Vec<Vec<u8>> = (0..3).map(|i| record(i, 40)).collect();
    let (pages, refs) = pack_records(&records, 7).unwrap();
    let page = &pages[0];
    assert_eq!(page[0], 0x02);
    assert_eq!(page[1], 0x00);
    assert_eq!(u16::from_le_bytes([page[2], page[3]]), 3);
    assert_eq!(&page[4..12], &0u64.to_le_bytes());
    // the first record is written at the end of the page
    let offset = u16::from_le_bytes([page[12], page[13]]) as usize;
    let length = u16::from_le_bytes([page[14], page[15]]) as usize;
    assert_eq!(length, 40);
    assert_eq!(offset, PAGE_SIZE - 40);
    assert!(offset >= PACKED_HEADER_SIZE + 4);
    assert_eq!(&page[offset..offset + length], &records[0][..]);
    assert_eq!(refs, vec![(7, 0), (7, 1), (7, 2)]);
}

#[test]
fn no_records_give_one_empty_page() {
    let (pages, refs) = pack_records(&vec![], 1).unwrap();
    assert_eq!(pages.len(), 1);
    assert!(refs.is_empty());
    assert_eq!(u16::from_le_bytes([pages[0][2], pages[0][3]]), 0);
}

#[test]
fn a_record_that_does_not_fit_starts_a_new_page() {
    let records = vec![record(0, 3000), record(1, 2000), record(2, MAX_FACT_BYTES)];
    let (pages, refs) = pack_records(&records, 10).unwrap();
    assert_eq!(pages.len(), 3);
    assert_eq!(refs, vec![(10, 0), (11, 0), (12, 0)]);
}

#[test]
fn oversized_record_is_an_error() {
    let records = vec![record(0, 10), record(1, MAX_FACT_BYTES + 1)];
    let err = pack_records(&records, 1).unwrap_err();
    assert_eq!(err, "Fact serialised size 4081 bytes exceeds maximum slot size 4080 bytes");
}

#[test]
fn read_slot_wrong_page_type_returns_stg_014() {
    let (mut pages, _) = pack_records(&vec![record(1, 40)], 1).unwrap();
    pages[0][0] = 0x01;
    let err = read_slot(&pages[0], 0).expect_err("wrong page type must fail to read");
    assert!(err.starts_with("STG-014"), "got {}", err);
    assert_eq!(err, "STG-014: unexpected packed page type 0x01");
}

#[test]
fn read_slot_record_beyond_page_boundary_returns_stg_015() {
    let (mut pages, _) = pack_records(&vec![record(1, 40)], 1).unwrap();
    pages[0][14] = 0xFF;
    pages[0][15] = 0xFF;
    let err = read_slot(&pages[0], 0).expect_err("a record extending past the page boundary must fail to read");
    assert!(err.starts_with("STG-015"), "got {}", err);
}

#[test]
fn read_slot_reports_a_short_page_and_a_slot_past_the_count() {
    let (pages, _) = pack_records(&vec![record(0, 20)], 1).unwrap();
    assert_eq!(read_slot(&pages[0], 1).unwrap_err(), "Slot 1 out of bounds (page has 1 records)");
    assert_eq!(read_slot(&vec![2u8; 10], 0).unwrap_err(), "Page too short: 10 bytes (expected 4096)");
}

#[test]
fn packed_pages_round_trip_through_a_backend() {
    let records: Vec<Vec<u8>> = (0..80).map(|i| record(i, 90 + (i % 7))).collect();
    let (pages, _) = pack_records(&records, 3).unwrap();
    let mut backend = MemoryBackend::new();
    for (i, page) in pages.iter().enumerate() {
        backend.write_page(3 + i as u64, page).unwrap();
    }
    let back = read_all_from_pages(&backend, 3, pages.len() as u64).unwrap();
    assert_eq!(back, records);
    // a missing page fails the read
    assert!(read_all_from_pages(&backend, 3, pages.len() as u64 + 1).is_err());
}

#[test]
fn empty_blob_takes_one_page() {
    let mut backend = MemoryBackend::new();
    let next = write_blob(&[], &mut backend, 1).unwrap();
    assert_eq!(next, 2);
    assert_eq!(read_blob(&backend, 1).unwrap(), Vec::<u8>::new());
}

#[test]
fn blobs_round_trip_over_several_pages() {
    let blob: Vec<u8> = (0..(DATA_BYTES_PER_PAGE * 2 + 17)).map(|i| (i % 253) as u8).collect();
    let mut backend = MemoryBackend::new();
    let next = write_blob(&blob, &mut backend, 5).unwrap();
    assert_eq!(next, 5 + 3);
    assert_eq!(read_blob(&backend, 5).unwrap(), blob);
}

#[test]
fn a_blob_whose_first_page_is_not_an_index_page_is_refused() {
    let mut backend = MemoryBackend::new();
    write_blob(&[1, 2, 3], &mut backend, 1).unwrap();
    let mut page = backend.read_page(1).unwrap();
    page[0] = 0x02;
    backend.write_page(1, &page).unwrap();
    assert_eq!(read_blob(&backend, 1).unwrap_err(), "INT-049: btree read_blob: first page is not an index page");
}

#[test]
fn all_four_indexes_are_written_back_to_back_and_read_back() {
    let mut backend = MemoryBackend::new();
    let eavt = record(1, DATA_BYTES_PER_PAGE + 10);
    let aevt: Vec<u8> = Vec::new();
    let avet = record(3, 100);
    let vaet = record(4, 2 * DATA_BYTES_PER_PAGE);
    let roots = write_all_indexes(&eavt, &aevt, &avet, &vaet, &mut backend, 5).unwrap();
    assert_eq!(roots, (5, 7, 8, 9));
    assert_eq!(backend.page_count().unwrap(), 6);
    assert_eq!(read_blob(&backend, roots.0).unwrap(), eavt);
    assert_eq!(read_blob(&backend, roots.1).unwrap(), aevt);
    assert_eq!(read_blob(&backend, roots.2).unwrap(), avet);
    assert_eq!(read_blob(&backend, roots.3).unwrap(), vaet);
}

#[test]
fn writing_all_indexes_fails_when_page_ids_run_out() {
    let mut backend = MemoryBackend::new();
    let blob = record(0, 10);
    assert!(write_all_indexes(&blob, &blob, &blob, &blob, &mut backend, u64::MAX - 2).is_err());
}

#[test]
fn test_empty_eavt_roundtrip() {
    // An empty index encodes as an empty entry list; its blob still takes one page.
    let mut backend = MemoryBackend::new();
    let entries: Vec<((u128, String, i64, i64, u64), (u64, u16))> = Vec::new();
    let blob = postcard::to_allocvec(&entries).unwrap();
    let next = write_blob(&blob, &mut backend, 1).unwrap();
    assert_eq!(next, 2, "empty index should consume exactly 1 page");
    let stored = read_blob(&backend, 1).unwrap();
    let recovered: Vec<((u128, String, i64, i64, u64), (u64, u16))> = postcard::from_bytes(&stored).unwrap();
    assert_eq!(recovered.len(), 0);
}

#[test]
fn read_blob_corrupted_non_first_page_returns_stg_012() {
    let mut backend = MemoryBackend::new();
    let blob = record(7, DATA_BYTES_PER_PAGE + 100);
    let next = write_blob(&blob, &mut backend, 1).unwrap();
    assert!(next > 2, "the blob must span two pages");
    let mut corrupt = backend.read_page(2).unwrap();
    corrupt[0] = 0x00;
    backend.write_page(2, &corrupt).unwrap();
    let err = read_blob(&backend, 1).expect_err("a corrupted page must fail to read");
    assert!(err.starts_with("STG-012"), "got {}", err);
}

#[test]
fn references_run_slot_by_slot_and_unused_header_bytes_are_zero() {
    let records: Vec<Vec<u8>> = (0..50).map(|i| record(i, 300)).collect();
    let (pages, refs) = pack_records(&records, 7).unwrap();
    assert!(pages.len() < 50);
    assert_eq!(refs[0], (7, 0));
    for j in 1..refs.len() {
        let (p, s) = refs[j - 1];
        assert!(refs[j] == (p, s + 1) || refs[j] == (p + 1, 0), "ref {} breaks the order", j);
    }
    for page in &pages {
        assert_eq!(page[1], 0);
        assert!(page[4..12].iter().all(|b| *b == 0));
    }
}
