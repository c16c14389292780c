use minigraf::file_store::{
    classify, file_is_new, header_page, next_retry_delay, open_refusal, page_count_after_write, page_offset,
    read_refusal, should_retry, write_refusal, LockAttempt, LockOutcome, LOCK_RETRY_INITIAL_DELAY_MS,
};
use minigraf::header::{FileHeader, PAGE_SIZE};

#[test]
fn test_classify_ok_is_acquired() {
    assert!(matches!(classify(LockAttempt::Taken, false), LockOutcome::Acquired));
    assert!(matches!(classify(LockAttempt::Taken, true), LockOutcome::Acquired));
}

#[test]
fn test_classify_would_block_is_held_regardless_of_allow_unlocked() {
    assert!(matches!(classify(LockAttempt::WouldBlock, false), LockOutcome::Held));
    assert!(matches!(classify(LockAttempt::WouldBlock, true), LockOutcome::Held));
}

#[test]
fn test_classify_unsupported_fails_closed_by_default() {
    assert!(matches!(classify(LockAttempt::Failed, false), LockOutcome::Unsupported));
}

#[test]
fn test_classify_unsupported_proceeds_when_allowed() {
    assert!(matches!(classify(LockAttempt::Failed, true), LockOutcome::ProceedUnlocked));
}

#[test]
fn retry_only_a_lock_held_elsewhere_with_capped_doubling() {
    assert!(should_retry(LockAttempt::WouldBlock, false));
    assert!(!should_retry(LockAttempt::WouldBlock, true));
    assert!(!should_retry(LockAttempt::Taken, false));
    let mut d = LOCK_RETRY_INITIAL_DELAY_MS;
    let mut waits = vec![];
    for _ in 0..10 {
        waits.push(d);
        d = next_retry_delay(d);
    }
    assert_eq!(waits, vec![5, 10, 20, 40, 50, 50, 50, 50, 50, 50]);
    assert_eq!(waits.iter().sum::<u64>(), 375);
}

#[test]
fn refusals_name_the_path() {
    assert_eq!(open_refusal(LockOutcome::Acquired, false, "/db.graph", ""), None);
    let m = open_refusal(LockOutcome::Held, false, "/db.graph", "").unwrap();
    assert!(m.starts_with("Database is locked by another process (/db.graph)."));
    let m = open_refusal(LockOutcome::Held, true, "/db.graph", "").unwrap();
    assert!(m.starts_with("Database is already open in this process (/db.graph)."));
    let m = open_refusal(LockOutcome::Unsupported, false, "/db.graph", "Operation not supported").unwrap();
    assert!(m.starts_with("Failed to lock database at /db.graph: Operation not supported. This filesystem"));
    assert_eq!(open_refusal(LockOutcome::ProceedUnlocked, false, "/db.graph", ""), None);
    assert!(open_refusal(LockOutcome::ProceedUnlocked, true, "/db.graph", "").is_some());
}

#[test]
fn page_arithmetic() {
    assert!(file_is_new(0));
    assert!(file_is_new(4095));
    assert!(!file_is_new(4096));
    assert_eq!(page_offset(3), Ok(3 * 4096));
    assert_eq!(page_offset(u64::MAX), Err(format!("page offset overflow for page_id {}", u64::MAX)));
    assert_eq!(read_refusal(5, 5), Some("Page 5 out of bounds (total pages: 5)".to_string()));
    assert_eq!(read_refusal(4, 5), None);
    assert_eq!(write_refusal(100), Some("Invalid page size: 100 bytes (expected 4096)".to_string()));
    assert_eq!(write_refusal(PAGE_SIZE), None);
    assert_eq!(page_count_after_write(7, 3), Ok(8));
    assert_eq!(page_count_after_write(1, 3), Ok(3));
    assert!(page_count_after_write(u64::MAX, 3).is_err());
}

#[test]
fn header_page_holds_the_header_then_zeros() {
    let h = FileHeader::new();
    let bytes = FileHeader::new().to_bytes();
    let page = header_page(h);
    assert_eq!(page.len(), PAGE_SIZE);
    assert_eq!(&page[..84], &bytes[..]);
    assert!(page[84..].iter().all(|b| *b == 0));
    let back = FileHeader::from_bytes(&page).unwrap();
    assert!(back.validate().is_ok());
}
