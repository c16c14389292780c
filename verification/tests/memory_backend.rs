use minigraf::header::PAGE_SIZE;
use minigraf::storage::{MemoryBackend, StorageBackend};

#[test]
fn test_memory_backend_write_read() {
    let mut backend = MemoryBackend::new();

    let data = vec![42u8; PAGE_SIZE];
    backend.write_page(0, &data).unwrap();

    let read_data = backend.read_page(0).unwrap();
    assert_eq!(data, read_data);
}

#[test]
fn test_memory_backend_invalid_size() {
    let mut backend = MemoryBackend::new();

    let data = vec![42u8; 100]; // Wrong size
    let result = backend.write_page(0, &data);
    assert!(result.is_err());
}

#[test]
fn test_memory_backend_read_missing() {
    let backend = MemoryBackend::new();
    let result = backend.read_page(999);
    assert!(result.is_err());
}

#[test]
fn test_memory_backend_page_count() {
    let mut backend = MemoryBackend::new();
    assert_eq!(backend.page_count().unwrap(), 0);

    backend.write_page(0, &vec![0u8; PAGE_SIZE]).unwrap();
    assert_eq!(backend.page_count().unwrap(), 1);

    backend.write_page(1, &vec![0u8; PAGE_SIZE]).unwrap();
    assert_eq!(backend.page_count().unwrap(), 2);
}
