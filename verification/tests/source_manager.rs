use retex_lex::memory_buffer::MemoryBuffer;
use retex_lex::source_location::SourceLocation;
use retex_lex::source_manager::{FileEntry, FileId, SourceManager};

#[test]
fn test_file_id() {
    let id = FileId::new(42);
    assert_eq!(id.as_u32(), 42);
    assert!(id.is_valid());

    let invalid = FileId::invalid();
    assert!(!invalid.is_valid());
}

#[test]
fn test_file_entry() {
    let buffer = MemoryBuffer::from_str("Hello, World!", "test.tex".to_string());
    let path = "test.tex".to_string();
    let entry = FileEntry::new(path.clone(), buffer, 100);

    assert_eq!(entry.path, path);
    assert_eq!(entry.start_offset, 100);
    assert_eq!(entry.size, 13);
    assert_eq!(entry.end_offset(), 113);

    let loc = SourceLocation::new(105);
    assert!(entry.contains_location(loc));
    assert_eq!(entry.location_to_offset(loc), Some(5));

    let out_of_range = SourceLocation::new(200);
    assert!(!entry.contains_location(out_of_range));
    assert_eq!(entry.location_to_offset(out_of_range), None);

    assert_eq!(entry.offset_to_location(5), Some(SourceLocation::new(105)));
    assert_eq!(entry.offset_to_location(20), None);
}

#[test]
fn test_source_manager_add_buffer() {
    let mut sm = SourceManager::new();
    let buffer = MemoryBuffer::from_str("Hello", "test.tex".to_string());

    let file_id = sm.add_buffer(buffer, None);
    assert!(file_id.is_valid());
    assert_eq!(sm.file_count(), 1);
    assert!(sm.is_file_loaded(file_id));
}

#[test]
fn test_source_manager_multiple_files() {
    let mut sm = SourceManager::new();

    let buffer1 = MemoryBuffer::from_str("First", "first.tex".to_string());
    let file_id1 = sm.add_buffer(buffer1, None);

    let buffer2 = MemoryBuffer::from_str("Second", "second.tex".to_string());
    let file_id2 = sm.add_buffer(buffer2, None);

    assert_ne!(file_id1, file_id2);
    assert_eq!(sm.file_count(), 2);

    let file1 = sm.get_file(file_id1).unwrap();
    let file2 = sm.get_file(file_id2).unwrap();

    assert_eq!(file1.start_offset, 0);
    assert_eq!(file1.size, 5);
    assert_eq!(file2.start_offset, 5);
    assert_eq!(file2.size, 6);
}

#[test]
fn test_source_manager_buffer_operations() {
    let mut sm = SourceManager::new();
    let buffer = MemoryBuffer::from_str("Hello, World!", "test.tex".to_string());
    let file_id = sm.add_buffer(buffer, Some("test.tex".to_string()));

    let buffer = sm.get_buffer_data(file_id).unwrap();
    assert_eq!(buffer.data(), b"Hello, World!");

    let path = sm.get_file_path(file_id).unwrap();
    assert_eq!(path, &"test.tex".to_string());

    let slice = sm.get_buffer_slice(file_id, 0, 5).unwrap();
    assert_eq!(slice, b"Hello");

    let out_of_range = sm.get_buffer_slice(file_id, 0, 100);
    assert_eq!(out_of_range, None);
}

#[test]
fn test_source_manager_empty() {
    let sm = SourceManager::new();
    assert_eq!(sm.file_count(), 0);

    let invalid_id = FileId::new(0);
    assert!(!sm.is_file_loaded(invalid_id));
    assert_eq!(sm.get_file(invalid_id), None);
}

#[test]
fn test_find_file_by_location() {
    let mut sm = SourceManager::new();
    let id1 = sm.add_buffer(MemoryBuffer::from_str("First", "first.tex".to_string()), None);
    let id2 = sm.add_buffer(MemoryBuffer::from_str("Second", "second.tex".to_string()), None);

    assert_eq!(sm.find_file(SourceLocation::new(0)), Some(id1));
    assert_eq!(sm.find_file(SourceLocation::new(4)), Some(id1));
    assert_eq!(sm.find_file(SourceLocation::new(5)), Some(id2));
    assert_eq!(sm.find_file(SourceLocation::new(10)), Some(id2));
    assert_eq!(sm.find_file(SourceLocation::new(11)), None);
    assert_eq!(sm.find_file(SourceLocation::invalid()), None);
}
