use simpledb::file::block_id::BlockId;
use simpledb::jdbc::statement_adapter::StatementError;

#[test]
fn block_id_accessors() {
    let b = BlockId::new("students", 3);
    assert_eq!(b.file_name(), "students");
    assert_eq!(b.number(), 3);
}

#[test]
fn block_id_equality_is_structural() {
    assert_eq!(BlockId::new("students", 0), BlockId::new("students", 0));
    assert_ne!(BlockId::new("students", 0), BlockId::new("students", 1));
    assert_ne!(BlockId::new("students", 0), BlockId::new("teachers", 0));
    assert_eq!(BlockId::default(), BlockId::new("", 0));
}

#[test]
fn block_id_ordering_is_structural() {
    // Ordering compares the filename first, then the block number.
    assert!(BlockId::new("a", 5) < BlockId::new("b", 0));
    assert!(BlockId::new("a", 1) < BlockId::new("a", 2));
}

#[test]
fn statement_error_message() {
    assert_eq!(StatementError::RuntimeError.message(), "runtime error");
    assert_eq!(StatementError::RuntimeError, StatementError::RuntimeError);
}
