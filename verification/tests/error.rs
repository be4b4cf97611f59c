use department::error::{decimal, digit, StorageError};

#[test]
fn exceeds_max_expects_nothing_and_has_all() {
    assert_eq!(
        StorageError::exceeds_max(),
        StorageError::InsufficientSpace { expected: 0, available: Some(usize::MAX) }
    );
}

#[test]
fn messages_say_what_went_wrong() {
    assert_eq!(
        StorageError::InsufficientSpace { expected: 12, available: Some(8) }.message(),
        "Insufficient space in storage. Expected 12, but only 8 is available"
    );
    assert_eq!(
        StorageError::InsufficientSpace { expected: 120, available: None }.message(),
        "Insufficient space in storage. Expected 120, but less was available"
    );
    assert_eq!(
        StorageError::exceeds_max().message(),
        "Insufficient space in storage. Expected more than usize::MAX"
    );
    assert_eq!(
        StorageError::InsufficientSpace { expected: 1, available: Some(usize::MAX) }.message(),
        format!(
            "Insufficient space in storage. Expected 1, but only {} is available",
            usize::MAX
        )
    );
    assert_eq!(
        StorageError::InsufficientSpace { expected: 0, available: Some(0) }.message(),
        "Insufficient space in storage. Expected 0, but only 0 is available"
    );
    assert_eq!(
        StorageError::InvalidAlign { expected: 16, available: 4 }.message(),
        "Invalid align to store type. Expected layout of at least 16, but backing was 4"
    );
    assert_eq!(StorageError::NoSlots.message(), "Multi-element storage has run out of slots");
    assert_eq!(
        StorageError::Unimplemented.message(),
        "Operation is not supported on this storage"
    );
}

#[test]
fn decimal_is_the_usual_notation() {
    assert_eq!(decimal(0), "0");
    assert_eq!(decimal(9), "9");
    assert_eq!(decimal(10), "10");
    assert_eq!(decimal(1234567890), "1234567890");
    assert_eq!(decimal(usize::MAX), format!("{}", usize::MAX));
    for (d, text) in ["0", "1", "2", "3", "4", "5", "6", "7", "8", "9"].iter().enumerate() {
        assert_eq!(digit(d), *text);
    }
}
