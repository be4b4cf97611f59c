use department::error::StorageError;
use department::inline::SingleInline;
use department::string::{bytes_eq, String};

#[test]
fn test_add() {
    let s = String::<SingleInline<[u8; 20]>>::from_str("Hello").add(" World!");
    let s = match s {
        Ok(s) => s,
        Err(_) => panic!("twenty bytes hold twelve"),
    };

    assert!(s.eq_str("Hello World!"));
}

#[test]
fn string_new_is_empty() {
    let s = String::<SingleInline<[u8; 20]>>::new();
    assert!(s.eq_str(""));
    assert_eq!(s.len(), 0);
    assert!(String::<SingleInline<[u8; 20]>>::try_new().is_ok());
    assert!(String::<SingleInline<[u8; 0]>>::try_new_in(SingleInline::new()).is_ok());
    let s = String::new_in(SingleInline::<[u8; 4]>::new());
    assert!(!s.eq_str("a"));
}

#[test]
fn string_add_that_fails_leaves_the_text() {
    let s = String::<SingleInline<[u8; 10]>>::from_str("caf\u{e9}");
    assert_eq!(s.len(), 5);
    let s = match s.add("\u{20ac}\u{20ac}") {
        Ok(_) => panic!("ten bytes hold no eleven"),
        Err((s, e)) => {
            assert_eq!(e, StorageError::InsufficientSpace { expected: 20, available: Some(10) });
            s
        }
    };
    assert!(s.eq_str("caf\u{e9}"));
    assert_eq!(s.len(), 5);
    let s = match s.add("\u{20ac}") {
        Ok(s) => s,
        Err(_) => panic!("ten bytes hold eight"),
    };
    assert!(s.eq_str("caf\u{e9}\u{20ac}"));
    assert!(!s.eq_str("caf\u{e9}"));
    let _storage = s.free();
}

#[test]
fn bytes_compare_by_length_and_content() {
    assert!(bytes_eq(&[], &[]));
    assert!(bytes_eq(&[1, 2], &[1, 2]));
    assert!(!bytes_eq(&[1, 2], &[1, 3]));
    assert!(!bytes_eq(&[1, 2], &[1, 2, 3]));
}
