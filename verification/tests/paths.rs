use merkle_hash::error::IndexingError;
use merkle_hash::MerklePath;

#[test]
fn new_keeps_both_paths() {
    let p = MerklePath::new("a/b".to_string(), "/r/a/b".to_string());
    assert_eq!(p.relative, "a/b");
    assert_eq!(p.absolute, "/r/a/b");
}

#[test]
fn duplicate_copies_both_paths() {
    let p = MerklePath::new("a".to_string(), "/r/a".to_string());
    let q = p.duplicate();
    assert_eq!(q.relative, p.relative);
    assert_eq!(q.absolute, p.absolute);
}

#[test]
fn ordering_uses_the_relative_path_only() {
    let a = MerklePath::new("a".to_string(), "/zzz/a".to_string());
    let b = MerklePath::new("b".to_string(), "/aaa/b".to_string());
    assert!(a.le(&b));
    assert!(!b.le(&a));
    let same = MerklePath::new("a".to_string(), "/other/a".to_string());
    assert!(a.le(&same) && same.le(&a));
}

#[test]
fn prefixes_come_before_longer_paths() {
    let short = MerklePath::new("a".to_string(), "/r/a".to_string());
    let long = MerklePath::new("a/b".to_string(), "/r/a/b".to_string());
    assert!(short.le(&long));
    assert!(!long.le(&short));
}

#[test]
fn unreadable_file_message_names_path_and_cause() {
    let e = IndexingError::UnableToReadFile {
        path: "/r/bad".to_string(),
        cause: "denied".to_string(),
    };
    assert_eq!(e.message(), "Unable to read file: /r/bad, error: denied");
}

#[test]
fn invalid_text_message_names_the_path() {
    let e = IndexingError::PathIsNotValidUtf8 { path: "/r/x".to_string() };
    assert_eq!(e.message(), "Path is not valid UTF8 path: /r/x");
}

#[test]
fn strip_prefix_message_names_path_and_root() {
    let e = IndexingError::UnableToStripRootPrefix {
        path: "/q/x".to_string(),
        root: "/r".to_string(),
        cause: "mismatch".to_string(),
    };
    assert_eq!(
        e.message(),
        "Unable to strip root prefix for path: /q/x, where root: /r, error: mismatch"
    );
}
