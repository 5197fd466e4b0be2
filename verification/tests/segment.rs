use monocore::vfs::error::VfsError;
use monocore::vfs::segment::PathSegment;

#[test]
fn test_segment_as_bytes() {
    let segment = PathSegment::try_from_str("example").unwrap();
    assert_eq!(segment.as_bytes(), b"example");
}

#[test]
fn test_segment_len() {
    let segment = PathSegment::try_from_str("example").unwrap();
    assert_eq!(segment.len(), 7);
}

#[test]
fn test_segment_display() {
    let segment = PathSegment::try_from_str("example").unwrap();
    assert_eq!(segment.to_string(), "example");
}

#[test]
fn test_segment_try_from_str() {
    assert!(PathSegment::try_from_str("example").is_ok());

    assert!(PathSegment::try_from_str("").is_err());
    assert!(PathSegment::try_from_str(".").is_err());
    assert!(PathSegment::try_from_str("..").is_err());
    assert!(PathSegment::try_from_str("/").is_err());
}

#[test]
fn test_segment_normal_with_special_characters() {
    assert!(PathSegment::try_from_str("file.txt").is_ok());
    assert!(PathSegment::try_from_str("file-name").is_ok());
    assert!(PathSegment::try_from_str("file_name").is_ok());
    assert!(PathSegment::try_from_str("file name").is_ok());
    assert!(PathSegment::try_from_str("file:name").is_ok());
    assert!(PathSegment::try_from_str("file*name").is_ok());
    assert!(PathSegment::try_from_str("file?name").is_ok());
}

#[test]
fn test_segment_with_unix_separator() {
    assert!(PathSegment::try_from_str("file/name").is_err());
    assert!(PathSegment::try_from_str("/").is_err());
    assert!(PathSegment::try_from_str("///").is_err());
    assert!(PathSegment::try_from_str("name/").is_err());
    assert!(PathSegment::try_from_str("/name").is_err());
}

#[test]
fn segment_errors_name_the_reason() {
    assert!(matches!(PathSegment::try_from_str(""), Err(VfsError::EmptyPathSegment)));
    match PathSegment::try_from_str("..") {
        Err(VfsError::InvalidPathComponent(s)) => assert_eq!(s, ".."),
        _ => panic!("expected an invalid component"),
    }
}

#[test]
fn segment_keeps_its_text() {
    let s = PathSegment::try_from_str("a b").unwrap();
    assert_eq!(s.as_str(), "a b");
    assert!(!s.is_empty());
    assert_eq!(s.duplicate(), s);
}
