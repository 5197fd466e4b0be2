use monocore::utils::fs_path::{check_mfsrun_bin, mfsrun_bin_candidate, split_last, FsError};
use monocore::utils::path::{normalize_path, MonoutilsError, SupportedPathType};

fn validation_message(r: Result<String, MonoutilsError>) -> String {
    match r {
        Err(MonoutilsError::PathValidation(e)) => e,
        Ok(s) => panic!("expected an error, got {}", s),
    }
}

#[test]
fn test_normalize_path() {
    assert_eq!(normalize_path("/data/app/", SupportedPathType::Absolute).unwrap(), "/data/app");
    assert_eq!(normalize_path("/data//app", SupportedPathType::Absolute).unwrap(), "/data/app");
    assert_eq!(normalize_path("/data/./app", SupportedPathType::Absolute).unwrap(), "/data/app");

    assert_eq!(normalize_path("data/app/", SupportedPathType::Relative).unwrap(), "data/app");
    assert_eq!(normalize_path("./data/app", SupportedPathType::Relative).unwrap(), "data/app");
    assert_eq!(normalize_path("data//app", SupportedPathType::Relative).unwrap(), "data/app");

    assert_eq!(normalize_path("/data/app", SupportedPathType::Any).unwrap(), "/data/app");
    assert_eq!(normalize_path("data/app", SupportedPathType::Any).unwrap(), "data/app");

    assert_eq!(normalize_path("/data/temp/../app", SupportedPathType::Absolute).unwrap(), "/data/app");
    assert_eq!(normalize_path("data/temp/../app", SupportedPathType::Relative).unwrap(), "data/app");

    assert!(validation_message(normalize_path("data/app", SupportedPathType::Absolute)).contains("must be absolute"));
    assert!(validation_message(normalize_path("/data/app", SupportedPathType::Relative)).contains("must be relative"));
    assert!(validation_message(normalize_path("/data/../..", SupportedPathType::Any)).contains("cannot traverse above root"));
}

#[test]
fn test_normalize_path_complex() {
    assert_eq!(normalize_path("/data/./temp/../logs/app/./config/../", SupportedPathType::Absolute).unwrap(), "/data/logs/app");
    assert_eq!(normalize_path("/data///temp/././../app//./test/..", SupportedPathType::Absolute).unwrap(), "/data/app");

    assert_eq!(normalize_path("/data/./././.", SupportedPathType::Absolute).unwrap(), "/data");
    assert_eq!(normalize_path("/data/test/../../data/app", SupportedPathType::Absolute).unwrap(), "/data/app");

    assert!(validation_message(normalize_path("/data/test/../../../root", SupportedPathType::Any)).contains("cannot traverse above root"));
    assert!(validation_message(normalize_path("/./data/../..", SupportedPathType::Any)).contains("cannot traverse above root"));
}

fn split(path: &str) -> (Option<String>, String) {
    let (parent, seg) = split_last(path).unwrap();
    (parent, seg.to_string())
}

#[test]
fn test_split_last() {
    assert_eq!(split("foo/bar/baz"), (Some("foo/bar".to_string()), "baz".to_string()));
    assert_eq!(split("foo/bar"), (Some("foo".to_string()), "bar".to_string()));
    assert_eq!(split("baz"), (None, "baz".to_string()));
    assert_eq!(split("foo/bar/baz"), (Some("foo/bar".to_string()), "baz".to_string()));
    assert_eq!(split("path with/spaces in/file name"), (Some("path with/spaces in".to_string()), "file name".to_string()));
    assert_eq!(split("路径/文件"), (Some("路径".to_string()), "文件".to_string()));
    assert_eq!(split("foo/bar/"), (Some("foo".to_string()), "bar".to_string()));

    assert!(matches!(split_last(""), Err(FsError::PathIsEmpty)));
    assert!(matches!(split_last("/"), Err(FsError::PathHasRoot(_))));
    assert!(matches!(split_last("/foo"), Err(FsError::PathHasRoot(_))));
}

#[test]
fn normalize_root_and_empty() {
    assert_eq!(normalize_path("/", SupportedPathType::Absolute).unwrap(), "/");
    assert!(normalize_path("", SupportedPathType::Any).is_err());
}

#[test]
fn mfsrun_binary_path_prefers_the_environment() {
    assert_eq!(
        mfsrun_bin_candidate(Some("/opt/mfsrun".to_string()), "/usr/bin/mfsrun"),
        ("/opt/mfsrun".to_string(), "environment variable".to_string())
    );
    assert_eq!(
        mfsrun_bin_candidate(None, "/usr/bin/mfsrun"),
        ("/usr/bin/mfsrun".to_string(), "default path".to_string())
    );
    assert_eq!(check_mfsrun_bin("/a".to_string(), "default path".to_string(), true).unwrap(), "/a");
    match check_mfsrun_bin("/a".to_string(), "default path".to_string(), false) {
        Err(FsError::MfsrunBinaryNotFound { path, src }) => {
            assert_eq!(path, "/a");
            assert_eq!(src, "default path");
        }
        other => panic!("unexpected {:?}", other),
    }
}
