use monocore::raft::{RaftConfig, RaftState};
use monocore::text::{decimal_string, str_eq};
use monocore::utils::seekable::EmptySeekableReader;
use monocore::vfs::error::VfsError;
use monocore::vfs::metadata::ModeType;
use monocore::vfs::nativefs::{
    check_dir_empty, check_new_entry, check_parent, check_rename, checked_entry, checked_kind, host_metadata,
    host_mode_bits, listing_segments, probe_exists, remove_step, HostEntry, NativeFileSystem, Probe, RemoveStep, Wanted,
};

#[test]
fn raft_default_timing() {
    let c = RaftConfig::default_config();
    assert_eq!(c.election_timeout_min, 150);
    assert_eq!(c.election_timeout_max, 300);
    assert_eq!(c.heartbeat_interval, 50);
}

#[test]
fn raft_state_starts_empty_and_restores() {
    let mut s = RaftState::initial();
    assert_eq!(s.current_term, 0);
    assert_eq!(s.voted_for, None);
    assert!(s.next_index.is_empty() && s.match_index.is_empty());
    s.restore(7, Some(3));
    assert_eq!(s.current_term, 7);
    assert_eq!(s.voted_for, Some(3));
    assert_eq!(s.commit_index, 0);
}

#[test]
fn native_paths_are_joined_to_the_root() {
    let fs = NativeFileSystem::new("/srv/root".to_string());
    assert_eq!(fs.get_root_path(), "/srv/root");
    assert_eq!(fs.to_native_path("").unwrap(), "/srv/root");
    assert_eq!(fs.to_native_path("a/b").unwrap(), "/srv/root/a/b");
    assert_eq!(fs.to_native_path("a/..b/c..").unwrap(), "/srv/root/a/..b/c..");
    let slashed = NativeFileSystem::new("/srv/root/".to_string());
    assert_eq!(slashed.to_native_path("a").unwrap(), "/srv/root/a");
}

#[test]
fn native_paths_never_leave_the_root() {
    let fs = NativeFileSystem::new("/srv/root".to_string());
    for (path, part) in [("/etc/passwd", "/"), ("..", ".."), ("a/../../b", ".."), ("a/..", "..")] {
        match fs.to_native_path(path) {
            Err(VfsError::InvalidPathComponent(c)) => assert_eq!(c, part),
            other => panic!("{} gave {:?}", path, other),
        }
    }
}

#[test]
fn decimal_text() {
    assert_eq!(decimal_string(0), "0");
    assert_eq!(decimal_string(1234567890), "1234567890");
    assert_eq!(decimal_string(u64::MAX), "18446744073709551615");
    assert!(str_eq("abc", "abc"));
    assert!(!str_eq("abc", "abd"));
}

#[test]
fn empty_reader_reads_nothing() {
    let mut r = EmptySeekableReader;
    assert_eq!(r.read_into(16), 0);
    assert_eq!(r.seek_position(), 0);
}

#[test]
fn native_file_system_decisions() {
    let file = HostEntry { is_dir: false, is_file: true, is_symlink: false, len: 12, mode: 0o100640 };
    let dir = HostEntry { is_dir: true, is_file: false, is_symlink: false, len: 4096, mode: 0o40755 };
    let failed = || Probe::Failed(std::io::Error::other("boom"));

    assert!(probe_exists(Probe::Found(file)).unwrap());
    assert!(!probe_exists(Probe::Missing).unwrap());
    assert!(matches!(probe_exists(failed()), Err(VfsError::Io(_))));

    assert_eq!(checked_entry("/r/a", Probe::Found(file)).unwrap(), file);
    assert!(matches!(checked_entry("/r/a", Probe::Missing), Err(VfsError::NotFound(p)) if p == "/r/a"));

    assert!(check_parent(None).is_ok());
    assert!(check_parent(Some(("/r".to_string(), Probe::Found(dir)))).is_ok());
    assert!(matches!(check_parent(Some(("/r/x".to_string(), Probe::Missing))), Err(VfsError::ParentDirectoryNotFound(p)) if p == "/r/x"));
    assert!(matches!(check_parent(Some(("/r".to_string(), failed()))), Err(VfsError::Io(_))));

    assert!(matches!(check_new_entry("a", Probe::Found(file), false), Err(VfsError::AlreadyExists(p)) if p == "a"));
    assert!(check_new_entry("a", Probe::Found(file), true).is_ok());
    assert!(check_new_entry("a", Probe::Missing, false).is_ok());

    assert_eq!(checked_kind("a", "/r/a", Probe::Found(file), Wanted::File).unwrap(), file);
    assert!(matches!(checked_kind("d", "/r/d", Probe::Found(dir), Wanted::File), Err(VfsError::NotAFile(p)) if p == "d"));
    assert!(matches!(checked_kind("a", "/r/a", Probe::Found(file), Wanted::Dir), Err(VfsError::NotADirectory(p)) if p == "a"));
    assert!(matches!(checked_kind("a", "/r/a", Probe::Found(file), Wanted::Symlink), Err(VfsError::NotASymlink(p)) if p == "a"));
    assert!(matches!(checked_kind("a", "/r/a", Probe::Missing, Wanted::File), Err(VfsError::NotFound(p)) if p == "/r/a"));

    let md = host_metadata(file);
    assert_eq!(md.get_type(), Some(ModeType::File));
    assert_eq!(md.get_size(), 12);
    assert_eq!(md.get_permissions().to_string(), "rw-r-----");
    assert_eq!(host_metadata(dir).get_type(), Some(ModeType::Directory));
    assert_eq!(host_mode_bits(&md) & 0o777, 0o640);

    assert_eq!(remove_step("/r/d", Probe::Found(dir)).unwrap(), RemoveStep::Dir);
    assert_eq!(remove_step("/r/a", Probe::Found(file)).unwrap(), RemoveStep::File);
    assert!(matches!(check_dir_empty("d", true), Err(VfsError::NotEmpty(p)) if p == "d"));
    assert!(check_dir_empty("d", false).is_ok());

    assert!(check_rename("/r/a", Probe::Found(file), "b", Probe::Missing).is_ok());
    assert!(matches!(check_rename("/r/a", Probe::Found(file), "b", Probe::Found(file)), Err(VfsError::AlreadyExists(p)) if p == "b"));
    assert!(matches!(check_rename("/r/a", Probe::Missing, "b", Probe::Missing), Err(VfsError::NotFound(p)) if p == "/r/a"));

    let names = vec![Some("a".to_string()), None, Some("..".to_string()), Some("b".to_string()), Some("x/y".to_string())];
    let segs: Vec<String> = listing_segments(names).iter().map(|s| s.to_string()).collect();
    assert_eq!(segs, vec!["a".to_string(), "b".to_string()]);

    let fs = NativeFileSystem::new("/srv/root".to_string());
    assert_eq!(fs.report_target("/srv/root/sub/file"), "sub/file");
    assert_eq!(fs.report_target("/elsewhere/file"), "/elsewhere/file");
    assert_eq!(fs.report_target("relative/file"), "relative/file");
}
