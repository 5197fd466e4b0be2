use monocore::vfs::error::VfsError;
use monocore::vfs::metadata::{Metadata, ModeType, Timestamp};
use monocore::vfs::server::{
    apply_create_attr, apply_set_attr, apply_symlink_attr, check_write_offset, child_path, entry_name, file_attr,
    link_target, read_at_eof, set_attr, split_segments, status_of, FileIdRegistry, FileType, NfsStatus, NfsTime,
    ReaddirRun, SetAttr, TimeChange,
};

#[test]
fn vfs_errors_map_to_nfs_statuses() {
    assert_eq!(status_of(&VfsError::NotFound("a".into())), NfsStatus::NoEnt);
    assert_eq!(status_of(&VfsError::ParentDirectoryNotFound("a".into())), NfsStatus::NoEnt);
    assert_eq!(status_of(&VfsError::AlreadyExists("a".into())), NfsStatus::Exist);
    assert_eq!(status_of(&VfsError::NotADirectory("a".into())), NfsStatus::NotDir);
    assert_eq!(status_of(&VfsError::NotEmpty("a".into())), NfsStatus::NotEmpty);
    assert_eq!(status_of(&VfsError::PermissionDenied("a".into())), NfsStatus::Perm);
    assert_eq!(status_of(&VfsError::ReadOnlyFilesystem), NfsStatus::RoFs);
    assert_eq!(status_of(&VfsError::EmptyPathSegment), NfsStatus::Inval);
    assert_eq!(status_of(&VfsError::Io(std::io::Error::other("x"))), NfsStatus::Io);
    assert_eq!(NfsStatus::NoEnt.code(), 2);
    assert_eq!(NfsStatus::Exist.code(), 17);
    assert_eq!(NfsStatus::Success.code(), 0);
}

#[test]
fn attributes_of_metadata() {
    let mut md = Metadata::with_root_ownership(ModeType::Directory);
    md.set_size(42);
    md.set_accessed_at(Timestamp { secs: 100, nanos: 5 });
    let a = file_attr(&md, 9).unwrap();
    assert_eq!(a.ftype, FileType::Directory);
    assert_eq!(a.mode, 0o755);
    assert_eq!(a.nlink, 1);
    assert_eq!((a.uid, a.gid), (0, 0));
    assert_eq!((a.size, a.used), (42, 42));
    assert_eq!((a.fsid, a.fileid), (0, 9));
    assert_eq!(a.atime, NfsTime { seconds: 100, nseconds: 0 });
}

#[test]
fn set_attributes() {
    let mut md = Metadata::with_root_ownership(ModeType::File);
    let s = SetAttr {
        mode: Some(0o100600),
        uid: Some(7),
        gid: None,
        size: Some(3),
        atime: TimeChange::ClientTime(NfsTime { seconds: 50, nseconds: 1 }),
        mtime: TimeChange::DontChange,
    };
    apply_set_attr(&mut md, &s, Timestamp { secs: 1, nanos: 0 });
    assert_eq!(u32::from(*md.get_mode()), 0o100600);
    assert_eq!((md.get_uid(), md.get_gid(), md.get_size()), (7, 0, 3));
    assert_eq!(*md.get_accessed_at(), Timestamp { secs: 50, nanos: 1 });

    let s2 = SetAttr { mode: None, uid: None, gid: None, size: None, atime: TimeChange::DontChange, mtime: TimeChange::ServerTime };
    apply_set_attr(&mut md, &s2, Timestamp { secs: 77, nanos: 0 });
    assert_eq!(*md.get_modified_at(), Timestamp { secs: 77, nanos: 0 });
    assert_eq!(*md.get_accessed_at(), Timestamp { secs: 50, nanos: 1 });

    let both = SetAttr {
        mode: None,
        uid: None,
        gid: None,
        size: None,
        atime: TimeChange::ClientTime(NfsTime { seconds: 1_700_000_000, nseconds: 0 }),
        mtime: TimeChange::ClientTime(NfsTime { seconds: 1_700_000_001, nseconds: 0 }),
    };
    apply_set_attr(&mut md, &both, Timestamp { secs: 5, nanos: 0 });
    assert_eq!(*md.get_accessed_at(), Timestamp { secs: 1_700_000_000, nanos: 0 });
    assert_eq!(*md.get_modified_at(), Timestamp { secs: 1_700_000_001, nanos: 0 });

    let bad = SetAttr { mode: None, uid: None, gid: None, size: None, atime: TimeChange::ClientTime(NfsTime { seconds: 1, nseconds: 2_000_000_000 }), mtime: TimeChange::DontChange };
    apply_set_attr(&mut md, &bad, Timestamp { secs: 0, nanos: 0 });
    assert_eq!(*md.get_accessed_at(), Timestamp { secs: 1_700_000_000, nanos: 0 });

    let leap = SetAttr { mode: None, uid: None, gid: None, size: None, atime: TimeChange::ClientTime(NfsTime { seconds: 59, nseconds: 1_500_000_000 }), mtime: TimeChange::DontChange };
    set_attr(&mut md, &leap);
    assert_eq!(*md.get_accessed_at(), Timestamp { secs: 59, nanos: 1_500_000_000 });
}

#[test]
fn segments_drop_empty_parts() {
    assert_eq!(split_segments("/a//b/c/"), vec!["a".to_string(), "b".to_string(), "c".to_string()]);
    assert!(split_segments("///").is_empty());
}

#[test]
fn file_ids_round_trip() {
    let mut reg = FileIdRegistry::new();
    assert_eq!(reg.fileid_to_path(0).unwrap(), "");
    let a = reg.ensure_path_registered_str("dir/file.txt").unwrap();
    assert_eq!(a, 1);
    assert_eq!(reg.ensure_path_registered_str("/dir//file.txt").unwrap(), 1);
    assert_eq!(reg.fileid_to_path(a).unwrap(), "dir/file.txt");
    let b = reg.ensure_path_registered_str("dir").unwrap();
    assert_eq!(b, 2);
    assert_eq!(reg.get_path_registered_str("dir").unwrap(), Some(2));
    assert_eq!(reg.get_path_registered_str("other").unwrap(), None);
    assert_eq!(reg.fileid_to_path(3), Err(NfsStatus::NoEnt));
    assert_eq!(reg.ensure_path_registered_str("").unwrap(), 0);
}

#[test]
fn client_names_and_paths() {
    assert_eq!(entry_name(b"file.txt").unwrap(), "file.txt");
    assert_eq!(entry_name("été".as_bytes()).unwrap(), "été");
    assert_eq!(entry_name(b"a/b"), Err(NfsStatus::Inval));
    assert_eq!(entry_name(&[0x66, 0xff]), Err(NfsStatus::Inval));
    assert_eq!(link_target(b"../target/x").unwrap(), "../target/x");
    assert_eq!(link_target(&[0xc3]), Err(NfsStatus::Inval));
    assert_eq!(child_path("", "a"), "a");
    assert_eq!(child_path("dir/sub", "a"), "dir/sub/a");
}

#[test]
fn reads_and_writes_at_offsets() {
    assert!(read_at_eof(10, 0, 10));
    assert!(!read_at_eof(0, 5, 10));
    assert!(read_at_eof(5, 5, 10));
    assert!(read_at_eof(u64::MAX, u64::MAX, 10));
    assert_eq!(check_write_offset(10, 10), Ok(()));
    assert_eq!(check_write_offset(3, 10), Ok(()));
    assert_eq!(check_write_offset(11, 10), Err(NfsStatus::Inval));
}

#[test]
fn directory_listings_page_after_a_known_entry() {
    let mut run = ReaddirRun::new(0, 2);
    assert!(run.started);
    assert!(run.offer());
    assert!(run.offer());
    assert!(!run.offer());
    assert_eq!(run.taken, 2);

    let mut run = ReaddirRun::new(7, 10);
    assert!(!run.started);
    run.passed(None);
    assert!(!run.started);
    run.passed(Some(3));
    assert!(!run.started);
    run.passed(Some(7));
    assert!(run.started);
    assert!(run.offer());
    assert_eq!(run.taken, 1);
}

#[test]
fn create_and_symlink_attributes() {
    let mut md = Metadata::new(ModeType::File);
    let before = md;
    let s = SetAttr {
        mode: Some(0o640),
        uid: Some(5),
        gid: Some(6),
        size: Some(9),
        atime: TimeChange::ServerTime,
        mtime: TimeChange::ServerTime,
    };
    apply_create_attr(&mut md, &s);
    assert_eq!(md.get_permissions().to_string(), "rw-r-----");
    assert_eq!((md.get_uid(), md.get_gid(), md.get_size()), (5, 6, 9));
    assert_eq!(md.get_accessed_at(), before.get_accessed_at());
    assert_eq!(md.get_type(), Some(ModeType::File));

    let mut link = Metadata::new(ModeType::File);
    apply_symlink_attr(&mut link, &s);
    assert_eq!(link.get_type(), Some(ModeType::Symlink));
    assert_eq!(link.get_permissions().to_string(), "rw-r-----");
    assert_eq!((link.get_uid(), link.get_gid(), link.get_size()), (5, 6, 0));
}
