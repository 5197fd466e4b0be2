use monocore::vfs::error::VfsError;
use monocore::vfs::memoryfs::{Entity, MemoryFileSystem};
use monocore::vfs::metadata::ModeType;
use monocore::vfs::segment::PathSegment;

fn seg(s: &str) -> PathSegment {
    PathSegment::try_from_str(s).unwrap()
}

fn file_with(fs: &mut MemoryFileSystem, path: &str, content: &[u8]) {
    fs.create_file(path, false).unwrap();
    fs.write_file(path, 0, content.to_vec()).unwrap();
}

#[test]
fn test_memoryfs_create_file() {
    let mut fs = MemoryFileSystem::new();
    assert!(fs.create_file("test.txt", false).is_ok());
    assert!(matches!(fs.get_root_dir().get(&seg("test.txt")), Some(Entity::File(_))));

    assert!(matches!(fs.create_file("nonexistent/test.txt", false), Err(VfsError::ParentDirectoryNotFound(_))));
    assert!(matches!(fs.create_file("test.txt", false), Err(VfsError::AlreadyExists(_))));
    assert!(fs.create_file("test.txt", true).is_ok());

    fs.create_directory("subdir").unwrap();
    assert!(fs.create_file("subdir/nested.txt", false).is_ok());
    let subdir = fs.get_root_dir().find("subdir").unwrap().unwrap().as_dir().unwrap();
    assert!(matches!(subdir.get(&seg("nested.txt")), Some(Entity::File(_))));

    for invalid_path in [".", "..", "/"] {
        assert!(matches!(fs.create_file(invalid_path, false), Err(VfsError::InvalidPathComponent(_))));
    }

    // Two creations of one name, one after the other: one succeeds, one finds it there.
    let results = vec![fs.create_file("concurrent.txt", false), fs.create_file("concurrent.txt", false)];
    assert!(results.iter().filter(|r| r.is_ok()).count() == 1);
    assert!(results.iter().filter(|r| matches!(r, Err(VfsError::AlreadyExists(_)))).count() == 1);
}

#[test]
fn test_memoryfs_create_directory() {
    let mut fs = MemoryFileSystem::new();
    assert!(fs.create_directory("testdir").is_ok());
    assert!(matches!(fs.get_root_dir().get(&seg("testdir")), Some(Entity::Dir(_))));

    assert!(matches!(fs.create_directory("nonexistent/subdir"), Err(VfsError::ParentDirectoryNotFound(_))));
    assert!(matches!(fs.create_directory("testdir"), Err(VfsError::AlreadyExists(_))));

    fs.create_directory("parent").unwrap();
    assert!(fs.create_directory("parent/child").is_ok());
    let parent = fs.get_root_dir().find("parent").unwrap().unwrap().as_dir().unwrap();
    assert!(matches!(parent.get(&seg("child")), Some(Entity::Dir(_))));

    for invalid_path in [".", "..", "/"] {
        assert!(matches!(fs.create_directory(invalid_path), Err(VfsError::InvalidPathComponent(_))));
    }

    let results = vec![fs.create_directory("concurrent"), fs.create_directory("concurrent")];
    assert!(results.iter().filter(|r| r.is_ok()).count() == 1);
    assert!(results.iter().filter(|r| matches!(r, Err(VfsError::AlreadyExists(_)))).count() == 1);
}

#[test]
fn test_memoryfs_create_symlink() {
    let mut fs = MemoryFileSystem::new();
    assert!(fs.create_symlink("link", "target").is_ok());
    match fs.get_root_dir().get(&seg("link")) {
        Some(Entity::Symlink(symlink)) => assert_eq!(symlink.get_target(), "target"),
        _ => panic!("Expected symlink entity"),
    }

    assert!(matches!(fs.create_symlink("nonexistent/link", "target"), Err(VfsError::ParentDirectoryNotFound(_))));
    assert!(matches!(fs.create_symlink("link", "new_target"), Err(VfsError::AlreadyExists(_))));
    assert!(matches!(fs.create_symlink("invalid", ""), Err(VfsError::InvalidSymlinkTarget(_))));

    fs.create_directory("parent").unwrap();
    assert!(fs.create_symlink("parent/link", "../target").is_ok());
    let parent = fs.get_root_dir().find("parent").unwrap().unwrap().as_dir().unwrap();
    match parent.get(&seg("link")) {
        Some(Entity::Symlink(symlink)) => assert_eq!(symlink.get_target(), "../target"),
        _ => panic!("Expected symlink entity"),
    }

    for invalid_path in [".", "..", "/"] {
        assert!(matches!(fs.create_symlink(invalid_path, "target"), Err(VfsError::InvalidPathComponent(_))));
    }

    let results = vec![fs.create_symlink("concurrent", "target1"), fs.create_symlink("concurrent", "target2")];
    assert!(results.iter().filter(|r| r.is_ok()).count() == 1);
    assert!(results.iter().filter(|r| matches!(r, Err(VfsError::AlreadyExists(_)))).count() == 1);
}

#[test]
fn test_memoryfs_read_file() {
    let mut fs = MemoryFileSystem::new();
    let content = vec![1, 2, 3, 4, 5];
    file_with(&mut fs, "test.bin", &content);

    assert_eq!(fs.read_file("test.bin", 0, 5).unwrap(), content);
    assert_eq!(fs.read_file("test.bin", 2, 2).unwrap(), vec![3, 4]);
    assert_eq!(fs.read_file("test.bin", 4, 10).unwrap(), vec![5]);
    assert!(matches!(fs.read_file("nonexistent", 0, 1), Err(VfsError::NotFound(_))));

    fs.create_directory("dir").unwrap();
    assert!(matches!(fs.read_file("dir", 0, 1), Err(VfsError::NotAFile(_))));
}

#[test]
fn test_memoryfs_read_directory() {
    let mut fs = MemoryFileSystem::new();
    fs.create_file("file1.txt", false).unwrap();
    fs.create_file("file2.txt", false).unwrap();
    fs.create_directory("subdir").unwrap();
    fs.create_file("subdir/nested.txt", false).unwrap();

    let entries: Vec<String> = fs.read_directory("").unwrap().iter().map(|s| s.to_string()).collect();
    assert_eq!(entries.len(), 3);
    assert!(entries.contains(&"file1.txt".to_string()));
    assert!(entries.contains(&"file2.txt".to_string()));
    assert!(entries.contains(&"subdir".to_string()));

    let entries: Vec<String> = fs.read_directory("subdir").unwrap().iter().map(|s| s.to_string()).collect();
    assert_eq!(entries.len(), 1);
    assert!(entries.contains(&"nested.txt".to_string()));

    assert!(matches!(fs.read_directory("nonexistent"), Err(VfsError::NotFound(_))));
    assert!(matches!(fs.read_directory("file1.txt"), Err(VfsError::NotADirectory(_))));
}

#[test]
fn test_memoryfs_read_symlink() {
    let mut fs = MemoryFileSystem::new();
    fs.create_symlink("link", "target").unwrap();
    assert_eq!(fs.read_symlink("link").unwrap(), "target");
    assert!(matches!(fs.read_symlink("nonexistent"), Err(VfsError::NotFound(_))));
    fs.create_file("file", false).unwrap();
    assert!(matches!(fs.read_symlink("file"), Err(VfsError::NotASymlink(_))));
}

#[test]
fn test_memoryfs_write_file() {
    let mut fs = MemoryFileSystem::new();
    fs.create_file("test.txt", false).unwrap();

    let data = b"Hello, World!".to_vec();
    assert!(fs.write_file("test.txt", 0, data.clone()).is_ok());
    assert_eq!(fs.read_file("test.txt", 0, data.len() as u64).unwrap(), data);

    let append_data = b", Rust!".to_vec();
    let data_len = data.len() as u64;
    assert!(fs.write_file("test.txt", data_len, append_data.clone()).is_ok());
    let total_len = data_len + append_data.len() as u64;
    let mut expected = data.clone();
    expected.extend_from_slice(&append_data);
    assert_eq!(fs.read_file("test.txt", 0, total_len).unwrap(), expected);

    let gap_data = b"gap".to_vec();
    let gap_offset = total_len + 5;
    assert!(fs.write_file("test.txt", gap_offset, gap_data.clone()).is_ok());
    let final_len = gap_offset + gap_data.len() as u64;
    expected.extend_from_slice(&vec![0; 5]);
    expected.extend_from_slice(&gap_data);
    assert_eq!(fs.read_file("test.txt", 0, final_len).unwrap(), expected);

    assert!(matches!(fs.write_file("nonexistent", 0, vec![1, 2, 3]), Err(VfsError::NotFound(_))));
    fs.create_directory("dir").unwrap();
    assert!(matches!(fs.write_file("dir", 0, vec![1, 2, 3]), Err(VfsError::NotAFile(_))));
}

#[test]
fn test_memoryfs_get_metadata() {
    let mut fs = MemoryFileSystem::new();
    fs.create_file("file.txt", false).unwrap();
    fs.create_directory("dir").unwrap();
    fs.create_symlink("link", "target").unwrap();

    assert_eq!(fs.get_metadata("file.txt").unwrap().get_mode().get_type(), Some(ModeType::File));
    assert_eq!(fs.get_metadata("dir").unwrap().get_mode().get_type(), Some(ModeType::Directory));
    assert_eq!(fs.get_metadata("link").unwrap().get_mode().get_type(), Some(ModeType::Symlink));
    assert!(matches!(fs.get_metadata("nonexistent"), Err(VfsError::NotFound(_))));
}

#[test]
fn test_memoryfs_remove() {
    let mut fs = MemoryFileSystem::new();
    fs.create_file("file.txt", false).unwrap();
    fs.create_directory("dir").unwrap();
    fs.create_symlink("link", "target").unwrap();
    fs.create_directory("subdir").unwrap();
    fs.create_file("subdir/nested.txt", false).unwrap();

    assert!(fs.remove("file.txt").is_ok());
    assert!(matches!(fs.read_file("file.txt", 0, 1), Err(VfsError::NotFound(_))));
    assert!(fs.remove("link").is_ok());
    assert!(matches!(fs.read_symlink("link"), Err(VfsError::NotFound(_))));
    assert!(matches!(fs.remove("dir"), Err(VfsError::NotAFile(_))));
    assert!(fs.remove("subdir/nested.txt").is_ok());
    assert!(matches!(fs.read_file("subdir/nested.txt", 0, 1), Err(VfsError::NotFound(_))));
    assert!(matches!(fs.remove("nonexistent"), Err(VfsError::NotFound(_))));
    assert!(matches!(fs.remove("nonexistent/file.txt"), Err(VfsError::ParentDirectoryNotFound(_))));
}

#[test]
fn test_memoryfs_remove_directory() {
    let mut fs = MemoryFileSystem::new();
    fs.create_directory("empty_dir").unwrap();
    fs.create_file("file.txt", false).unwrap();
    fs.create_directory("subdir").unwrap();
    fs.create_directory("subdir/nested").unwrap();
    fs.create_file("subdir/nested/deep.txt", false).unwrap();

    assert!(fs.remove_directory("empty_dir").is_ok());
    assert!(matches!(fs.read_directory("empty_dir"), Err(VfsError::NotFound(_))));
    assert!(matches!(fs.remove_directory("file.txt"), Err(VfsError::NotADirectory(_))));
    assert!(fs.remove_directory("subdir/nested").is_ok());
    assert!(fs.read_directory("subdir").unwrap().is_empty());
    assert!(fs.remove_directory("subdir").is_ok());
    assert!(matches!(fs.read_directory("subdir"), Err(VfsError::NotFound(_))));
    assert!(matches!(fs.remove_directory("nonexistent"), Err(VfsError::NotFound(_))));
    assert!(matches!(fs.remove_directory("nonexistent/dir"), Err(VfsError::ParentDirectoryNotFound(_))));
}

#[test]
fn test_memoryfs_rename() {
    let mut fs = MemoryFileSystem::new();
    file_with(&mut fs, "file.txt", &[1, 2, 3]);
    fs.create_directory("dir1").unwrap();
    fs.create_directory("dir2").unwrap();
    file_with(&mut fs, "dir2/nested.txt", &[4, 5, 6]);
    fs.create_symlink("link", "target").unwrap();

    assert!(fs.rename("file.txt", "renamed.txt").is_ok());
    assert!(fs.path_exists("renamed.txt").unwrap());
    assert!(!fs.path_exists("file.txt").unwrap());
    assert_eq!(fs.read_file("renamed.txt", 0, 3).unwrap(), vec![1, 2, 3]);

    assert!(fs.rename("renamed.txt", "dir1/moved.txt").is_ok());
    assert!(fs.path_exists("dir1/moved.txt").unwrap());
    assert!(!fs.path_exists("renamed.txt").unwrap());

    assert!(fs.rename("dir2/nested.txt", "extracted.txt").is_ok());
    assert!(fs.path_exists("extracted.txt").unwrap());
    assert!(!fs.path_exists("dir2/nested.txt").unwrap());

    assert!(fs.rename("link", "newlink").is_ok());
    assert_eq!(fs.read_symlink("newlink").unwrap(), "target");
    assert!(!fs.path_exists("link").unwrap());

    assert!(fs.rename("dir1/moved.txt", "dir2/final.txt").is_ok());
    assert!(fs.path_exists("dir2/final.txt").unwrap());
    assert!(!fs.path_exists("dir1/moved.txt").unwrap());

    assert!(matches!(fs.rename("nonexistent", "dest.txt"), Err(VfsError::NotFound(_))));
    assert!(fs.create_file("existing.txt", false).is_ok());
    assert!(matches!(fs.rename("extracted.txt", "existing.txt"), Err(VfsError::AlreadyExists(_))));
    assert!(matches!(fs.rename("nonexistent_dir/file.txt", "dest.txt"), Err(VfsError::ParentDirectoryNotFound(_))));
    assert!(matches!(fs.rename("extracted.txt", "nonexistent_dir/file.txt"), Err(VfsError::ParentDirectoryNotFound(_))));
    assert!(fs.create_file("not_a_dir", false).is_ok());
    assert!(matches!(fs.rename("not_a_dir/file.txt", "dest.txt"), Err(VfsError::NotADirectory(_))));
    assert!(matches!(fs.rename("extracted.txt", "not_a_dir/file.txt"), Err(VfsError::NotADirectory(_))));

    for invalid_path in [".", "..", "/"] {
        assert!(matches!(fs.rename("extracted.txt", invalid_path), Err(VfsError::InvalidPathComponent(_))));
        assert!(matches!(fs.rename(invalid_path, "valid.txt"), Err(VfsError::InvalidPathComponent(_))));
    }

    let results = vec![fs.rename("extracted.txt", "concurrent1.txt"), fs.rename("extracted.txt", "concurrent2.txt")];
    assert!(results.iter().filter(|r| r.is_ok()).count() == 1);
    assert!(results.iter().filter(|r| matches!(r, Err(VfsError::NotFound(_)))).count() == 1);
}

#[test]
fn writes_set_the_file_size_and_the_empty_path_is_the_root() {
    let mut fs = MemoryFileSystem::new();
    fs.create_file("test.txt", false).unwrap();
    fs.write_file("test.txt", 0, b"Hello, World!".to_vec()).unwrap();
    assert_eq!(fs.get_metadata("test.txt").unwrap().get_size(), 13);
    fs.write_file("test.txt", 20, b"x".to_vec()).unwrap();
    assert_eq!(fs.get_metadata("test.txt").unwrap().get_size(), 21);
    assert!(fs.path_exists("").unwrap());
    assert_eq!(fs.get_metadata("").unwrap().get_type(), Some(ModeType::Directory));
}
