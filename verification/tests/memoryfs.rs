use monocore::vfs::error::VfsError;
use monocore::vfs::memoryfs::{Dir, Entity, File, MemoryFileSystem};
use monocore::vfs::metadata::{ModeType, User};
use monocore::vfs::segment::PathSegment;

#[test]
fn test_memoryfs_dir_new() {
    let dir = Dir::new();
    assert_eq!(dir.len(), 0);
    assert_eq!(dir.get_metadata().get_size(), 0);
}

#[test]
fn test_memoryfs_dir_put_and_get() {
    let mut dir = Dir::new();
    let file = File::with_content(vec![1, 2, 3]);
    let path = PathSegment::try_from_str("test.txt").unwrap();

    assert!(dir.put(path.duplicate(), Entity::File(file)).is_ok());

    let entity = dir.get(&path).unwrap();
    match entity {
        Entity::File(f) => assert_eq!(f.get_content(), &vec![1, 2, 3]),
        _ => panic!("Expected file entity"),
    }

    assert!(matches!(dir.put(path, Entity::File(File::new())), Err(VfsError::AlreadyExists(_))));
}

#[test]
fn test_memoryfs_dir_get_nonexistent() {
    let dir = Dir::new();
    let path = PathSegment::try_from_str("nonexistent.txt").unwrap();
    assert!(dir.get(&path).is_none());
}

#[test]
fn test_memoryfs_dir_find() {
    let mut root = Dir::new();
    let mut subdir = Dir::new();
    let file = File::with_content(vec![1, 2, 3]);

    let file_path = PathSegment::try_from_str("test.txt").unwrap();
    subdir.put(file_path, Entity::File(file)).unwrap();

    let subdir_path = PathSegment::try_from_str("subdir").unwrap();
    root.put(subdir_path, Entity::Dir(subdir)).unwrap();

    let found = root.find("subdir/test.txt").unwrap().unwrap();
    match found {
        Entity::File(f) => assert_eq!(f.get_content(), &vec![1, 2, 3]),
        _ => panic!("Expected file entity"),
    }

    let found = root.find("subdir").unwrap().unwrap();
    assert!(matches!(found, Entity::Dir(_)));

    assert!(root.find("nonexistent/path").unwrap().is_none());

    assert!(matches!(root.find(".."), Err(VfsError::InvalidPathComponent(_))));
    assert!(matches!(root.find("."), Err(VfsError::InvalidPathComponent(_))));
    assert!(matches!(root.find(""), Err(VfsError::InvalidPathComponent(_))));
}

fn fs_with_file(path: &str, content: &[u8]) -> MemoryFileSystem {
    let mut fs = MemoryFileSystem::new();
    fs.create_file(path, false).unwrap();
    fs.write_file(path, 0, content.to_vec()).unwrap();
    fs
}

#[test]
fn memoryfs_write_then_read() {
    let mut fs = fs_with_file("a.txt", b"hello");
    assert_eq!(fs.read_file("a.txt", 0, u64::MAX).unwrap(), b"hello".to_vec());
    assert_eq!(fs.read_file("a.txt", 1, 3).unwrap(), b"ell".to_vec());
    assert_eq!(fs.read_file("a.txt", 10, 3).unwrap(), Vec::<u8>::new());
    fs.write_file("a.txt", 3, b"LOWORLD".to_vec()).unwrap();
    assert_eq!(fs.read_file("a.txt", 0, u64::MAX).unwrap(), b"helLOWORLD".to_vec());
    fs.write_file("a.txt", 12, b"!".to_vec()).unwrap();
    assert_eq!(fs.read_file("a.txt", 0, u64::MAX).unwrap(), b"helLOWORLD\0\0!".to_vec());
}

#[test]
fn memoryfs_create_errors() {
    let mut fs = fs_with_file("a.txt", b"x");
    assert!(matches!(fs.create_file("a.txt", false), Err(VfsError::AlreadyExists(p)) if p == "a.txt"));
    assert!(fs.create_file("a.txt", true).is_ok());
    assert!(matches!(fs.create_file("missing/b.txt", false), Err(VfsError::ParentDirectoryNotFound(_))));
    assert!(matches!(fs.create_file("a.txt/b.txt", false), Err(VfsError::NotADirectory(_))));
    assert!(matches!(fs.create_directory(".."), Err(VfsError::InvalidPathComponent(_))));
    assert!(matches!(fs.create_symlink("l", ""), Err(VfsError::InvalidSymlinkTarget(_))));
}

#[test]
fn memoryfs_directories_and_links() {
    let mut fs = MemoryFileSystem::new();
    fs.create_directory("d").unwrap();
    fs.create_file("d/f", false).unwrap();
    fs.create_symlink("d/l", "f").unwrap();
    assert!(fs.path_exists("d/f").unwrap());
    assert!(!fs.path_exists("d/g").unwrap());
    assert_eq!(fs.read_symlink("d/l").unwrap(), "f");
    assert!(matches!(fs.read_symlink("d/f"), Err(VfsError::NotASymlink(_))));
    assert!(matches!(fs.read_file("d", 0, 1), Err(VfsError::NotAFile(_))));
    let mut names: Vec<String> = fs.read_directory("d").unwrap().iter().map(|s| s.to_string()).collect();
    names.sort();
    assert_eq!(names, vec!["f".to_string(), "l".to_string()]);
    assert!(matches!(fs.read_directory("d/f"), Err(VfsError::NotADirectory(_))));
    assert!(matches!(fs.get_metadata("d").unwrap().get_type(), Some(ModeType::Directory)));
    assert!(matches!(fs.get_metadata("d/l").unwrap().get_type(), Some(ModeType::Symlink)));
}

#[test]
fn memoryfs_remove_and_rename() {
    let mut fs = fs_with_file("a", b"1");
    fs.create_directory("d").unwrap();
    assert!(matches!(fs.remove("d"), Err(VfsError::NotAFile(_))));
    assert!(matches!(fs.remove_directory("a"), Err(VfsError::NotADirectory(_))));
    fs.rename("a", "d/b").unwrap();
    assert!(!fs.path_exists("a").unwrap());
    assert_eq!(fs.read_file("d/b", 0, 10).unwrap(), b"1".to_vec());
    assert!(matches!(fs.rename("a", "c"), Err(VfsError::NotFound(_))));
    fs.remove("d/b").unwrap();
    assert!(matches!(fs.remove("d/b"), Err(VfsError::NotFound(_))));
    fs.remove_directory("d").unwrap();
    assert!(!fs.path_exists("d").unwrap());
}

#[test]
fn memoryfs_set_metadata() {
    let mut fs = fs_with_file("a", b"1");
    let mut md = fs.get_metadata("a").unwrap();
    md.set_permissions(User::R);
    fs.set_metadata("a", md).unwrap();
    assert_eq!(fs.get_metadata("a").unwrap().get_permissions().to_string(), "r--------");
    assert!(matches!(fs.set_metadata("b", md), Err(VfsError::NotFound(_))));
}
