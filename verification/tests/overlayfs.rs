use monocore::vfs::error::VfsError;
use monocore::vfs::memoryfs::MemoryFileSystem;
use monocore::vfs::metadata::{Metadata, ModeType};
use monocore::vfs::overlayfs::OverlayFileSystem;

fn create_fs(files: &[&str]) -> MemoryFileSystem {
    let mut fs = MemoryFileSystem::new();
    for path in files {
        let parts: Vec<&str> = path.split('/').collect();
        for k in 1..parts.len() {
            let dir = parts[..k].join("/");
            if !fs.path_exists(&dir).unwrap() {
                let _ = fs.create_directory(&dir);
            }
        }
        fs.create_file(path, false).unwrap();
    }
    fs
}

fn with_content(mut fs: MemoryFileSystem, path: &str, content: &[u8]) -> MemoryFileSystem {
    fs.write_file(path, 0, content.to_vec()).unwrap();
    fs
}

#[test]
fn test_overlayfs_new_requires_a_layer() {
    assert!(matches!(OverlayFileSystem::new(vec![]), Err(VfsError::OverlayFileSystemRequiresAtLeastOneLayer)));
}

#[test]
fn test_overlayfs_exists_basic_functionality() {
    let lower = create_fs(&["file1.txt", "dir1/file2.txt"]);
    let upper = create_fs(&["file3.txt"]);
    let overlay = OverlayFileSystem::new(vec![lower, upper]).unwrap();
    assert!(overlay.path_exists("file1.txt").unwrap());
    assert!(overlay.path_exists("file3.txt").unwrap());
    assert!(overlay.path_exists("dir1/file2.txt").unwrap());
    assert!(!overlay.path_exists("nonexistent.txt").unwrap());
}

#[test]
fn test_overlayfs_exists_with_whiteouts() {
    let lower = create_fs(&["file1.txt", "file2.txt"]);
    let upper = create_fs(&[".wh.file1.txt"]);
    let overlay = OverlayFileSystem::new(vec![lower, upper]).unwrap();
    assert!(!overlay.path_exists("file1.txt").unwrap());
    assert!(overlay.path_exists("file2.txt").unwrap());
}

#[test]
fn test_overlayfs_exists_with_opaque_directories() {
    let lower = create_fs(&["dir1/file1.txt", "dir1/file2.txt"]);
    let upper = create_fs(&["dir1/.wh..wh..opq", "dir1/file3.txt"]);
    let overlay = OverlayFileSystem::new(vec![lower, upper]).unwrap();
    assert!(!overlay.path_exists("dir1/file1.txt").unwrap());
    assert!(!overlay.path_exists("dir1/file2.txt").unwrap());
    assert!(overlay.path_exists("dir1/file3.txt").unwrap());
    assert!(overlay.path_exists("dir1").unwrap());
}

#[test]
fn test_overlayfs_exists_layer_precedence() {
    let lower = create_fs(&["file1.txt"]);
    let middle = create_fs(&["file1.txt", "file2.txt"]);
    let upper = create_fs(&["file2.txt"]);
    let overlay = OverlayFileSystem::new(vec![lower, middle, upper]).unwrap();
    assert!(overlay.path_exists("file1.txt").unwrap());
    assert!(overlay.path_exists("file2.txt").unwrap());
}

#[test]
fn test_overlayfs_exists_edge_cases() {
    let lower = create_fs(&["file1.txt"]);
    let upper = create_fs(&[".wh.file1.txt", ".wh..wh..opq"]);
    let overlay = OverlayFileSystem::new(vec![lower, upper]).unwrap();
    assert!(!overlay.path_exists(".wh.file1.txt").unwrap());
    assert!(!overlay.path_exists(".wh..wh..opq").unwrap());
    assert!(!overlay.path_exists("file1.txt").unwrap());
    assert!(overlay.path_exists(".").is_err());
    assert!(overlay.path_exists("..").is_err());
}

#[test]
fn test_overlayfs_create_file_in_top_layer() {
    let lower = create_fs(&["dir/existing.txt"]);
    let top = create_fs(&[]);
    let mut overlay = OverlayFileSystem::new(vec![lower, top]).unwrap();
    overlay.create_file("dir/new.txt", false).unwrap();
    assert!(overlay.path_exists("dir/new.txt").unwrap());
    assert!(overlay.get_top_layer().path_exists("dir/new.txt").unwrap());
    assert!(!overlay.get_lower_layers()[0].path_exists("dir/new.txt").unwrap());
}

#[test]
fn test_overlayfs_create_file_with_whiteout() {
    let lower = create_fs(&["dir/file.txt"]);
    let top = create_fs(&["dir/.wh.file.txt"]);
    let mut overlay = OverlayFileSystem::new(vec![lower, top]).unwrap();
    assert!(overlay.create_file("dir/file.txt", false).is_ok());
    assert!(!overlay.get_top_layer().path_exists("dir/.wh.file.txt").unwrap());
    assert!(overlay.get_top_layer().path_exists("dir/file.txt").unwrap());
}

#[test]
fn test_overlayfs_create_file_in_opaque_directory() {
    let lower = create_fs(&["dir/lower.txt"]);
    let top = create_fs(&["dir/.wh..wh..opq"]);
    let mut overlay = OverlayFileSystem::new(vec![lower, top]).unwrap();
    overlay.create_file("dir/new.txt", false).unwrap();
    assert!(overlay.get_top_layer().path_exists("dir/new.txt").unwrap());
    assert!(!overlay.path_exists("dir/lower.txt").unwrap());
}

#[test]
fn test_overlayfs_create_directory_with_existing_content() {
    let lower = create_fs(&["existing/file.txt"]);
    let top = create_fs(&[]);
    let mut overlay = OverlayFileSystem::new(vec![lower, top]).unwrap();
    overlay.create_directory("existing").unwrap();
    assert!(overlay.get_top_layer().path_exists("existing").unwrap());
    assert!(overlay.path_exists("existing/file.txt").unwrap());
}

#[test]
fn test_overlayfs_create_directory_over_whiteout() {
    let lower = create_fs(&["dir/file.txt"]);
    let top = create_fs(&[".wh.dir"]);
    let mut overlay = OverlayFileSystem::new(vec![lower, top]).unwrap();
    overlay.create_directory("dir").unwrap();
    assert!(!overlay.get_top_layer().path_exists(".wh.dir").unwrap());
    assert!(overlay.get_top_layer().path_exists("dir").unwrap());
}

#[test]
fn test_overlayfs_create_symlink_in_whited_out_directory() {
    let lower = create_fs(&["dir/target.txt"]);
    let top = create_fs(&[".wh.dir"]);
    let mut overlay = OverlayFileSystem::new(vec![lower, top]).unwrap();
    assert!(matches!(overlay.create_symlink("dir/link", "target.txt"), Err(VfsError::ParentDirectoryNotFound(p)) if p == "dir"));
}

#[test]
fn test_overlayfs_create_symlink_with_target_in_lower_layer() {
    let lower = create_fs(&["dir/target.txt"]);
    let top = create_fs(&[]);
    let mut overlay = OverlayFileSystem::new(vec![lower, top]).unwrap();
    overlay.create_symlink("dir/link", "target.txt").unwrap();
    assert_eq!(overlay.read_symlink("dir/link").unwrap(), "target.txt");
    assert!(overlay.get_top_layer().path_exists("dir/link").unwrap());
}

#[test]
fn creating_whiteout_names_is_refused() {
    let top = create_fs(&[]);
    let mut overlay = OverlayFileSystem::new(vec![top]).unwrap();
    assert!(matches!(overlay.create_directory(".wh.x"), Err(VfsError::Io(_))));
    assert!(matches!(overlay.create_symlink(".wh.y", "t"), Err(VfsError::Io(_))));
    assert!(matches!(overlay.create_file(".wh.z", false), Err(VfsError::Io(_))));
}

#[test]
fn test_overlayfs_read_file_lower_layer() {
    let lower = with_content(create_fs(&["file_lower.txt"]), "file_lower.txt", b"lower");
    let top = create_fs(&[]);
    let overlay = OverlayFileSystem::new(vec![lower, top]).unwrap();
    assert_eq!(overlay.read_file("file_lower.txt", 0, u64::MAX).unwrap(), b"lower".to_vec());
}

#[test]
fn test_overlayfs_read_file_whiteout() {
    let lower = create_fs(&["f.txt"]);
    let top = create_fs(&[".wh.f.txt"]);
    let overlay = OverlayFileSystem::new(vec![lower, top]).unwrap();
    assert!(matches!(overlay.read_file("f.txt", 0, 1), Err(VfsError::NotFound(_))));
    assert!(matches!(overlay.get_metadata("f.txt"), Err(VfsError::NotFound(_))));
}

#[test]
fn test_overlayfs_copyup_metadata() {
    let mut lower = create_fs(&["dir/existing.txt"]);
    let mut custom_meta = Metadata::new(ModeType::Directory);
    custom_meta.set_size(100);
    lower.set_metadata("dir", custom_meta).unwrap();
    let top = create_fs(&[]);
    let mut overlay = OverlayFileSystem::new(vec![lower, top]).unwrap();
    overlay.create_file("dir/new.txt", false).unwrap();
    let top_dir_meta = overlay.get_top_layer().get_metadata("dir").unwrap();
    assert_eq!(top_dir_meta.get_size(), custom_meta.get_size(), "Metadata size should be copied up correctly");
}

#[test]
fn test_overlayfs_write_file_copyup() {
    let lower = with_content(create_fs(&["test.txt"]), "test.txt", b"Existing");
    let top = create_fs(&[]);
    let mut overlay = OverlayFileSystem::new(vec![lower, top]).unwrap();
    overlay.write_file("test.txt", 0, b"NewContent".to_vec()).unwrap();
    assert_eq!(overlay.get_top_layer().read_file("test.txt", 0, 1024).unwrap(), b"NewContent".to_vec());
    assert_eq!(overlay.get_lower_layers()[0].read_file("test.txt", 0, 1024).unwrap(), b"Existing".to_vec());
}

#[test]
fn write_copy_up_keeps_the_lower_tail() {
    let lower = with_content(create_fs(&["t.txt"]), "t.txt", b"abcdef");
    let top = create_fs(&[]);
    let mut overlay = OverlayFileSystem::new(vec![lower, top]).unwrap();
    overlay.write_file("t.txt", 1, b"XY".to_vec()).unwrap();
    assert_eq!(overlay.read_file("t.txt", 0, 100).unwrap(), b"aXYdef".to_vec());
}

#[test]
fn test_overlayfs_write_file_top_layer() {
    let top = create_fs(&["test_overlayfs_top.txt"]);
    let mut overlay = OverlayFileSystem::new(vec![top]).unwrap();
    overlay.write_file("test_overlayfs_top.txt", 0, b"Updated".to_vec()).unwrap();
    assert_eq!(overlay.get_top_layer().read_file("test_overlayfs_top.txt", 0, 1024).unwrap(), b"Updated".to_vec());
}

#[test]
fn write_to_whiteout_name_is_not_found() {
    let top = create_fs(&[]);
    let mut overlay = OverlayFileSystem::new(vec![top]).unwrap();
    assert!(matches!(overlay.write_file(".wh.a", 0, vec![1]), Err(VfsError::NotFound(_))));
}

#[test]
fn test_overlayfs_rename_copyup() {
    let lower = with_content(create_fs(&["rename.txt"]), "rename.txt", b"ToRename");
    let top = create_fs(&[]);
    let mut overlay = OverlayFileSystem::new(vec![lower, top]).unwrap();
    overlay.rename("rename.txt", "renamed.txt").unwrap();
    assert!(!overlay.path_exists("rename.txt").unwrap());
    assert_eq!(overlay.get_top_layer().read_file("renamed.txt", 0, 1024).unwrap(), b"ToRename".to_vec());
    assert!(overlay.get_top_layer().path_exists(".wh.rename.txt").unwrap());
}

#[test]
fn test_overlayfs_rename_top_layer() {
    let top = with_content(create_fs(&["topfile.txt"]), "topfile.txt", b"TopContent");
    let mut overlay = OverlayFileSystem::new(vec![top]).unwrap();
    overlay.rename("topfile.txt", "topfile_renamed.txt").unwrap();
    assert!(!overlay.path_exists("topfile.txt").unwrap());
    assert_eq!(overlay.get_top_layer().read_file("topfile_renamed.txt", 0, 1024).unwrap(), b"TopContent".to_vec());
}

#[test]
fn rename_onto_existing_path_is_refused() {
    let lower = create_fs(&["a", "b"]);
    let top = create_fs(&[]);
    let mut overlay = OverlayFileSystem::new(vec![lower, top]).unwrap();
    assert!(matches!(overlay.rename("a", "b"), Err(VfsError::AlreadyExists(p)) if p == "b"));
    assert!(matches!(overlay.rename("missing", "c"), Err(VfsError::NotFound(p)) if p == "missing"));
}

#[test]
fn test_overlayfs_remove_top_layer() {
    let top = with_content(create_fs(&["remove_top.txt"]), "remove_top.txt", b"DeleteMe");
    let mut overlay = OverlayFileSystem::new(vec![top]).unwrap();
    overlay.remove("remove_top.txt").unwrap();
    assert!(!overlay.path_exists("remove_top.txt").unwrap());
}

#[test]
fn test_overlayfs_remove_whiteout() {
    let lower = with_content(create_fs(&["remove_lower.txt"]), "remove_lower.txt", b"Content");
    let top = create_fs(&[]);
    let mut overlay = OverlayFileSystem::new(vec![lower, top]).unwrap();
    overlay.remove("remove_lower.txt").unwrap();
    assert!(!overlay.path_exists("remove_lower.txt").unwrap());
    assert!(overlay.get_top_layer().path_exists(".wh.remove_lower.txt").unwrap());
    assert!(overlay.get_lower_layers()[0].path_exists("remove_lower.txt").unwrap());
}

#[test]
fn remove_missing_and_whiteout_names() {
    let top = create_fs(&[".wh.a"]);
    let mut overlay = OverlayFileSystem::new(vec![top]).unwrap();
    assert!(matches!(overlay.remove("nothing"), Err(VfsError::NotFound(p)) if p == "nothing"));
    assert!(matches!(overlay.remove(".wh.a"), Err(VfsError::NotFound(_))));
}

#[test]
fn test_overlayfs_read_directory_merged_after_copyup() {
    let lower = create_fs(&["dir/lower.txt"]);
    let top = create_fs(&[]);
    let mut overlay = OverlayFileSystem::new(vec![lower, top]).unwrap();
    overlay.create_file("dir/new.txt", false).unwrap();
    overlay.write_file("dir/new.txt", 0, b"new content".to_vec()).unwrap();
    let mut entries: Vec<String> = overlay.read_directory("dir").unwrap().iter().map(|s| s.to_string()).collect();
    entries.sort();
    assert_eq!(entries, vec!["lower.txt".to_string(), "new.txt".to_string()]);
}

#[test]
fn read_directory_hides_whiteouts() {
    let lower = create_fs(&["d/a", "d/b"]);
    let top = create_fs(&["d/.wh.a", "d/c"]);
    let overlay = OverlayFileSystem::new(vec![lower, top]).unwrap();
    let mut entries: Vec<String> = overlay.read_directory("d").unwrap().iter().map(|s| s.to_string()).collect();
    entries.sort();
    assert_eq!(entries, vec!["b".to_string(), "c".to_string()]);
}

#[test]
fn set_metadata_copies_up_and_leaves_lower_layers_alone() {
    let lower = with_content(create_fs(&["dir/low.txt"]), "dir/low.txt", b"abc");
    let top = create_fs(&["up.txt"]);
    let mut overlay = OverlayFileSystem::new(vec![lower, top]).unwrap();
    let mut md = Metadata::new(ModeType::File);
    md.set_size(7);
    overlay.set_metadata("dir/low.txt", md).unwrap();
    assert_eq!(overlay.get_lower_layers()[0].get_metadata("dir/low.txt").unwrap().get_size(), 3);
    assert_eq!(overlay.get_top_layer().get_metadata("dir/low.txt").unwrap().get_size(), 7);
    assert_eq!(overlay.get_metadata("dir/low.txt").unwrap().get_size(), 7);
    assert_eq!(overlay.read_file("dir/low.txt", 0, 10).unwrap(), b"abc".to_vec());
    overlay.set_metadata("up.txt", md).unwrap();
    assert_eq!(overlay.get_top_layer().get_metadata("up.txt").unwrap().get_size(), 7);
    assert!(matches!(overlay.set_metadata("none.txt", md), Err(VfsError::NotFound(_))));
}

#[test]
fn test_overlayfs_create_directory_in_opaque_directory() {
    let lower = create_fs(&["dir/file.txt"]);
    let top = create_fs(&["dir/.wh..wh..opq"]);
    let mut overlay = OverlayFileSystem::new(vec![lower, top]).unwrap();
    overlay.create_directory("dir/subdir").unwrap();
    assert!(!overlay.path_exists("dir/file.txt").unwrap());
    assert!(overlay.path_exists("dir/subdir").unwrap());
}

#[test]
fn test_overlayfs_create_symlink_in_opaque_directory() {
    let lower = create_fs(&["dir/target.txt"]);
    let top = create_fs(&["dir/.wh..wh..opq"]);
    let mut overlay = OverlayFileSystem::new(vec![lower, top]).unwrap();
    overlay.create_symlink("dir/link", "target.txt").unwrap();
    assert!(overlay.get_top_layer().path_exists("dir/link").unwrap());
    assert!(!overlay.path_exists("dir/target.txt").unwrap());
}

#[test]
fn test_overlayfs_create_file_parent_copyup() {
    let lower = create_fs(&["dir/existing.txt"]);
    let top = create_fs(&[]);
    let mut overlay = OverlayFileSystem::new(vec![lower, top]).unwrap();
    overlay.create_file("dir/new.txt", false).expect("should copy up parent and create file");
    assert!(overlay.get_top_layer().path_exists("dir/new.txt").unwrap());
}

#[test]
fn test_overlayfs_read_file_upper_layer() {
    let top = create_fs(&["file_upper.txt"]);
    let overlay = OverlayFileSystem::new(vec![top]).unwrap();
    let buf = overlay.read_file("file_upper.txt", 0, 1024).expect("file in upper layer should be readable");
    assert_eq!(buf.len(), 0);
}

#[test]
fn test_overlayfs_read_directory_upper_layer() {
    let top = create_fs(&["dir/child.txt"]);
    let overlay = OverlayFileSystem::new(vec![top]).unwrap();
    let segments: Vec<String> =
        overlay.read_directory("dir").expect("directory should be readable").iter().map(|s| s.to_string()).collect();
    assert!(segments.iter().any(|name| name.contains("child")));
}

#[test]
fn test_overlayfs_read_directory_lower_layer() {
    let lower = create_fs(&["dir/child_lower.txt"]);
    let top = create_fs(&[]);
    let overlay = OverlayFileSystem::new(vec![lower, top]).unwrap();
    let segments: Vec<String> = overlay
        .read_directory("dir")
        .expect("directory in lower layer should be readable")
        .iter()
        .map(|s| s.to_string())
        .collect();
    assert!(segments.iter().any(|s| s.contains("child_lower")));
}

#[test]
fn test_overlayfs_read_directory_whiteout() {
    let lower = create_fs(&["dir/child.txt"]);
    let top = create_fs(&[".wh.dir"]);
    let overlay = OverlayFileSystem::new(vec![lower, top]).unwrap();
    assert!(matches!(overlay.read_directory("dir"), Err(VfsError::NotFound(_))));
}

#[test]
fn test_overlayfs_read_symlink_upper_layer() {
    let top = create_fs(&[]);
    let mut overlay = OverlayFileSystem::new(vec![top]).unwrap();
    overlay.create_symlink("link", "target_upper.txt").expect("symlink creation in top layer should succeed");
    assert_eq!(overlay.read_symlink("link").expect("symlink should be readable"), "target_upper.txt");
}

#[test]
fn test_overlayfs_read_symlink_lower_layer() {
    let mut lower = create_fs(&[]);
    lower.create_symlink("link", "target_lower.txt").expect("symlink creation in lower layer should succeed");
    let top = create_fs(&[]);
    let overlay = OverlayFileSystem::new(vec![lower, top]).unwrap();
    assert_eq!(overlay.read_symlink("link").expect("should read symlink from lower layer"), "target_lower.txt");
}

#[test]
fn test_overlayfs_read_symlink_whiteout() {
    let mut lower = create_fs(&[]);
    lower.create_symlink("link", "target.txt").expect("symlink creation should succeed");
    let top = create_fs(&[".wh.link"]);
    let overlay = OverlayFileSystem::new(vec![lower, top]).unwrap();
    assert!(matches!(overlay.read_symlink("link"), Err(VfsError::NotFound(_))));
}

#[test]
fn test_overlayfs_get_metadata_upper_layer() {
    let top = create_fs(&["meta.txt"]);
    let overlay = OverlayFileSystem::new(vec![top]).unwrap();
    let metadata = overlay.get_metadata("meta.txt").expect("metadata should be available");
    assert_eq!(metadata.get_size(), 0);
}

#[test]
fn test_overlayfs_get_metadata_lower_layer() {
    let lower = create_fs(&["meta_lower.txt"]);
    let top = create_fs(&[]);
    let overlay = OverlayFileSystem::new(vec![lower, top]).unwrap();
    let metadata = overlay.get_metadata("meta_lower.txt").expect("metadata from lower layer should be available");
    assert_eq!(metadata.get_size(), 0);
}

#[test]
fn test_overlayfs_get_metadata_whiteout() {
    let lower = create_fs(&["meta.txt"]);
    let top = create_fs(&[".wh.meta.txt"]);
    let overlay = OverlayFileSystem::new(vec![lower, top]).unwrap();
    assert!(matches!(overlay.get_metadata("meta.txt"), Err(VfsError::NotFound(_))));
}

#[test]
fn empty_path_names_the_root() {
    let lower = create_fs(&["a.txt"]);
    let top = create_fs(&[]);
    let overlay = OverlayFileSystem::new(vec![lower, top]).unwrap();
    assert!(overlay.path_exists("").unwrap());
    assert_eq!(overlay.get_metadata("").unwrap().get_type(), Some(ModeType::Directory));
    assert!(overlay.get_metadata_checked("").unwrap().is_ok());
}
