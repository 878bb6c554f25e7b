use std::path::PathBuf;
use tokitai_context::fuse_fs::{
    FileHandle, FuseConfig, FuseError, FuseFS, Inode, InodeAttr, EACCES, EEXIST, ENOENT, ENOTEMPTY, S_IFDIR,
    S_IFREG,
};

// `libc::O_RDONLY` on Linux.
const O_RDONLY: i32 = 0;

#[test]
fn test_fuse_config_creation() {
    let config = FuseConfig::new("/mnt/tokitai");
    assert_eq!(config.mount_point, PathBuf::from("/mnt/tokitai"));
    assert!(!config.debug);
}

#[test]
fn test_fuse_config_builder() {
    let config = FuseConfig::new("/mnt/test").with_root_path("/tmp/tokitai").with_debug(true);

    assert_eq!(config.root_path, PathBuf::from("/tmp/tokitai"));
    assert!(config.debug);
}

#[test]
fn test_fuse_fs_creation() {
    let config = FuseConfig::new("/mnt/tokitai");
    let mut fs = FuseFS::new(config, 1000, 1000);

    assert!(fs.get_inode(1).is_some());
    assert_eq!(fs.next_ino(), 2);
}

#[test]
fn test_inode_attr_directory() {
    let attr = InodeAttr::directory(1, 0, 0);
    assert_eq!(attr.ino, 1);
    assert!(attr.mode & S_IFDIR != 0);
    assert_eq!(attr.nlink, 2);
}

#[test]
fn test_inode_attr_file() {
    let attr = InodeAttr::file(2, 1024, 0, 0);
    assert_eq!(attr.ino, 2);
    assert_eq!(attr.size, 1024);
    assert!(attr.mode & S_IFREG != 0);
}

#[test]
fn test_inode_creation() {
    let dir = Inode::new("test".to_string(), 1, 2, 0, 0);
    assert_eq!(dir.name, "test");
    assert_eq!(dir.parent, 1);
    assert_eq!(dir.attr.ino, 2);
    assert!(dir.children.is_empty());
}

#[test]
fn test_file_handle_creation() {
    let handle = FileHandle::new("test.txt".to_string(), O_RDONLY);
    assert_eq!(handle.path(), "test.txt");
    assert_eq!(handle.flags(), O_RDONLY);
    assert!(!handle.is_dirty());
}

#[test]
fn test_error_conversion() {
    let err = FuseError::NotFound("test".to_string());
    assert_eq!(err.errno(), ENOENT);

    let err = FuseError::AlreadyExists("test".to_string());
    assert_eq!(err.errno(), EEXIST);

    let err = FuseError::PermissionDenied("test".to_string());
    assert_eq!(err.errno(), EACCES);
}

#[test]
fn test_next_inode() {
    let config = FuseConfig::new("/mnt/tokitai");
    let mut fs = FuseFS::new(config, 0, 0);

    let ino1 = fs.next_ino();
    let ino2 = fs.next_ino();
    let ino3 = fs.next_ino();

    assert_eq!(ino1, 2);
    assert_eq!(ino2, 3);
    assert_eq!(ino3, 4);
}

#[test]
fn test_get_inode() {
    let config = FuseConfig::new("/mnt/tokitai");
    let fs = FuseFS::new(config, 0, 0);

    let root = fs.get_inode(1).unwrap();
    assert_eq!(root.name, "");
    assert_eq!(root.parent, 0);
}

#[test]
fn mkdir_then_lookup_by_names() {
    let mut fs = FuseFS::new(FuseConfig::new("/mnt/x"), 7, 8);
    let a = fs.mkdir_internal(1, "a").unwrap();
    let b = fs.create_internal(a, "b.txt").unwrap();
    assert_eq!(a, 2);
    assert_eq!(b, 3);
    assert_eq!(fs.get_inode_by_names(&["a".to_string(), "b.txt".to_string()]), Some(b));
    assert_eq!(fs.get_inode_by_names(&["a".to_string(), "c".to_string()]), None);
    let file = fs.get_inode(b).unwrap();
    assert_eq!(file.attr.uid, 7);
    assert_eq!(file.attr.gid, 8);
    assert!(file.attr.mode & S_IFREG != 0);
}

#[test]
fn mkdir_twice_is_refused() {
    let mut fs = FuseFS::new(FuseConfig::new("/mnt/x"), 0, 0);
    fs.mkdir_internal(1, "a").unwrap();
    match fs.mkdir_internal(1, "a") {
        Err(FuseError::AlreadyExists(m)) => assert_eq!(m, "a"),
        other => panic!("unexpected {:?}", other),
    }
    match fs.mkdir_internal(99, "x") {
        Err(FuseError::NotFound(m)) => assert_eq!(m, "Parent inode 99 not found"),
        other => panic!("unexpected {:?}", other),
    }
}

#[test]
fn unlink_and_rmdir() {
    let mut fs = FuseFS::new(FuseConfig::new("/mnt/x"), 0, 0);
    let d = fs.mkdir_internal(1, "d").unwrap();
    let f = fs.create_internal(d, "f").unwrap();
    match fs.rmdir_internal(1, "d") {
        Err(e) => assert_eq!(e.errno(), ENOTEMPTY),
        Ok(()) => panic!("a directory with a file was removed"),
    }
    fs.unlink_internal(d, "f").unwrap();
    assert!(fs.get_inode(f).is_none());
    match fs.unlink_internal(d, "f") {
        Err(FuseError::NotFound(m)) => assert_eq!(m, "File f not found"),
        other => panic!("unexpected {:?}", other),
    }
}

fn sample_fs() -> FuseFS {
    FuseFS::new(FuseConfig::new("/mnt/t"), 7, 8)
}

#[test]
fn lookup_and_getattr_answer_for_existing_inodes() {
    let mut fs = sample_fs();
    let dir = fs.mkdir_internal(1, "docs").unwrap();
    let a = fs.lookup(1, "docs").unwrap();
    assert_eq!(a.ino, dir);
    assert_eq!(a.mode & S_IFDIR, S_IFDIR);
    assert!(fs.lookup(1, "none").is_none());
    assert!(fs.lookup(99, "docs").is_none());
    assert_eq!(fs.getattr(dir).unwrap().ino, dir);
    assert!(fs.getattr(99).is_none());
}

#[test]
fn open_refuses_directories_and_missing_inodes() {
    let mut fs = sample_fs();
    assert_eq!(fs.open(1, O_RDONLY), Err(tokitai_context::fuse_fs::EISDIR));
    assert_eq!(fs.open(42, O_RDONLY), Err(ENOENT));
    let f = fs.create_internal(1, "a.txt").unwrap();
    let fh = fs.open(f, O_RDONLY).unwrap();
    assert_eq!(fh, f + 1);
    assert_eq!(fs.read(fh, 0, 10), Ok(Vec::new()));
    fs.release(fh);
    assert_eq!(fs.read(fh, 0, 10), Err(tokitai_context::fuse_fs::EBADF));
}

#[test]
fn writes_grow_the_buffer_and_reads_give_ranges() {
    let mut fs = sample_fs();
    let (attr, fh) = fs.create(1, "f.bin", O_RDONLY).unwrap();
    assert_eq!(attr.size, 0);
    assert_eq!(fs.write(attr.ino, fh, 0, b"hello"), Ok(5));
    assert_eq!(fs.getattr(attr.ino).unwrap().size, 5);
    // Writing past the end fills the gap with zero bytes.
    assert_eq!(fs.write(attr.ino, fh, 7, b"xy"), Ok(2));
    assert_eq!(fs.read(fh, 0, 100), Ok(b"hello\0\0xy".to_vec()));
    assert_eq!(fs.read(fh, 1, 3), Ok(b"ell".to_vec()));
    assert_eq!(fs.read(fh, 9, 3), Ok(Vec::new()));
    // Overwriting in place keeps the length.
    assert_eq!(fs.write(attr.ino, fh, 0, b"J"), Ok(1));
    assert_eq!(fs.read(fh, 0, 5), Ok(b"Jello".to_vec()));
    assert_eq!(fs.getattr(attr.ino).unwrap().size, 9);
    assert_eq!(fs.write(attr.ino, 999, 0, b"z"), Err(tokitai_context::fuse_fs::EBADF));
}

#[test]
fn create_refuses_existing_names() {
    let mut fs = sample_fs();
    fs.create(1, "f", O_RDONLY).unwrap();
    assert!(matches!(fs.create(1, "f", O_RDONLY), Err(FuseError::AlreadyExists(_))));
    assert!(matches!(fs.create(77, "g", O_RDONLY), Err(FuseError::NotFound(_))));
}

#[test]
fn readdir_lists_dots_then_children() {
    let mut fs = sample_fs();
    let d = fs.mkdir_internal(1, "d").unwrap();
    let f = fs.create_internal(1, "f").unwrap();
    let es = fs.readdir(1, 0).unwrap();
    let names: Vec<&str> = es.iter().map(|e| e.name.as_str()).collect();
    assert_eq!(names, vec![".", "..", "d", "f"]);
    let offsets: Vec<i64> = es.iter().map(|e| e.offset).collect();
    // The children count up from the offset plus two, as `..` does.
    assert_eq!(offsets, vec![1, 2, 2, 3]);
    assert_eq!(es[2].ino, d);
    assert_eq!(es[2].kind, S_IFDIR);
    assert_eq!(es[3].ino, f);
    assert_eq!(es[3].kind, S_IFREG);
    let later = fs.readdir(1, 2).unwrap();
    assert_eq!(later.len(), 2);
    assert_eq!(later[0].offset, 4);
    assert!(fs.readdir(50, 0).is_none());
}

#[test]
fn utimens_sets_both_times() {
    let mut fs = sample_fs();
    let t = std::time::UNIX_EPOCH + std::time::Duration::from_secs(100);
    let u = std::time::UNIX_EPOCH + std::time::Duration::from_secs(200);
    let a = fs.utimens(1, t, u).unwrap();
    assert_eq!(a.atime, t);
    assert_eq!(a.mtime, u);
    assert_eq!(fs.getattr(1).unwrap().mtime, u);
    assert!(fs.utimens(3, t, u).is_none());
}
