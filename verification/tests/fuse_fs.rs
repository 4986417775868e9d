use iscsi_lib::block::BlockDevice;
use iscsi_lib::fuse_fs::{Errno, FileType, IscsiFuseFs, MountOption, DEVICE_INODE, ROOT_INODE};

#[test]
fn test_fuse_config_multi_threaded() {
    let config = IscsiFuseFs::fuse_config(false, "test-vol", num_cpus::get());
    assert!(config.n_threads.unwrap() >= 1);
}

#[test]
fn test_fuse_config_read_only() {
    let config = IscsiFuseFs::fuse_config(true, "test-vol", num_cpus::get());
    let has_ro = config
        .mount_options
        .iter()
        .any(|o| matches!(o, MountOption::RO));
    assert!(has_ro);
}

#[test]
fn test_fuse_config_read_write() {
    let config = IscsiFuseFs::fuse_config(false, "test-vol", num_cpus::get());
    let has_rw = config
        .mount_options
        .iter()
        .any(|o| matches!(o, MountOption::RW));
    assert!(has_rw);
}

fn fs(read_only: bool) -> IscsiFuseFs {
    IscsiFuseFs::new(
        BlockDevice::new(4096, 1_000_000),
        "disk.img".to_string(),
        read_only,
        501,
        20,
    )
}

#[test]
fn mount_options_name_the_volume() {
    let config = IscsiFuseFs::fuse_config(false, "test-vol", 1);
    assert_eq!(config.mount_options.len(), 8);
    assert!(config
        .mount_options
        .iter()
        .any(|o| matches!(o, MountOption::CUSTOM(s) if s == "volname=test-vol")));
    assert!(config
        .mount_options
        .iter()
        .any(|o| matches!(o, MountOption::FSName(s) if s == "iscsi-fuse")));
    assert!(!config
        .mount_options
        .iter()
        .any(|o| matches!(o, MountOption::RO)));
}

#[test]
fn root_holds_the_device() {
    let fs = fs(false);
    let attr = fs.lookup(ROOT_INODE, Some("disk.img")).unwrap();
    assert_eq!(attr.ino, DEVICE_INODE);
    assert_eq!(attr.kind, FileType::RegularFile);
    assert_eq!(attr.size, 1_000_000);
    assert_eq!(attr.blocks, 1953);
    assert_eq!(attr.perm, 0o644);
    assert_eq!(attr.blksize, 4096);
    assert_eq!((attr.uid, attr.gid), (501, 20));
    assert_eq!(fs.lookup(ROOT_INODE, Some("disk.im")), Err(Errno::ENOENT));
    assert_eq!(fs.lookup(DEVICE_INODE, Some("disk.img")), Err(Errno::ENOENT));
    assert_eq!(fs.lookup(ROOT_INODE, None), Err(Errno::ENOENT));
}

#[test]
fn attributes_go_by_inode() {
    let fs = fs(true);
    let root = fs.getattr(1).unwrap();
    assert_eq!((root.kind, root.perm, root.nlink), (FileType::Directory, 0o755, 2));
    assert_eq!(fs.getattr(2).unwrap().perm, 0o444);
    assert_eq!(fs.getattr(3), Err(Errno::ENOENT));
    assert_eq!(fs.setattr(2), fs.getattr(2));
}

#[test]
fn only_the_device_can_be_opened() {
    let fs = fs(false);
    let opened = fs.open(2).unwrap();
    assert_eq!((opened.fh, opened.direct_io), (0, true));
    assert_eq!(fs.open(1), Err(Errno::ENOENT));
    assert_eq!(fs.read(2), Ok(()));
    assert_eq!(fs.read(1), Err(Errno::ENOENT));
}

#[test]
fn read_only_device_is_not_written() {
    assert_eq!(fs(false).write(2), Ok(()));
    assert_eq!(fs(true).write(2), Err(Errno::EROFS));
    assert_eq!(fs(true).write(1), Err(Errno::ENOENT));
    assert!(fs(false).flush(2));
    assert!(!fs(true).flush(2));
    assert!(!fs(false).fsync(1));
}

#[test]
fn listing_goes_on_at_the_cookie() {
    let fs = fs(false);
    let all = fs.readdir(1, 0).unwrap();
    let names: Vec<&str> = all.iter().map(|e| e.name.as_str()).collect();
    assert_eq!(names, vec![".", "..", "disk.img"]);
    assert_eq!(all[2].ino, 2);
    for (i, e) in all.iter().enumerate() {
        assert_eq!(e.cookie, i as u64 + 1);
        assert_eq!(fs.readdir(1, e.cookie).unwrap().len(), 2 - i);
    }
    assert!(fs.readdir(1, u64::MAX).unwrap().is_empty());
    assert!(matches!(fs.readdir(2, 0), Err(Errno::ENOENT)));
}

#[test]
fn statistics_count_whole_blocks() {
    let s = fs(false).statfs();
    assert_eq!((s.blocks, s.bfree, s.bavail), (244, 244, 244));
    assert_eq!((s.files, s.ffree, s.namelen), (1, 0, 255));
    assert_eq!((s.bsize, s.frsize), (4096, 4096));
    let s = fs(true).statfs();
    assert_eq!((s.blocks, s.bfree, s.bavail), (244, 0, 0));
}
