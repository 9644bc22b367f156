use s3_fuse::attrs::{InodeAttributes, Timestamp};
use s3_fuse::codec::{decode_dir, encode_dir};
use s3_fuse::directory::{DirectoryDescriptor, FileKind};
use s3_fuse::posix::{FsError, ROOT_INODE};
use s3_fuse::store::{Change, S3FS, FILE_HANDLE_READ_BIT, FILE_HANDLE_WRITE_BIT};

fn record(inode: u64, kind: FileKind, hardlinks: u32, handles: u64) -> InodeAttributes {
    InodeAttributes {
        inode,
        open_file_handles: handles,
        size: 0,
        last_accessed: Timestamp::new(1, 0),
        last_modified: Timestamp::new(1, 0),
        last_metadata_changed: Timestamp::new(1, 0),
        kind,
        mode: 0o755,
        hardlinks,
        uid: 0,
        gid: 0,
        version_tag: String::new(),
        remote_key: format!("key-{}", inode).into_bytes(),
    }
}

#[test]
fn a_new_store_is_empty() {
    let mut fs = S3FS::new(String::from("/var/cache/bucket"), true);
    assert_eq!(fs.data_dir(), "/var/cache/bucket");
    assert!(fs.direct_io());
    assert_eq!(fs.superblock(), None);
    assert_eq!(fs.get_inode(ROOT_INODE).err(), Some(FsError::NotFound));
    assert!(fs.content(ROOT_INODE).is_none());
    assert_eq!(fs.take_changes(), vec![]);
    assert!(!S3FS::new(String::new(), false).direct_io());
}

#[test]
fn file_handles_count_up_from_one_and_carry_their_bits() {
    let mut fs = S3FS::new(String::new(), false);
    assert_eq!(FILE_HANDLE_READ_BIT, 1 << 63);
    assert_eq!(FILE_HANDLE_WRITE_BIT, 1 << 62);
    assert!(fs.handle_available());
    assert_eq!(fs.allocate_next_file_handle(false, false), 1);
    assert_eq!(fs.allocate_next_file_handle(true, false), 2 | (1 << 63));
    assert_eq!(fs.allocate_next_file_handle(false, true), 3 | (1 << 62));
    assert_eq!(fs.allocate_next_file_handle(true, true), 4 | (3 << 62));
    assert!(fs.check_file_handle_read(2 | (1 << 63)));
    assert!(!fs.check_file_handle_write(2 | (1 << 63)));
    assert!(!fs.check_file_handle_read(3 | (1 << 62)));
    assert!(fs.check_file_handle_write(3 | (1 << 62)));
    assert!(!fs.check_file_handle_read(1));
    assert!(!fs.check_file_handle_write(1));
}

#[test]
fn inode_numbers_start_behind_the_root_and_increase() {
    let mut fs = S3FS::new(String::new(), false);
    assert!(fs.inode_available());
    let a = fs.allocate_next_inode();
    let b = fs.allocate_next_inode();
    let c = fs.allocate_next_inode();
    assert_eq!((a, b, c), (2, 3, 4));
    assert_eq!(fs.superblock(), Some(4));
    assert_eq!(fs.take_changes(), vec![Change::Superblock; 3]);
}

#[test]
fn inode_numbers_do_not_repeat_across_mounts() {
    let mut first = S3FS::new(String::new(), false);
    let mut seen = vec![first.allocate_next_inode(), first.allocate_next_inode()];
    let persisted = first.superblock().unwrap();
    let mut second = S3FS::new(String::new(), false);
    second.restore_superblock(persisted);
    assert_eq!(second.take_changes(), vec![]);
    seen.push(second.allocate_next_inode());
    seen.push(second.allocate_next_inode());
    assert_eq!(seen, vec![2, 3, 4, 5]);
}

#[test]
fn the_allocator_stops_below_the_handle_bits() {
    let mut fs = S3FS::new(String::new(), false);
    fs.restore_superblock((1 << 62) - 1);
    assert!(!fs.inode_available());
    fs.restore_superblock((1 << 62) - 2);
    assert!(fs.inode_available());
    assert_eq!(fs.allocate_next_inode(), (1 << 62) - 1);
    assert!(!fs.inode_available());
}

#[test]
fn records_are_kept_under_their_own_number() {
    let mut fs = S3FS::new(String::new(), false);
    fs.write_inode(&record(9, FileKind::File, 1, 0));
    let back = fs.get_inode(9).unwrap();
    assert_eq!((back.inode, back.kind, back.hardlinks), (9, FileKind::File, 1));
    assert_eq!(fs.get_inode(8).err(), Some(FsError::NotFound));
    assert_eq!(fs.take_changes(), vec![Change::Inode(9)]);
    fs.restore_inode(record(12, FileKind::Directory, 2, 0));
    assert_eq!(fs.get_inode(12).unwrap().kind, FileKind::Directory);
    assert_eq!(fs.take_changes(), vec![]);
}

#[test]
fn contents_are_bytes() {
    let mut fs = S3FS::new(String::new(), false);
    fs.write_content(9, b"abc".to_vec());
    assert_eq!(fs.content(9), Some(&b"abc".to_vec()));
    assert_eq!(fs.take_changes(), vec![Change::Content(9)]);
    fs.restore_content(10, b"xyz".to_vec());
    assert_eq!(fs.content(10), Some(&b"xyz".to_vec()));
    assert_eq!(fs.take_changes(), vec![]);
}

#[test]
fn a_directory_is_its_encoded_table() {
    let mut fs = S3FS::new(String::new(), false);
    let mut dir = DirectoryDescriptor::new();
    dir.insert(b"a".to_vec(), 5, FileKind::File);
    let bytes = encode_dir(&dir);
    fs.write_directory_content(4, dir);
    assert_eq!(fs.content(4), Some(&bytes));
    let back = fs.get_directory_content(4).unwrap();
    assert_eq!(back.get(b"a"), Some((5, FileKind::File)));
    assert_eq!(fs.take_changes(), vec![Change::Content(4)]);
}

#[test]
fn a_missing_directory_is_not_found_and_a_broken_one_is_an_io_error() {
    let mut fs = S3FS::new(String::new(), false);
    assert_eq!(fs.get_directory_content(4).err(), Some(FsError::NotFound));
    fs.write_content(4, b"not a table".to_vec());
    assert_eq!(fs.get_directory_content(4).err(), Some(FsError::Io));
    fs.write_content(5, Vec::new());
    assert_eq!(fs.get_directory_content(5).err(), Some(FsError::Io));
    assert_eq!(fs.lookup_name(4, b"a").err(), Some(FsError::Io));
    assert_eq!(fs.lookup_name(6, b"a").err(), Some(FsError::NotFound));
}

#[test]
fn lookup_name_follows_the_entry_to_its_record() {
    let mut fs = S3FS::new(String::new(), false);
    let mut dir = DirectoryDescriptor::new();
    dir.insert(b"a".to_vec(), 5, FileKind::File);
    dir.insert(b"dangling".to_vec(), 6, FileKind::File);
    fs.write_directory_content(4, dir);
    fs.write_inode(&record(5, FileKind::File, 1, 0));
    assert_eq!(fs.lookup_name(4, b"a").unwrap().inode, 5);
    assert_eq!(fs.lookup_name(4, b"b").err(), Some(FsError::NotFound));
    assert_eq!(fs.lookup_name(4, b"dangling").err(), Some(FsError::NotFound));
}

#[test]
fn the_remote_key_of_an_inode_is_on_its_record() {
    let mut fs = S3FS::new(String::new(), false);
    assert_eq!(fs.get_filename_from_inode(5), None);
    fs.write_inode(&record(5, FileKind::File, 1, 0));
    fs.write_inode(&record(7, FileKind::Directory, 2, 0));
    assert_eq!(fs.get_filename_from_inode(5), Some(b"key-5".to_vec()));
    assert_eq!(fs.get_filename_from_inode(7), Some(b"key-7".to_vec()));
    assert_eq!(fs.get_filename_from_inode(8), None);
}

#[test]
fn collection_needs_no_link_and_no_open_handle() {
    let mut fs = S3FS::new(String::new(), false);
    for n in [5u64, 6, 7] {
        fs.write_inode(&record(n, FileKind::File, 1, 0));
        fs.write_content(n, b"x".to_vec());
    }
    let _ = fs.take_changes();
    assert!(!fs.gc_inode(&record(5, FileKind::File, 1, 0)));
    assert!(!fs.gc_inode(&record(6, FileKind::File, 0, 1)));
    assert_eq!(fs.take_changes(), vec![]);
    assert!(fs.get_inode(5).is_ok() && fs.get_inode(6).is_ok());
    assert!(fs.gc_inode(&record(7, FileKind::File, 0, 0)));
    assert_eq!(fs.get_inode(7).err(), Some(FsError::NotFound));
    assert!(fs.content(7).is_none());
    assert!(fs.get_inode(5).is_ok() && fs.content(5).is_some());
    assert_eq!(fs.take_changes(), vec![Change::InodeRemoved(7), Change::ContentRemoved(7)]);
}

#[test]
fn collection_is_idempotent() {
    let mut fs = S3FS::new(String::new(), false);
    fs.write_inode(&record(7, FileKind::File, 0, 0));
    fs.write_content(7, Vec::new());
    assert!(fs.gc_inode(&record(7, FileKind::File, 0, 0)));
    assert!(fs.gc_inode(&record(7, FileKind::File, 0, 0)));
    assert_eq!(fs.get_inode(7).err(), Some(FsError::NotFound));
    assert!(fs.content(7).is_none());
}

#[test]
fn an_encoded_table_reads_back_from_the_store() {
    let mut fs = S3FS::new(String::new(), false);
    let mut dir = DirectoryDescriptor::new();
    dir.insert(vec![0xff, 0x00], 5, FileKind::Directory);
    fs.write_directory_content(4, dir);
    let bytes = fs.content(4).unwrap().clone();
    assert_eq!(decode_dir(&bytes).unwrap().get(&[0xff, 0x00]), Some((5, FileKind::Directory)));
}
