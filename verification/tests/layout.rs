use s3_fuse::layout::{decimal, join, parse_decimal};
use s3_fuse::store::S3FS;
use std::path::Path;

fn bytes_of(path: &Path) -> Vec<u8> {
    path.to_str().unwrap().as_bytes().to_vec()
}

#[test]
fn numbers_are_written_in_decimal() {
    assert_eq!(decimal(0), b"0".to_vec());
    assert_eq!(decimal(7), b"7".to_vec());
    assert_eq!(decimal(10), b"10".to_vec());
    assert_eq!(decimal(1234567890), b"1234567890".to_vec());
    assert_eq!(decimal(u64::MAX), b"18446744073709551615".to_vec());
    for n in [1u64, 9, 11, 99, 100, 101, 4096, 999_999, 1 << 62] {
        assert_eq!(decimal(n), n.to_string().into_bytes());
    }
}

#[test]
fn a_name_goes_below_its_directory() {
    assert_eq!(join(b"/data", b"inodes"), b"/data/inodes".to_vec());
    assert_eq!(join(b"/data/", b"inodes"), b"/data/inodes".to_vec());
    assert_eq!(join(b"", b"inodes"), b"inodes".to_vec());
    assert_eq!(join(b"/", b"inodes"), b"/inodes".to_vec());
    assert_eq!(join(b"rel/dir", b"x"), b"rel/dir/x".to_vec());
}

#[test]
fn records_lie_where_the_layout_says() {
    let fs = S3FS::new(String::from("/mnt/disks/nvme0/fuser/"), false);
    assert_eq!(fs.superblock_path(), b"/mnt/disks/nvme0/fuser/superblock".to_vec());
    assert_eq!(fs.inode_path(1), b"/mnt/disks/nvme0/fuser/inodes/1".to_vec());
    assert_eq!(fs.content_path(42), b"/mnt/disks/nvme0/fuser/contents/42".to_vec());
}

#[test]
fn paths_are_the_joined_paths_of_the_platform() {
    for dir in ["/var/cache/bucket", "/var/cache/bucket/", "", "cache", "/", "/d\u{00e9}p\u{00f4}t"] {
        let fs = S3FS::new(String::from(dir), false);
        assert_eq!(fs.superblock_path(), bytes_of(&Path::new(dir).join("superblock")));
        for n in [1u64, 2, 10, 12345, u64::MAX] {
            assert_eq!(fs.inode_path(n), bytes_of(&Path::new(dir).join("inodes").join(n.to_string())));
            assert_eq!(
                fs.content_path(n),
                bytes_of(&Path::new(dir).join("contents").join(n.to_string()))
            );
        }
    }
}

#[test]
fn numbers_are_read_back_from_decimal() {
    assert_eq!(parse_decimal(b"0"), Some(0));
    assert_eq!(parse_decimal(b"7"), Some(7));
    assert_eq!(parse_decimal(b"10"), Some(10));
    assert_eq!(parse_decimal(b"18446744073709551615"), Some(u64::MAX));
    for n in [1u64, 9, 11, 99, 100, 4096, 1 << 62, u64::MAX - 1] {
        assert_eq!(parse_decimal(&decimal(n)), Some(n));
    }
}

#[test]
fn only_what_decimal_writes_is_read() {
    assert_eq!(parse_decimal(b""), None);
    assert_eq!(parse_decimal(b"00"), None);
    assert_eq!(parse_decimal(b"07"), None);
    assert_eq!(parse_decimal(b"+7"), None);
    assert_eq!(parse_decimal(b"-7"), None);
    assert_eq!(parse_decimal(b"7 "), None);
    assert_eq!(parse_decimal(b"7a"), None);
    assert_eq!(parse_decimal(b"a"), None);
    assert_eq!(parse_decimal(b"18446744073709551616"), None);
    assert_eq!(parse_decimal(b"99999999999999999999"), None);
    assert_eq!(parse_decimal(b"184467440737095516150"), None);
}

#[test]
fn the_two_directories_of_the_layout() {
    let fs = S3FS::new(String::from("/data"), false);
    assert_eq!(fs.inodes_dir(), b"/data/inodes".to_vec());
    assert_eq!(fs.contents_dir(), b"/data/contents".to_vec());
}
