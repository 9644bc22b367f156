use s3_fuse::attrs::{InodeAttributes, Timestamp};
use s3_fuse::directory::FileKind;
use s3_fuse::download::Download;
use s3_fuse::freshness::{
    freshness_step, needs_refresh, time_from_offsetdatatime, timestamp_from_parts, version_tag_of,
    FreshnessStep, RemoteStat,
};
use s3_fuse::posix::{FsError, O_RDONLY, ROOT_INODE};
use s3_fuse::store::{Change, S3FS};
use time::OffsetDateTime;

const T0: Timestamp = Timestamp { secs: 100, nanos: 1 };
const T1: Timestamp = Timestamp { secs: 200, nanos: 2 };
const T2: Timestamp = Timestamp { secs: 300, nanos: 3 };

fn remote(tag: &str, length: u64, modified: Timestamp) -> RemoteStat {
    RemoteStat { content_length: length, last_modified: modified, version_tag: String::from(tag) }
}

fn cached(tag: &str) -> InodeAttributes {
    InodeAttributes {
        inode: 2,
        open_file_handles: 0,
        size: 0,
        last_accessed: T0,
        last_modified: T0,
        last_metadata_changed: T0,
        kind: FileKind::File,
        mode: 0o644,
        hardlinks: 1,
        uid: 0,
        gid: 0,
        version_tag: String::from(tag),
        remote_key: b"k".to_vec(),
    }
}

fn fetch(object: &[u8], block_size: u64) -> Vec<u8> {
    let mut d = Download::new(object.len() as u64, block_size).unwrap();
    for i in (0..d.block_count()).rev() {
        let r = d.block(i).unwrap();
        d.store_block(i, &object[r.start as usize..r.end as usize]).unwrap();
    }
    d.finish().unwrap().0
}

#[test]
fn remote_time_is_seconds_and_milliseconds() {
    assert_eq!(
        timestamp_from_parts(1_700_000_000, 123),
        Timestamp::new(1_700_000_000, 123_000_000)
    );
    assert_eq!(timestamp_from_parts(7, 999), Timestamp::new(7, 999_000_000));
    assert_eq!(timestamp_from_parts(0, 0), Timestamp::new(0, 0));
    assert_eq!(timestamp_from_parts(0, 1), Timestamp::new(0, 1_000_000));
    assert_eq!(timestamp_from_parts(-5, 0), Timestamp::new(-5, 0));
    // 0.25 s behind the fifth second before the epoch: 4.75 s before it.
    assert_eq!(timestamp_from_parts(-5, 250), Timestamp::new(-4, 750_000_000));
    assert_eq!(timestamp_from_parts(i64::MIN, 999), Timestamp::new(i64::MIN + 1, 1_000_000));
    // Within the last second before the epoch only the distance is kept.
    assert_eq!(timestamp_from_parts(-1, 250), Timestamp::new(0, 750_000_000));
}

#[test]
fn remote_time_is_read_off_the_moment() {
    let moment = OffsetDateTime::from_unix_timestamp_nanos(1_700_000_000_123_456_789).unwrap();
    assert_eq!(
        time_from_offsetdatatime(Some(moment)),
        Timestamp::new(1_700_000_000, 123_000_000)
    );
    let epoch = OffsetDateTime::from_unix_timestamp(0).unwrap();
    assert_eq!(time_from_offsetdatatime(Some(epoch)), Timestamp::new(0, 0));
    let before = OffsetDateTime::from_unix_timestamp_nanos(-1_500_000_000).unwrap();
    assert_eq!(time_from_offsetdatatime(Some(before)), Timestamp::new(-1, 500_000_000));
}

#[test]
fn a_content_never_filled_is_stale() {
    assert!(needs_refresh(&cached(""), &remote("v1", 3, T1)));
    assert!(needs_refresh(&cached(""), &remote("", 3, T1)));
}

#[test]
fn a_content_is_stale_when_the_versions_differ() {
    assert!(needs_refresh(&cached("v1"), &remote("v2", 3, T1)));
    assert!(needs_refresh(&cached("v1"), &remote("", 3, T1)));
    assert!(!needs_refresh(&cached("v1"), &remote("v1", 3, T1)));
    // Only the version counts.
    assert!(!needs_refresh(&cached("v1"), &remote("v1", 999, T2)));
}

#[test]
fn refresh_fills_the_content_and_records_the_version() {
    let mut fs = S3FS::new(String::new(), false);
    fs.init(T0);
    let mut a = cached("v1");
    a.mode = 0o6755;
    a.size = 100;
    fs.restore_inode(a);
    fs.restore_content(2, b"old content".to_vec());
    let _ = fs.take_changes();
    assert_eq!(fs.refresh(2, &remote("v2", 3, T1), b"new".to_vec(), T2), Ok(()));
    let a = fs.get_inode(2).unwrap();
    assert_eq!(a.size, 3);
    assert_eq!(a.last_modified, T1);
    assert_eq!(a.last_metadata_changed, T2);
    assert_eq!(a.last_accessed, T0);
    assert_eq!(a.version_tag, "v2");
    assert_eq!(a.mode, 0o755);
    assert_eq!(a.hardlinks, 1);
    assert_eq!(fs.content(2), Some(&b"new".to_vec()));
    assert_eq!(fs.take_changes(), vec![Change::Content(2), Change::Inode(2)]);
    assert!(!needs_refresh(&a, &remote("v2", 3, T1)));
}

#[test]
fn refresh_of_a_missing_inode_changes_nothing() {
    let mut fs = S3FS::new(String::new(), false);
    fs.init(T0);
    let _ = fs.take_changes();
    assert_eq!(fs.refresh(42, &remote("v2", 3, T1), b"new".to_vec(), T2), Err(FsError::NotFound));
    assert!(fs.content(42).is_none());
    assert_eq!(fs.take_changes(), vec![]);
}

#[test]
fn fresh_mount_with_a_single_file() {
    // The bucket holds hello.txt, eleven bytes.
    let object = b"hello world";
    let mut fs = S3FS::new(String::from("/data"), false);
    assert!(fs.init(T0));
    let seeded = fs.seed_entry(ROOT_INODE, b"", b"hello.txt", true, T0).unwrap();
    assert_eq!(seeded.inode, 2);
    // cat hello.txt: lookup, open with its freshness check, read.
    let found = fs.lookup(1000, 1000, ROOT_INODE, b"hello.txt").unwrap();
    let prepared = fs.open_prepare(found.inode, O_RDONLY).unwrap();
    assert_eq!(prepared.remote_key, b"hello.txt".to_vec());
    let stat = Ok(Some(remote("v1", object.len() as u64, T1)));
    assert_eq!(freshness_step(&prepared, &stat), FreshnessStep::Refresh);
    fs.refresh(found.inode, &stat.unwrap().unwrap(), fetch(object, 4), T2).unwrap();
    let (fh, _) = fs.open(1000, 1000, found.inode, O_RDONLY).unwrap();
    assert_eq!(fs.read(found.inode, fh, 0, 4096), Ok(object.to_vec()));
    let a = fs.getattr(2).unwrap();
    assert_eq!(a.size, 11);
    assert_eq!(a.blocks(), 1);
}

#[test]
fn a_nested_object_is_read_through_its_directories() {
    let object = [0u8, 1, 2, 3];
    let mut fs = S3FS::new(String::from("/data"), false);
    fs.init(T0);
    let a = fs.seed_entry(ROOT_INODE, b"", b"a", false, T0).unwrap();
    let b = fs.seed_entry(a.inode, b"a/", b"b", false, T0).unwrap();
    let c = fs.seed_entry(b.inode, b"a/b/", b"c.bin", true, T0).unwrap();
    let found = fs.lookup(0, 0, b.inode, b"c.bin").unwrap();
    assert_eq!(found.inode, c.inode);
    assert_eq!(found.inode, 4);
    // The open asks the remote store for the object under its full key.
    let prepared = fs.open_prepare(4, O_RDONLY).unwrap();
    assert_eq!(prepared.remote_key, b"a/b/c.bin".to_vec());
    let stat = Ok(Some(remote("v1", 4, T1)));
    assert_eq!(freshness_step(&prepared, &stat), FreshnessStep::Refresh);
    fs.refresh(found.inode, &remote("v1", 4, T1), fetch(&object, 64), T2).unwrap();
    let (fh, _) = fs.open(0, 0, found.inode, O_RDONLY).unwrap();
    assert_eq!(fs.read(found.inode, fh, 0, 100), Ok(object.to_vec()));
}

#[test]
fn a_new_remote_version_is_seen_on_the_next_open() {
    let mut fs = S3FS::new(String::from("/data"), false);
    fs.init(T0);
    let k = fs.seed_entry(ROOT_INODE, b"", b"k", true, T0).unwrap().inode;
    fs.refresh(k, &remote("v1", 9, T1), b"version 1".to_vec(), T1).unwrap();
    let (first, _) = fs.open(0, 0, k, O_RDONLY).unwrap();
    assert_eq!(fs.read(k, first, 0, 100), Ok(b"version 1".to_vec()));
    // Nothing changed remotely: the next open leaves the cache alone.
    assert!(!needs_refresh(&fs.getattr(k).unwrap(), &remote("v1", 9, T1)));
    // The remote object changes.
    let stat = remote("v2", 14, T2);
    assert!(needs_refresh(&fs.getattr(k).unwrap(), &stat));
    fs.refresh(k, &stat, b"second version".to_vec(), T2).unwrap();
    let (second, _) = fs.open(0, 0, k, O_RDONLY).unwrap();
    assert_eq!(fs.read(k, second, 0, 100), Ok(b"second version".to_vec()));
    let a = fs.getattr(k).unwrap();
    assert_eq!((a.size, a.version_tag.as_str()), (14, "v2"));
    assert_eq!(a.open_file_handles, 2);
}

#[test]
fn a_failed_download_leaves_the_version_behind() {
    let mut fs = S3FS::new(String::from("/data"), false);
    fs.init(T0);
    let k = fs.seed_entry(ROOT_INODE, b"", b"k", true, T0).unwrap().inode;
    fs.refresh(k, &remote("v1", 2, T1), b"v1".to_vec(), T1).unwrap();
    let mut d = Download::new(8, 4).unwrap();
    d.store_block(0, b"abcd").unwrap();
    assert!(d.finish().is_err());
    // Nothing was handed to the store, so the next open tries again.
    assert!(needs_refresh(&fs.getattr(k).unwrap(), &remote("v2", 8, T2)));
    assert_eq!(fs.content(k), Some(&b"v1".to_vec()));
}

#[test]
fn open_prepare_settles_flags_and_inode_first() {
    let mut fs = S3FS::new(String::from("/data"), false);
    fs.init(T0);
    let k = fs.seed_entry(ROOT_INODE, b"", b"k", true, T0).unwrap().inode;
    assert_eq!(fs.open_prepare(k, 3).err(), Some(FsError::InvalidArgument));
    assert_eq!(fs.open_prepare(42, 3).err(), Some(FsError::InvalidArgument));
    assert_eq!(fs.open_prepare(k, O_RDONLY | 0o1000).err(), Some(FsError::AccessDenied));
    assert_eq!(fs.open_prepare(42, O_RDONLY).err(), Some(FsError::NotFound));
    let prepared = fs.open_prepare(k, O_RDONLY).unwrap();
    assert_eq!((prepared.inode, prepared.remote_key), (k, b"k".to_vec()));
}

#[test]
fn the_freshness_step_follows_the_outcome_of_the_stat() {
    assert_eq!(freshness_step(&cached("v1"), &Ok(None)), FreshnessStep::Serve);
    assert_eq!(freshness_step(&cached(""), &Ok(None)), FreshnessStep::Serve);
    assert_eq!(freshness_step(&cached("v1"), &Ok(Some(remote("v1", 3, T1)))), FreshnessStep::Serve);
    assert_eq!(
        freshness_step(&cached("v1"), &Ok(Some(remote("v2", 3, T1)))),
        FreshnessStep::Refresh
    );
    assert_eq!(freshness_step(&cached(""), &Ok(Some(remote("", 3, T1)))), FreshnessStep::Refresh);
    assert_eq!(freshness_step(&cached("v1"), &Err(())), FreshnessStep::Fail(FsError::Io));
    assert_eq!(freshness_step(&cached(""), &Err(())), FreshnessStep::Fail(FsError::Io));
}

#[test]
fn a_file_written_locally_is_served_though_the_remote_store_has_none() {
    let mut fs = S3FS::new(String::from("/data"), false);
    fs.init(T0);
    let (made, fh) =
        fs.create(1000, 1000, ROOT_INODE, b"new.txt", 0o100644, s3_fuse::posix::O_WRONLY, T1).unwrap();
    assert_eq!(fs.write(made.inode, fh, 0, b"xyz\n", T2), Ok(4));
    // cat new.txt
    let prepared = fs.open_prepare(made.inode, O_RDONLY).unwrap();
    assert_eq!(prepared.remote_key, b"new.txt".to_vec());
    assert_eq!(freshness_step(&prepared, &Ok(None)), FreshnessStep::Serve);
    let (reader, _) = fs.open(1000, 1000, made.inode, O_RDONLY).unwrap();
    assert_eq!(fs.read(made.inode, reader, 0, 4096), Ok(b"xyz\n".to_vec()));
}

#[test]
fn the_version_is_the_etag_where_there_is_one() {
    assert_eq!(version_tag_of(Some(String::from("\"abc\"")), T1), "\"abc\"");
    assert_eq!(version_tag_of(Some(String::new()), T1), "");
}

#[test]
fn the_version_is_the_time_of_modification_where_there_is_no_etag() {
    assert_eq!(version_tag_of(None, T1), "200.2");
    assert_eq!(version_tag_of(None, Timestamp::new(0, 0)), "0.0");
    assert_eq!(version_tag_of(None, Timestamp::new(-5, 70)), "-5.70");
    for (secs, nanos) in [
        (1_700_000_000i64, 123_000_000u32),
        (9, 999_999_999),
        (10, 10),
        (i64::MAX, u32::MAX),
        (i64::MIN, 1),
        (-1, 0),
    ] {
        assert_eq!(version_tag_of(None, Timestamp::new(secs, nanos)), format!("{}.{}", secs, nanos));
    }
}
