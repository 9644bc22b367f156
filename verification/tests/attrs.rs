use s3_fuse::attrs::{
    as_file_kind, clear_suid_sgid, creation_gid, creation_mode, file_kind_of_mode,
    requested_mode, system_time_parts, time_from_parts, InodeAttributes, Timestamp,
};
use s3_fuse::directory::FileKind;

fn sample(mode: u16, gid: u32, size: u64) -> InodeAttributes {
    InodeAttributes {
        inode: 7,
        open_file_handles: 3,
        size,
        last_accessed: Timestamp::new(1, 2),
        last_modified: Timestamp::new(3, 4),
        last_metadata_changed: Timestamp::new(5, 6),
        kind: FileKind::File,
        mode,
        hardlinks: 1,
        uid: 11,
        gid,
        version_tag: String::from("v1"),
        remote_key: b"dir/file".to_vec(),
    }
}

#[test]
fn blocks_round_up() {
    assert_eq!(sample(0o644, 1, 0).blocks(), 0);
    assert_eq!(sample(0o644, 1, 1).blocks(), 1);
    assert_eq!(sample(0o644, 1, 512).blocks(), 1);
    assert_eq!(sample(0o644, 1, 513).blocks(), 2);
    assert_eq!(sample(0o644, 1, u64::MAX).blocks(), 1 << 55);
}

#[test]
fn duplicate_keeps_every_field() {
    let a = sample(0o640, 9, 77);
    let b = a.duplicate();
    assert_eq!(b.inode, 7);
    assert_eq!(b.open_file_handles, 3);
    assert_eq!(b.size, 77);
    assert_eq!(b.last_accessed, Timestamp::new(1, 2));
    assert_eq!(b.last_modified, Timestamp::new(3, 4));
    assert_eq!(b.last_metadata_changed, Timestamp::new(5, 6));
    assert_eq!(b.kind, FileKind::File);
    assert_eq!(b.mode, 0o640);
    assert_eq!(b.hardlinks, 1);
    assert_eq!(b.uid, 11);
    assert_eq!(b.gid, 9);
    assert_eq!(b.version_tag, "v1");
    assert_eq!(b.remote_key, b"dir/file".to_vec());
}

#[test]
fn suid_is_always_cleared() {
    let mut a = sample(0o4644, 1, 0);
    clear_suid_sgid(&mut a);
    assert_eq!(a.mode, 0o644);
    assert_eq!(a.size, 0);
    assert_eq!(a.version_tag, "v1");
}

#[test]
fn sgid_is_cleared_only_where_the_group_may_execute() {
    let mut a = sample(0o2644, 1, 0);
    clear_suid_sgid(&mut a);
    assert_eq!(a.mode, 0o2644);
    let mut b = sample(0o6654, 1, 0);
    clear_suid_sgid(&mut b);
    assert_eq!(b.mode, 0o654);
}

#[test]
fn creation_mode_keeps_permission_and_special_bits() {
    assert_eq!(creation_mode(0o100644), 0o644);
    assert_eq!(creation_mode(0o040755), 0o755);
    assert_eq!(creation_mode(0o106777), 0o6777);
    assert_eq!(creation_mode(0o101777), 0o1777);
    assert_eq!(creation_mode(u32::MAX), 0o7777);
}

#[test]
fn only_root_may_ask_for_setuid_and_setgid() {
    assert_eq!(requested_mode(0o106755, 1000), 0o100755);
    assert_eq!(requested_mode(0o106755, 0), 0o106755);
    assert_eq!(requested_mode(0o041777, 1000), 0o041777);
    assert_eq!(creation_mode(requested_mode(0o107777, 1000)), 0o1777);
    assert_eq!(creation_mode(requested_mode(0o107777, 0)), 0o7777);
}

#[test]
fn file_kind_follows_the_type_bits() {
    assert_eq!(as_file_kind(0o100644), FileKind::File);
    assert_eq!(as_file_kind(0o040755), FileKind::Directory);
    assert_eq!(file_kind_of_mode(0o100000), Some(FileKind::File));
    assert_eq!(file_kind_of_mode(0o040000), Some(FileKind::Directory));
    assert_eq!(file_kind_of_mode(0o120777), None);
    assert_eq!(file_kind_of_mode(0o644), None);
}

#[test]
fn group_is_inherited_under_a_setgid_parent() {
    assert_eq!(creation_gid(&sample(0o2755, 50, 0), 60), 50);
    assert_eq!(creation_gid(&sample(0o755, 50, 0), 60), 60);
}

#[test]
fn times_split_into_side_and_distance() {
    assert_eq!(system_time_parts(12, 34), (false, 12, 34));
    assert_eq!(system_time_parts(0, 0), (false, 0, 0));
    assert_eq!(system_time_parts(-12, 34), (true, 12, 34));
    assert_eq!(system_time_parts(i64::MIN, 1), (true, 1 << 63, 1));
}

#[test]
fn times_are_made_of_side_and_distance() {
    assert_eq!(time_from_parts(false, 12, 34), Timestamp::new(12, 34));
    assert_eq!(time_from_parts(true, 12, 34), Timestamp::new(-12, 34));
    assert_eq!(time_from_parts(true, i64::MAX as u64, 0), Timestamp::new(-i64::MAX, 0));
    assert_eq!(time_from_parts(true, 1 << 63, 7), Timestamp::new(i64::MIN, 7));
    assert_eq!(time_from_parts(false, i64::MAX as u64, 7), Timestamp::new(i64::MAX, 7));
}

#[test]
fn split_and_make_undo_each_other() {
    for (secs, nanos) in [(0i64, 0u32), (5, 999_999_999), (-5, 1), (-1, 0), (i64::MIN, 3), (i64::MAX, 4)] {
        let (before, s, n) = system_time_parts(secs, nanos);
        assert_eq!(time_from_parts(before, s, n), Timestamp::new(secs, nanos));
    }
}
