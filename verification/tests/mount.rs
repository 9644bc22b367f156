use s3_fuse::mount::NEWLINE;
use s3_fuse::store::S3FS;

#[test]
fn the_option_on_a_line_of_its_own() {
    assert_eq!(NEWLINE, b'\n');
    assert!(S3FS::fuse_allow_other_enabled(b"user_allow_other"));
    assert!(S3FS::fuse_allow_other_enabled(b"user_allow_other\n"));
    assert!(S3FS::fuse_allow_other_enabled(b"# comment\nuser_allow_other\n"));
    assert!(S3FS::fuse_allow_other_enabled(b"mount_max = 1000\n\nuser_allow_other\nmore\n"));
}

#[test]
fn space_before_the_option_is_skipped() {
    assert!(S3FS::fuse_allow_other_enabled(b"  \tuser_allow_other\n"));
    assert!(S3FS::fuse_allow_other_enabled(b"a\r\n\r\n \x0b\x0cuser_allow_other\r\n"));
    assert!(S3FS::fuse_allow_other_enabled(b"\n\n\n user_allow_other"));
}

#[test]
fn anything_may_follow_the_option() {
    assert!(S3FS::fuse_allow_other_enabled(b"user_allow_other = yes\n"));
    assert!(S3FS::fuse_allow_other_enabled(b"user_allow_others\n"));
}

#[test]
fn the_option_must_start_its_line() {
    assert!(!S3FS::fuse_allow_other_enabled(b""));
    assert!(!S3FS::fuse_allow_other_enabled(b"\n\n"));
    assert!(!S3FS::fuse_allow_other_enabled(b"#user_allow_other\n"));
    assert!(!S3FS::fuse_allow_other_enabled(b"# user_allow_other\n"));
    assert!(!S3FS::fuse_allow_other_enabled(b"x user_allow_other\n"));
    assert!(!S3FS::fuse_allow_other_enabled(b"user_allow_othe\n"));
    assert!(!S3FS::fuse_allow_other_enabled(b"user_allow\n_other\n"));
    assert!(!S3FS::fuse_allow_other_enabled(b"User_allow_other\n"));
    assert!(!S3FS::fuse_allow_other_enabled(b"mount_max = 1000\n"));
}
