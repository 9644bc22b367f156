use s3_fuse::attrs::Timestamp;
use s3_fuse::directory::FileKind;
use s3_fuse::posix::{FsError, O_RDONLY, ROOT_INODE};
use s3_fuse::seed::{list_directory, SeedAction, SeedWalk, SEPARATOR};
use s3_fuse::store::{Change, S3FS};

const T0: Timestamp = Timestamp { secs: 100, nanos: 1 };
const T1: Timestamp = Timestamp { secs: 200, nanos: 2 };

fn mounted() -> S3FS {
    let mut fs = S3FS::new(String::from("/data"), false);
    assert!(fs.init(T0));
    let _ = fs.take_changes();
    fs
}

#[test]
fn the_separator_is_a_slash() {
    assert_eq!(SEPARATOR, b'/');
}

#[test]
fn last_segment_of_a_path() {
    assert_eq!(list_directory(b"a/b/c"), Some(b"c".to_vec()));
    assert_eq!(list_directory(b"a/b/c/"), Some(b"c".to_vec()));
    assert_eq!(list_directory(b"a/b//"), Some(b"b".to_vec()));
    assert_eq!(list_directory(b"a//"), Some(b"a".to_vec()));
    assert_eq!(list_directory(b"abc"), Some(b"abc".to_vec()));
    assert_eq!(list_directory(b"/abc"), Some(b"abc".to_vec()));
    assert_eq!(list_directory(b"x/\xff\x00y/"), Some(b"\xff\x00y".to_vec()));
}

#[test]
fn a_path_of_separators_has_no_segment() {
    assert_eq!(list_directory(b""), None);
    assert_eq!(list_directory(b"/"), None);
    assert_eq!(list_directory(b"///"), None);
}

#[test]
fn a_listed_file_gets_an_empty_inode() {
    let mut fs = mounted();
    let outcome = fs.seed_entry(ROOT_INODE, b"", b"hello.txt", true, T1).unwrap();
    assert_eq!(outcome.inode, 2);
    assert_eq!(outcome.descend, None);
    let a = fs.get_inode(2).unwrap();
    assert_eq!(a.inode, 2);
    assert_eq!(a.open_file_handles, 0);
    assert_eq!(a.remote_key, b"hello.txt".to_vec());
    assert_eq!(a.size, 0);
    assert_eq!(a.kind, FileKind::File);
    assert_eq!(a.mode, 0o777);
    assert_eq!(a.hardlinks, 1);
    assert_eq!((a.uid, a.gid), (0, 0));
    assert_eq!(a.version_tag, "");
    assert_eq!(a.last_modified, T1);
    assert_eq!(fs.content(2), Some(&Vec::new()));
    assert_eq!(
        fs.get_directory_content(ROOT_INODE).unwrap().get(b"hello.txt"),
        Some((2, FileKind::File))
    );
    let root = fs.get_inode(ROOT_INODE).unwrap();
    assert_eq!((root.last_modified, root.last_metadata_changed), (T1, T1));
    assert_eq!(root.last_accessed, T0);
    assert_eq!(
        fs.take_changes(),
        vec![
            Change::Superblock,
            Change::Inode(2),
            Change::Content(2),
            Change::Content(1),
            Change::Inode(1),
        ]
    );
}

#[test]
fn a_listed_directory_gets_a_table_and_is_descended_into() {
    let mut fs = mounted();
    let outcome = fs.seed_entry(ROOT_INODE, b"", b"a", false, T1).unwrap();
    assert_eq!(outcome.inode, 2);
    assert_eq!(outcome.descend, Some(b"a/".to_vec()));
    let a = fs.get_inode(2).unwrap();
    assert_eq!(a.kind, FileKind::Directory);
    assert_eq!(a.hardlinks, 2);
    assert_eq!(a.mode, 0o777);
    let own = fs.get_directory_content(2).unwrap();
    assert_eq!(own.len(), 2);
    assert_eq!(own.get(b"."), Some((2, FileKind::Directory)));
    assert_eq!(own.get(b".."), Some((1, FileKind::Directory)));
    assert_eq!(
        fs.get_directory_content(ROOT_INODE).unwrap().get(b"a"),
        Some((2, FileKind::Directory))
    );
}

#[test]
fn a_directory_listed_with_its_separator_is_named_without_it() {
    let mut fs = mounted();
    let outcome = fs.seed_entry(ROOT_INODE, b"top/", b"sub/", false, T1).unwrap();
    assert_eq!(outcome.descend, Some(b"top/sub//".to_vec()));
    assert_eq!(
        fs.get_directory_content(ROOT_INODE).unwrap().get(b"sub"),
        Some((2, FileKind::Directory))
    );
}

#[test]
fn children_inherit_the_owner_of_their_parent() {
    let mut fs = mounted();
    let mut root = fs.get_inode(ROOT_INODE).unwrap();
    root.uid = 123;
    root.gid = 456;
    fs.restore_inode(root);
    let outcome = fs.seed_entry(ROOT_INODE, b"", b"f", true, T1).unwrap();
    let a = fs.get_inode(outcome.inode).unwrap();
    assert_eq!((a.uid, a.gid), (123, 456));
}

#[test]
fn seeding_errors_leave_no_trace() {
    let mut fs = mounted();
    assert_eq!(fs.seed_entry(42, b"", b"f", true, T1).err(), Some(FsError::NotFound));
    assert_eq!(fs.seed_entry(ROOT_INODE, b"", b"", false, T1).err(), Some(FsError::InvalidArgument));
    assert_eq!(fs.seed_entry(ROOT_INODE, b"/", b"/", false, T1).err(), Some(FsError::InvalidArgument));
    let f = fs.seed_entry(ROOT_INODE, b"", b"f", true, T1).unwrap();
    let _ = fs.take_changes();
    assert_eq!(fs.seed_entry(f.inode, b"f/", b"g", true, T1).err(), Some(FsError::Io));
    assert_eq!(fs.take_changes(), vec![]);
    assert_eq!(fs.superblock(), Some(2));
}

#[test]
fn a_nested_object_is_reached_through_its_directories() {
    // The bucket holds the one object a/b/c.bin.
    let mut fs = mounted();
    let a = fs.seed_entry(ROOT_INODE, b"", b"a", false, T1).unwrap();
    let b = fs.seed_entry(a.inode, &a.descend.unwrap(), b"b", false, T1).unwrap();
    assert_eq!(b.descend, Some(b"a/b/".to_vec()));
    let c = fs.seed_entry(b.inode, &b.descend.unwrap(), b"c.bin", true, T1).unwrap();
    assert_eq!((a.inode, b.inode, c.inode), (2, 3, 4));
    assert_eq!(fs.get_filename_from_inode(2), Some(b"a".to_vec()));
    assert_eq!(fs.get_filename_from_inode(3), Some(b"a/b".to_vec()));
    assert_eq!(fs.get_filename_from_inode(4), Some(b"a/b/c.bin".to_vec()));
    let dir_a = fs.lookup(1000, 1000, ROOT_INODE, b"a").unwrap();
    let dir_b = fs.lookup(1000, 1000, dir_a.inode, b"b").unwrap();
    assert!(fs.opendir(1000, 1000, dir_b.inode, O_RDONLY).is_ok());
    let listed: Vec<Vec<u8>> =
        fs.readdir(dir_b.inode, 0).unwrap().into_iter().map(|l| l.name).collect();
    assert_eq!(listed, vec![b".".to_vec(), b"..".to_vec(), b"c.bin".to_vec()]);
    assert_eq!(fs.lookup(1000, 1000, dir_b.inode, b"c.bin").unwrap().inode, 4);
    assert_eq!(fs.lookup(1000, 1000, dir_b.inode, b"..").unwrap().inode, 2);
}

fn listing_of(prefix: &[u8]) -> Vec<Vec<u8>> {
    // The bucket: a/b/c.bin, a/x.txt, hello.txt, z/ (empty).
    let names: &[&[u8]] = match prefix {
        b"" => &[b"a/", b"hello.txt", b"z/"],
        b"a//" => &[b"b/", b"x.txt"],
        b"a//b//" => &[b"c.bin"],
        b"z//" => &[],
        _ => panic!("unexpected listing of {:?}", prefix),
    };
    names.iter().map(|n| n.to_vec()).collect()
}

#[test]
fn the_walk_starts_with_the_top_listing() {
    let walk = SeedWalk::begin();
    assert!(matches!(walk.next_action(), SeedAction::List(p) if p.is_empty()));
}

#[test]
fn the_walk_of_an_empty_bucket_ends_at_once() {
    let mut walk = SeedWalk::begin();
    assert!(walk.listed(vec![]));
    assert!(matches!(walk.next_action(), SeedAction::Done));
    assert!(!walk.listed(vec![b"late".to_vec()]));
    assert!(matches!(walk.next_action(), SeedAction::Done));
    let mut fs = mounted();
    assert_eq!(walk.probed(&mut fs, true, T1), Err(FsError::InvalidArgument));
    assert_eq!(fs.take_changes(), vec![]);
}

#[test]
fn a_probe_is_refused_while_a_listing_is_out() {
    let mut walk = SeedWalk::begin();
    let mut fs = mounted();
    assert_eq!(walk.probed(&mut fs, true, T1), Err(FsError::InvalidArgument));
    assert_eq!(fs.superblock(), None);
    assert!(matches!(walk.next_action(), SeedAction::List(_)));
}

#[test]
fn the_walk_goes_depth_first_in_listing_order() {
    let mut fs = mounted();
    let mut walk = SeedWalk::begin();
    let mut asked: Vec<String> = Vec::new();
    let mut inodes: Vec<u64> = Vec::new();
    loop {
        match walk.next_action() {
            SeedAction::List(prefix) => {
                asked.push(format!("list {}", String::from_utf8(prefix.clone()).unwrap()));
                assert!(walk.listed(listing_of(&prefix)));
            }
            SeedAction::Probe(path) => {
                asked.push(format!("probe {}", String::from_utf8(path.clone()).unwrap()));
                let is_file = path.last() != Some(&b'/');
                inodes.push(walk.probed(&mut fs, is_file, T1).unwrap());
            }
            SeedAction::Done => break,
        }
    }
    assert_eq!(
        asked,
        vec![
            "list ",
            "probe a/",
            "list a//",
            "probe a//b/",
            "list a//b//",
            "probe a//b//c.bin",
            "probe a//x.txt",
            "probe hello.txt",
            "probe z/",
            "list z//",
        ]
    );
    assert_eq!(inodes, vec![2, 3, 4, 5, 6, 7]);
    let names = |inode: u64| -> Vec<(Vec<u8>, u64, FileKind)> {
        fs.readdir(inode, 0).unwrap().into_iter().map(|l| (l.name, l.inode, l.kind)).collect()
    };
    assert_eq!(
        names(ROOT_INODE),
        vec![
            (b".".to_vec(), 1, FileKind::Directory),
            (b"a".to_vec(), 2, FileKind::Directory),
            (b"hello.txt".to_vec(), 6, FileKind::File),
            (b"z".to_vec(), 7, FileKind::Directory),
        ]
    );
    assert_eq!(
        names(2),
        vec![
            (b".".to_vec(), 2, FileKind::Directory),
            (b"..".to_vec(), 1, FileKind::Directory),
            (b"b".to_vec(), 3, FileKind::Directory),
            (b"x.txt".to_vec(), 5, FileKind::File),
        ]
    );
    assert_eq!(
        names(3),
        vec![
            (b".".to_vec(), 3, FileKind::Directory),
            (b"..".to_vec(), 2, FileKind::Directory),
            (b"c.bin".to_vec(), 4, FileKind::File),
        ]
    );
    assert_eq!(names(7).len(), 2);
    assert_eq!(fs.superblock(), Some(7));
}

#[test]
fn a_child_that_cannot_be_taken_in_stops_the_walk_where_it_is() {
    let mut fs = mounted();
    let mut walk = SeedWalk::begin();
    assert!(walk.listed(vec![b"/".to_vec(), b"f".to_vec()]));
    let _ = fs.take_changes();
    assert_eq!(walk.probed(&mut fs, false, T1), Err(FsError::InvalidArgument));
    assert_eq!(fs.take_changes(), vec![]);
    assert!(matches!(walk.next_action(), SeedAction::Probe(p) if p == b"/".to_vec()));
}
