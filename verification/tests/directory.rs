use s3_fuse::directory::{get_key_by_value, DirectoryDescriptor, FileKind};
use s3_fuse::names::{name_equal, name_less, name_to_vec};

fn names_of(dir: &DirectoryDescriptor) -> Vec<Vec<u8>> {
    let mut names = Vec::new();
    for i in 0..dir.len() {
        names.push(dir.entry(i).name.clone());
    }
    names
}

#[test]
fn names_order_byte_by_byte() {
    assert!(name_less(b"", b"a"));
    assert!(!name_less(b"a", b""));
    assert!(!name_less(b"a", b"a"));
    assert!(name_less(b".", b".."));
    assert!(name_less(b"a", b"b"));
    assert!(name_less(b"ab", b"b"));
    assert!(name_less(b"a\x00", b"a\x01"));
    assert!(name_less(b"a", b"\xff"));
    assert!(!name_less(b"b", b"ab"));
}

#[test]
fn names_compare_equal_on_the_same_bytes() {
    assert!(name_equal(b"", b""));
    assert!(name_equal(b"abc", b"abc"));
    assert!(!name_equal(b"abc", b"abd"));
    assert!(!name_equal(b"abc", b"ab"));
    assert_eq!(name_to_vec(b"x\x00y"), b"x\x00y".to_vec());
}

#[test]
fn empty_table_holds_nothing() {
    let dir = DirectoryDescriptor::new();
    assert_eq!(dir.len(), 0);
    assert_eq!(dir.get(b"a"), None);
}

#[test]
fn entries_are_kept_in_name_order() {
    let mut dir = DirectoryDescriptor::new();
    dir.insert(b"m".to_vec(), 3, FileKind::File);
    dir.insert(b"..".to_vec(), 1, FileKind::Directory);
    dir.insert(b"z".to_vec(), 4, FileKind::File);
    dir.insert(b".".to_vec(), 2, FileKind::Directory);
    dir.insert(b"a".to_vec(), 5, FileKind::File);
    assert_eq!(
        names_of(&dir),
        vec![b".".to_vec(), b"..".to_vec(), b"a".to_vec(), b"m".to_vec(), b"z".to_vec()]
    );
    assert_eq!(dir.get(b"m"), Some((3, FileKind::File)));
    assert_eq!(dir.get(b"."), Some((2, FileKind::Directory)));
    assert_eq!(dir.get(b"b"), None);
}

#[test]
fn insert_replaces_an_entry_of_the_same_name() {
    let mut dir = DirectoryDescriptor::new();
    dir.insert(b"a".to_vec(), 3, FileKind::File);
    dir.insert(b"a".to_vec(), 9, FileKind::Directory);
    assert_eq!(dir.len(), 1);
    assert_eq!(dir.get(b"a"), Some((9, FileKind::Directory)));
}

#[test]
fn remove_takes_only_the_named_entry() {
    let mut dir = DirectoryDescriptor::new();
    dir.insert(b"a".to_vec(), 3, FileKind::File);
    dir.insert(b"b".to_vec(), 4, FileKind::File);
    dir.insert(b"c".to_vec(), 5, FileKind::File);
    assert!(dir.remove(b"b"));
    assert!(!dir.remove(b"b"));
    assert!(!dir.remove(b"bb"));
    assert_eq!(names_of(&dir), vec![b"a".to_vec(), b"c".to_vec()]);
    assert_eq!(dir.get(b"b"), None);
    assert_eq!(dir.get(b"c"), Some((5, FileKind::File)));
}

#[test]
fn push_last_refuses_a_name_out_of_order() {
    let mut dir = DirectoryDescriptor::new();
    assert!(dir.push_last(b"b".to_vec(), 1, FileKind::File));
    assert!(!dir.push_last(b"a".to_vec(), 2, FileKind::File));
    assert!(!dir.push_last(b"b".to_vec(), 2, FileKind::File));
    assert!(dir.push_last(b"c".to_vec(), 3, FileKind::File));
    assert_eq!(names_of(&dir), vec![b"b".to_vec(), b"c".to_vec()]);
}

#[test]
fn duplicate_copies_the_table() {
    let mut dir = DirectoryDescriptor::new();
    dir.insert(b"a".to_vec(), 3, FileKind::File);
    dir.insert(b"b".to_vec(), 4, FileKind::Directory);
    let copy = dir.duplicate();
    assert_eq!(names_of(&copy), names_of(&dir));
    assert_eq!(copy.get(b"b"), Some((4, FileKind::Directory)));
    let e = copy.entry(0).duplicate();
    assert_eq!((e.name, e.inode, e.kind), (b"a".to_vec(), 3, FileKind::File));
}

#[test]
fn key_by_value_finds_the_first_name_in_order() {
    let mut dir = DirectoryDescriptor::new();
    dir.insert(b"z".to_vec(), 3, FileKind::File);
    dir.insert(b"a".to_vec(), 3, FileKind::File);
    dir.insert(b"d".to_vec(), 3, FileKind::Directory);
    assert_eq!(get_key_by_value(&dir, &(3, FileKind::File)), Some(b"a".to_vec()));
    assert_eq!(get_key_by_value(&dir, &(3, FileKind::Directory)), Some(b"d".to_vec()));
    assert_eq!(get_key_by_value(&dir, &(4, FileKind::File)), None);
}
