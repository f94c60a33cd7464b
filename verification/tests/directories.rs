use os_core::vfs::{DirEntry, Directory, StatMode};

fn name(s: &str) -> Vec<u8> {
    s.as_bytes().to_vec()
}

fn dir(entries: &[(&str, u32)]) -> Directory {
    Directory::new(entries.iter().map(|(n, i)| DirEntry::new(&name(n), *i)).collect())
}

#[test]
fn find_gives_first_entry_of_the_name() {
    let d = dir(&[("a", 1), ("b", 2), ("a", 3)]);
    assert_eq!(d.find_inode_id(&name("a")), Some(1));
    assert_eq!(d.find_inode_id(&name("b")), Some(2));
    assert_eq!(d.find_inode_id(&name("c")), None);
}

#[test]
fn create_then_find() {
    let mut d = dir(&[("a", 1)]);
    let mut next = 17u32;
    assert_eq!(d.create(&name("new"), &mut next, |n: &u32| (n + 1, *n)), Some(17));
    assert_eq!(next, 18);
    assert_eq!(d.find_inode_id(&name("new")), Some(17));
    assert_eq!(d.find_inode_id(&name("a")), Some(1));
    assert_eq!(d.entries().len(), 2);
}

#[test]
fn create_refuses_a_taken_name_without_allocating() {
    let mut d = dir(&[("a", 1)]);
    let mut next = 4u32;
    assert_eq!(d.create(&name("a"), &mut next, |n: &u32| (n + 1, *n)), None);
    assert_eq!(next, 4);
    assert_eq!(d.create(&name("a"), &mut next, |_: &u32| -> (u32, u32) { panic!("no inode should be allocated") }), None);
    assert_eq!(d.entries().len(), 1);
}

#[test]
fn link_adds_a_name_for_the_same_inode() {
    let mut d = dir(&[("a", 5)]);
    assert_eq!(d.link(&name("a"), &name("b")), Ok(()));
    assert_eq!(d.find_inode_id(&name("b")), Some(5));
    assert_eq!(d.link(&name("missing"), &name("c")), Err(()));
    assert_eq!(d.link(&name("a"), &name("b")), Err(()));
    assert_eq!(d.entries().len(), 2);
}

#[test]
fn unlink_clears_the_entry() {
    let mut d = dir(&[("a", 5), ("b", 5)]);
    assert_eq!(d.unlink(&name("a")), Ok(()));
    assert_eq!(d.find_inode_id(&name("a")), None);
    assert_eq!(d.entries()[0].inode_number(), 0);
    assert!(d.entries()[0].name().is_empty());
    assert_eq!(d.unlink(&name("a")), Err(()));
    assert_eq!(d.find_inode_id(&name("b")), Some(5));
}

#[test]
fn unlink_of_an_unused_entry_fails() {
    let mut d = dir(&[("z", 0)]);
    assert_eq!(d.unlink(&name("z")), Err(()));
}

#[test]
fn ls_lists_all_names_in_order() {
    let d = dir(&[("x", 1), ("y", 2), ("", 0)]);
    assert_eq!(d.ls(), vec![name("x"), name("y"), Vec::new()]);
}

#[test]
fn stat_of_root_and_of_files() {
    let mut entries: Vec<(&str, u32)> = Vec::new();
    for _ in 0..9 {
        entries.push(("pre", 4));
    }
    entries.push(("f", 4));
    entries.push(("g", 4));
    entries.push(("h", 6));
    let d = dir(&entries);
    let root = d.get_stat(0);
    assert_eq!((root.dev, root.ino, root.mode, root.nlink), (0, 0, StatMode::DIR, 1));
    let s = d.get_stat(4);
    // Only entries from index 9 on are counted.
    assert_eq!((s.ino, s.mode, s.nlink), (4, StatMode::FILE, 2));
    assert_eq!(d.get_stat(6).nlink, 1);
    assert_eq!(d.get_stat(8).nlink, 0);
    assert_eq!(StatMode::DIR.bits(), 0o040000);
    assert_eq!(StatMode::FILE.bits(), 0o100000);
    assert_eq!(StatMode::NULL.bits(), 0);
}
