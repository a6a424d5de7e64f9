use sortud::model::{FileInfo, ItemType, LinkStat, Meta, Probe, Timestamp, WalkError};
use sortud::tree::{dir_node, get_file_type, walk};

fn ts(secs: i64) -> Timestamp {
    Timestamp { secs, nanos: 0 }
}

fn plain_file() -> LinkStat {
    LinkStat { is_file: true, is_dir: false, is_symlink: false }
}

fn plain_dir() -> LinkStat {
    LinkStat { is_file: false, is_dir: true, is_symlink: false }
}

fn file(path: &str, len: u64, secs: i64) -> Probe {
    Probe {
        path: path.to_string(),
        meta: Some(Meta {
            is_file: true,
            is_dir: false,
            len,
            modified: Some(ts(secs)),
            link: plain_file(),
            listing: None,
        }),
    }
}

fn dir(path: &str, len: u64, listing: Option<Vec<Probe>>) -> Probe {
    Probe {
        path: path.to_string(),
        meta: Some(Meta {
            is_file: false,
            is_dir: true,
            len,
            modified: Some(ts(99)),
            link: plain_dir(),
            listing,
        }),
    }
}

fn built(p: &Probe, ascending: bool) -> FileInfo {
    walk(p, 1, ascending, false).unwrap().unwrap()
}

fn child_paths(n: &FileInfo) -> Vec<String> {
    n.children.as_ref().unwrap().iter().map(|c| c.path.clone()).collect()
}

#[test]
fn single_file_root() {
    let n = built(&file("a.txt", 500, 1234), false);
    assert_eq!(n.path, "a.txt");
    assert_eq!(n.depth, 1);
    assert_eq!(n.file_type, ItemType::File);
    assert_eq!(n.size, 500);
    assert_eq!(n.modified, ts(1234));
    assert!(n.children.is_none());
    assert!(n.accessible);
}

#[test]
fn nested_directory_sizes_add_up() {
    let root = dir("d", 4096, Some(vec![dir("d/sub", 4096, Some(vec![file("d/sub/f", 1000, 7)]))]));
    let n = built(&root, false);
    assert_eq!(n.size, 9192);
    let sub = &n.children.as_ref().unwrap()[0];
    assert_eq!(sub.size, 5096);
    assert_eq!(sub.depth, 2);
    assert_eq!(sub.file_type, ItemType::Dir);
    let f = &sub.children.as_ref().unwrap()[0];
    assert_eq!(f.depth, 3);
    assert_eq!(f.size, 1000);
}

#[test]
fn directory_size_is_own_plus_children() {
    let root = dir("d", 10, Some(vec![file("d/a", 1, 1), file("d/b", 20, 1), file("d/c", 300, 1)]));
    let n = built(&root, true);
    let sum: u64 = n.children.as_ref().unwrap().iter().map(|c| c.size).sum();
    assert_eq!(n.size, 10 + sum);
    assert_eq!(n.size, 331);
}

#[test]
fn directory_time_is_latest_below() {
    let root = dir(
        "d",
        0,
        Some(vec![file("d/a", 1, 50), dir("d/s", 0, Some(vec![file("d/s/x", 1, 900)])), file("d/b", 1, 70)]),
    );
    let n = built(&root, true);
    assert_eq!(n.modified, ts(900));
    let sub = n.children.as_ref().unwrap().iter().find(|c| c.path == "d/s").unwrap();
    assert_eq!(sub.modified, ts(900));
}

#[test]
fn empty_directory_has_epoch_time() {
    let n = built(&dir("e", 4096, Some(vec![])), false);
    assert_eq!(n.modified, ts(0));
    assert_eq!(n.children.as_ref().unwrap().len(), 0);
    assert!(n.accessible);
    assert_eq!(n.size, 4096);
}

#[test]
fn children_sorted_descending_and_stable() {
    let root = dir("d", 0, Some(vec![file("a", 5, 1), file("b", 3, 1), file("c", 5, 1), file("d", 1, 1)]));
    let n = built(&root, false);
    assert_eq!(child_paths(&n), vec!["a", "c", "b", "d"]);
}

#[test]
fn children_sorted_ascending_and_stable() {
    let root = dir("d", 0, Some(vec![file("a", 5, 1), file("b", 3, 1), file("c", 5, 1), file("d", 1, 1)]));
    let n = built(&root, true);
    assert_eq!(child_paths(&n), vec!["d", "b", "a", "c"]);
}

#[test]
fn unreadable_directory_keeps_own_size() {
    let root = dir("d", 0, Some(vec![dir("d/locked", 4096, None), file("d/f", 10, 5)]));
    let n = built(&root, false);
    let locked = &n.children.as_ref().unwrap()[0];
    assert_eq!(locked.path, "d/locked");
    assert!(!locked.accessible);
    assert_eq!(locked.size, 4096);
    assert_eq!(locked.children.as_ref().unwrap().len(), 0);
    assert_eq!(locked.modified, ts(0));
    assert_eq!(n.size, 4106);
}

#[test]
fn failed_lookup_is_omitted() {
    let gone = Probe { path: "d/gone".to_string(), meta: None };
    let root = dir("d", 100, Some(vec![gone, file("d/f", 10, 5)]));
    let n = built(&root, false);
    assert_eq!(child_paths(&n), vec!["d/f"]);
    assert_eq!(n.size, 110);
    assert!(matches!(walk(&Probe { path: "x".to_string(), meta: None }, 1, false, false), Ok(None)));
}

#[test]
fn entry_neither_file_nor_dir_is_omitted() {
    let fifo = Probe {
        path: "d/pipe".to_string(),
        meta: Some(Meta {
            is_file: false,
            is_dir: false,
            len: 0,
            modified: Some(ts(1)),
            link: LinkStat { is_file: false, is_dir: false, is_symlink: false },
            listing: None,
        }),
    };
    let n = built(&dir("d", 1, Some(vec![fifo])), false);
    assert_eq!(n.children.as_ref().unwrap().len(), 0);
}

#[test]
fn everything_through_a_link_is_a_symlink() {
    let mut link = dir("l", 10, Some(vec![file("l/f", 5, 1), dir("l/s", 1, Some(vec![]))]));
    link.meta.as_mut().unwrap().link = LinkStat { is_file: false, is_dir: false, is_symlink: true };
    let n = built(&link, false);
    assert_eq!(n.file_type, ItemType::Symlink);
    for c in n.children.as_ref().unwrap() {
        assert_eq!(c.file_type, ItemType::Symlink);
    }
    let under = walk(&file("f", 1, 1), 2, false, true).unwrap().unwrap();
    assert_eq!(under.file_type, ItemType::Symlink);
}

#[test]
fn file_type_classification() {
    assert_eq!(get_file_type(false, plain_file()), Some(ItemType::File));
    assert_eq!(get_file_type(false, plain_dir()), Some(ItemType::Dir));
    let l = LinkStat { is_file: false, is_dir: false, is_symlink: true };
    assert_eq!(get_file_type(false, l), Some(ItemType::Symlink));
    assert_eq!(get_file_type(true, plain_file()), Some(ItemType::Symlink));
    let none = LinkStat { is_file: false, is_dir: false, is_symlink: false };
    assert_eq!(get_file_type(false, none), None);
}

#[test]
fn missing_time_is_fatal() {
    let mut f = file("f", 1, 1);
    f.meta.as_mut().unwrap().modified = None;
    let root = dir("d", 0, Some(vec![f]));
    assert_eq!(walk(&root, 1, false, false).err(), Some(WalkError::ModifiedUnavailable));
}

#[test]
fn unknown_kind_is_fatal() {
    let mut f = file("f", 1, 1);
    f.meta.as_mut().unwrap().link = LinkStat { is_file: false, is_dir: false, is_symlink: false };
    assert_eq!(walk(&f, 1, false, false).err(), Some(WalkError::UnknownKind));
}

#[test]
fn depth_counter_overflow_is_fatal() {
    let root = dir("d", 0, Some(vec![file("d/f", 1, 1)]));
    assert_eq!(walk(&root, 255, false, false).err(), Some(WalkError::TooDeep));
    let empty = dir("e", 0, Some(vec![]));
    assert!(walk(&empty, 255, false, false).is_ok());
}

#[test]
fn size_overflow_is_fatal() {
    let root = dir("d", 1, Some(vec![file("d/a", u64::MAX, 1)]));
    assert_eq!(walk(&root, 1, false, false).err(), Some(WalkError::SizeOverflow));
    let r = dir_node("d".to_string(), 1, ItemType::Dir, 0, vec![], true, false).unwrap();
    assert_eq!(r.size, 0);
}
