use sortud::model::{ByteType, Cli, FileInfo, ItemType, LinkStat, Meta, Probe, Timestamp};
use sortud::render::{colour_of, list_files, print_results, render_line};
use sortud::size::format_size;

fn node(path: &str, depth: u8, kind: ItemType, size: u64, children: Option<Vec<FileInfo>>) -> FileInfo {
    FileInfo {
        path: path.to_string(),
        depth,
        file_type: kind,
        size,
        modified: Timestamp { secs: 0, nanos: 0 },
        children,
        accessible: true,
    }
}

fn coloured(code: &str, body: &str) -> String {
    format!("\x1b[38;5;{}m{}\x1b[0m", code, body)
}

fn cli(max_depth: Option<u8>, humanize: bool, time: bool) -> Cli {
    Cli {
        max_depth,
        ascending: false,
        humanize,
        si: false,
        time,
        skip_symlinks: false,
        file: ".".to_string(),
    }
}

fn file_probe(path: &str, len: u64) -> Probe {
    Probe {
        path: path.to_string(),
        meta: Some(Meta {
            is_file: true,
            is_dir: false,
            len,
            modified: Some(Timestamp { secs: 0, nanos: 0 }),
            link: LinkStat { is_file: true, is_dir: false, is_symlink: false },
            listing: None,
        }),
    }
}

fn dir_probe(path: &str, len: u64, listing: Option<Vec<Probe>>) -> Probe {
    Probe {
        path: path.to_string(),
        meta: Some(Meta {
            is_file: false,
            is_dir: true,
            len,
            modified: None,
            link: LinkStat { is_file: false, is_dir: true, is_symlink: false },
            listing,
        }),
    }
}

#[test]
fn size_equal_to_base_keeps_unit() {
    assert_eq!(format_size(1024, &ByteType::Binary), "1024.000  B");
    assert_eq!(format_size(1000, &ByteType::Decimal), "1000.000  B");
}

#[test]
fn size_one_over_base_advances_unit() {
    assert_eq!(format_size(1025, &ByteType::Binary), "  1.001 KB");
    assert_eq!(format_size(1001, &ByteType::Decimal), "  1.001 kB");
}

#[test]
fn size_formats() {
    assert_eq!(format_size(0, &ByteType::Binary), "  0.000  B");
    assert_eq!(format_size(500, &ByteType::Binary), "500.000  B");
    assert_eq!(format_size(1536, &ByteType::Binary), "  1.500 KB");
    assert_eq!(format_size(1088, &ByteType::Binary), "  1.062 KB");
    assert_eq!(format_size(3 * 1024 * 1024, &ByteType::Binary), "  3.000 MB");
    assert_eq!(format_size(2_500_000_000, &ByteType::Decimal), "  2.500 GB");
    assert_eq!(format_size(5 * 1024u64.pow(4), &ByteType::Binary), "  5.000 TB");
}

#[test]
fn size_stops_at_tera() {
    assert_eq!(format_size(2048 * 1024u64.pow(4), &ByteType::Binary), "2048.000 TB");
    assert_eq!(format_size(u64::MAX, &ByteType::Binary), "16777216.000 TB");
}

#[test]
fn colours_by_kind_and_hidden() {
    assert_eq!(colour_of(ItemType::File, false), 7);
    assert_eq!(colour_of(ItemType::File, true), 244);
    assert_eq!(colour_of(ItemType::Dir, false), 39);
    assert_eq!(colour_of(ItemType::Dir, true), 74);
    assert_eq!(colour_of(ItemType::Symlink, false), 10);
    assert_eq!(colour_of(ItemType::Symlink, true), 70);
}

#[test]
fn hidden_and_pwd_paths() {
    let hidden = |p: &str| node(p, 1, ItemType::File, 0, None).is_hidden();
    assert!(hidden(".bashrc"));
    assert!(hidden("./a/.x"));
    assert!(hidden("./"));
    assert!(hidden("a/.."));
    assert!(!hidden("a/b"));
    assert!(!hidden("/"));
    assert!(!hidden("./a/b/."));
    assert!(hidden(".x/"));
    let pwd = |p: &str| node(p, 1, ItemType::File, 0, None).first_component_is_pwd();
    assert!(pwd("./a"));
    assert!(pwd("."));
    assert!(!pwd("../a"));
    assert!(!pwd(".a"));
    assert!(!pwd("a/./b"));
}

#[test]
fn pretty_path_drops_leading_dot() {
    let pretty = |p: &str| node(p, 1, ItemType::File, 0, None).pretty_path().to_string();
    assert_eq!(pretty("./a/b"), "a/b");
    assert_eq!(pretty("./a//b/./"), "a//b");
    assert_eq!(pretty("././x"), "x");
    assert_eq!(pretty("."), "");
    assert_eq!(pretty("/abs/x"), "/abs/x");
    assert_eq!(pretty("rel/x"), "rel/x");
}

#[test]
fn single_file_line() {
    let n = node("a.txt", 1, ItemType::File, 500, None);
    assert_eq!(n.to_string(false, &ByteType::Binary, false).unwrap(), coloured("7", "    500  a.txt"));
    assert_eq!(n.to_string(true, &ByteType::Binary, false).unwrap(), coloured("7", "500.000  B  a.txt"));
}

#[test]
fn line_with_time() {
    let mut n = node("./x", 1, ItemType::Dir, 12, None);
    n.modified = Timestamp { secs: 1_000_000_000, nanos: 5 };
    assert_eq!(
        n.to_string(false, &ByteType::Binary, true).unwrap(),
        coloured("39", "     12  2001 Sep 09 01:46:40  x")
    );
    let given = render_line(&n, false, &ByteType::Binary, &Some("T".to_string()));
    assert_eq!(given, coloured("39", "     12  T  x"));
}

#[test]
fn inaccessible_line_has_note() {
    let mut n = node("d/locked", 2, ItemType::Dir, 4096, Some(vec![]));
    n.accessible = false;
    let expected = format!(
        "{}\n  \x1b[38;5;3mCould not access contents\x1b[0m",
        coloured("39", "   4096  d/locked")
    );
    assert_eq!(n.to_string(false, &ByteType::Binary, false).unwrap(), expected);
}

#[test]
fn nested_directory_rendering() {
    let root = dir_probe("d", 4096, Some(vec![dir_probe("d/sub", 4096, Some(vec![file_probe("d/sub/f", 1000)]))]));
    let lines = list_files(&cli(None, false, false), &root).unwrap().unwrap();
    assert_eq!(
        lines,
        vec![
            coloured("39", "   9192  d"),
            coloured("39", "   5096  d/sub"),
            coloured("7", "   1000  d/sub/f"),
        ]
    );
}

#[test]
fn depth_one_prints_root_only() {
    let root = dir_probe("d", 4096, Some(vec![dir_probe("d/sub", 4096, Some(vec![file_probe("d/sub/f", 1000)]))]));
    let lines = list_files(&cli(Some(1), false, false), &root).unwrap().unwrap();
    assert_eq!(lines, vec![coloured("39", "   9192  d")]);
    let two = list_files(&cli(Some(2), false, false), &root).unwrap().unwrap();
    assert_eq!(two.len(), 2);
}

#[test]
fn depth_limit_stops_rest_of_level() {
    let tree = vec![
        node("a", 1, ItemType::File, 1, None),
        node("b", 3, ItemType::File, 1, None),
        node("c", 1, ItemType::File, 1, None),
    ];
    let lines = print_results(&tree, false, false, false, Some(1)).unwrap();
    assert_eq!(lines, vec![coloured("7", "      1  a")]);
    let all = print_results(&tree, false, false, false, None).unwrap();
    assert_eq!(all.len(), 3);
}

#[test]
fn unreadable_root_rendering() {
    let root = dir_probe("locked", 4096, None);
    let lines = list_files(&cli(None, false, false), &root).unwrap().unwrap();
    assert_eq!(
        lines,
        vec![format!(
            "{}\n  \x1b[38;5;3mCould not access contents\x1b[0m",
            coloured("39", "   4096  locked")
        )]
    );
    let limited = list_files(&cli(Some(1), false, false), &root).unwrap().unwrap();
    assert_eq!(limited, lines);
}

#[test]
fn humanized_single_file_listing() {
    let lines = list_files(&cli(None, true, false), &file_probe("a.txt", 500)).unwrap().unwrap();
    assert_eq!(lines, vec![coloured("7", "500.000  B  a.txt")]);
}

#[test]
fn omitted_root_prints_nothing() {
    let root = Probe { path: "gone".to_string(), meta: None };
    let lines = list_files(&cli(None, false, false), &root).unwrap().unwrap();
    assert!(lines.is_empty());
}
