use pls::pls::{classify, get_results, list, parse_entries, Args, ChildInfo, FileStat, FsTree,
    TypeClass};

fn file_stat(mode: u32, len: u64) -> FileStat {
    FileStat { is_file: true, is_dir: false, is_symlink: false, mode, len }
}

fn dir_stat(mode: u32) -> FileStat {
    FileStat { is_file: false, is_dir: true, is_symlink: false, mode, len: 4096 }
}

fn symlink_stat(mode: u32, len: u64) -> FileStat {
    FileStat { is_file: false, is_dir: false, is_symlink: true, mode, len }
}

fn child(name: &str, link_stat: FileStat) -> ChildInfo {
    ChildInfo {
        file_name: name.to_string(),
        path: format!("./{}", name),
        link_stat,
        target_stat: None,
        subtree: None,
    }
}

fn args(recursive: bool, symlinks: bool) -> Args {
    Args { path: ".".to_string(), recursive, symlinks }
}

#[test]
fn classify_prefers_file_then_dir_then_symlink() {
    assert_eq!(classify(true, false, false), TypeClass::File);
    assert_eq!(classify(false, true, false), TypeClass::Directory);
    assert_eq!(classify(false, false, true), TypeClass::Symlink);
    assert_eq!(classify(false, false, false), TypeClass::Other);
}

#[test]
fn file_entry_reports_its_length_and_mode() {
    let e = parse_entries(child("a.txt", file_stat(0o644, 17)), &args(false, false));
    assert_eq!(e.size, 17);
    assert_eq!(e.permissions, "-rw-r--r--");
    assert_eq!(e.type_class, TypeClass::File);
    assert!(!e.is_symlink);
    assert_eq!(e.file_name_str, "a.txt");
    assert_eq!(e.path, "./a.txt");
}

#[test]
fn directory_entry_is_zero_without_recursion() {
    let mut c = child("sub", dir_stat(0o755));
    c.subtree = Some(FsTree::Dir {
        readable: true,
        children: vec![FsTree::File { len: 1000 }],
    });
    let e = parse_entries(c, &args(false, false));
    assert_eq!(e.type_class, TypeClass::Directory);
    assert_eq!(e.size, 0);
    assert_eq!(e.permissions, "drwxr-xr-x");
}

#[test]
fn directory_entry_aggregates_under_recursion() {
    let mut c = child("sub", dir_stat(0o700));
    c.subtree = Some(FsTree::Dir {
        readable: true,
        children: vec![
            FsTree::File { len: 0 },
            FsTree::File { len: 1023 },
            FsTree::Dir { readable: true, children: vec![FsTree::File { len: 2048 }] },
        ],
    });
    let e = parse_entries(c, &args(true, false));
    assert_eq!(e.size, 3071);
}

#[test]
fn directory_without_subtree_snapshot_is_zero() {
    let e = parse_entries(child("sub", dir_stat(0o755)), &args(true, false));
    assert_eq!(e.size, 0);
}

#[test]
fn broken_symlink_stays_a_symlink_with_link_size() {
    // Link following is on, but the target does not resolve: the entry falls
    // back to link metadata, is classified as a symlink, and nothing recurses.
    let c = child("dangling", symlink_stat(0o777, 9));
    let e = parse_entries(c, &args(true, true));
    assert_eq!(e.type_class, TypeClass::Symlink);
    assert!(e.is_symlink);
    assert_eq!(e.size, 9);
    assert_eq!(e.permissions, "lrwxrwxrwx");
}

#[test]
fn followed_symlink_takes_target_mode_and_length() {
    let mut c = child("link", symlink_stat(0o777, 9));
    c.target_stat = Some(file_stat(0o600, 512));
    let e = parse_entries(c, &args(false, true));
    // Classification and glyph stay link-level; mode and length are the target's.
    assert_eq!(e.type_class, TypeClass::Symlink);
    assert_eq!(e.size, 512);
    assert_eq!(e.permissions, "lrw-------");
}

#[test]
fn unfollowed_symlink_keeps_link_mode_and_length() {
    let mut c = child("link", symlink_stat(0o777, 9));
    c.target_stat = Some(file_stat(0o600, 512));
    let e = parse_entries(c, &args(false, false));
    assert_eq!(e.size, 9);
    assert_eq!(e.permissions, "lrwxrwxrwx");
}

#[test]
fn get_results_builds_one_entry_per_child() {
    let children = vec![
        child("b", file_stat(0o644, 10)),
        child("a", file_stat(0o600, 20)),
    ];
    let entries = get_results(children, args(false, false));
    assert_eq!(entries.len(), 2);
    assert_eq!(entries[0].file_name_str, "b");
    assert_eq!(entries[1].file_name_str, "a");
    assert_eq!(entries[0].size, 10);
    assert_eq!(entries[1].size, 20);
}

#[test]
fn list_sorts_and_totals() {
    let mut sub = child("sub", dir_stat(0o755));
    sub.subtree = Some(FsTree::Dir {
        readable: true,
        children: vec![FsTree::File { len: 2048 }],
    });
    let children = vec![
        child("b.txt", file_stat(0o644, 1023)),
        sub,
        child("a.txt", file_stat(0o644, 0)),
    ];
    let (total, entries) = list(children, args(true, false));
    assert_eq!(total, 3071);
    let names: Vec<&str> = entries.iter().map(|e| e.file_name_str.as_str()).collect();
    // The directory sorts first, files follow in name order.
    assert_eq!(names, vec!["sub", "a.txt", "b.txt"]);
    let sizes: Vec<u64> = entries.iter().map(|e| e.size).collect();
    assert_eq!(sizes, vec![2048, 0, 1023]);
}

#[test]
fn list_of_no_children_is_empty_with_zero_total() {
    let (total, entries) = list(Vec::new(), args(true, true));
    assert_eq!(total, 0);
    assert!(entries.is_empty());
}

#[test]
fn list_keeps_a_broken_symlink_as_a_row() {
    let children = vec![
        child("real.txt", file_stat(0o644, 5)),
        child("dangling", symlink_stat(0o777, 11)),
    ];
    let (total, entries) = list(children, args(true, true));
    assert_eq!(total, 16);
    assert_eq!(entries.len(), 2);
    let link = entries.iter().find(|e| e.file_name_str == "dangling").unwrap();
    assert_eq!(link.type_class, TypeClass::Symlink);
    assert!(link.is_symlink);
    assert_eq!(link.size, 11);
}

#[test]
fn list_without_recursion_zeroes_every_directory() {
    let children = vec![
        child("z", dir_stat(0o755)),
        child("a.txt", file_stat(0o644, 7)),
        child("d", dir_stat(0o700)),
    ];
    let (total, entries) = list(children, args(false, false));
    assert_eq!(total, 7);
    for e in &entries {
        if e.type_class == TypeClass::Directory {
            assert_eq!(e.size, 0);
        }
    }
}
