use pls::pls::{get_directory_size, FsTree};

fn file(len: u64) -> FsTree {
    FsTree::File { len }
}

fn dir(children: Vec<FsTree>) -> FsTree {
    FsTree::Dir { readable: true, children }
}

fn unreadable_dir() -> FsTree {
    FsTree::Dir { readable: false, children: vec![] }
}

#[test]
fn flat_directory_sums_its_file_lengths() {
    let t = dir(vec![file(1), file(2), file(3), file(0)]);
    assert_eq!(get_directory_size(&t), 6);
}

#[test]
fn empty_directory_is_zero() {
    assert_eq!(get_directory_size(&dir(vec![])), 0);
}

#[test]
fn single_file_reports_its_length() {
    assert_eq!(get_directory_size(&file(42)), 42);
}

#[test]
fn aggregation_is_order_independent() {
    let a = dir(vec![file(10), file(20), dir(vec![file(30)])]);
    let b = dir(vec![dir(vec![file(30)]), file(20), file(10)]);
    assert_eq!(get_directory_size(&a), get_directory_size(&b));
    assert_eq!(get_directory_size(&a), 60);
}

#[test]
fn nested_tree_aggregates_compositionally() {
    let left = dir(vec![file(5), file(7)]);
    let right = dir(vec![dir(vec![file(11)]), file(13)]);
    let root = dir(vec![left, right, file(2)]);
    // 5 + 7 from the left child, 11 + 13 from the right, 2 directly.
    assert_eq!(get_directory_size(&root), 38);
}

#[test]
fn three_entry_directory_totals_3071() {
    let root = dir(vec![file(0), file(1023), dir(vec![file(2048)])]);
    assert_eq!(get_directory_size(&root), 3071);
}

#[test]
fn unreadable_directory_is_zero() {
    assert_eq!(get_directory_size(&unreadable_dir()), 0);
}

#[test]
fn nested_unreadable_directory_contributes_zero() {
    let root = dir(vec![file(100), unreadable_dir(), dir(vec![file(23), unreadable_dir()])]);
    assert_eq!(get_directory_size(&root), 123);
}

#[test]
fn symlinks_and_specials_contribute_zero() {
    let root = dir(vec![file(9), FsTree::Other, FsTree::Other]);
    assert_eq!(get_directory_size(&root), 9);
}
