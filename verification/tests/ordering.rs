use pls::pls::{total_size, Entry, TypeClass};
use pls::sort::{entry_le_exec, sort_entries};

fn entry(name: &str, type_class: TypeClass, size: u64, path: &str) -> Entry {
    Entry {
        permissions: "----------".to_string(),
        type_class,
        size,
        is_symlink: false,
        file_name_str: name.to_string(),
        path: path.to_string(),
    }
}

#[test]
fn directories_sort_before_everything_else() {
    let sorted = sort_entries(vec![
        entry("b.txt", TypeClass::File, 1, "b.txt"),
        entry("zzz", TypeClass::Directory, 0, "zzz"),
        entry("a.txt", TypeClass::File, 2, "a.txt"),
        entry("mid", TypeClass::Directory, 0, "mid"),
    ]);
    let names: Vec<&str> = sorted.iter().map(|e| e.file_name_str.as_str()).collect();
    assert_eq!(names, vec!["mid", "zzz", "a.txt", "b.txt"]);
}

#[test]
fn names_order_case_sensitively_by_codepoint() {
    let sorted = sort_entries(vec![
        entry("banana", TypeClass::File, 0, "1"),
        entry("Apple", TypeClass::File, 0, "2"),
        entry("apple", TypeClass::File, 0, "3"),
        entry("Banana", TypeClass::File, 0, "4"),
    ]);
    let names: Vec<&str> = sorted.iter().map(|e| e.file_name_str.as_str()).collect();
    // Uppercase codepoints precede lowercase ones.
    assert_eq!(names, vec!["Apple", "Banana", "apple", "banana"]);
}

#[test]
fn prefix_sorts_before_its_extension() {
    let sorted = sort_entries(vec![
        entry("abc", TypeClass::File, 0, "1"),
        entry("ab", TypeClass::File, 0, "2"),
        entry("abcd", TypeClass::File, 0, "3"),
    ]);
    let names: Vec<&str> = sorted.iter().map(|e| e.file_name_str.as_str()).collect();
    assert_eq!(names, vec!["ab", "abc", "abcd"]);
}

#[test]
fn equal_keys_keep_arrival_order() {
    let sorted = sort_entries(vec![
        entry("same", TypeClass::File, 1, "first"),
        entry("aaa", TypeClass::File, 0, "aaa"),
        entry("same", TypeClass::File, 2, "second"),
        entry("same", TypeClass::File, 3, "third"),
    ]);
    let tagged: Vec<&str> = sorted
        .iter()
        .filter(|e| e.file_name_str == "same")
        .map(|e| e.path.as_str())
        .collect();
    assert_eq!(tagged, vec!["first", "second", "third"]);
}

#[test]
fn sorting_twice_gives_the_same_order() {
    let make = || {
        vec![
            entry("c", TypeClass::File, 1, "c"),
            entry("d", TypeClass::Directory, 0, "d"),
            entry("a", TypeClass::Symlink, 2, "a"),
            entry("b", TypeClass::Other, 3, "b"),
        ]
    };
    let once = sort_entries(make());
    let again = sort_entries(make());
    let a: Vec<&str> = once.iter().map(|e| e.file_name_str.as_str()).collect();
    let b: Vec<&str> = again.iter().map(|e| e.file_name_str.as_str()).collect();
    assert_eq!(a, b);
    assert_eq!(a, vec!["d", "a", "b", "c"]);
}

#[test]
fn comparison_is_total_on_samples() {
    let samples = vec![
        entry("a", TypeClass::Directory, 0, "a"),
        entry("a", TypeClass::File, 0, "a"),
        entry("b", TypeClass::Symlink, 0, "b"),
        entry("", TypeClass::Other, 0, ""),
    ];
    for x in &samples {
        for y in &samples {
            assert!(entry_le_exec(x, y) || entry_le_exec(y, x));
        }
    }
}

#[test]
fn total_size_sums_all_entries() {
    let entries = vec![
        entry("a", TypeClass::File, 0, "a"),
        entry("b", TypeClass::File, 1023, "b"),
        entry("c", TypeClass::Directory, 2048, "c"),
    ];
    assert_eq!(total_size(&entries), 3071);
    assert_eq!(total_size(&Vec::new()), 0);
}
