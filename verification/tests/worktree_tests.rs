use gini::worktree::{compare_names, Directory, Node, Order};

fn names_in(dir: &Directory) -> Vec<String> {
    (0..dir.len()).map(|i| dir.name_at(i).clone()).collect()
}

fn file_in(dir: &Directory, name: &str) -> Option<Vec<u8>> {
    match dir.get(name) {
        Some(Node::File(bytes)) => Some(bytes.clone()),
        _ => None,
    }
}

#[test]
fn a_new_directory_is_empty() {
    let dir = Directory::new();
    assert_eq!(dir.len(), 0);
    assert!(dir.get("a").is_none());
    assert!(!dir.contains("a"));
}

#[test]
fn entries_stand_in_the_order_of_their_names() {
    let mut dir = Directory::new();
    for name in ["m", "b", "z", "a", "ab", "B", "h\u{e9}", "hz", ""] {
        dir.insert(name.to_string(), Node::File(name.as_bytes().to_vec()));
    }
    let mut expected: Vec<String> =
        ["m", "b", "z", "a", "ab", "B", "h\u{e9}", "hz", ""].iter().map(|s| s.to_string()).collect();
    expected.sort();
    assert_eq!(names_in(&dir), expected);
    assert_eq!(names_in(&dir), vec!["", "B", "a", "ab", "b", "hz", "h\u{e9}", "m", "z"]);
    assert_eq!(file_in(&dir, "ab"), Some(b"ab".to_vec()));
}

#[test]
fn the_order_of_insertion_does_not_matter() {
    let mut one = Directory::new();
    let mut two = Directory::new();
    for name in ["c", "a", "b"] {
        one.insert(name.to_string(), Node::File(vec![1]));
    }
    for name in ["b", "c", "a"] {
        two.insert(name.to_string(), Node::File(vec![1]));
    }
    assert_eq!(names_in(&one), names_in(&two));
}

#[test]
fn insert_replaces_what_stood_under_the_name() {
    let mut dir = Directory::new();
    dir.insert("a".to_string(), Node::File(b"old".to_vec()));
    dir.insert("b".to_string(), Node::File(b"b".to_vec()));
    dir.insert("a".to_string(), Node::File(b"new".to_vec()));
    assert_eq!(dir.len(), 2);
    assert_eq!(file_in(&dir, "a"), Some(b"new".to_vec()));
    dir.insert("a".to_string(), Node::Dir(Directory::new()));
    assert_eq!(dir.len(), 2);
    assert!(matches!(dir.get("a"), Some(Node::Dir(_))));
    assert!(matches!(dir.node_at(0), Node::Dir(_)));
    assert_eq!(dir.name_at(1), "b");
}

#[test]
fn remove_takes_the_entry_out() {
    let mut dir = Directory::new();
    for name in ["a", "b", "c"] {
        dir.insert(name.to_string(), Node::File(name.as_bytes().to_vec()));
    }
    match dir.remove("b") {
        Some(Node::File(bytes)) => assert_eq!(bytes, b"b"),
        _ => panic!("b was there"),
    }
    assert_eq!(names_in(&dir), vec!["a", "c"]);
    assert!(dir.remove("b").is_none());
    assert!(dir.remove("zz").is_none());
    assert_eq!(dir.len(), 2);
    assert!(dir.contains("a"));
    assert!(!dir.contains("b"));
}

#[test]
fn names_compare_as_strings_do() {
    let samples = ["", "a", "ab", "b", "B", "h\u{e9}", "hz", "z", "\u{1f600}", "\u{ffff}", "aa"];
    for a in samples {
        for b in samples {
            let expected = if a < b {
                Order::Before
            } else if a == b {
                Order::Same
            } else {
                Order::After
            };
            assert_eq!(compare_names(a, b), expected, "{:?} and {:?}", a, b);
        }
    }
}

#[test]
fn a_name_comes_before_the_names_it_begins() {
    assert_eq!(compare_names("a", "ab"), Order::Before);
    assert_eq!(compare_names("ab", "a"), Order::After);
    assert_eq!(compare_names("ab", "ab"), Order::Same);
    assert_eq!(compare_names("", "a"), Order::Before);
}
