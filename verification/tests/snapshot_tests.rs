use gini::digest::digest_of;
use gini::error::GiniError;
use gini::snapshot::{
    clean_working_directory, copy_directory_excluding, excluded, restore_tree, write_tree,
    MAX_TREE_DEPTH,
};
use gini::store::{ObjectStore, MAX_FILE_SIZE};
use gini::worktree::{Directory, Node};

const HELLO: &str = "aaf4c61ddcc5e8a2dabede0f3b482cd9aea9434d";
const DEEP: &str = "3dde59ff3d79fc2322f4192f74c1d1af30d32cc6";
const SUBTREE: &str = "bf7ae92dbbf7f80bbb14743492367362dea428c6";
const ROOT: &str = "badf0d7997b1275baef4deeb165a0730953521f7";
const EMPTY: &str = "da39a3ee5e6b4b0d3255bfef95601890afd80709";

fn file(content: &str) -> Node {
    Node::File(content.as_bytes().to_vec())
}

fn dir_of(entries: Vec<(&str, Node)>) -> Directory {
    let mut dir = Directory::new();
    for (name, node) in entries {
        dir.insert(name.to_string(), node);
    }
    dir
}

fn sample() -> Directory {
    dir_of(vec![("src", Node::Dir(dir_of(vec![("deep.txt", file("deep"))]))), ("a.txt", file("hello"))])
}

fn same_directory(a: &Directory, b: &Directory) -> bool {
    if a.len() != b.len() {
        return false;
    }
    for i in 0..a.len() {
        if a.name_at(i) != b.name_at(i) {
            return false;
        }
        let same = match (a.node_at(i), b.node_at(i)) {
            (Node::File(x), Node::File(y)) => x == y,
            (Node::Dir(x), Node::Dir(y)) => same_directory(x, y),
            _ => false,
        };
        if !same {
            return false;
        }
    }
    true
}

#[test]
fn write_tree_stores_blobs_and_trees_under_their_digests() {
    let mut store = ObjectStore::new(MAX_FILE_SIZE);
    assert_eq!(write_tree(&sample(), &mut store), Ok(ROOT.to_string()));
    assert_eq!(store.len(), 4);
    assert_eq!(store.get(HELLO).unwrap().as_slice(), b"hello");
    assert_eq!(store.get(DEEP).unwrap().as_slice(), b"deep");
    assert_eq!(
        store.get_text(SUBTREE),
        Ok(format!("blob {}  deep.txt", DEEP))
    );
    assert_eq!(
        store.get_text(ROOT),
        Ok(format!("blob {}  a.txt\ntree {}  src", HELLO, SUBTREE))
    );
}

#[test]
fn write_tree_of_an_empty_directory_is_the_empty_object() {
    let mut store = ObjectStore::new(MAX_FILE_SIZE);
    assert_eq!(write_tree(&Directory::new(), &mut store), Ok(EMPTY.to_string()));
    assert_eq!(store.get(EMPTY).unwrap().len(), 0);
    let with_empty_dir = dir_of(vec![("d", Node::Dir(Directory::new()))]);
    let digest = write_tree(&with_empty_dir, &mut store).unwrap();
    assert_eq!(store.get_text(&digest), Ok(format!("tree {}  d", EMPTY)));
}

#[test]
fn write_tree_leaves_out_the_excluded_names_at_every_level() {
    let mut store = ObjectStore::new(MAX_FILE_SIZE);
    let noisy = dir_of(vec![
        ("a.txt", file("hello")),
        (".git", Node::Dir(dir_of(vec![("config", file("x"))]))),
        (".gini", Node::Dir(Directory::new())),
        ("target", file("built")),
        (
            "src",
            Node::Dir(dir_of(vec![
                ("deep.txt", file("deep")),
                ("target", Node::Dir(dir_of(vec![("out", file("o"))]))),
                (".git", file("nested")),
            ])),
        ),
    ]);
    assert_eq!(write_tree(&noisy, &mut store), Ok(ROOT.to_string()));
    assert_eq!(store.len(), 4);
    assert!(excluded(".git") && excluded(".gini") && excluded("target"));
    assert!(!excluded("targets") && !excluded(".gitignore") && !excluded("") && !excluded("Target"));
}

#[test]
fn the_same_content_gives_the_same_digest_in_any_store() {
    let one = dir_of(vec![("b", file("2")), ("a", file("1")), ("c", Node::Dir(dir_of(vec![("x", file("3"))])))]);
    let two = dir_of(vec![("c", Node::Dir(dir_of(vec![("x", file("3"))]))), ("a", file("1")), ("b", file("2"))]);
    let mut fresh = ObjectStore::new(MAX_FILE_SIZE);
    let mut used = ObjectStore::new(1000);
    used.put(b"something else").unwrap();
    used.put(b"1").unwrap();
    let first = write_tree(&one, &mut fresh).unwrap();
    let second = write_tree(&two, &mut used).unwrap();
    assert_eq!(first, second);
    let changed = dir_of(vec![("b", file("2")), ("a", file("1!")), ("c", Node::Dir(dir_of(vec![("x", file("3"))])))]);
    assert_ne!(write_tree(&changed, &mut fresh).unwrap(), first);
}

#[test]
fn write_tree_refuses_a_file_over_the_limit() {
    let mut store = ObjectStore::new(4);
    let dir = dir_of(vec![("a", file("ok")), ("b", file("too long")), ("c", file("no"))]);
    assert_eq!(write_tree(&dir, &mut store), Err(GiniError::FileTooLarge));
    assert_eq!(store.len(), 1);
    assert!(store.contains(&digest_of(b"ok")));
    let nested = dir_of(vec![("d", Node::Dir(dir_of(vec![("b", file("too long"))])))]);
    assert_eq!(write_tree(&nested, &mut store), Err(GiniError::FileTooLarge));
}

#[test]
fn write_tree_refuses_a_tree_over_the_limit() {
    let mut store = ObjectStore::new(10);
    let dir = dir_of(vec![("a", file("ok"))]);
    assert_eq!(write_tree(&dir, &mut store), Err(GiniError::ObjectTooLarge));
    assert_eq!(store.len(), 1);
}

#[test]
fn an_excluded_file_over_the_limit_is_no_obstacle() {
    let mut store = ObjectStore::new(100);
    let big = "x".repeat(101);
    let dir = dir_of(vec![("target", file(&big)), ("a", file("1"))]);
    assert!(write_tree(&dir, &mut store).is_ok());
}

#[test]
fn restore_tree_gives_back_what_write_tree_recorded() {
    let mut store = ObjectStore::new(MAX_FILE_SIZE);
    let recorded = dir_of(vec![
        ("a.txt", file("hello")),
        ("empty", Node::Dir(Directory::new())),
        ("bin", Node::File(vec![0, 255, 10, 13])),
        (
            "src",
            Node::Dir(dir_of(vec![
                ("deep.txt", file("deep")),
                ("more", Node::Dir(dir_of(vec![("h\u{e9}.md", file(""))]))),
            ])),
        ),
    ]);
    let digest = write_tree(&recorded, &mut store).unwrap();
    let mut restored = Directory::new();
    assert_eq!(restore_tree(&mut restored, &store, &digest, MAX_TREE_DEPTH), Ok(()));
    assert!(same_directory(&restored, &recorded));
}

#[test]
fn restore_tree_writes_over_files_and_into_directories() {
    let mut store = ObjectStore::new(MAX_FILE_SIZE);
    let digest = write_tree(&sample(), &mut store).unwrap();
    let mut target = dir_of(vec![
        ("a.txt", file("stale")),
        ("keep.txt", file("kept")),
        ("src", Node::Dir(dir_of(vec![("other.txt", file("other"))]))),
    ]);
    assert_eq!(restore_tree(&mut target, &store, &digest, MAX_TREE_DEPTH), Ok(()));
    let expected = dir_of(vec![
        ("a.txt", file("hello")),
        ("keep.txt", file("kept")),
        ("src", Node::Dir(dir_of(vec![("other.txt", file("other")), ("deep.txt", file("deep"))]))),
    ]);
    assert!(same_directory(&target, &expected));
}

#[test]
fn restore_tree_reports_conflicts_of_files_and_directories() {
    let mut store = ObjectStore::new(MAX_FILE_SIZE);
    let digest = write_tree(&sample(), &mut store).unwrap();
    let mut file_in_the_way = dir_of(vec![("src", file("I am a file"))]);
    assert_eq!(
        restore_tree(&mut file_in_the_way, &store, &digest, MAX_TREE_DEPTH),
        Err(GiniError::PathConflict)
    );
    let after = dir_of(vec![("a.txt", file("hello")), ("src", file("I am a file"))]);
    assert!(same_directory(&file_in_the_way, &after));

    let mut dir_in_the_way = dir_of(vec![("a.txt", Node::Dir(Directory::new()))]);
    assert_eq!(
        restore_tree(&mut dir_in_the_way, &store, &digest, MAX_TREE_DEPTH),
        Err(GiniError::PathConflict)
    );
    assert!(same_directory(&dir_in_the_way, &dir_of(vec![("a.txt", Node::Dir(Directory::new()))])));
}

#[test]
fn restore_tree_rejects_bad_digests_and_missing_objects() {
    let mut store = ObjectStore::new(MAX_FILE_SIZE);
    let mut target = Directory::new();
    assert_eq!(restore_tree(&mut target, &store, "nope", 5), Err(GiniError::InvalidDigest));
    assert_eq!(restore_tree(&mut target, &store, HELLO, 5), Err(GiniError::ObjectNotFound));
    let dangling = format!("blob {}  first\nblob {}  gone\ntree {}  also", EMPTY, HELLO, DEEP);
    store.put(b"").unwrap();
    let digest = store.put(dangling.as_bytes()).unwrap();
    assert_eq!(restore_tree(&mut target, &store, &digest, 5), Err(GiniError::ObjectNotFound));
    assert!(same_directory(&target, &dir_of(vec![("first", file(""))])));
}

#[test]
fn restore_tree_rejects_a_malformed_tree_before_applying_any_of_it() {
    let mut store = ObjectStore::new(MAX_FILE_SIZE);
    store.put(b"").unwrap();
    let bad = format!("blob {}  fine\nblob {}  ../escape/x", EMPTY, EMPTY);
    let digest = store.put(bad.as_bytes()).unwrap();
    let mut target = Directory::new();
    assert_eq!(restore_tree(&mut target, &store, &digest, 5), Err(GiniError::MalformedObject));
    assert_eq!(target.len(), 0);
    for name in ["..", "."] {
        let climbing = format!("blob {}  {}", EMPTY, name);
        let digest = store.put(climbing.as_bytes()).unwrap();
        assert_eq!(restore_tree(&mut target, &store, &digest, 5), Err(GiniError::MalformedObject));
        let as_tree = format!("tree {}  {}", EMPTY, name);
        let digest = store.put(as_tree.as_bytes()).unwrap();
        assert_eq!(restore_tree(&mut target, &store, &digest, 5), Err(GiniError::MalformedObject));
        assert_eq!(target.len(), 0);
    }
    let blob = store.put(b"just a blob, no tree").unwrap();
    assert_eq!(restore_tree(&mut target, &store, &blob, 5), Err(GiniError::MalformedObject));
    let binary = store.put(&[0xff, 0xff]).unwrap();
    assert_eq!(restore_tree(&mut target, &store, &binary, 5), Err(GiniError::MalformedObject));
}

#[test]
fn restore_tree_goes_no_deeper_than_allowed() {
    let mut store = ObjectStore::new(MAX_FILE_SIZE);
    let nested = dir_of(vec![("a", Node::Dir(dir_of(vec![("b", Node::Dir(dir_of(vec![("c", file("x"))])))])))]);
    let digest = write_tree(&nested, &mut store).unwrap();
    let mut target = Directory::new();
    assert_eq!(restore_tree(&mut target, &store, &digest, 0), Err(GiniError::MalformedObject));
    assert_eq!(target.len(), 0);
    assert_eq!(restore_tree(&mut target, &store, &digest, 2), Err(GiniError::MalformedObject));
    let mut whole = Directory::new();
    assert_eq!(restore_tree(&mut whole, &store, &digest, 3), Ok(()));
    assert!(same_directory(&whole, &nested));
}

#[test]
fn restore_tree_ends_on_a_tree_that_holds_itself() {
    let mut store = ObjectStore::new(MAX_FILE_SIZE);
    let own = "0123456789abcdef0123456789abcdef01234567";
    assert!(store.load(own.to_string(), format!("tree {}  again", own).into_bytes()));
    let mut target = Directory::new();
    assert_eq!(
        restore_tree(&mut target, &store, own, MAX_TREE_DEPTH),
        Err(GiniError::MalformedObject)
    );
    assert_eq!(MAX_TREE_DEPTH, 256);
}

#[test]
fn copy_directory_excluding_copies_over_and_leaves_out() {
    let src = dir_of(vec![
        ("a", file("new a")),
        (".gini", Node::Dir(dir_of(vec![("HEAD", file("x"))]))),
        ("d", Node::Dir(dir_of(vec![("in", file("1")), (".gini", file("nested"))]))),
    ]);
    let mut dst = dir_of(vec![
        ("a", file("old a")),
        ("z", file("stays")),
        ("d", Node::Dir(dir_of(vec![("was", file("0"))]))),
    ]);
    let exclude = vec![".gini".to_string()];
    assert_eq!(copy_directory_excluding(&src, &mut dst, &exclude), Ok(()));
    let expected = dir_of(vec![
        ("a", file("new a")),
        ("z", file("stays")),
        ("d", Node::Dir(dir_of(vec![("was", file("0")), ("in", file("1"))]))),
    ]);
    assert!(same_directory(&dst, &expected));

    let mut all = Directory::new();
    assert_eq!(copy_directory_excluding(&src, &mut all, &Vec::new()), Ok(()));
    assert!(same_directory(&all, &src));
}

#[test]
fn copy_directory_excluding_reports_conflicts() {
    let src = dir_of(vec![("a", file("1")), ("x", Node::Dir(Directory::new())), ("y", file("2"))]);
    let mut dst = dir_of(vec![("x", file("a file"))]);
    assert_eq!(copy_directory_excluding(&src, &mut dst, &Vec::new()), Err(GiniError::PathConflict));
    assert!(same_directory(&dst, &dir_of(vec![("a", file("1")), ("x", file("a file"))])));
    let mut other = dir_of(vec![("y", Node::Dir(Directory::new()))]);
    assert_eq!(copy_directory_excluding(&src, &mut other, &Vec::new()), Err(GiniError::PathConflict));
}

#[test]
fn clean_working_directory_keeps_the_metadata_only() {
    let mut root = dir_of(vec![
        ("a", file("1")),
        (".git", Node::Dir(dir_of(vec![("config", file("c"))]))),
        ("target", Node::Dir(Directory::new())),
        (".gini", Node::Dir(dir_of(vec![("HEAD", file("h"))]))),
        ("src", Node::Dir(dir_of(vec![(".git", file("nested"))]))),
    ]);
    clean_working_directory(&mut root);
    let expected = dir_of(vec![
        (".git", Node::Dir(dir_of(vec![("config", file("c"))]))),
        (".gini", Node::Dir(dir_of(vec![("HEAD", file("h"))]))),
    ]);
    assert!(same_directory(&root, &expected));
    let mut plain = dir_of(vec![("a", file("1")), ("b", Node::Dir(Directory::new()))]);
    clean_working_directory(&mut plain);
    assert_eq!(plain.len(), 0);
}

#[test]
fn check_file_size_refuses_only_what_is_over_the_limit() {
    assert_eq!(gini::snapshot::check_file_size(0, 0), Ok(()));
    assert_eq!(gini::snapshot::check_file_size(104857600, 104857600), Ok(()));
    assert_eq!(gini::snapshot::check_file_size(104857601, 104857600), Err(GiniError::FileTooLarge));
    assert_eq!(gini::snapshot::check_file_size(u64::MAX, 1), Err(GiniError::FileTooLarge));
}

#[test]
fn cleaning_keeps_the_two_metadata_names() {
    assert!(gini::snapshot::kept_when_cleaned(".git"));
    assert!(gini::snapshot::kept_when_cleaned(".gini"));
    assert!(!gini::snapshot::kept_when_cleaned("target"));
    assert!(!gini::snapshot::kept_when_cleaned(".gitignore"));
    assert!(!gini::snapshot::kept_when_cleaned(""));
}
