use gini::engine::{
    checkpoint, ensure_initialized, find_repo_root, get_commit_history, init, log, restore,
    restore_from_backup, Repository, MAX_DEPTH,
};
use gini::error::GiniError;
use gini::history::resolve_tree;
use gini::refs::get_head_commit;
use gini::worktree::{Directory, Node};

fn project_with(files: &[(&str, &str)]) -> Repository {
    let mut dir = Directory::new();
    for (name, content) in files {
        dir.insert(name.to_string(), Node::File(content.as_bytes().to_vec()));
    }
    init(false, dir).unwrap()
}

fn file_content(dir: &Directory, name: &str) -> Option<Vec<u8>> {
    match dir.get(name) {
        Some(Node::File(bytes)) => Some(bytes.clone()),
        _ => None,
    }
}

#[test]
fn init_then_first_checkpoint_then_log() {
    let mut repo = init(false, Directory::new()).unwrap();
    assert_eq!(repo.refs.head_content().as_deref(), Some("ref: refs/heads/main"));
    assert!(repo.refs.ref_content("refs/heads/main").is_none());
    assert_eq!(get_head_commit(&repo.refs), Ok(None));
    assert_eq!(repo.objects.len(), 0);

    let commit = checkpoint(&mut repo, "first", "Ann", "ann@example.com", 1700000000).unwrap();
    let in_ref = repo.refs.ref_content("refs/heads/main").unwrap();
    assert_eq!(in_ref.len(), 40);
    assert!(in_ref.chars().all(|c| c.is_ascii_hexdigit()));
    assert_eq!(*in_ref, commit);

    let history = get_commit_history(&repo).unwrap();
    assert_eq!(history, vec![(commit.clone(), "first".to_string())]);
    let text = log(&repo).unwrap();
    assert_eq!(
        text,
        format!(
            "checkpoint {}\nAuthor: Ann <ann@example.com> 1700000000 +0530\n\n\tfirst\n\n",
            commit
        )
    );
}

#[test]
fn init_fails_where_a_repository_exists() {
    assert!(matches!(init(true, Directory::new()), Err(GiniError::AlreadyInitialized)));
}

#[test]
fn second_checkpoint_reuses_blob_and_tree() {
    let mut repo = project_with(&[("a.txt", "hello")]);
    let first = checkpoint(&mut repo, "one", "Ann", "ann@example.com", 100).unwrap();
    assert_eq!(repo.objects.len(), 3);
    let second = checkpoint(&mut repo, "two", "Ann", "ann@example.com", 101).unwrap();
    assert_ne!(first, second);
    assert_eq!(repo.objects.len(), 4);
    let tree_one = resolve_tree(&repo.objects, &first).unwrap();
    let tree_two = resolve_tree(&repo.objects, &second).unwrap();
    assert_eq!(tree_one, tree_two);
    assert!(repo.objects.contains("aaf4c61ddcc5e8a2dabede0f3b482cd9aea9434d"));
    let tree = repo.objects.get(&tree_one).unwrap();
    assert_eq!(tree.as_slice(), b"blob aaf4c61ddcc5e8a2dabede0f3b482cd9aea9434d  a.txt");
}

#[test]
fn history_is_newest_first() {
    let mut repo = project_with(&[("a.txt", "1")]);
    let c1 = checkpoint(&mut repo, "one", "Ann", "a@x", 1).unwrap();
    repo.worktree.insert("a.txt".to_string(), Node::File(b"2".to_vec()));
    let c2 = checkpoint(&mut repo, "two", "Ann", "a@x", 2).unwrap();
    repo.worktree.insert("a.txt".to_string(), Node::File(b"3".to_vec()));
    let c3 = checkpoint(&mut repo, "three\nmore", "Ann", "a@x", 3).unwrap();
    let history = get_commit_history(&repo).unwrap();
    assert_eq!(
        history,
        vec![
            (c3.clone(), "three".to_string()),
            (c2.clone(), "two".to_string()),
            (c1.clone(), "one".to_string()),
        ]
    );
    let from_first = gini::history::walk_history(&repo.objects, Some(c1.clone())).unwrap();
    assert_eq!(from_first.len(), 1);
    assert_eq!(from_first[0].digest, c1);
    assert_eq!(from_first[0].message, "one");
}

#[test]
fn restore_brings_back_the_files_and_takes_a_backup() {
    let mut repo = project_with(&[("a.txt", "old"), ("b.txt", "keep")]);
    let mut sub = Directory::new();
    sub.insert("deep.txt".to_string(), Node::File(b"deep".to_vec()));
    repo.worktree.insert("src".to_string(), Node::Dir(sub));
    let first = checkpoint(&mut repo, "one", "Ann", "a@x", 1).unwrap();

    repo.worktree.insert("a.txt".to_string(), Node::File(b"new".to_vec()));
    repo.worktree.remove("b.txt");
    repo.worktree.insert("c.txt".to_string(), Node::File(b"extra".to_vec()));
    let second = checkpoint(&mut repo, "two", "Ann", "a@x", 2).unwrap();

    restore(&mut repo, &first, 50).unwrap();
    assert_eq!(repo.worktree.len(), 3);
    assert_eq!(file_content(&repo.worktree, "a.txt"), Some(b"old".to_vec()));
    assert_eq!(file_content(&repo.worktree, "b.txt"), Some(b"keep".to_vec()));
    assert!(repo.worktree.get("c.txt").is_none());
    match repo.worktree.get("src") {
        Some(Node::Dir(d)) => assert_eq!(file_content(d, "deep.txt"), Some(b"deep".to_vec())),
        _ => panic!("src is missing"),
    }
    assert_eq!(get_head_commit(&repo.refs), Ok(Some(first.clone())));
    assert_ne!(first, second);

    match repo.backups.get("backup_50") {
        Some(Node::Dir(b)) => {
            assert_eq!(b.len(), 3);
            assert_eq!(file_content(b, "a.txt"), Some(b"new".to_vec()));
            assert_eq!(file_content(b, "c.txt"), Some(b"extra".to_vec()));
        }
        _ => panic!("backup is missing"),
    }

    restore_from_backup(&mut repo, "backup_50").unwrap();
    assert_eq!(file_content(&repo.worktree, "a.txt"), Some(b"new".to_vec()));
    assert_eq!(file_content(&repo.worktree, "c.txt"), Some(b"extra".to_vec()));
    assert!(repo.worktree.get("b.txt").is_none());
}

#[test]
fn restore_rejects_bad_and_unknown_commits() {
    let mut repo = project_with(&[("a.txt", "x")]);
    checkpoint(&mut repo, "one", "Ann", "a@x", 1).unwrap();
    assert_eq!(restore(&mut repo, "nonsense", 5), Err(GiniError::InvalidCommit));
    assert_eq!(
        restore(&mut repo, "0123456789012345678901234567890123456789", 5),
        Err(GiniError::CommitNotFound)
    );
    assert_eq!(repo.backups.len(), 0);
    assert_eq!(file_content(&repo.worktree, "a.txt"), Some(b"x".to_vec()));
}

fn tree_shape(dir: &Directory) -> Vec<(String, Option<Vec<u8>>)> {
    (0..dir.len())
        .map(|i| {
            let content = match dir.node_at(i) {
                Node::File(bytes) => Some(bytes.clone()),
                Node::Dir(_) => None,
            };
            (dir.name_at(i).clone(), content)
        })
        .collect()
}

#[test]
fn restoring_an_empty_tree_empties_the_working_directory() {
    let mut repo = init(false, Directory::new()).unwrap();
    let empty = checkpoint(&mut repo, "nothing yet", "Ann", "a@x", 1).unwrap();
    repo.worktree.insert("a.txt".to_string(), Node::File(b"a".to_vec()));
    let mut sub = Directory::new();
    sub.insert("b.txt".to_string(), Node::File(b"b".to_vec()));
    repo.worktree.insert("dir".to_string(), Node::Dir(sub));
    let mut git = Directory::new();
    git.insert("config".to_string(), Node::File(b"c".to_vec()));
    repo.worktree.insert(".git".to_string(), Node::Dir(git));
    checkpoint(&mut repo, "files", "Ann", "a@x", 2).unwrap();

    assert_eq!(restore(&mut repo, &empty, 3), Ok(()));
    assert_eq!(tree_shape(&repo.worktree), vec![(".git".to_string(), None)]);
    assert_eq!(get_head_commit(&repo.refs), Ok(Some(empty)));
}

#[test]
fn a_restore_that_fails_after_its_backup_leaves_the_backup_whole() {
    let mut repo = project_with(&[("a.txt", "precious"), ("b.txt", "work")]);
    let good = checkpoint(&mut repo, "good", "Ann", "a@x", 1).unwrap();
    let missing_tree = "0123456789abcdef0123456789abcdef01234567";
    let broken = gini::history::create_commit(
        &mut repo.objects,
        missing_tree,
        &Some(good.clone()),
        "Ann",
        "a@x",
        2,
        "broken",
    )
    .unwrap();

    assert_eq!(restore(&mut repo, &broken, 77), Err(GiniError::ObjectNotFound));
    match repo.backups.get("backup_77") {
        Some(Node::Dir(backup)) => {
            assert_eq!(
                tree_shape(backup),
                vec![
                    ("a.txt".to_string(), Some(b"precious".to_vec())),
                    ("b.txt".to_string(), Some(b"work".to_vec())),
                ]
            );
        }
        _ => panic!("the backup is missing"),
    }
    assert_eq!(repo.worktree.len(), 0);
    assert_eq!(get_head_commit(&repo.refs), Ok(Some(good)));

    assert_eq!(restore_from_backup(&mut repo, "backup_77"), Ok(()));
    assert_eq!(file_content(&repo.worktree, "a.txt"), Some(b"precious".to_vec()));
    assert_eq!(file_content(&repo.worktree, "b.txt"), Some(b"work".to_vec()));
}

#[test]
fn a_restore_whose_commit_names_no_tree_changes_nothing() {
    let mut repo = project_with(&[("a.txt", "x")]);
    let bad = repo.objects.put(b"author nobody\n\nno tree").unwrap();
    assert_eq!(restore(&mut repo, &bad, 5), Err(GiniError::MalformedObject));
    assert_eq!(repo.backups.len(), 0);
    assert_eq!(file_content(&repo.worktree, "a.txt"), Some(b"x".to_vec()));
}

#[test]
fn a_backup_is_written_once() {
    let mut repo = project_with(&[("a.txt", "one")]);
    let commit = checkpoint(&mut repo, "c", "Ann", "a@x", 1).unwrap();
    assert_eq!(restore(&mut repo, &commit, 10), Ok(()));
    repo.worktree.insert("a.txt".to_string(), Node::File(b"two".to_vec()));
    assert_eq!(restore(&mut repo, &commit, 10), Err(GiniError::BackupFailed));
    assert_eq!(file_content(&repo.worktree, "a.txt"), Some(b"two".to_vec()));
    assert_eq!(repo.backups.len(), 1);
    match repo.backups.get("backup_10") {
        Some(Node::Dir(backup)) => assert_eq!(file_content(backup, "a.txt"), Some(b"one".to_vec())),
        _ => panic!("the backup is missing"),
    }
    assert_eq!(gini::engine::create_backup(&mut repo, 10), Err(GiniError::BackupFailed));
    assert_eq!(gini::engine::create_backup(&mut repo, 11), Ok(()));
    assert_eq!(gini::engine::backup_name_of(11), "backup_11");
    assert_eq!(repo.backups.len(), 2);
}

#[test]
fn a_backup_leaves_out_the_repository_directory() {
    let mut repo = project_with(&[("a.txt", "one")]);
    let mut nested = Directory::new();
    nested.insert(".gini".to_string(), Node::Dir(Directory::new()));
    nested.insert("kept".to_string(), Node::File(b"k".to_vec()));
    repo.worktree.insert("sub".to_string(), Node::Dir(nested));
    repo.worktree.insert(".git".to_string(), Node::File(b"g".to_vec()));
    assert_eq!(gini::engine::create_backup(&mut repo, 1), Ok(()));
    match repo.backups.get("backup_1") {
        Some(Node::Dir(backup)) => {
            assert_eq!(backup.len(), 3);
            assert_eq!(file_content(backup, ".git"), Some(b"g".to_vec()));
            match backup.get("sub") {
                Some(Node::Dir(sub)) => {
                    assert_eq!(tree_shape(sub), vec![("kept".to_string(), Some(b"k".to_vec()))])
                }
                _ => panic!("sub is missing"),
            }
        }
        _ => panic!("the backup is missing"),
    }
}

#[test]
fn restore_from_backup_needs_a_backup_of_that_name() {
    let mut repo = project_with(&[("a.txt", "one")]);
    assert_eq!(restore_from_backup(&mut repo, "backup_1"), Err(GiniError::BackupNotFound));
    repo.backups.insert("backup_2".to_string(), Node::File(b"not a directory".to_vec()));
    assert_eq!(restore_from_backup(&mut repo, "backup_2"), Err(GiniError::BackupNotFound));
    assert_eq!(file_content(&repo.worktree, "a.txt"), Some(b"one".to_vec()));
}

#[test]
fn checkpoint_with_a_detached_head_writes_objects_but_moves_nothing() {
    let mut dir = Directory::new();
    dir.insert("a".to_string(), Node::File(b"1".to_vec()));
    let mut repo = init(false, dir).unwrap();
    let first = checkpoint(&mut repo, "one", "Ann", "a@x", 1).unwrap();
    repo.refs = gini::refs::Refs::with_head(Some(first.clone()));
    assert_eq!(
        checkpoint(&mut repo, "two", "Ann", "a@x", 2),
        Err(GiniError::DetachedHeadUnsupported)
    );
    assert_eq!(repo.refs.head_content().as_deref(), Some(first.as_str()));
    assert_eq!(repo.objects.len(), 4);
    assert_eq!(restore(&mut repo, &first, 9), Err(GiniError::DetachedHeadUnsupported));
    assert_eq!(repo.backups.len(), 1);
}

#[test]
fn checkpoint_fails_on_a_corrupt_head() {
    let mut repo = project_with(&[("a", "1")]);
    repo.refs = gini::refs::Refs::with_head(Some("garbage".to_string()));
    assert_eq!(checkpoint(&mut repo, "m", "Ann", "a@x", 1), Err(GiniError::CorruptRepository));
    assert_eq!(log(&repo), Err(GiniError::CorruptRepository));
    assert_eq!(get_commit_history(&repo), Err(GiniError::CorruptRepository));
}

#[test]
fn checkpoint_fails_on_a_file_too_large_and_leaves_head() {
    let mut repo = project_with(&[("a", "1")]);
    repo.objects = gini::store::ObjectStore::new(3);
    repo.worktree.insert("big".to_string(), Node::File(b"four".to_vec()));
    assert_eq!(checkpoint(&mut repo, "m", "Ann", "a@x", 1), Err(GiniError::FileTooLarge));
    assert_eq!(get_head_commit(&repo.refs), Ok(None));
}

#[test]
fn log_of_a_new_repository_is_empty() {
    let repo = init(false, Directory::new()).unwrap();
    assert_eq!(log(&repo), Ok(String::new()));
    assert_eq!(get_commit_history(&repo), Ok(Vec::new()));
}

#[test]
fn log_fails_when_the_head_commit_is_missing() {
    let mut repo = init(false, Directory::new()).unwrap();
    gini::refs::update_head(&mut repo.refs, "0123456789abcdef0123456789abcdef01234567").unwrap();
    assert_eq!(log(&repo), Err(GiniError::ObjectNotFound));
    assert_eq!(get_commit_history(&repo), Err(GiniError::ObjectNotFound));
}

#[test]
fn the_second_commit_names_the_first_as_parent() {
    let mut repo = project_with(&[("a.txt", "hello")]);
    let first = checkpoint(&mut repo, "one", "Ann", "ann@example.com", 100).unwrap();
    let second = checkpoint(&mut repo, "two", "Ann", "ann@example.com", 101).unwrap();
    let tree = "0098b667b169689089b806bcbce60b0b1fea5bb6";
    assert_eq!(resolve_tree(&repo.objects, &second), Ok(tree.to_string()));
    let text = repo.objects.get_text(&second).unwrap();
    assert_eq!(
        text,
        format!("tree {}\nparent {}\nauthor Ann <ann@example.com> 101 +0530\n\ntwo", tree, first)
    );
}

#[test]
fn find_repo_root_finds_the_nearest_repository() {
    assert_eq!(find_repo_root(&vec![true, false, true]), Ok(0));
    assert_eq!(find_repo_root(&vec![false, false, true, true]), Ok(2));
    assert_eq!(find_repo_root(&vec![false, false]), Err(GiniError::NotARepository));
    assert_eq!(find_repo_root(&Vec::new()), Err(GiniError::NotARepository));
    assert_eq!(ensure_initialized(&vec![false, true]), Ok(()));
    assert_eq!(ensure_initialized(&vec![false]), Err(GiniError::NotARepository));
}

#[test]
fn find_repo_root_looks_no_higher_than_a_hundred_directories() {
    assert_eq!(MAX_DEPTH, 100);
    let mut flags = vec![false; 102];
    flags[101] = true;
    assert_eq!(find_repo_root(&flags), Err(GiniError::NotARepository));
    flags[100] = true;
    assert_eq!(find_repo_root(&flags), Ok(100));
}

#[test]
fn a_checkpoint_lists_its_new_objects_after_those_that_were_there() {
    let mut repo = project_with(&[("a.txt", "hello")]);
    checkpoint(&mut repo, "one", "Ann", "a@x", 1).unwrap();
    let before: Vec<String> = (0..repo.objects.len()).map(|i| repo.objects.digest_at(i).clone()).collect();
    repo.worktree.insert("b.txt".to_string(), Node::File(b"more".to_vec()));
    let second = checkpoint(&mut repo, "two", "Ann", "a@x", 2).unwrap();
    let after: Vec<String> = (0..repo.objects.len()).map(|i| repo.objects.digest_at(i).clone()).collect();
    assert_eq!(after.len(), before.len() + 3);
    assert_eq!(&after[..before.len()], &before[..]);
    assert_eq!(after.last(), Some(&second));
}

#[test]
fn a_message_is_logged_as_it_was_given() {
    let mut repo = init(false, Directory::new()).unwrap();
    let commit = checkpoint(&mut repo, "subject\r\n\r\nbody\n", "Ann", "a@x", 7).unwrap();
    let entries = gini::history::walk_history(&repo.objects, Some(commit.clone())).unwrap();
    assert_eq!(entries.len(), 1);
    assert_eq!(entries[0].message, "subject\r\n\r\nbody\n");
    assert_eq!(entries[0].author, "Ann <a@x> 7 +0530");
    assert_eq!(get_commit_history(&repo), Ok(vec![(commit, "subject".to_string())]));
}
