//! The repository and its operations: init, checkpoint, restore, and the backups.

use vstd::prelude::*;

use crate::codec::commit_bytes;
use crate::digest::{is_digest, is_valid_hash};
use crate::error::{same_outcome, GiniError};
use crate::history::{
    create_commit, format_log, history_from, log_text, pairs_view, resolve_tree,
    resolve_tree_spec, summaries, summarize, walk_history, HistoryEntryModel,
};
use crate::refs::{advance_spec, get_head_commit, head_commit, initial_head, update_head, Refs};
use crate::snapshot::{
    clean_working_directory, cleaned, copy_directory_excluding, copy_spec, gini_chars, gini_name,
    names_view, restore_tree, restore_tree_spec, write_tree, write_tree_spec, MAX_TREE_DEPTH,
};
use crate::store::{put_spec, ObjectStore, Objects, MAX_FILE_SIZE};
use crate::text::{decimal, push_decimal, to_string};
use crate::worktree::{dir_get, dir_has, dir_put, Directory, EntryModel, Node, NodeModel};

verus! {

/// How many directories above the starting point are searched for a repository.
pub const MAX_DEPTH: usize = 100;

/// A project under checkpoint control: the object store, the refs, the working directory
/// (all of the project's directory but the repository's own), and the backups taken
/// before restores, each a directory named by the time it was taken.
pub struct Repository {
    pub objects: ObjectStore,
    pub refs: Refs,
    pub worktree: Directory,
    pub backups: Directory,
}

/// A repository as a mathematical value.
pub struct RepositoryModel {
    pub objects: Objects,
    pub limit: nat,
    pub head: Option<Seq<char>>,
    pub refs: Map<Seq<char>, Seq<char>>,
    pub worktree: Seq<EntryModel>,
    pub backups: Seq<EntryModel>,
}

impl View for Repository {
    type V = RepositoryModel;

    open spec fn view(&self) -> RepositoryModel {
        RepositoryModel {
            objects: self.objects@,
            limit: self.objects.limit(),
            head: self.refs.head(),
            refs: self.refs.files(),
            worktree: self.worktree.model(),
            backups: self.backups.model(),
        }
    }
}

impl Repository {
    /// Whether the parts of the repository are well formed.
    pub open spec fn wf(&self) -> bool {
        self.objects.wf() && self.worktree.wf() && self.backups.wf()
    }
}

/// What a backup's name begins with.
pub open spec fn backup_prefix() -> Seq<char> {
    seq!['b', 'a', 'c', 'k', 'u', 'p', '_']
}

/// The name of the backup taken at `timestamp`.
pub open spec fn backup_name(timestamp: nat) -> Seq<char> {
    backup_prefix() + decimal(timestamp)
}

/// The names that a backup leaves out: `.gini`, the repository's own directory, wherever
/// in the working directory an entry has that name. All else is copied, `.git` and build
/// outputs too: of the metadata, a backup leaves out only what holds the backups.
pub open spec fn backup_exclusions() -> Seq<Seq<char>> {
    seq![gini_name()]
}

/// The copy of `worktree` that a backup holds.
pub open spec fn backup_copy(worktree: Seq<EntryModel>) -> (Seq<EntryModel>, Result<(), GiniError>) {
    copy_spec(Seq::empty(), worktree, backup_exclusions())
}

/// The backups after one of `worktree` was taken at `timestamp`. A backup is written
/// once: where one of that name exists, or the copy fails, the backup fails and nothing
/// is kept of it.
pub open spec fn backup_spec(backups: Seq<EntryModel>, worktree: Seq<EntryModel>, timestamp: nat)
    -> Result<Seq<EntryModel>, GiniError> {
    if dir_has(backups, backup_name(timestamp)) || backup_copy(worktree).1 is Err {
        Err(GiniError::BackupFailed)
    } else {
        Ok(dir_put(backups, backup_name(timestamp), NodeModel::Dir(backup_copy(worktree).0)))
    }
}

/// The repository after a checkpoint, and the digest of the new commit. In this order:
/// the working directory is written as a tree; the commit that `HEAD` points at is read,
/// to be the parent; the commit is written; `HEAD` is advanced to it. The first step
/// that fails ends the checkpoint, and `HEAD` is advanced only when all went well.
pub open spec fn checkpoint_spec(
    repo: RepositoryModel,
    message: Seq<char>,
    author_name: Seq<char>,
    author_email: Seq<char>,
    timestamp: nat,
) -> (RepositoryModel, Result<Seq<char>, GiniError>) {
    let (written, tree) = write_tree_spec(repo.objects, repo.worktree, repo.limit);
    match tree {
        Err(e) => (RepositoryModel { objects: written, ..repo }, Err(e)),
        Ok(tree) => match head_commit(repo.head, repo.refs) {
            Err(e) => (RepositoryModel { objects: written, ..repo }, Err(e)),
            Ok(parent) => {
                let (stored, commit) = put_spec(
                    written,
                    commit_bytes(tree, parent, author_name, author_email, timestamp, message),
                    repo.limit,
                );
                match commit {
                    Err(e) => (RepositoryModel { objects: stored, ..repo }, Err(e)),
                    Ok(commit) => {
                        let (refs, advanced) = advance_spec(repo.head, repo.refs, commit);
                        match advanced {
                            Err(e) => (RepositoryModel { objects: stored, ..repo }, Err(e)),
                            Ok(_) => (RepositoryModel { objects: stored, refs, ..repo }, Ok(commit)),
                        }
                    },
                }
            },
        },
    }
}

/// The repository after a restore of the commit `commit`, and whether it went well. In
/// this order: the digest must have the shape of one and the commit must be in the
/// store; its tree is read; a backup of the working directory is taken; the working
/// directory is cleaned; the tree is restored into it; `HEAD` is advanced. Nothing is
/// changed before the backup is taken, and the first step that fails ends the restore.
pub open spec fn restore_spec(repo: RepositoryModel, commit: Seq<char>, timestamp: nat) -> (
    RepositoryModel,
    Result<(), GiniError>,
) {
    if !is_digest(commit) {
        (repo, Err(GiniError::InvalidCommit))
    } else if !repo.objects.contains_key(commit) {
        (repo, Err(GiniError::CommitNotFound))
    } else {
        match resolve_tree_spec(repo.objects, commit) {
            Err(e) => (repo, Err(e)),
            Ok(tree) => match backup_spec(repo.backups, repo.worktree, timestamp) {
                Err(e) => (repo, Err(e)),
                Ok(backups) => {
                    let (worktree, walked) = restore_tree_spec(
                        repo.objects,
                        tree,
                        cleaned(repo.worktree),
                        MAX_TREE_DEPTH as nat,
                    );
                    match walked {
                        Err(e) => (RepositoryModel { worktree, backups, ..repo }, Err(e)),
                        Ok(_) => {
                            let (refs, advanced) = advance_spec(repo.head, repo.refs, commit);
                            (RepositoryModel { worktree, backups, refs, ..repo }, advanced)
                        },
                    }
                },
            },
        }
    }
}

/// The repository after the backup named `name` was brought back, and whether that went
/// well: the working directory is cleaned, and the backup is copied into it. A name
/// under which no directory of backups stands changes nothing.
pub open spec fn restore_from_backup_spec(repo: RepositoryModel, name: Seq<char>) -> (
    RepositoryModel,
    Result<(), GiniError>,
) {
    match dir_get(repo.backups, name) {
        Some(NodeModel::Dir(backup)) => {
            let (worktree, copied) = copy_spec(
                cleaned(repo.worktree),
                backup,
                backup_exclusions(),
            );
            (RepositoryModel { worktree, ..repo }, copied)
        },
        _ => (repo, Err(GiniError::BackupNotFound)),
    }
}

/// Index of the first `true` of `flags` at or after `from`, or the number of flags.
pub open spec fn first_set(flags: Seq<bool>, from: int) -> int
    decreases flags.len() - from,
{
    if from < 0 || from >= flags.len() {
        flags.len() as int
    } else if flags[from] {
        from
    } else {
        first_set(flags, from + 1)
    }
}

/// How many directories above the starting point the nearest repository is, where
/// `has_repository` tells of the starting point, its parent, and so on up, whether it
/// holds one. Directories more than `MAX_DEPTH` above are not looked at.
pub open spec fn repo_root(has_repository: Seq<bool>) -> Result<int, GiniError> {
    let at = first_set(has_repository, 0);
    if at < has_repository.len() && at <= MAX_DEPTH {
        Ok(at)
    } else {
        Err(GiniError::NotARepository)
    }
}

/// Finds the nearest directory, from the starting point upwards, that holds a
/// repository.
pub fn find_repo_root(has_repository: &Vec<bool>) -> (r: Result<usize, GiniError>)
    ensures
        match r {
            Ok(at) => repo_root(has_repository@) == Ok::<int, GiniError>(at as int),
            Err(e) => repo_root(has_repository@) == Err::<int, GiniError>(e),
        },
{
    let mut depth: usize = 0;
    while depth < has_repository.len()
        invariant
            depth <= has_repository.len(),
            depth <= MAX_DEPTH,
            first_set(has_repository@, 0) == first_set(has_repository@, depth as int),
        decreases has_repository.len() - depth,
    {
        if has_repository[depth] {
            return Ok(depth);
        }
        if depth >= MAX_DEPTH {
            proof {
                lemma_first_set(has_repository@, depth + 1);
            }
            return Err(GiniError::NotARepository);
        }
        depth += 1;
    }
    Err(GiniError::NotARepository)
}

/// `first_set` stays within the flags, at or after where it starts.
pub proof fn lemma_first_set(flags: Seq<bool>, from: int)
    requires
        0 <= from <= flags.len(),
    ensures
        from <= first_set(flags, from) <= flags.len(),
    decreases flags.len() - from,
{
    if from < flags.len() && !flags[from] {
        lemma_first_set(flags, from + 1);
    }
}

/// Succeeds if a repository is within reach of the starting point.
pub fn ensure_initialized(has_repository: &Vec<bool>) -> (r: Result<(), GiniError>)
    ensures
        match r {
            Ok(_) => repo_root(has_repository@) is Ok,
            Err(e) => e == GiniError::NotARepository && repo_root(has_repository@) is Err,
        },
{
    match find_repo_root(has_repository) {
        Ok(_) => Ok(()),
        Err(e) => Err(e),
    }
}

/// Makes a new repository for the project whose files are `worktree`: no objects, no
/// backups, and a `HEAD` that names the branch `main`, which does not exist yet. Fails
/// where a repository is there already.
pub fn init(already_initialized: bool, worktree: Directory) -> (r: Result<Repository, GiniError>)
    ensures
        already_initialized ==> r == Err::<Repository, GiniError>(GiniError::AlreadyInitialized),
        !already_initialized ==> r is Ok && r->Ok_0@ == (RepositoryModel {
            objects: Map::empty(),
            limit: MAX_FILE_SIZE as nat,
            head: Some(initial_head()),
            refs: Map::empty(),
            worktree: worktree.model(),
            backups: Seq::empty(),
        }),
        !already_initialized && worktree.wf() ==> r->Ok_0.wf(),
{
    if already_initialized {
        return Err(GiniError::AlreadyInitialized);
    }
    Ok(
        Repository {
            objects: ObjectStore::new(MAX_FILE_SIZE),
            refs: Refs::new(),
            worktree,
            backups: Directory::new(),
        },
    )
}

/// Records the working directory as a new commit on top of the current one, and returns
/// the commit's digest.
pub fn checkpoint(
    repo: &mut Repository,
    message: &str,
    author_name: &str,
    author_email: &str,
    timestamp: u64,
) -> (r: Result<String, GiniError>)
    requires
        old(repo).wf(),
    ensures
        final(repo).wf(),
        old(repo).objects.digests().is_prefix_of(final(repo).objects.digests()),
        final(repo)@ == checkpoint_spec(
            old(repo)@,
            message@,
            author_name@,
            author_email@,
            timestamp as nat,
        ).0,
        match r {
            Ok(commit) => checkpoint_spec(
                old(repo)@,
                message@,
                author_name@,
                author_email@,
                timestamp as nat,
            ).1 == Ok::<Seq<char>, GiniError>(commit@),
            Err(e) => checkpoint_spec(
                old(repo)@,
                message@,
                author_name@,
                author_email@,
                timestamp as nat,
            ).1 == Err::<Seq<char>, GiniError>(e),
        },
{
    let tree = match write_tree(&repo.worktree, &mut repo.objects) {
        Ok(tree) => tree,
        Err(e) => {
            return Err(e);
        },
    };
    let ghost listed = repo.objects.digests();
    let parent = match get_head_commit(&repo.refs) {
        Ok(parent) => parent,
        Err(e) => {
            return Err(e);
        },
    };
    let commit = match create_commit(
        &mut repo.objects,
        tree.as_str(),
        &parent,
        author_name,
        author_email,
        timestamp,
        message,
    ) {
        Ok(commit) => commit,
        Err(e) => {
            return Err(e);
        },
    };
    proof {
        crate::store::lemma_prefix_transitive(
            old(repo).objects.digests(),
            listed,
            repo.objects.digests(),
        );
    }
    match update_head(&mut repo.refs, commit.as_str()) {
        Ok(_) => Ok(commit),
        Err(e) => Err(e),
    }
}

/// The name of the backup taken at `timestamp`.
pub fn backup_name_of(timestamp: u64) -> (name: String)
    ensures
        name@ == backup_name(timestamp as nat),
{
    let mut chars: Vec<char> = vec!['b', 'a', 'c', 'k', 'u', 'p', '_'];
    push_decimal(&mut chars, timestamp);
    to_string(&chars)
}

fn exclusions() -> (names: Vec<String>)
    ensures
        names_view(names@) == backup_exclusions(),
{
    vec![to_string(&gini_chars())]
}

/// Takes a backup of the working directory, named by `timestamp`.
pub fn create_backup(repo: &mut Repository, timestamp: u64) -> (r: Result<(), GiniError>)
    requires
        old(repo).wf(),
    ensures
        final(repo).wf(),
        match r {
            Ok(_) => backup_spec(old(repo)@.backups, old(repo)@.worktree, timestamp as nat) == Ok::<
                Seq<EntryModel>,
                GiniError,
            >(final(repo)@.backups) && final(repo)@ == (RepositoryModel {
                backups: final(repo)@.backups,
                ..old(repo)@
            }),
            Err(e) => backup_spec(old(repo)@.backups, old(repo)@.worktree, timestamp as nat)
                == Err::<Seq<EntryModel>, GiniError>(e) && final(repo)@ == old(repo)@,
        },
{
    let name = backup_name_of(timestamp);
    if repo.backups.contains(name.as_str()) {
        return Err(GiniError::BackupFailed);
    }
    let mut copy = Directory::new();
    match copy_directory_excluding(&repo.worktree, &mut copy, &exclusions()) {
        Ok(_) => {},
        Err(_) => {
            return Err(GiniError::BackupFailed);
        },
    }
    repo.backups.insert(name, Node::Dir(copy));
    Ok(())
}

/// Brings the working directory to the state of the commit `commit_hash`, after taking
/// a backup of it named by `timestamp`, and advances `HEAD` to that commit.
pub fn restore(repo: &mut Repository, commit_hash: &str, timestamp: u64) -> (r: Result<
    (),
    GiniError,
>)
    requires
        old(repo).wf(),
    ensures
        final(repo).wf(),
        final(repo)@ == restore_spec(old(repo)@, commit_hash@, timestamp as nat).0,
        same_outcome(r, restore_spec(old(repo)@, commit_hash@, timestamp as nat).1),
{
    if !is_valid_hash(commit_hash) {
        return Err(GiniError::InvalidCommit);
    }
    if !repo.objects.contains(commit_hash) {
        return Err(GiniError::CommitNotFound);
    }
    let tree = match resolve_tree(&repo.objects, commit_hash) {
        Ok(tree) => tree,
        Err(e) => {
            return Err(e);
        },
    };
    match create_backup(repo, timestamp) {
        Ok(_) => {},
        Err(e) => {
            return Err(e);
        },
    }
    clean_working_directory(&mut repo.worktree);
    match restore_tree(&mut repo.worktree, &repo.objects, tree.as_str(), MAX_TREE_DEPTH) {
        Ok(_) => {},
        Err(e) => {
            return Err(e);
        },
    }
    update_head(&mut repo.refs, commit_hash)
}

/// Brings back the backup named `backup_name` as the working directory.
pub fn restore_from_backup(repo: &mut Repository, backup_name: &str) -> (r: Result<(), GiniError>)
    requires
        old(repo).wf(),
    ensures
        final(repo).wf(),
        final(repo)@ == restore_from_backup_spec(old(repo)@, backup_name@).0,
        same_outcome(r, restore_from_backup_spec(old(repo)@, backup_name@).1),
{
    let backup = match repo.backups.get(backup_name) {
        Some(Node::Dir(backup)) => backup,
        _ => {
            return Err(GiniError::BackupNotFound);
        },
    };
    clean_working_directory(&mut repo.worktree);
    copy_directory_excluding(backup, &mut repo.worktree, &exclusions())
}

/// The history of the repository, newest commit first, written as a log.
pub fn log(repo: &Repository) -> (r: Result<String, GiniError>)
    requires
        repo.wf(),
    ensures
        match r {
            Ok(text) => match repo_history(repo@) {
                Ok(entries) => text@ == log_text(entries, entries.len()),
                Err(_) => false,
            },
            Err(e) => repo_history(repo@) == Err::<Seq<HistoryEntryModel>, GiniError>(e),
        },
{
    let head = match get_head_commit(&repo.refs) {
        Ok(head) => head,
        Err(e) => {
            return Err(e);
        },
    };
    match walk_history(&repo.objects, head) {
        Ok(entries) => Ok(format_log(&entries)),
        Err(e) => Err(e),
    }
}

/// The history of the repository from the commit that `HEAD` points at, newest first.
/// The walk takes no more steps than there are objects, which is enough for every
/// history in which no commit occurs twice.
pub open spec fn repo_history(repo: RepositoryModel) -> Result<Seq<HistoryEntryModel>, GiniError> {
    match head_commit(repo.head, repo.refs) {
        Ok(head) => history_from(repo.objects, head, repo.objects.dom().len()),
        Err(e) => Err(e),
    }
}

/// The history of the repository, newest commit first: of each commit the digest and
/// the first line of the message.
pub fn get_commit_history(repo: &Repository) -> (r: Result<Vec<(String, String)>, GiniError>)
    requires
        repo.wf(),
    ensures
        match r {
            Ok(pairs) => match repo_history(repo@) {
                Ok(entries) => pairs_view(pairs@) == summaries(entries),
                Err(_) => false,
            },
            Err(e) => repo_history(repo@) == Err::<Seq<HistoryEntryModel>, GiniError>(e),
        },
{
    let head = match get_head_commit(&repo.refs) {
        Ok(head) => head,
        Err(e) => {
            return Err(e);
        },
    };
    match walk_history(&repo.objects, head) {
        Ok(entries) => Ok(summarize(&entries)),
        Err(e) => Err(e),
    }
}

} // verus!
