//! Proofs about checkpoint and restore: what a backup holds, what a restore leaves,
//! and that what was checkpointed can be restored.

use vstd::prelude::*;

use crate::codec::{author_text, commit_bytes};
use crate::codec_proofs::{is_one_line, lemma_commit_names_its_tree, lemma_commit_round_trip};
use crate::digest::{is_digest, lemma_object_digest_is_digest, object_digest};
use crate::engine::{
    backup_copy, backup_exclusions, backup_name, backup_spec, checkpoint_spec, repo_history,
    restore_from_backup_spec, restore_spec, RepositoryModel,
};
use crate::error::GiniError;
use crate::history::{resolve_tree_spec, HistoryEntryModel};
use crate::refs::{
    head_commit, heads_prefix, initial_head, lemma_advanced_head_is_read,
    lemma_initial_head_names_main,
};
use crate::snapshot::{
    cleaned, copy_entries, git_name, gini_name, tree_digest, write_tree_spec, MAX_TREE_DEPTH,
};
use crate::snapshot_proofs::{
    lemma_holds_extends, lemma_put_held, lemma_recorded_again, lemma_restore_held_tree,
    lemma_tree_held, lemma_written_is_finite, no_collision, portable, tree_objects,
};
use crate::store::{get_spec, put_spec};
use crate::worktree::{
    dir_get, dir_has, dir_wf, lemma_dir_get_after_put, lemma_dir_put_last, EntryModel, NodeModel,
};

verus! {

/// Whether no entry of `entries`, at any level, has one of `names` as its name.
pub open spec fn free_of(entries: Seq<EntryModel>, names: Seq<Seq<char>>) -> bool
    decreases entries,
{
    forall|i: int| 0 <= i < entries.len() ==> entry_free_of(#[trigger] entries[i], names)
}

/// Whether `entry` has none of `names` as its name, nor any entry below it.
pub open spec fn entry_free_of(entry: EntryModel, names: Seq<Seq<char>>) -> bool
    decreases entry,
{
    &&& !names.contains(entry.name)
    &&& match entry.node {
        NodeModel::File(_) => true,
        NodeModel::Dir(sub) => free_of(sub, names),
    }
}

/// Copying a well-formed directory that holds none of the excluded names into an empty
/// directory gives the same directory, and does not fail.
pub proof fn lemma_copy_into_empty(entries: Seq<EntryModel>, upto: nat, exclude: Seq<Seq<char>>)
    requires
        dir_wf(entries),
        free_of(entries, exclude),
        upto <= entries.len(),
    ensures
        copy_entries(Seq::empty(), entries, upto, exclude) == (
            entries.take(upto as int),
            Ok::<(), GiniError>(()),
        ),
    decreases entries, upto,
{
    if upto > 0 {
        lemma_copy_into_empty(entries, (upto - 1) as nat, exclude);
        let before = entries.take(upto - 1);
        let entry = entries[upto - 1];
        lemma_dir_put_last(before, entry.name, entry.node);
        match entry.node {
            NodeModel::File(_) => {},
            NodeModel::Dir(sub) => {
                lemma_copy_into_empty(sub, sub.len(), exclude);
                assert(sub.take(sub.len() as int) =~= sub);
            },
        }
    }
}

/// The copy that a backup holds of a well-formed working directory without an entry
/// named `.gini` is that directory, name for name and byte for byte.
pub proof fn lemma_backup_is_identical(worktree: Seq<EntryModel>)
    requires
        dir_wf(worktree),
        free_of(worktree, backup_exclusions()),
    ensures
        backup_copy(worktree) == (worktree, Ok::<(), GiniError>(())),
{
    lemma_copy_into_empty(worktree, worktree.len(), backup_exclusions());
}

/// A restore that gets as far as its backup leaves that backup, under the name that the
/// time of the restore gives it, identical to the working directory as it was before the
/// restore, whether the restore then fails or not. So whatever a failed restore made
/// of the working directory can be undone from the backup.
pub proof fn lemma_restore_keeps_backup(repo: RepositoryModel, commit: Seq<char>, timestamp: nat)
    requires
        dir_wf(repo.worktree),
        free_of(repo.worktree, backup_exclusions()),
        crate::digest::is_digest(commit),
        repo.objects.contains_key(commit),
        resolve_tree_spec(repo.objects, commit) is Ok,
        !dir_has(repo.backups, backup_name(timestamp)),
    ensures
        backup_spec(repo.backups, repo.worktree, timestamp) is Ok,
        dir_get(restore_spec(repo, commit, timestamp).0.backups, backup_name(timestamp)) == Some(
            NodeModel::Dir(repo.worktree),
        ),
{
    lemma_backup_is_identical(repo.worktree);
    lemma_dir_get_after_put(repo.backups, backup_name(timestamp), NodeModel::Dir(repo.worktree));
}

/// A backup can be brought back: where nothing named `.git` or `.gini` stands in the
/// working directory, bringing back a backup that is a well-formed directory without an
/// entry named `.gini` succeeds, and makes the working directory identical to the backup.
/// With the law before, this undoes a restore.
pub proof fn lemma_backup_can_be_brought_back(
    repo: RepositoryModel,
    name: Seq<char>,
    backup: Seq<EntryModel>,
)
    requires
        dir_get(repo.backups, name) == Some(NodeModel::Dir(backup)),
        dir_wf(backup),
        free_of(backup, backup_exclusions()),
        !dir_has(repo.worktree, git_name()),
        !dir_has(repo.worktree, gini_name()),
    ensures
        restore_from_backup_spec(repo, name) == (
            RepositoryModel { worktree: backup, ..repo },
            Ok::<(), GiniError>(()),
        ),
{
    lemma_copy_into_empty(backup, backup.len(), backup_exclusions());
    assert(backup.take(backup.len() as int) =~= backup);
}

/// A restore changes nothing unless its backup was taken: where it fails before, or
/// the backup fails, the repository is as it was.
pub proof fn lemma_restore_without_backup_changes_nothing(
    repo: RepositoryModel,
    commit: Seq<char>,
    timestamp: nat,
)
    requires
        resolve_tree_spec(repo.objects, commit) is Err || backup_spec(
            repo.backups,
            repo.worktree,
            timestamp,
        ) is Err,
    ensures
        restore_spec(repo, commit, timestamp).0 == repo,
        restore_spec(repo, commit, timestamp).1 is Err,
{
}

/// Restoring a commit whose tree is empty leaves nothing in the working directory but
/// what cleaning leaves there, the entries named `.git` and `.gini`: a working directory
/// without those is empty afterwards.
pub proof fn lemma_restore_of_empty_tree(repo: RepositoryModel, commit: Seq<char>, timestamp: nat)
    requires
        resolve_tree_spec(repo.objects, commit) is Ok,
        get_spec(repo.objects, resolve_tree_spec(repo.objects, commit)->Ok_0) == Ok::<
            Seq<u8>,
            GiniError,
        >(Seq::empty()),
        restore_spec(repo, commit, timestamp).1 is Ok,
    ensures
        restore_spec(repo, commit, timestamp).0.worktree == cleaned(repo.worktree),
        !dir_has(repo.worktree, git_name()) && !dir_has(repo.worktree, gini_name())
            ==> restore_spec(repo, commit, timestamp).0.worktree == Seq::<EntryModel>::empty(),
{
}

/// The bytes of the commit that a checkpoint of `repo` writes, where it gets that far.
pub open spec fn checkpoint_commit(
    repo: RepositoryModel,
    message: Seq<char>,
    author_name: Seq<char>,
    author_email: Seq<char>,
    timestamp: nat,
) -> Seq<u8> {
    commit_bytes(
        tree_digest(repo.worktree),
        head_commit(repo.head, repo.refs)->Ok_0,
        author_name,
        author_email,
        timestamp,
        message,
    )
}

/// What is checkpointed can be restored. After a checkpoint of a working directory,
/// whatever the working directory was changed into since, a restore of the checkpoint's
/// commit succeeds and gives back the working directory as it was checkpointed, name for
/// name and byte for byte. This holds where the names in the directory are portable and
/// it is nested less deep than a restore goes, where no digests collide among the objects
/// that the checkpoint writes and those that were there, where nothing named `.git` or
/// `.gini` stands in the changed directory, and where the backup of it can be taken.
pub proof fn lemma_checkpoint_can_be_restored(
    repo: RepositoryModel,
    message: Seq<char>,
    author_name: Seq<char>,
    author_email: Seq<char>,
    timestamp: nat,
    changed: Seq<EntryModel>,
    later: nat,
)
    requires
        dir_wf(repo.worktree),
        portable(repo.worktree, MAX_TREE_DEPTH as nat),
        checkpoint_spec(repo, message, author_name, author_email, timestamp).1 is Ok,
        no_collision(
            repo.objects,
            tree_objects(repo.worktree).insert(
                checkpoint_commit(repo, message, author_name, author_email, timestamp),
            ),
        ),
        !dir_has(changed, git_name()),
        !dir_has(changed, gini_name()),
        backup_spec(repo.backups, changed, later) is Ok,
    ensures
        restore_spec(
            RepositoryModel {
                worktree: changed,
                ..checkpoint_spec(repo, message, author_name, author_email, timestamp).0
            },
            checkpoint_spec(repo, message, author_name, author_email, timestamp).1->Ok_0,
            later,
        ).1 is Ok,
        restore_spec(
            RepositoryModel {
                worktree: changed,
                ..checkpoint_spec(repo, message, author_name, author_email, timestamp).0
            },
            checkpoint_spec(repo, message, author_name, author_email, timestamp).1->Ok_0,
            later,
        ).0.worktree == repo.worktree,
{
    let bytes = checkpoint_commit(repo, message, author_name, author_email, timestamp);
    let written = tree_objects(repo.worktree).insert(bytes);
    let (trees, tree) = write_tree_spec(repo.objects, repo.worktree, repo.limit);
    let parent = head_commit(repo.head, repo.refs)->Ok_0;
    let after = checkpoint_spec(repo, message, author_name, author_email, timestamp).0;
    crate::snapshot::lemma_write_tree_digest(repo.objects, repo.worktree, repo.limit);
    lemma_tree_held(repo.objects, written, repo.objects, repo.worktree, repo.limit);
    lemma_put_held(repo.objects, written, trees, bytes, repo.limit);
    lemma_holds_extends(trees, after.objects, repo.worktree);
    lemma_commit_names_its_tree(
        tree_digest(repo.worktree),
        parent,
        author_name,
        author_email,
        timestamp,
        message,
    );
    lemma_restore_held_tree(after.objects, repo.worktree, MAX_TREE_DEPTH as nat);
}

/// A repository as `init` makes it for the working directory `worktree`.
pub open spec fn new_repository(worktree: Seq<EntryModel>, limit: nat) -> RepositoryModel {
    RepositoryModel {
        objects: Map::empty(),
        limit,
        head: Some(initial_head()),
        refs: Map::empty(),
        worktree,
        backups: Seq::empty(),
    }
}

/// The first checkpoint of a new repository, where it succeeds, returns a digest, leaves
/// `HEAD` naming the branch `main`, and makes the ref of that branch, holding the new
/// commit, the only ref there is. Where, besides, no digests collide among the objects
/// written and the author's name and address hold no line feed, the history is then
/// that one commit, with the author and the message that were given.
pub proof fn lemma_first_checkpoint_is_logged(
    worktree: Seq<EntryModel>,
    limit: nat,
    message: Seq<char>,
    author_name: Seq<char>,
    author_email: Seq<char>,
    timestamp: nat,
)
    requires
        checkpoint_spec(
            new_repository(worktree, limit),
            message,
            author_name,
            author_email,
            timestamp,
        ).1 is Ok,
    ensures
        ({
            let repo = new_repository(worktree, limit);
            let after = checkpoint_spec(repo, message, author_name, author_email, timestamp).0;
            let commit = checkpoint_spec(
                repo,
                message,
                author_name,
                author_email,
                timestamp,
            ).1->Ok_0;
            &&& is_digest(commit)
            &&& after.head == Some(initial_head())
            &&& after.refs == Map::<Seq<char>, Seq<char>>::empty().insert(
                heads_prefix() + seq!['m', 'a', 'i', 'n'],
                commit,
            )
            &&& head_commit(after.head, after.refs) == Ok::<Option<Seq<char>>, GiniError>(
                Some(commit),
            )
            &&& no_collision(
                repo.objects,
                tree_objects(worktree).insert(
                    checkpoint_commit(repo, message, author_name, author_email, timestamp),
                ),
            ) && is_one_line(author_name) && is_one_line(author_email) ==> repo_history(after)
                == Ok::<Seq<HistoryEntryModel>, GiniError>(
                seq![
                    HistoryEntryModel {
                        digest: commit,
                        author: author_text(author_name, author_email, timestamp),
                        message,
                    },
                ],
            )
        }),
{
    let repo = new_repository(worktree, limit);
    let after = checkpoint_spec(repo, message, author_name, author_email, timestamp).0;
    let commit = checkpoint_spec(repo, message, author_name, author_email, timestamp).1->Ok_0;
    let bytes = checkpoint_commit(repo, message, author_name, author_email, timestamp);
    let written = tree_objects(worktree).insert(bytes);
    let trees = write_tree_spec(repo.objects, worktree, limit).0;
    let tree = tree_digest(worktree);
    lemma_initial_head_names_main();
    assert(head_commit(repo.head, repo.refs) == Ok::<Option<Seq<char>>, GiniError>(None));
    crate::snapshot::lemma_write_tree_digest(repo.objects, worktree, limit);
    lemma_object_digest_is_digest(bytes);
    lemma_advanced_head_is_read(repo.head, repo.refs, commit);
    if no_collision(repo.objects, written) && is_one_line(author_name) && is_one_line(
        author_email,
    ) {
        lemma_tree_held(repo.objects, written, repo.objects, worktree, limit);
        assert(written.contains(bytes));
        lemma_put_held(repo.objects, written, trees, bytes, limit);
        lemma_written_is_finite(repo.objects, worktree, limit);
        assert(after.objects.dom().finite());
        assert(after.objects.dom().contains(commit));
        assert(after.objects.dom().len() >= 1) by {
            assert(after.objects.dom().remove(commit).len() + 1 == after.objects.dom().len());
        }
        lemma_object_digest_is_digest(crate::codec::tree_bytes(
            crate::snapshot::listed(worktree, worktree.len()),
        ));
        lemma_commit_names_its_tree(tree, None, author_name, author_email, timestamp, message);
        lemma_commit_round_trip(tree, None, author_name, author_email, timestamp, message);
        let entry = HistoryEntryModel {
            digest: commit,
            author: author_text(author_name, author_email, timestamp),
            message,
        };
        assert(seq![entry] + Seq::<HistoryEntryModel>::empty() =~= seq![entry]);
        reveal_with_fuel(crate::history::history_from, 2);
    }
}

/// A second checkpoint of a working directory that was not changed stores the blobs and
/// trees no second time: the store is then what it was and the new commit. The new
/// commit is written with the first as its parent and with the same tree, and the tree
/// of the first can still be read from it. This holds where both checkpoints succeed and
/// no digests collide among the objects that the first writes and those that were there.
pub proof fn lemma_second_checkpoint(
    repo: RepositoryModel,
    first_message: Seq<char>,
    first_name: Seq<char>,
    first_email: Seq<char>,
    first_time: nat,
    message: Seq<char>,
    author_name: Seq<char>,
    author_email: Seq<char>,
    timestamp: nat,
)
    requires
        checkpoint_spec(repo, first_message, first_name, first_email, first_time).1 is Ok,
        no_collision(
            repo.objects,
            tree_objects(repo.worktree).insert(
                checkpoint_commit(repo, first_message, first_name, first_email, first_time),
            ),
        ),
        checkpoint_spec(
            checkpoint_spec(repo, first_message, first_name, first_email, first_time).0,
            message,
            author_name,
            author_email,
            timestamp,
        ).1 is Ok,
    ensures
        ({
            let once = checkpoint_spec(repo, first_message, first_name, first_email, first_time);
            let twice = checkpoint_spec(once.0, message, author_name, author_email, timestamp);
            let bytes = commit_bytes(
                tree_digest(repo.worktree),
                Some(once.1->Ok_0),
                author_name,
                author_email,
                timestamp,
                message,
            );
            &&& twice.1 == Ok::<Seq<char>, GiniError>(object_digest(bytes))
            &&& twice.0.objects == put_spec(once.0.objects, bytes, repo.limit).0
            &&& resolve_tree_spec(twice.0.objects, once.1->Ok_0) == Ok::<Seq<char>, GiniError>(
                tree_digest(repo.worktree),
            )
            &&& twice.0.objects[object_digest(bytes)] == bytes ==> resolve_tree_spec(
                twice.0.objects,
                twice.1->Ok_0,
            ) == Ok::<Seq<char>, GiniError>(tree_digest(repo.worktree))
        }),
{
    let once = checkpoint_spec(repo, first_message, first_name, first_email, first_time);
    let twice = checkpoint_spec(once.0, message, author_name, author_email, timestamp);
    let first = once.1->Ok_0;
    let first_bytes = checkpoint_commit(repo, first_message, first_name, first_email, first_time);
    let written = tree_objects(repo.worktree).insert(first_bytes);
    let trees = write_tree_spec(repo.objects, repo.worktree, repo.limit).0;
    let tree = tree_digest(repo.worktree);
    let bytes = commit_bytes(tree, Some(first), author_name, author_email, timestamp, message);
    crate::snapshot::lemma_write_tree_digest(repo.objects, repo.worktree, repo.limit);
    lemma_tree_held(repo.objects, written, repo.objects, repo.worktree, repo.limit);
    assert(written.contains(first_bytes));
    lemma_put_held(repo.objects, written, trees, first_bytes, repo.limit);
    lemma_holds_extends(trees, once.0.objects, repo.worktree);
    lemma_recorded_again(once.0.objects, repo.worktree, repo.limit);
    crate::snapshot::lemma_write_tree_digest(once.0.objects, repo.worktree, repo.limit);
    lemma_advanced_head_is_read(repo.head, repo.refs, first);
    lemma_object_digest_is_digest(first_bytes);
    lemma_object_digest_is_digest(bytes);
    lemma_object_digest_is_digest(crate::codec::tree_bytes(
        crate::snapshot::listed(repo.worktree, repo.worktree.len()),
    ));
    lemma_commit_names_its_tree(
        tree,
        head_commit(repo.head, repo.refs)->Ok_0,
        first_name,
        first_email,
        first_time,
        first_message,
    );
    lemma_commit_names_its_tree(tree, Some(first), author_name, author_email, timestamp, message);
}

} // verus!
