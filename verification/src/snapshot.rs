//! Recording a directory in the object store, restoring a recorded tree into a
//! directory, and copying and cleaning directories.

use vstd::prelude::*;

use crate::codec::{
    decode_tree, decode_tree_spec, encode_tree, entries_view, tree_bytes, EntryKind, TreeEntry,
    TreeEntryModel,
};
use crate::digest::object_digest;
use crate::error::{same_outcome, GiniError};
use crate::store::{get_spec, lemma_prefix_transitive, put_spec, ObjectStore, Objects};
use crate::text::{same_chars, to_chars, to_string};
use crate::worktree::{
    dir_get, dir_put, dir_wf, lemma_dir_get, lemma_dir_get_after_put,
    lemma_dir_get_after_put_other, lemma_dir_get_after_remove, lemma_dir_put_after_remove,
    lemma_dir_put_wf, Directory, EntryModel, Node, NodeModel,
};

verus! {

/// How many directories deep a tree may be that is restored: more than any directory
/// tree that was read from a disk, and few enough for the walk to end on any store.
pub const MAX_TREE_DEPTH: usize = 256;

/// The name of the directory that holds the repository.
pub open spec fn gini_name() -> Seq<char> {
    seq!['.', 'g', 'i', 'n', 'i']
}

/// The name of the directory of another version-control system.
pub open spec fn git_name() -> Seq<char> {
    seq!['.', 'g', 'i', 't']
}

/// The name of the directory of build outputs.
pub open spec fn target_name() -> Seq<char> {
    seq!['t', 'a', 'r', 'g', 'e', 't']
}

/// Whether a snapshot leaves out what is named `name`, at whatever depth.
pub open spec fn is_excluded(name: Seq<char>) -> bool {
    name == gini_name() || name == git_name() || name == target_name()
}

/// The repository's directory name.
pub fn gini_chars() -> (v: Vec<char>)
    ensures
        v@ == gini_name(),
{
    vec!['.', 'g', 'i', 'n', 'i']
}

/// The other version-control system's directory name.
pub fn git_chars() -> (v: Vec<char>)
    ensures
        v@ == git_name(),
{
    vec!['.', 'g', 'i', 't']
}

fn target_chars() -> (v: Vec<char>)
    ensures
        v@ == target_name(),
{
    vec!['t', 'a', 'r', 'g', 'e', 't']
}

/// Tells whether a snapshot leaves out what is named `name`.
pub fn excluded(name: &str) -> (r: bool)
    ensures
        r == is_excluded(name@),
{
    let chars = to_chars(name);
    same_chars(&chars, &gini_chars()) || same_chars(&chars, &git_chars()) || same_chars(
        &chars,
        &target_chars(),
    )
}

/// Accepts a file of `size` bytes for a snapshot unless it is larger than `limit`. What
/// the file system tells of a file's size is enough to ask: a file that is too large need
/// not be read.
pub fn check_file_size(size: u64, limit: u64) -> (r: Result<(), GiniError>)
    ensures
        size > limit ==> r == Err::<(), GiniError>(GiniError::FileTooLarge),
        size <= limit ==> r is Ok,
{
    if size > limit {
        Err(GiniError::FileTooLarge)
    } else {
        Ok(())
    }
}

/// Whether cleaning the working directory leaves what is named `name`.
pub open spec fn is_kept(name: Seq<char>) -> bool {
    name == git_name() || name == gini_name()
}

/// Tells whether cleaning the working directory leaves what is named `name`.
pub fn kept_when_cleaned(name: &str) -> (r: bool)
    ensures
        r == is_kept(name@),
{
    let chars = to_chars(name);
    same_chars(&chars, &git_chars()) || same_chars(&chars, &gini_chars())
}

/// The store after the first `upto` of `entries` were written to `objects`, and the tree
/// entries that list them. Entries are taken in order. An excluded name is passed over.
/// A file becomes a blob, unless it is larger than `limit`, which ends the writing; a
/// directory becomes a tree, written first, and a failure in it ends the writing too.
pub open spec fn write_entries(
    objects: Objects,
    entries: Seq<EntryModel>,
    upto: nat,
    limit: nat,
) -> (Objects, Result<Seq<TreeEntryModel>, GiniError>)
    decreases entries, upto,
{
    if upto == 0 || upto > entries.len() {
        (objects, Ok(Seq::empty()))
    } else {
        let (before, listed) = write_entries(objects, entries, (upto - 1) as nat, limit);
        let entry = entries[upto - 1];
        match listed {
            Err(e) => (before, Err(e)),
            Ok(rows) => if is_excluded(entry.name) {
                (before, Ok(rows))
            } else {
                match entry.node {
                    NodeModel::File(content) => if content.len() > limit {
                        (before, Err(GiniError::FileTooLarge))
                    } else {
                        (
                            put_spec(before, content, limit).0,
                            Ok(
                                rows.push(
                                    TreeEntryModel {
                                        kind: EntryKind::Blob,
                                        digest: object_digest(content),
                                        name: entry.name,
                                    },
                                ),
                            ),
                        )
                    },
                    NodeModel::Dir(sub) => {
                        let (after, made) = write_tree_spec(before, sub, limit);
                        match made {
                            Err(e) => (after, Err(e)),
                            Ok(digest) => (
                                after,
                                Ok(
                                    rows.push(
                                        TreeEntryModel {
                                            kind: EntryKind::Tree,
                                            digest,
                                            name: entry.name,
                                        },
                                    ),
                                ),
                            ),
                        }
                    },
                }
            },
        }
    }
}

/// The store after the directory `entries` was written to `objects` as a tree, and the
/// digest of that tree: the entries are written, then the tree object that lists them.
pub open spec fn write_tree_spec(objects: Objects, entries: Seq<EntryModel>, limit: nat) -> (
    Objects,
    Result<Seq<char>, GiniError>,
)
    decreases entries, entries.len() + 1,
{
    let (after, listed) = write_entries(objects, entries, entries.len(), limit);
    match listed {
        Err(e) => (after, Err(e)),
        Ok(rows) => put_spec(after, tree_bytes(rows), limit),
    }
}

/// Once the writing of entries has failed, it has ended: later entries change nothing.
pub proof fn lemma_write_entries_failed(
    objects: Objects,
    entries: Seq<EntryModel>,
    failed: nat,
    upto: nat,
    limit: nat,
)
    requires
        failed <= upto <= entries.len(),
        write_entries(objects, entries, failed, limit).1 is Err,
    ensures
        write_entries(objects, entries, upto, limit) == write_entries(
            objects,
            entries,
            failed,
            limit,
        ),
    decreases upto,
{
    if failed < upto {
        lemma_write_entries_failed(objects, entries, failed, (upto - 1) as nat, limit);
    }
}

/// The tree entries that list the first `upto` of `entries`: one for each name that is
/// not excluded, with the digest of the file's content or of the directory's tree.
pub open spec fn listed(entries: Seq<EntryModel>, upto: nat) -> Seq<TreeEntryModel>
    decreases entries, upto,
{
    if upto == 0 || upto > entries.len() {
        Seq::empty()
    } else {
        let before = listed(entries, (upto - 1) as nat);
        let entry = entries[upto - 1];
        if is_excluded(entry.name) {
            before
        } else {
            before.push(
                TreeEntryModel {
                    kind: match entry.node {
                        NodeModel::File(_) => EntryKind::Blob,
                        NodeModel::Dir(_) => EntryKind::Tree,
                    },
                    digest: node_digest(entry.node),
                    name: entry.name,
                },
            )
        }
    }
}

/// The digest that stands for `node` in a tree.
pub open spec fn node_digest(node: NodeModel) -> Seq<char>
    decreases node, 0nat,
{
    match node {
        NodeModel::File(content) => object_digest(content),
        NodeModel::Dir(entries) => tree_digest(entries),
    }
}

/// The digest of the tree of the directory `entries`. It depends on nothing but the
/// names and contents in the directory.
pub open spec fn tree_digest(entries: Seq<EntryModel>) -> Seq<char>
    decreases entries, entries.len() + 1,
{
    object_digest(tree_bytes(listed(entries, entries.len())))
}

/// The tree entries that writing a directory's entries gives are those that list them,
/// whatever the store held.
pub proof fn lemma_write_entries_lists(
    objects: Objects,
    entries: Seq<EntryModel>,
    upto: nat,
    limit: nat,
)
    requires
        upto <= entries.len(),
        write_entries(objects, entries, upto, limit).1 is Ok,
    ensures
        write_entries(objects, entries, upto, limit).1 == Ok::<Seq<TreeEntryModel>, GiniError>(
            listed(entries, upto),
        ),
    decreases entries, upto,
{
    if upto > 0 {
        let (before, rows) = write_entries(objects, entries, (upto - 1) as nat, limit);
        lemma_write_entries_lists(objects, entries, (upto - 1) as nat, limit);
        let entry = entries[upto - 1];
        if !is_excluded(entry.name) {
            match entry.node {
                NodeModel::File(content) => {
                    assert(node_digest(entry.node) == object_digest(content));
                },
                NodeModel::Dir(sub) => {
                    lemma_write_tree_digest(before, sub, limit);
                    assert(node_digest(entry.node) == tree_digest(sub));
                },
            }
        }
    }
}

/// The digest that writing a directory gives is the digest of its tree, whatever the
/// store held.
pub proof fn lemma_write_tree_digest(objects: Objects, entries: Seq<EntryModel>, limit: nat)
    requires
        write_tree_spec(objects, entries, limit).1 is Ok,
    ensures
        write_tree_spec(objects, entries, limit).1 == Ok::<Seq<char>, GiniError>(
            tree_digest(entries),
        ),
    decreases entries, entries.len() + 1,
{
    lemma_write_entries_lists(objects, entries, entries.len(), limit);
}

/// Records the working directory `dir` in `store`: every file as a blob, every directory
/// as a tree, leaving out what is excluded. Returns the digest of the tree of `dir`.
pub fn write_tree(dir: &Directory, store: &mut ObjectStore) -> (r: Result<String, GiniError>)
    requires
        old(store).wf(),
    ensures
        final(store).wf(),
        final(store).limit() == old(store).limit(),
        final(store)@ == write_tree_spec(old(store)@, dir.model(), old(store).limit()).0,
        match r {
            Ok(digest) => write_tree_spec(old(store)@, dir.model(), old(store).limit()).1 == Ok::<
                Seq<char>,
                GiniError,
            >(digest@),
            Err(e) => write_tree_spec(old(store)@, dir.model(), old(store).limit()).1 == Err::<
                Seq<char>,
                GiniError,
            >(e),
        },
        r is Ok ==> r->Ok_0@ == tree_digest(dir.model()),
        old(store).digests().is_prefix_of(final(store).digests()),
    decreases dir.model(),
{
    proof {
        if write_tree_spec(store@, dir.model(), store.limit()).1 is Ok {
            lemma_write_tree_digest(store@, dir.model(), store.limit());
        }
    }
    let ghost start = store@;
    let ghost limit = store.limit();
    let ghost all = dir.model();
    let mut rows: Vec<TreeEntry> = Vec::new();
    let mut i: usize = 0;
    assert(entries_view(rows@) =~= Seq::<TreeEntryModel>::empty());
    while i < dir.len()
        invariant
            i <= dir.model().len(),
            all == dir.model(),
            start == old(store)@,
            limit == old(store).limit(),
            store.wf(),
            store.limit() == limit,
            old(store).digests().is_prefix_of(store.digests()),
            write_entries(start, all, i as nat, limit) == (
                store@,
                Ok::<Seq<TreeEntryModel>, GiniError>(entries_view(rows@)),
            ),
        decreases dir.model().len() - i,
    {
        let name = dir.name_at(i);
        let ghost before = entries_view(rows@);
        let ghost listed_before = store.digests();
        if !excluded(name.as_str()) {
            match dir.node_at(i) {
                Node::File(content) => {
                    match check_file_size(content.len() as u64, store.max_size()) {
                        Ok(_) => {},
                        Err(e) => {
                            proof {
                                lemma_write_entries_failed(
                                    start,
                                    all,
                                    (i + 1) as nat,
                                    all.len(),
                                    limit,
                                );
                            }
                            return Err(e);
                        },
                    }
                    let put = store.put(content.as_slice());
                    proof {
                        lemma_prefix_transitive(
                            old(store).digests(),
                            listed_before,
                            store.digests(),
                        );
                    }
                    match put {
                        Ok(digest) => {
                            let row = TreeEntry {
                                kind: EntryKind::Blob,
                                digest,
                                name: name.clone(),
                            };
                            rows.push(row);
                            assert(entries_view(rows@) =~= before.push(row@));
                        },
                        Err(e) => {
                            return Err(e);
                        },
                    }
                },
                Node::Dir(sub) => {
                    assert(all[i as int].node->Dir_0 == sub.model());
                    let made = write_tree(sub, store);
                    proof {
                        lemma_prefix_transitive(
                            old(store).digests(),
                            listed_before,
                            store.digests(),
                        );
                    }
                    match made {
                        Ok(digest) => {
                            let row = TreeEntry {
                                kind: EntryKind::Tree,
                                digest,
                                name: name.clone(),
                            };
                            rows.push(row);
                            assert(entries_view(rows@) =~= before.push(row@));
                        },
                        Err(e) => {
                            proof {
                                lemma_write_entries_failed(
                                    start,
                                    all,
                                    (i + 1) as nat,
                                    all.len(),
                                    limit,
                                );
                            }
                            return Err(e);
                        },
                    }
                },
            }
        }
        i += 1;
    }
    let bytes = encode_tree(&rows);
    let ghost listed_before = store.digests();
    let made = store.put(bytes.as_slice());
    proof {
        lemma_prefix_transitive(old(store).digests(), listed_before, store.digests());
    }
    made
}

/// The directory `target` after the first `upto` of the tree entries `rows` were restored
/// into it from `objects`, and whether that went well. Entries are taken in order, and
/// the first that fails ends the restoring. A tree entry makes sure of a directory under
/// its name and restores the tree into it; a blob entry writes a file, over the file of
/// that name if there is one. A file in the place of a directory, or a directory in the
/// place of a file, is a conflict.
pub open spec fn restore_entries(
    objects: Objects,
    rows: Seq<TreeEntryModel>,
    upto: nat,
    target: Seq<EntryModel>,
    depth: nat,
) -> (Seq<EntryModel>, Result<(), GiniError>)
    decreases depth, upto + 1,
{
    if upto == 0 || upto > rows.len() {
        (target, Ok(()))
    } else {
        let (before, done) = restore_entries(objects, rows, (upto - 1) as nat, target, depth);
        let row = rows[upto - 1];
        match done {
            Err(e) => (before, Err(e)),
            Ok(_) => match row.kind {
                EntryKind::Tree => match dir_get(before, row.name) {
                    Some(NodeModel::File(_)) => (before, Err(GiniError::PathConflict)),
                    Some(NodeModel::Dir(existing)) => {
                        let (sub, inner) = restore_tree_spec(objects, row.digest, existing, depth);
                        (dir_put(before, row.name, NodeModel::Dir(sub)), inner)
                    },
                    None => {
                        let (sub, inner) = restore_tree_spec(
                            objects,
                            row.digest,
                            Seq::empty(),
                            depth,
                        );
                        (dir_put(before, row.name, NodeModel::Dir(sub)), inner)
                    },
                },
                EntryKind::Blob => match get_spec(objects, row.digest) {
                    Err(e) => (before, Err(e)),
                    Ok(bytes) => match dir_get(before, row.name) {
                        Some(NodeModel::Dir(_)) => (before, Err(GiniError::PathConflict)),
                        _ => (dir_put(before, row.name, NodeModel::File(bytes)), Ok(())),
                    },
                },
            },
        }
    }
}

/// The directory `target` after the tree kept under `digest` was restored into it from
/// `objects`, and whether that went well. The tree object is read and decoded whole
/// before any entry is restored. `depth` is the number of levels that may still be
/// entered; a tree that goes deeper is malformed.
pub open spec fn restore_tree_spec(
    objects: Objects,
    digest: Seq<char>,
    target: Seq<EntryModel>,
    depth: nat,
) -> (Seq<EntryModel>, Result<(), GiniError>)
    decreases depth, 0nat,
{
    match get_spec(objects, digest) {
        Err(e) => (target, Err(e)),
        Ok(bytes) => if depth == 0 {
            (target, Err(GiniError::MalformedObject))
        } else {
            match decode_tree_spec(bytes) {
                Err(e) => (target, Err(e)),
                Ok(rows) => restore_entries(objects, rows, rows.len(), target, (depth - 1) as nat),
            }
        },
    }
}

/// Once the restoring of entries has failed, it has ended: later entries change nothing.
pub proof fn lemma_restore_entries_failed(
    objects: Objects,
    rows: Seq<TreeEntryModel>,
    failed: nat,
    upto: nat,
    target: Seq<EntryModel>,
    depth: nat,
)
    requires
        failed <= upto <= rows.len(),
        restore_entries(objects, rows, failed, target, depth).1 is Err,
    ensures
        restore_entries(objects, rows, upto, target, depth) == restore_entries(
            objects,
            rows,
            failed,
            target,
            depth,
        ),
    decreases upto,
{
    if failed < upto {
        lemma_restore_entries_failed(objects, rows, failed, (upto - 1) as nat, target, depth);
    }
}

/// Restores the tree kept under `tree_hash` in `store` into the directory `target`,
/// entering at most `depth` levels. What `target` holds under other names stays.
#[verifier::loop_isolation(false)]
pub fn restore_tree(
    target: &mut Directory,
    store: &ObjectStore,
    tree_hash: &str,
    depth: usize,
) -> (r: Result<(), GiniError>)
    requires
        old(target).wf(),
    ensures
        final(target).wf(),
        final(target).model() == restore_tree_spec(
            store@,
            tree_hash@,
            old(target).model(),
            depth as nat,
        ).0,
        same_outcome(
            r,
            restore_tree_spec(store@, tree_hash@, old(target).model(), depth as nat).1,
        ),
    decreases depth,
{
    let bytes = match store.get(tree_hash) {
        Ok(bytes) => bytes,
        Err(e) => {
            return Err(e);
        },
    };
    if depth == 0 {
        return Err(GiniError::MalformedObject);
    }
    let rows = match decode_tree(bytes.as_slice()) {
        Ok(rows) => rows,
        Err(e) => {
            return Err(e);
        },
    };
    let ghost all = entries_view(rows@);
    let ghost start = target.model();
    let ghost objects = store@;
    let ghost inner = (depth - 1) as nat;
    let mut i: usize = 0;
    while i < rows.len()
        invariant
            i <= rows.len(),
            depth > 0,
            inner == (depth - 1) as nat,
            all == entries_view(rows@),
            start == old(target).model(),
            objects == store@,
            target.wf(),
            restore_entries(objects, all, i as nat, start, inner).0 == target.model(),
            restore_entries(objects, all, i as nat, start, inner).1 is Ok,
        decreases rows.len() - i,
    {
        let row = &rows[i];
        let ghost before = target.model();
        match row.kind {
            EntryKind::Tree => {
                let mut sub = match target.remove(row.name.as_str()) {
                    Some(Node::File(content)) => {
                        target.insert(row.name.clone(), Node::File(content));
                        proof {
                            lemma_dir_put_after_remove(before, row.name@, NodeModel::File(content@));
                            lemma_restore_entries_failed(
                                objects,
                                all,
                                (i + 1) as nat,
                                all.len(),
                                start,
                                inner,
                            );
                        }
                        return Err(GiniError::PathConflict);
                    },
                    Some(Node::Dir(existing)) => existing,
                    None => Directory::new(),
                };
                let done = restore_tree(&mut sub, store, row.digest.as_str(), depth - 1);
                proof {
                    lemma_dir_put_after_remove(before, row.name@, NodeModel::Dir(sub.model()));
                }
                target.insert(row.name.clone(), Node::Dir(sub));
                match done {
                    Ok(_) => {},
                    Err(e) => {
                        proof {
                            lemma_restore_entries_failed(
                                objects,
                                all,
                                (i + 1) as nat,
                                all.len(),
                                start,
                                inner,
                            );
                        }
                        return Err(e);
                    },
                }
            },
            EntryKind::Blob => {
                let content = match store.get(row.digest.as_str()) {
                    Ok(content) => content,
                    Err(e) => {
                        proof {
                            lemma_restore_entries_failed(
                                objects,
                                all,
                                (i + 1) as nat,
                                all.len(),
                                start,
                                inner,
                            );
                        }
                        return Err(e);
                    },
                };
                let blocked = match target.get(row.name.as_str()) {
                    Some(Node::Dir(_)) => true,
                    _ => false,
                };
                if blocked {
                    proof {
                        lemma_restore_entries_failed(
                            objects,
                            all,
                            (i + 1) as nat,
                            all.len(),
                            start,
                            inner,
                        );
                    }
                    return Err(GiniError::PathConflict);
                }
                let copy = vstd::slice::slice_to_vec(content.as_slice());
                target.insert(row.name.clone(), Node::File(copy));
            },
        }
        i += 1;
    }
    Ok(())
}

/// The views of the names of `names`.
pub open spec fn names_view(names: Seq<String>) -> Seq<Seq<char>> {
    Seq::new(names.len(), |i: int| names[i]@)
}

/// The directory `dst` after the first `upto` entries of `src` were copied into it, and
/// whether that went well. Entries are taken in order, and the first that fails ends the
/// copying. A name in `exclude` is passed over, at whatever depth. A directory is copied
/// into the directory of its name, which is made if it is not there; a file is copied
/// over the file of its name. A file in the place of a directory, or a directory in the
/// place of a file, is a conflict.
pub open spec fn copy_entries(
    dst: Seq<EntryModel>,
    src: Seq<EntryModel>,
    upto: nat,
    exclude: Seq<Seq<char>>,
) -> (Seq<EntryModel>, Result<(), GiniError>)
    decreases src, upto,
{
    if upto == 0 || upto > src.len() {
        (dst, Ok(()))
    } else {
        let (before, done) = copy_entries(dst, src, (upto - 1) as nat, exclude);
        let entry = src[upto - 1];
        match done {
            Err(e) => (before, Err(e)),
            Ok(_) => if exclude.contains(entry.name) {
                (before, Ok(()))
            } else {
                match entry.node {
                    NodeModel::Dir(sub) => match dir_get(before, entry.name) {
                        Some(NodeModel::File(_)) => (before, Err(GiniError::PathConflict)),
                        Some(NodeModel::Dir(existing)) => {
                            let (merged, inner) = copy_entries(existing, sub, sub.len(), exclude);
                            (dir_put(before, entry.name, NodeModel::Dir(merged)), inner)
                        },
                        None => {
                            let (merged, inner) = copy_entries(
                                Seq::empty(),
                                sub,
                                sub.len(),
                                exclude,
                            );
                            (dir_put(before, entry.name, NodeModel::Dir(merged)), inner)
                        },
                    },
                    NodeModel::File(content) => match dir_get(before, entry.name) {
                        Some(NodeModel::Dir(_)) => (before, Err(GiniError::PathConflict)),
                        _ => (dir_put(before, entry.name, NodeModel::File(content)), Ok(())),
                    },
                }
            },
        }
    }
}

/// The directory `dst` after `src` was copied into it, and whether that went well.
pub open spec fn copy_spec(dst: Seq<EntryModel>, src: Seq<EntryModel>, exclude: Seq<Seq<char>>) -> (
    Seq<EntryModel>,
    Result<(), GiniError>,
) {
    copy_entries(dst, src, src.len(), exclude)
}

/// Once the copying of entries has failed, it has ended: later entries change nothing.
pub proof fn lemma_copy_entries_failed(
    dst: Seq<EntryModel>,
    src: Seq<EntryModel>,
    failed: nat,
    upto: nat,
    exclude: Seq<Seq<char>>,
)
    requires
        failed <= upto <= src.len(),
        copy_entries(dst, src, failed, exclude).1 is Err,
    ensures
        copy_entries(dst, src, upto, exclude) == copy_entries(dst, src, failed, exclude),
    decreases upto,
{
    if failed < upto {
        lemma_copy_entries_failed(dst, src, failed, (upto - 1) as nat, exclude);
    }
}

fn is_listed(exclude: &Vec<String>, name: &String) -> (r: bool)
    ensures
        r == names_view(exclude@).contains(name@),
{
    let mut i: usize = 0;
    while i < exclude.len()
        invariant
            i <= exclude.len(),
            forall|j: int| 0 <= j < i ==> names_view(exclude@)[j] != name@,
        decreases exclude.len() - i,
    {
        if exclude[i] == *name {
            assert(names_view(exclude@)[i as int] == name@);
            return true;
        }
        i += 1;
    }
    false
}

/// Copies the directory `src` into the directory `dst`, leaving out every name in
/// `exclude`. What `dst` holds under other names stays.
#[verifier::loop_isolation(false)]
pub fn copy_directory_excluding(src: &Directory, dst: &mut Directory, exclude: &Vec<String>) -> (r:
    Result<(), GiniError>)
    requires
        old(dst).wf(),
    ensures
        final(dst).wf(),
        final(dst).model() == copy_spec(old(dst).model(), src.model(), names_view(exclude@)).0,
        same_outcome(r, copy_spec(old(dst).model(), src.model(), names_view(exclude@)).1),
    decreases src.model(),
{
    let ghost all = src.model();
    let ghost start = dst.model();
    let ghost skip = names_view(exclude@);
    let mut i: usize = 0;
    while i < src.len()
        invariant
            i <= src.model().len(),
            dst.wf(),
            copy_entries(start, all, i as nat, skip).0 == dst.model(),
            copy_entries(start, all, i as nat, skip).1 is Ok,
        decreases src.model().len() - i,
    {
        let name = src.name_at(i);
        let ghost before = dst.model();
        if !is_listed(exclude, name) {
            match src.node_at(i) {
                Node::Dir(sub) => {
                    let mut merged = match dst.remove(name.as_str()) {
                        Some(Node::File(content)) => {
                            dst.insert(name.clone(), Node::File(content));
                            proof {
                                lemma_dir_put_after_remove(
                                    before,
                                    name@,
                                    NodeModel::File(content@),
                                );
                                lemma_copy_entries_failed(
                                    start,
                                    all,
                                    (i + 1) as nat,
                                    all.len(),
                                    skip,
                                );
                            }
                            return Err(GiniError::PathConflict);
                        },
                        Some(Node::Dir(existing)) => existing,
                        None => Directory::new(),
                    };
                    assert(all[i as int].node->Dir_0 == sub.model());
                    let done = copy_directory_excluding(sub, &mut merged, exclude);
                    proof {
                        lemma_dir_put_after_remove(before, name@, NodeModel::Dir(merged.model()));
                    }
                    dst.insert(name.clone(), Node::Dir(merged));
                    match done {
                        Ok(_) => {},
                        Err(e) => {
                            proof {
                                lemma_copy_entries_failed(
                                    start,
                                    all,
                                    (i + 1) as nat,
                                    all.len(),
                                    skip,
                                );
                            }
                            return Err(e);
                        },
                    }
                },
                Node::File(content) => {
                    let blocked = match dst.get(name.as_str()) {
                        Some(Node::Dir(_)) => true,
                        _ => false,
                    };
                    if blocked {
                        proof {
                            lemma_copy_entries_failed(
                                start,
                                all,
                                (i + 1) as nat,
                                all.len(),
                                skip,
                            );
                        }
                        return Err(GiniError::PathConflict);
                    }
                    let copy = vstd::slice::slice_to_vec(content.as_slice());
                    dst.insert(name.clone(), Node::File(copy));
                },
            }
        }
        i += 1;
    }
    Ok(())
}

/// `kept` with what stands under `name` in `from`, if anything does.
pub open spec fn keep_entry(kept: Seq<EntryModel>, from: Seq<EntryModel>, name: Seq<char>) -> Seq<
    EntryModel,
> {
    match dir_get(from, name) {
        Some(node) => dir_put(kept, name, node),
        None => kept,
    }
}

/// What is left of the working directory `entries` when it is cleaned: the entries named
/// `.git` and `.gini`, which belong to no snapshot. Here the metadata that a restore does
/// not touch is these two names, at the top of the working directory only; what is named
/// so further down is removed with the directory it is in.
pub open spec fn cleaned(entries: Seq<EntryModel>) -> Seq<EntryModel> {
    keep_entry(keep_entry(Seq::empty(), entries, git_name()), entries, gini_name())
}

/// Cleaning leaves what is kept and nothing else: under a name that is kept stands what
/// stood there, and under any other name nothing.
pub proof fn lemma_cleaned_keeps(entries: Seq<EntryModel>, name: Seq<char>)
    requires
        dir_wf(entries),
    ensures
        dir_wf(cleaned(entries)),
        dir_get(cleaned(entries), name) == if is_kept(name) {
            dir_get(entries, name)
        } else {
            None
        },
{
    let none = Seq::<EntryModel>::empty();
    let first = keep_entry(none, entries, git_name());
    assert(git_name().len() != gini_name().len());
    assert(dir_get(none, name) is None);
    lemma_dir_get(entries, git_name());
    lemma_dir_get(entries, gini_name());
    if dir_get(entries, git_name()) is Some {
        let node = dir_get(entries, git_name())->0;
        lemma_dir_put_wf(none, git_name(), node);
        lemma_dir_get_after_put(none, git_name(), node);
        if name != git_name() {
            lemma_dir_get_after_put_other(none, git_name(), node, name);
        }
    }
    if dir_get(entries, gini_name()) is Some {
        let node = dir_get(entries, gini_name())->0;
        lemma_dir_put_wf(first, gini_name(), node);
        lemma_dir_get_after_put(first, gini_name(), node);
        if name != gini_name() {
            lemma_dir_get_after_put_other(first, gini_name(), node, name);
        }
    }
}

/// Empties the working directory `root`, but for the entries named `.git` and `.gini`.
pub fn clean_working_directory(root: &mut Directory)
    requires
        old(root).wf(),
    ensures
        final(root).wf(),
        final(root).model() == cleaned(old(root).model()),
        forall|name: Seq<char>| #[trigger]
            dir_get(final(root).model(), name) == if is_kept(name) {
                dir_get(old(root).model(), name)
            } else {
                None
            },
{
    proof {
        assert forall|name: Seq<char>| #[trigger]
            dir_get(cleaned(root.model()), name) == if is_kept(name) {
                dir_get(root.model(), name)
            } else {
                None
            } by {
            lemma_cleaned_keeps(root.model(), name);
        }
    }
    let git = to_string(&git_chars());
    let gini = to_string(&gini_chars());
    proof {
        lemma_dir_get_after_remove(root.model(), git_name(), gini_name());
    }
    let kept_git = root.remove(git.as_str());
    let kept_gini = root.remove(gini.as_str());
    *root = Directory::new();
    match kept_git {
        Some(node) => {
            root.insert(git, node);
        },
        None => {},
    }
    match kept_gini {
        Some(node) => {
            root.insert(gini, node);
        },
        None => {},
    }
}

} // verus!
