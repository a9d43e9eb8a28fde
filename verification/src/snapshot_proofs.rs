//! Proofs about snapshots: the digest of a tree depends on the directory alone, and a
//! recorded directory is restored as it was.

use vstd::prelude::*;

use crate::codec::{is_entry_name, tree_bytes, EntryKind, TreeEntryModel};
use crate::codec_proofs::lemma_tree_codec_round_trip;
use crate::digest::object_digest;
use crate::error::GiniError;
use crate::snapshot::{
    is_excluded, lemma_write_entries_lists, lemma_write_tree_digest, listed, node_digest,
    restore_entries, restore_tree_spec, tree_digest, write_entries, write_tree_spec,
    MAX_TREE_DEPTH,
};
use crate::store::{put_spec, Objects};
use crate::text::is_whitespace;
use crate::worktree::{dir_wf, lemma_dir_put_last, EntryModel, NodeModel};

verus! {

/// Two directories with the same names and the same contents get the same tree digest,
/// in whatever store each is recorded and whatever else is known of the files.
pub proof fn lemma_tree_digest_is_deterministic(
    first: Objects,
    second: Objects,
    entries: Seq<EntryModel>,
    first_limit: nat,
    second_limit: nat,
)
    requires
        write_tree_spec(first, entries, first_limit).1 is Ok,
        write_tree_spec(second, entries, second_limit).1 is Ok,
    ensures
        write_tree_spec(first, entries, first_limit).1 == write_tree_spec(
            second,
            entries,
            second_limit,
        ).1,
{
    lemma_write_tree_digest(first, entries, first_limit);
    lemma_write_tree_digest(second, entries, second_limit);
}

/// Whether `content` is one of the objects written for the first `upto` of `entries`: the
/// content of a file, or an object written for a directory, excluded names left out.
pub open spec fn entries_write(entries: Seq<EntryModel>, upto: nat, content: Seq<u8>) -> bool
    decreases entries, upto,
{
    if upto == 0 || upto > entries.len() {
        false
    } else {
        let entry = entries[upto - 1];
        ||| entries_write(entries, (upto - 1) as nat, content)
        ||| !is_excluded(entry.name) && match entry.node {
            NodeModel::File(bytes) => content == bytes,
            NodeModel::Dir(sub) => tree_writes(sub, content),
        }
    }
}

/// Whether `content` is one of the objects written for the directory `entries`: its
/// tree object, or an object written for one of its entries.
pub open spec fn tree_writes(entries: Seq<EntryModel>, content: Seq<u8>) -> bool
    decreases entries, entries.len() + 1,
{
    content == tree_bytes(listed(entries, entries.len())) || entries_write(
        entries,
        entries.len(),
        content,
    )
}

/// The objects written for the directory `entries`.
pub open spec fn tree_objects(entries: Seq<EntryModel>) -> Set<Seq<u8>> {
    Set::new(|content: Seq<u8>| tree_writes(entries, content))
}

/// Whether no two byte strings among `written` share a digest, and none of them has the
/// digest under which `objects` keeps something else.
pub open spec fn no_collision(objects: Objects, written: Set<Seq<u8>>) -> bool {
    &&& forall|a: Seq<u8>, b: Seq<u8>|
        #![trigger written.contains(a), written.contains(b)]
        written.contains(a) && written.contains(b) && object_digest(a) == object_digest(b) ==> a
            == b
    &&& forall|a: Seq<u8>| #[trigger]
        written.contains(a) && objects.contains_key(object_digest(a)) ==> objects[object_digest(
            a,
        )] == a
}

/// Whether `after` keeps all that `before` keeps, unchanged.
pub open spec fn extends(before: Objects, after: Objects) -> bool {
    forall|d: Seq<char>| #[trigger]
        before.contains_key(d) ==> after.contains_key(d) && after[d] == before[d]
}

/// Whether `after` keeps all that `start` keeps, unchanged, and besides only byte strings
/// among `written`, each under its digest.
pub open spec fn grown(start: Objects, after: Objects, written: Set<Seq<u8>>) -> bool {
    &&& extends(start, after)
    &&& forall|d: Seq<char>| #[trigger]
        after.contains_key(d) && !start.contains_key(d) ==> written.contains(after[d])
            && object_digest(after[d]) == d
}

/// Whether `objects` keeps what stands under `entry`, unless its name is excluded: the
/// file's content under its digest, or the whole of the directory.
pub open spec fn child_held(objects: Objects, entry: EntryModel) -> bool
    decreases entry,
{
    is_excluded(entry.name) || match entry.node {
        NodeModel::File(content) => objects.contains_key(object_digest(content))
            && objects[object_digest(content)] == content,
        NodeModel::Dir(sub) => holds(objects, sub),
    }
}

/// Whether `objects` keeps the whole snapshot of the directory `entries`: its tree
/// object under the tree's digest, and all that stands under its entries.
pub open spec fn holds(objects: Objects, entries: Seq<EntryModel>) -> bool
    decreases entries,
{
    &&& objects.contains_key(tree_digest(entries))
    &&& objects[tree_digest(entries)] == tree_bytes(listed(entries, entries.len()))
    &&& forall|i: int| 0 <= i < entries.len() ==> child_held(objects, #[trigger] entries[i])
}

/// A store that keeps a snapshot still keeps it when it has grown.
pub proof fn lemma_holds_extends(before: Objects, after: Objects, entries: Seq<EntryModel>)
    requires
        holds(before, entries),
        extends(before, after),
    ensures
        holds(after, entries),
    decreases entries,
{
    assert forall|i: int| 0 <= i < entries.len() implies child_held(
        after,
        #[trigger] entries[i],
    ) by {
        lemma_child_held_extends(before, after, entries[i]);
    }
}

/// A store that keeps what stands under an entry still keeps it when it has grown.
pub proof fn lemma_child_held_extends(before: Objects, after: Objects, entry: EntryModel)
    requires
        child_held(before, entry),
        extends(before, after),
    ensures
        child_held(after, entry),
    decreases entry,
{
    if !is_excluded(entry.name) {
        match entry.node {
            NodeModel::File(_) => {},
            NodeModel::Dir(sub) => {
                lemma_holds_extends(before, after, sub);
            },
        }
    }
}

/// Where digests do not collide, a put keeps the content under its digest, whether it
/// was there or not.
pub proof fn lemma_put_held(
    start: Objects,
    written: Set<Seq<u8>>,
    objects: Objects,
    content: Seq<u8>,
    limit: nat,
)
    requires
        no_collision(start, written),
        grown(start, objects, written),
        written.contains(content),
        content.len() <= limit,
    ensures
        put_spec(objects, content, limit).0.contains_key(object_digest(content)),
        put_spec(objects, content, limit).0[object_digest(content)] == content,
        grown(start, put_spec(objects, content, limit).0, written),
        extends(objects, put_spec(objects, content, limit).0),
{
}

/// Where digests do not collide, the store keeps, after the first `upto` entries were
/// written, what stands under each of them.
pub proof fn lemma_entries_held(
    start: Objects,
    written: Set<Seq<u8>>,
    objects: Objects,
    entries: Seq<EntryModel>,
    upto: nat,
    limit: nat,
)
    requires
        no_collision(start, written),
        grown(start, objects, written),
        upto <= entries.len(),
        forall|content: Seq<u8>|
            entries_write(entries, upto, content) ==> #[trigger] written.contains(content),
        write_entries(objects, entries, upto, limit).1 is Ok,
    ensures
        grown(start, write_entries(objects, entries, upto, limit).0, written),
        extends(objects, write_entries(objects, entries, upto, limit).0),
        forall|i: int|
            0 <= i < upto ==> child_held(
                write_entries(objects, entries, upto, limit).0,
                #[trigger] entries[i],
            ),
    decreases entries, upto,
{
    if upto > 0 {
        let before = write_entries(objects, entries, (upto - 1) as nat, limit).0;
        let after = write_entries(objects, entries, upto, limit).0;
        let entry = entries[upto - 1];
        lemma_entries_held(start, written, objects, entries, (upto - 1) as nat, limit);
        if !is_excluded(entry.name) {
            match entry.node {
                NodeModel::File(content) => {
                    lemma_put_held(start, written, before, content, limit);
                },
                NodeModel::Dir(sub) => {
                    lemma_tree_held(start, written, before, sub, limit);
                },
            }
        }
        assert forall|i: int| 0 <= i < upto implies child_held(after, #[trigger] entries[i]) by {
            if i < upto - 1 {
                lemma_child_held_extends(before, after, entries[i]);
            }
        }
    }
}

/// Where digests do not collide, the store keeps, after a directory was written, the
/// whole snapshot of it.
pub proof fn lemma_tree_held(
    start: Objects,
    written: Set<Seq<u8>>,
    objects: Objects,
    entries: Seq<EntryModel>,
    limit: nat,
)
    requires
        no_collision(start, written),
        grown(start, objects, written),
        forall|content: Seq<u8>| tree_writes(entries, content) ==> #[trigger] written.contains(
            content,
        ),
        write_tree_spec(objects, entries, limit).1 is Ok,
    ensures
        grown(start, write_tree_spec(objects, entries, limit).0, written),
        extends(objects, write_tree_spec(objects, entries, limit).0),
        holds(write_tree_spec(objects, entries, limit).0, entries),
    decreases entries, entries.len() + 1,
{
    let mid = write_entries(objects, entries, entries.len(), limit).0;
    let after = write_tree_spec(objects, entries, limit).0;
    let bytes = tree_bytes(listed(entries, entries.len()));
    lemma_entries_held(start, written, objects, entries, entries.len(), limit);
    lemma_write_entries_lists(objects, entries, entries.len(), limit);
    lemma_put_held(start, written, mid, bytes, limit);
    assert forall|i: int| 0 <= i < entries.len() implies child_held(
        after,
        #[trigger] entries[i],
    ) by {
        lemma_child_held_extends(mid, after, entries[i]);
    }
}

/// Writing the entries of a directory again, into a store that keeps what stands under
/// them, leaves the store as it was.
pub proof fn lemma_entries_recorded_again(
    objects: Objects,
    entries: Seq<EntryModel>,
    upto: nat,
    limit: nat,
)
    requires
        upto <= entries.len(),
        forall|i: int| 0 <= i < upto ==> child_held(objects, #[trigger] entries[i]),
        write_entries(objects, entries, upto, limit).1 is Ok,
    ensures
        write_entries(objects, entries, upto, limit).0 == objects,
    decreases entries, upto,
{
    if upto > 0 {
        lemma_entries_recorded_again(objects, entries, (upto - 1) as nat, limit);
        let entry = entries[upto - 1];
        assert(child_held(objects, entry));
        if !is_excluded(entry.name) {
            match entry.node {
                NodeModel::File(_) => {},
                NodeModel::Dir(sub) => {
                    lemma_recorded_again(objects, sub, limit);
                },
            }
        }
    }
}

/// Recording a directory again, in a store that keeps the whole snapshot of it, stores
/// nothing: blobs and trees that are there are not stored a second time.
pub proof fn lemma_recorded_again(objects: Objects, entries: Seq<EntryModel>, limit: nat)
    requires
        holds(objects, entries),
        write_tree_spec(objects, entries, limit).1 is Ok,
    ensures
        write_tree_spec(objects, entries, limit).0 == objects,
    decreases entries, entries.len() + 1,
{
    lemma_entries_recorded_again(objects, entries, entries.len(), limit);
    lemma_write_entries_lists(objects, entries, entries.len(), limit);
}

/// Writing entries to a store of finitely many objects leaves finitely many.
pub proof fn lemma_entries_written_are_finite(
    objects: Objects,
    entries: Seq<EntryModel>,
    upto: nat,
    limit: nat,
)
    requires
        objects.dom().finite(),
        upto <= entries.len(),
    ensures
        write_entries(objects, entries, upto, limit).0.dom().finite(),
    decreases entries, upto,
{
    if upto > 0 {
        lemma_entries_written_are_finite(objects, entries, (upto - 1) as nat, limit);
        let before = write_entries(objects, entries, (upto - 1) as nat, limit).0;
        match entries[upto - 1].node {
            NodeModel::File(_) => {},
            NodeModel::Dir(sub) => {
                lemma_written_is_finite(before, sub, limit);
            },
        }
    }
}

/// Recording a directory in a store of finitely many objects leaves finitely many.
pub proof fn lemma_written_is_finite(objects: Objects, entries: Seq<EntryModel>, limit: nat)
    requires
        objects.dom().finite(),
    ensures
        write_tree_spec(objects, entries, limit).0.dom().finite(),
    decreases entries, entries.len() + 1,
{
    lemma_entries_written_are_finite(objects, entries, entries.len(), limit);
}

/// Whether `name` can be the name of an entry that is recorded and restored: a name
/// that can name an entry, without white space, and not excluded from snapshots.
pub open spec fn is_portable_name(name: Seq<char>) -> bool {
    &&& is_entry_name(name)
    &&& forall|i: int| 0 <= i < name.len() ==> !is_whitespace(#[trigger] name[i])
    &&& !is_excluded(name)
}

/// Whether every name in `entries` is portable, at all levels, and the directories in
/// it are nested less than `depth` deep.
pub open spec fn portable(entries: Seq<EntryModel>, depth: nat) -> bool
    decreases entries,
{
    &&& depth > 0
    &&& forall|i: int| 0 <= i < entries.len() ==> entry_portable(#[trigger] entries[i], depth)
}

/// Whether the name of `entry` is portable, and what stands under it is.
pub open spec fn entry_portable(entry: EntryModel, depth: nat) -> bool
    decreases entry,
{
    &&& is_portable_name(entry.name)
    &&& match entry.node {
        NodeModel::File(_) => true,
        NodeModel::Dir(sub) => portable(sub, (depth - 1) as nat),
    }
}

/// The tree entry that lists `entry`.
pub open spec fn row_of(entry: EntryModel) -> TreeEntryModel {
    TreeEntryModel {
        kind: match entry.node {
            NodeModel::File(_) => EntryKind::Blob,
            NodeModel::Dir(_) => EntryKind::Tree,
        },
        digest: node_digest(entry.node),
        name: entry.name,
    }
}

/// Where no name is excluded, each entry is listed, in order.
pub proof fn lemma_listed_all(entries: Seq<EntryModel>, upto: nat)
    requires
        upto <= entries.len(),
        forall|i: int| 0 <= i < entries.len() ==> !is_excluded(#[trigger] entries[i].name),
    ensures
        listed(entries, upto) == Seq::new(upto, |i: int| row_of(entries[i])),
    decreases upto,
{
    if upto > 0 {
        lemma_listed_all(entries, (upto - 1) as nat);
    }
}

/// Restoring, into an empty directory, the first `upto` tree entries of a directory that
/// the store keeps gives the first `upto` entries of that directory.
pub proof fn lemma_restore_held_entries(
    objects: Objects,
    entries: Seq<EntryModel>,
    upto: nat,
    depth: nat,
)
    requires
        holds(objects, entries),
        dir_wf(entries),
        portable(entries, depth + 1),
        upto <= entries.len(),
    ensures
        restore_entries(
            objects,
            listed(entries, entries.len()),
            upto,
            Seq::empty(),
            depth,
        ) == (entries.take(upto as int), Ok::<(), GiniError>(())),
    decreases entries, upto,
{
    lemma_listed_all(entries, entries.len());
    if upto > 0 {
        lemma_restore_held_entries(objects, entries, (upto - 1) as nat, depth);
        let before = entries.take(upto - 1);
        let entry = entries[upto - 1];
        lemma_dir_put_last(before, entry.name, entry.node);
        match entry.node {
            NodeModel::File(_) => {},
            NodeModel::Dir(sub) => {
                lemma_restore_held_tree(objects, sub, depth);
            },
        }
    }
}

/// Restoring, into an empty directory, the tree of a directory that the store keeps
/// gives that directory.
pub proof fn lemma_restore_held_tree(objects: Objects, entries: Seq<EntryModel>, depth: nat)
    requires
        holds(objects, entries),
        dir_wf(entries),
        portable(entries, depth),
    ensures
        restore_tree_spec(objects, tree_digest(entries), Seq::empty(), depth) == (
            entries,
            Ok::<(), GiniError>(()),
        ),
    decreases entries, entries.len() + 1,
{
    let rows = listed(entries, entries.len());
    lemma_listed_all(entries, entries.len());
    lemma_tree_codec_round_trip(rows);
    lemma_restore_held_entries(objects, entries, entries.len(), (depth - 1) as nat);
}

/// Whether recording the directory `entries` in `objects` meets no collision of
/// digests: no two of the objects written for it share a digest, and none has the
/// digest of a different object that is there already.
pub open spec fn collision_free(objects: Objects, entries: Seq<EntryModel>) -> bool {
    no_collision(objects, tree_objects(entries))
}

/// After a directory was recorded without a collision of digests, the store keeps the
/// whole snapshot of it.
pub proof fn lemma_recorded_is_held(objects: Objects, entries: Seq<EntryModel>, limit: nat)
    requires
        write_tree_spec(objects, entries, limit).1 is Ok,
        collision_free(objects, entries),
    ensures
        holds(write_tree_spec(objects, entries, limit).0, entries),
        extends(objects, write_tree_spec(objects, entries, limit).0),
{
    lemma_tree_held(objects, tree_objects(entries), objects, entries, limit);
}

/// Round trip: to record a directory and then restore the tree that this gave, into an
/// empty directory, gives back the directory, name for name and byte for byte. This
/// holds of every well-formed directory whose names are portable and which is nested
/// less deep than a restore goes, where the recording succeeds and meets no collision of
/// digests.
pub proof fn lemma_snapshot_round_trip(objects: Objects, entries: Seq<EntryModel>, limit: nat)
    requires
        dir_wf(entries),
        portable(entries, MAX_TREE_DEPTH as nat),
        write_tree_spec(objects, entries, limit).1 is Ok,
        collision_free(objects, entries),
    ensures
        restore_tree_spec(
            write_tree_spec(objects, entries, limit).0,
            write_tree_spec(objects, entries, limit).1->Ok_0,
            Seq::empty(),
            MAX_TREE_DEPTH as nat,
        ) == (entries, Ok::<(), GiniError>(())),
{
    lemma_recorded_is_held(objects, entries, limit);
    lemma_write_tree_digest(objects, entries, limit);
    lemma_restore_held_tree(
        write_tree_spec(objects, entries, limit).0,
        entries,
        MAX_TREE_DEPTH as nat,
    );
}

} // verus!
