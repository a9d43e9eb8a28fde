//! Directories as values: entries kept in the order of their names, and their
//! mathematical model.

use vstd::prelude::*;
use vstd::utf8::{encode_utf8, encode_utf8_decode_utf8};

verus! {

/// What stands under a name in a directory, as a mathematical value.
pub enum NodeModel {
    /// A file and its bytes.
    File(Seq<u8>),
    /// A directory and its entries.
    Dir(Seq<EntryModel>),
}

/// A name in a directory and what stands under it, as a mathematical value.
pub struct EntryModel {
    pub name: Seq<char>,
    pub node: NodeModel,
}

/// What stands under a name in a directory: a file or a directory.
pub enum Node {
    File(Vec<u8>),
    Dir(Directory),
}

/// A name in a directory and what stands under it.
pub struct DirEntry {
    pub name: String,
    pub node: Node,
}

/// A directory: its entries in the order of their names, each name once.
pub struct Directory {
    entries: Vec<DirEntry>,
}

impl Node {
    /// The node as a mathematical value.
    pub open spec fn model(&self) -> NodeModel
        decreases self,
    {
        match self {
            Node::File(content) => NodeModel::File(content@),
            Node::Dir(dir) => NodeModel::Dir(dir.model()),
        }
    }
}

impl Directory {
    /// The entries of the directory as mathematical values.
    pub closed spec fn model(&self) -> Seq<EntryModel>
        decreases self,
    {
        Seq::new(
            self.entries@.len(),
            |i: int|
                if 0 <= i < self.entries@.len() {
                    EntryModel {
                        name: self.entries@[i].name@,
                        node: self.entries@[i].node.model(),
                    }
                } else {
                    arbitrary()
                },
        )
    }
}

/// Whether the bytes of `a` from `from` on come before those of `b` from `from` on, in
/// the order of a dictionary.
pub open spec fn bytes_lt_from(a: Seq<u8>, b: Seq<u8>, from: int) -> bool
    decreases a.len() - from,
{
    if from < 0 || from >= b.len() {
        false
    } else if from >= a.len() {
        true
    } else if a[from] != b[from] {
        a[from] < b[from]
    } else {
        bytes_lt_from(a, b, from + 1)
    }
}

/// Whether name `a` comes before name `b`: the order of their UTF-8 bytes, which is the
/// order of strings.
pub open spec fn name_lt(a: Seq<char>, b: Seq<char>) -> bool {
    bytes_lt_from(encode_utf8(a), encode_utf8(b), 0)
}

/// Whether the names of `entries` are in strictly ascending order, here and in every
/// directory below.
pub open spec fn dir_wf(entries: Seq<EntryModel>) -> bool
    decreases entries,
{
    &&& forall|i: int, j: int|
        0 <= i < j < entries.len() ==> name_lt(
            #[trigger] entries[i].name,
            #[trigger] entries[j].name,
        )
    &&& forall|i: int| 0 <= i < entries.len() ==> node_wf(#[trigger] entries[i].node)
}

/// Whether every directory in `node` is well formed.
pub open spec fn node_wf(node: NodeModel) -> bool
    decreases node,
{
    match node {
        NodeModel::File(_) => true,
        NodeModel::Dir(entries) => dir_wf(entries),
    }
}

/// How one name stands to another in the order of names.
#[derive(Clone, Copy, Debug, PartialEq, Eq, Structural)]
pub enum Order {
    Before,
    Same,
    After,
}

/// No byte string comes before itself.
pub proof fn lemma_bytes_lt_irreflexive(a: Seq<u8>, from: int)
    requires
        0 <= from,
    ensures
        !bytes_lt_from(a, a, from),
    decreases a.len() - from,
{
    if from < a.len() {
        lemma_bytes_lt_irreflexive(a, from + 1);
    }
}

/// The order of byte strings is transitive.
pub proof fn lemma_bytes_lt_transitive(a: Seq<u8>, b: Seq<u8>, c: Seq<u8>, from: int)
    requires
        0 <= from,
        bytes_lt_from(a, b, from),
        bytes_lt_from(b, c, from),
    ensures
        bytes_lt_from(a, c, from),
    decreases a.len() - from,
{
    if from < a.len() && from < b.len() && from < c.len() && a[from] == b[from] && b[from]
        == c[from] {
        lemma_bytes_lt_transitive(a, b, c, from + 1);
    }
}

/// Of two byte strings that agree before `from`, one comes before the other or they are
/// the same.
pub proof fn lemma_bytes_lt_total(a: Seq<u8>, b: Seq<u8>, from: int)
    requires
        0 <= from <= a.len(),
        from <= b.len(),
        forall|i: int| 0 <= i < from ==> a[i] == b[i],
    ensures
        bytes_lt_from(a, b, from) || bytes_lt_from(b, a, from) || a == b,
    decreases a.len() - from,
{
    if from < a.len() && from < b.len() && a[from] == b[from] {
        lemma_bytes_lt_total(a, b, from + 1);
    } else if from == a.len() && from == b.len() {
    }
}

/// No name comes before itself.
pub proof fn lemma_name_lt_irreflexive(a: Seq<char>)
    ensures
        !name_lt(a, a),
{
    lemma_bytes_lt_irreflexive(encode_utf8(a), 0);
}

/// The order of names is transitive.
pub proof fn lemma_name_lt_transitive(a: Seq<char>, b: Seq<char>, c: Seq<char>)
    requires
        name_lt(a, b),
        name_lt(b, c),
    ensures
        name_lt(a, c),
{
    lemma_bytes_lt_transitive(encode_utf8(a), encode_utf8(b), encode_utf8(c), 0);
}

/// Of two names, one comes before the other or they are the same.
pub proof fn lemma_name_lt_total(a: Seq<char>, b: Seq<char>)
    ensures
        name_lt(a, b) || name_lt(b, a) || a == b,
{
    lemma_bytes_lt_total(encode_utf8(a), encode_utf8(b), 0);
    encode_utf8_decode_utf8(a);
    encode_utf8_decode_utf8(b);
}

/// Compares two names.
pub fn compare_names(a: &str, b: &str) -> (o: Order)
    ensures
        name_lt(a@, b@) == (o == Order::Before),
        name_lt(b@, a@) == (o == Order::After),
        (a@ == b@) == (o == Order::Same),
{
    let x = a.as_bytes();
    let y = b.as_bytes();
    let mut i: usize = 0;
    proof {
        encode_utf8_decode_utf8(a@);
        encode_utf8_decode_utf8(b@);
    }
    while i < x.len() && i < y.len()
        invariant
            i <= x.len(),
            i <= y.len(),
            x@ == encode_utf8(a@),
            y@ == encode_utf8(b@),
            forall|j: int| 0 <= j < i ==> x@[j] == y@[j],
            bytes_lt_from(x@, y@, 0) == bytes_lt_from(x@, y@, i as int),
            bytes_lt_from(y@, x@, 0) == bytes_lt_from(y@, x@, i as int),
        decreases x.len() - i,
    {
        if x[i] < y[i] {
            return Order::Before;
        }
        if x[i] > y[i] {
            return Order::After;
        }
        i += 1;
    }
    if i < y.len() {
        Order::Before
    } else if i < x.len() {
        Order::After
    } else {
        assert(x@ =~= y@);
        Order::Same
    }
}

/// Index of the first of `entries`, at or after `from`, whose name does not come before
/// `name`, or the number of entries. In a well-formed directory this is where `name`
/// stands or would stand.
pub open spec fn slot(entries: Seq<EntryModel>, name: Seq<char>, from: int) -> int
    decreases entries.len() - from,
{
    if from < 0 || from >= entries.len() {
        entries.len() as int
    } else if !name_lt(entries[from].name, name) {
        from
    } else {
        slot(entries, name, from + 1)
    }
}

/// `slot` passes the names that come before `name`, and stops at the first other.
pub proof fn lemma_slot(entries: Seq<EntryModel>, name: Seq<char>, from: int)
    requires
        0 <= from <= entries.len(),
    ensures
        from <= slot(entries, name, from) <= entries.len(),
        forall|j: int| from <= j < slot(entries, name, from) ==> name_lt(entries[j].name, name),
        slot(entries, name, from) < entries.len() ==> !name_lt(
            entries[slot(entries, name, from)].name,
            name,
        ),
    decreases entries.len() - from,
{
    if from < entries.len() && name_lt(entries[from].name, name) {
        lemma_slot(entries, name, from + 1);
    }
}

/// Whether `entries` has an entry named `name`.
pub open spec fn dir_has(entries: Seq<EntryModel>, name: Seq<char>) -> bool {
    let at = slot(entries, name, 0);
    0 <= at < entries.len() && entries[at].name == name
}

/// What stands under `name` in `entries`.
pub open spec fn dir_get(entries: Seq<EntryModel>, name: Seq<char>) -> Option<NodeModel> {
    if dir_has(entries, name) {
        Some(entries[slot(entries, name, 0)].node)
    } else {
        None
    }
}

/// `entries` with `node` under `name`, in place of what stood there or as a new entry at
/// the place that the order of names gives it.
pub open spec fn dir_put(entries: Seq<EntryModel>, name: Seq<char>, node: NodeModel) -> Seq<
    EntryModel,
> {
    let at = slot(entries, name, 0);
    if dir_has(entries, name) {
        entries.update(at, EntryModel { name, node })
    } else {
        entries.insert(at, EntryModel { name, node })
    }
}

/// `entries` without the entry named `name`.
pub open spec fn dir_remove(entries: Seq<EntryModel>, name: Seq<char>) -> Seq<EntryModel> {
    if dir_has(entries, name) {
        entries.remove(slot(entries, name, 0))
    } else {
        entries
    }
}

/// In a well-formed directory, `dir_get` finds the entry of a name wherever it stands, and
/// finds nothing only if no entry has the name.
pub proof fn lemma_dir_get(entries: Seq<EntryModel>, name: Seq<char>)
    requires
        dir_wf(entries),
    ensures
        forall|i: int|
            0 <= i < entries.len() && (#[trigger] entries[i]).name == name ==> dir_get(
                entries,
                name,
            ) == Some(entries[i].node),
        dir_get(entries, name) is Some ==> exists|i: int|
            0 <= i < entries.len() && #[trigger] entries[i] == (EntryModel {
                name,
                node: dir_get(entries, name)->0,
            }),
{
    lemma_slot(entries, name, 0);
    lemma_name_lt_irreflexive(name);
}

/// Putting a well-formed node into a well-formed directory leaves it well formed.
pub proof fn lemma_dir_put_wf(entries: Seq<EntryModel>, name: Seq<char>, node: NodeModel)
    requires
        dir_wf(entries),
        node_wf(node),
    ensures
        dir_wf(dir_put(entries, name, node)),
{
    lemma_slot(entries, name, 0);
    let at = slot(entries, name, 0);
    if !dir_has(entries, name) {
        assert forall|j: int| at <= j < entries.len() implies name_lt(name, entries[j].name) by {
            lemma_name_lt_total(name, entries[at].name);
            if j > at {
                lemma_name_lt_transitive(name, entries[at].name, entries[j].name);
            }
        }
    }
}

/// A name that comes after every name of a directory is put at its end.
pub proof fn lemma_dir_put_last(entries: Seq<EntryModel>, name: Seq<char>, node: NodeModel)
    requires
        forall|i: int| 0 <= i < entries.len() ==> name_lt(#[trigger] entries[i].name, name),
    ensures
        !dir_has(entries, name),
        dir_put(entries, name, node) == entries.push(EntryModel { name, node }),
{
    lemma_slot(entries, name, 0);
}

/// `slot` is the one place before which every name comes before `name`, and at which the
/// name does not.
pub proof fn lemma_slot_is(entries: Seq<EntryModel>, name: Seq<char>, from: int, at: int)
    requires
        0 <= from <= at <= entries.len(),
        forall|j: int| from <= j < at ==> name_lt(#[trigger] entries[j].name, name),
        at < entries.len() ==> !name_lt(entries[at].name, name),
    ensures
        slot(entries, name, from) == at,
    decreases at - from,
{
    if from < at {
        lemma_slot_is(entries, name, from + 1, at);
    }
}

/// To take an entry out of a well-formed directory and then put a node under its name
/// is to put the node in its place.
pub proof fn lemma_dir_put_after_remove(
    entries: Seq<EntryModel>,
    name: Seq<char>,
    node: NodeModel,
)
    requires
        dir_wf(entries),
    ensures
        dir_put(dir_remove(entries, name), name, node) == dir_put(entries, name, node),
{
    let at = slot(entries, name, 0);
    if dir_has(entries, name) {
        let rest = entries.remove(at);
        lemma_name_lt_irreflexive(name);
        if at < rest.len() {
            if name_lt(rest[at].name, name) {
                lemma_name_lt_transitive(name, rest[at].name, name);
            }
        }
        lemma_slot_is(rest, name, 0, at);
    }
}

/// To take an entry out of a well-formed directory changes nothing under another name.
pub proof fn lemma_dir_get_after_remove(entries: Seq<EntryModel>, gone: Seq<char>, name: Seq<char>)
    requires
        dir_wf(entries),
        gone != name,
    ensures
        dir_get(dir_remove(entries, gone), name) == dir_get(entries, name),
{
    let rest = dir_remove(entries, gone);
    lemma_dir_get(entries, name);
    lemma_dir_get(rest, name);
    if dir_has(entries, gone) {
        let at = slot(entries, gone, 0);
        if dir_get(entries, name) is Some {
            let i = choose|i: int|
                0 <= i < entries.len() && #[trigger] entries[i] == (EntryModel {
                    name,
                    node: dir_get(entries, name)->0,
                });
            let ri = if i < at { i } else { i - 1 };
            assert(rest[ri] == entries[i]);
        } else if dir_get(rest, name) is Some {
            let ri = choose|i: int|
                0 <= i < rest.len() && #[trigger] rest[i] == (EntryModel {
                    name,
                    node: dir_get(rest, name)->0,
                });
            let i = if ri < at { ri } else { ri + 1 };
            assert(entries[i] == rest[ri]);
        }
    }
}

/// What was put under a name is what stands there.
pub proof fn lemma_dir_get_after_put(entries: Seq<EntryModel>, name: Seq<char>, node: NodeModel)
    ensures
        dir_get(dir_put(entries, name, node), name) == Some(node),
{
    lemma_slot(entries, name, 0);
    lemma_name_lt_irreflexive(name);
    let at = slot(entries, name, 0);
    let after = dir_put(entries, name, node);
    lemma_slot_is(after, name, 0, at);
}

/// To put a node under a name changes nothing under another name.
pub proof fn lemma_dir_get_after_put_other(
    entries: Seq<EntryModel>,
    put: Seq<char>,
    node: NodeModel,
    name: Seq<char>,
)
    requires
        dir_wf(entries),
        node_wf(node),
        put != name,
    ensures
        dir_get(dir_put(entries, put, node), name) == dir_get(entries, name),
{
    let after = dir_put(entries, put, node);
    lemma_dir_put_wf(entries, put, node);
    lemma_dir_get(entries, name);
    lemma_dir_get(after, name);
    lemma_slot(entries, put, 0);
    let at = slot(entries, put, 0);
    if dir_get(entries, name) is Some {
        let i = choose|i: int|
            0 <= i < entries.len() && #[trigger] entries[i] == (EntryModel {
                name,
                node: dir_get(entries, name)->0,
            });
        let ai = if dir_has(entries, put) || i < at { i } else { i + 1 };
        assert(after[ai] == entries[i]);
    } else if dir_get(after, name) is Some {
        let ai = choose|i: int|
            0 <= i < after.len() && #[trigger] after[i] == (EntryModel {
                name,
                node: dir_get(after, name)->0,
            });
        let i = if dir_has(entries, put) || ai < at { ai } else { ai - 1 };
        assert(entries[i] == after[ai]);
    }
}

impl Directory {
    /// Whether the names are in strictly ascending order, here and in every directory
    /// below.
    pub open spec fn wf(&self) -> bool {
        dir_wf(self.model())
    }

    /// A directory without entries.
    pub fn new() -> (dir: Directory)
        ensures
            dir.model() == Seq::<EntryModel>::empty(),
            dir.wf(),
    {
        Directory { entries: Vec::new() }
    }

    /// The number of entries.
    pub fn len(&self) -> (n: usize)
        ensures
            n == self.model().len(),
    {
        self.entries.len()
    }

    /// The name of the `i`-th entry.
    pub fn name_at(&self, i: usize) -> (name: &String)
        requires
            i < self.model().len(),
        ensures
            name@ == self.model()[i as int].name,
    {
        &self.entries[i].name
    }

    /// What stands under the `i`-th entry.
    pub fn node_at(&self, i: usize) -> (node: &Node)
        requires
            i < self.model().len(),
        ensures
            node.model() == self.model()[i as int].node,
    {
        &self.entries[i].node
    }

    fn slot_of(&self, name: &str) -> (r: (usize, bool))
        ensures
            r.0 == slot(self.model(), name@, 0),
            r.0 <= self.entries@.len(),
            r.1 == dir_has(self.model(), name@),
    {
        let mut i: usize = 0;
        while i < self.entries.len()
            invariant
                i <= self.entries@.len(),
                slot(self.model(), name@, 0) == slot(self.model(), name@, i as int),
            decreases self.entries@.len() - i,
        {
            match compare_names(self.entries[i].name.as_str(), name) {
                Order::Before => {
                    i += 1;
                },
                Order::Same => {
                    return (i, true);
                },
                Order::After => {
                    return (i, false);
                },
            }
        }
        (i, false)
    }

    /// Tells whether an entry is named `name`.
    pub fn contains(&self, name: &str) -> (r: bool)
        ensures
            r == dir_has(self.model(), name@),
    {
        self.slot_of(name).1
    }

    /// What stands under `name`.
    pub fn get(&self, name: &str) -> (r: Option<&Node>)
        ensures
            match r {
                Some(node) => dir_get(self.model(), name@) == Some(node.model()),
                None => dir_get(self.model(), name@) is None,
            },
    {
        let (at, found) = self.slot_of(name);
        if found {
            Some(&self.entries[at].node)
        } else {
            None
        }
    }

    /// Puts `node` under `name`, in place of what stood there, if anything did.
    pub fn insert(&mut self, name: String, node: Node)
        ensures
            final(self).model() == dir_put(old(self).model(), name@, node.model()),
            old(self).wf() && node_wf(node.model()) ==> final(self).wf(),
    {
        let (at, found) = self.slot_of(name.as_str());
        let ghost entry = EntryModel { name: name@, node: node.model() };
        if found {
            self.entries.set(at, DirEntry { name, node });
        } else {
            self.entries.insert(at, DirEntry { name, node });
        }
        proof {
            if old(self).wf() && node_wf(node.model()) {
                lemma_dir_put_wf(old(self).model(), name@, node.model());
            }
        }
    }

    /// Takes out the entry named `name` and returns what stood under it.
    pub fn remove(&mut self, name: &str) -> (r: Option<Node>)
        ensures
            final(self).model() == dir_remove(old(self).model(), name@),
            match r {
                Some(node) => dir_get(old(self).model(), name@) == Some(node.model()),
                None => dir_get(old(self).model(), name@) is None,
            },
            old(self).wf() ==> final(self).wf(),
            old(self).wf() && r is Some ==> node_wf(r->0.model()),
    {
        let (at, found) = self.slot_of(name);
        if found {
            let entry = self.entries.remove(at);
            assert(self.model() =~= old(self).model().remove(at as int));
            Some(entry.node)
        } else {
            None
        }
    }
}

} // verus!
