//! The object store: immutable content kept under the digest of its bytes.

use vstd::hash_map::StringHashMap;
use vstd::prelude::*;

use crate::codec::{read_text, text_of};
use crate::digest::{digest_of, is_digest, is_valid_hash, object_digest};
use crate::error::GiniError;

verus! {

/// The largest object, in bytes, that a store accepts unless it is made with another
/// limit: 100 MiB.
pub const MAX_FILE_SIZE: u64 = 104857600;

/// What a store holds: the content kept under each digest.
pub type Objects = Map<Seq<char>, Seq<u8>>;

/// A content-addressed object store. An object is kept under the digest of its bytes,
/// is written once and never changes.
pub struct ObjectStore {
    objects: StringHashMap<Vec<u8>>,
    digests: Vec<String>,
    limit: u64,
}

/// The store after `content` was put into `objects`, and what the put returned. Content
/// over the limit is refused. Else the digest of the content is returned, and the content
/// is kept under it unless something is kept there already.
pub open spec fn put_spec(objects: Objects, content: Seq<u8>, limit: nat) -> (
    Objects,
    Result<Seq<char>, GiniError>,
) {
    if content.len() > limit {
        (objects, Err(GiniError::ObjectTooLarge))
    } else {
        let digest = object_digest(content);
        (
            if objects.contains_key(digest) {
                objects
            } else {
                objects.insert(digest, content)
            },
            Ok(digest),
        )
    }
}

/// What reading the object under `digest` gives: its bytes, if `digest` has the shape of
/// a digest and an object is kept under it.
pub open spec fn get_spec(objects: Objects, digest: Seq<char>) -> Result<Seq<u8>, GiniError> {
    if !is_digest(digest) {
        Err(GiniError::InvalidDigest)
    } else if !objects.contains_key(digest) {
        Err(GiniError::ObjectNotFound)
    } else {
        Ok(objects[digest])
    }
}

/// What reading the object under `digest` as text gives.
pub open spec fn get_text_spec(objects: Objects, digest: Seq<char>) -> Result<
    Seq<char>,
    GiniError,
> {
    match get_spec(objects, digest) {
        Ok(bytes) => text_of(bytes),
        Err(e) => Err(e),
    }
}

/// Putting the same content twice returns the same digest both times, and the second
/// put changes nothing: the store keeps one object under that digest.
pub proof fn lemma_put_is_idempotent(objects: Objects, content: Seq<u8>, limit: nat)
    ensures
        put_spec(put_spec(objects, content, limit).0, content, limit) == put_spec(
            objects,
            content,
            limit,
        ),
        put_spec(objects, content, limit).1 is Ok ==> put_spec(
            objects,
            content,
            limit,
        ).0.contains_key(object_digest(content)),
        put_spec(objects, content, limit).1 is Ok && (!objects.contains_key(
            object_digest(content),
        ) || objects[object_digest(content)] == content) ==> put_spec(
            objects,
            content,
            limit,
        ).0[object_digest(content)] == content,
{
}

/// A list that continues a list that continues a third continues the third.
pub proof fn lemma_prefix_transitive(a: Seq<Seq<char>>, b: Seq<Seq<char>>, c: Seq<Seq<char>>)
    requires
        a.is_prefix_of(b),
        b.is_prefix_of(c),
    ensures
        a.is_prefix_of(c),
{
    assert(a =~= c.subrange(0, a.len() as int));
}

/// A put never changes or removes what the store already keeps.
pub proof fn lemma_put_keeps_objects(objects: Objects, content: Seq<u8>, limit: nat)
    ensures
        forall|d: Seq<char>| #[trigger]
            objects.contains_key(d) ==> put_spec(objects, content, limit).0.contains_key(d)
                && put_spec(objects, content, limit).0[d] == objects[d],
{
}

impl ObjectStore {
    /// Whether the list of digests names each object that is kept exactly once.
    pub closed spec fn wf(&self) -> bool {
        &&& forall|i: int|
            0 <= i < self.digests@.len() ==> self.objects@.contains_key(
                #[trigger] self.digests@[i]@,
            )
        &&& forall|d: Seq<char>|
            self.objects@.contains_key(d) ==> exists|i: int|
                0 <= i < self.digests@.len() && #[trigger] self.digests@[i]@ == d
        &&& forall|i: int, j: int|
            0 <= i < j < self.digests@.len() ==> #[trigger] self.digests@[i]@
                != #[trigger] self.digests@[j]@
    }

    /// The objects that the store keeps.
    pub closed spec fn view(&self) -> Objects {
        Map::new(
            |d: Seq<char>| self.objects@.contains_key(d),
            |d: Seq<char>| self.objects@[d]@,
        )
    }

    /// The size above which the store refuses an object.
    pub closed spec fn limit(&self) -> nat {
        self.limit as nat
    }

    /// The digests of the objects kept, in the order in which they came.
    pub closed spec fn digests(&self) -> Seq<Seq<char>> {
        Seq::new(self.digests@.len(), |i: int| self.digests@[i]@)
    }

    /// The digests listed are those of the objects kept, each once.
    pub proof fn lemma_digests(&self)
        requires
            self.wf(),
        ensures
            forall|i: int|
                0 <= i < self.digests().len() ==> self@.contains_key(#[trigger] self.digests()[i]),
            forall|d: Seq<char>|
                self@.contains_key(d) ==> exists|i: int|
                    0 <= i < self.digests().len() && #[trigger] self.digests()[i] == d,
            forall|i: int, j: int|
                0 <= i < j < self.digests().len() ==> #[trigger] self.digests()[i]
                    != #[trigger] self.digests()[j],
    {
        assert forall|d: Seq<char>| self@.contains_key(d) implies exists|i: int|
            0 <= i < self.digests().len() && #[trigger] self.digests()[i] == d by {
            let i = choose|i: int| 0 <= i < self.digests@.len() && #[trigger] self.digests@[i]@ == d;
            assert(self.digests()[i] == d);
        }
    }

    /// The store keeps as many objects as it lists digests.
    pub proof fn lemma_count(&self)
        requires
            self.wf(),
        ensures
            self@.dom().finite(),
            self@.dom().len() == self.digests().len(),
    {
        self.lemma_digests();
        let listed = self.digests();
        listed.unique_seq_to_set();
        assert(listed.to_set() =~= self@.dom());
    }

    /// An empty store that refuses objects of more than `limit` bytes.
    pub fn new(limit: u64) -> (store: ObjectStore)
        ensures
            store.wf(),
            store@ == Map::<Seq<char>, Seq<u8>>::empty(),
            store.limit() == limit,
            store.digests().len() == 0,
    {
        ObjectStore { objects: StringHashMap::new(), digests: Vec::new(), limit }
    }

    /// The size above which the store refuses an object.
    pub fn max_size(&self) -> (limit: u64)
        ensures
            limit == self.limit(),
    {
        self.limit
    }

    /// The number of objects kept.
    pub fn len(&self) -> (n: usize)
        ensures
            n == self.digests().len(),
    {
        self.digests.len()
    }

    /// The digest of the `i`-th object kept.
    pub fn digest_at(&self, i: usize) -> (digest: &String)
        requires
            i < self.digests().len(),
        ensures
            digest@ == self.digests()[i as int],
    {
        &self.digests[i]
    }

    /// Tells whether an object is kept under `digest`.
    pub fn contains(&self, digest: &str) -> (r: bool)
        ensures
            r == self@.contains_key(digest@),
    {
        self.objects.contains_key(digest)
    }

    /// Keeps `content` under `digest` without hashing it, as when objects are read back
    /// from where they were saved. Does so, and returns `true`, if `digest` has the shape
    /// of a digest and nothing is kept under it yet; else changes nothing.
    pub fn load(&mut self, digest: String, content: Vec<u8>) -> (added: bool)
        requires
            old(self).wf(),
        ensures
            final(self).wf(),
            final(self).limit() == old(self).limit(),
            added == (is_digest(digest@) && !old(self)@.contains_key(digest@)),
            added ==> final(self)@ == old(self)@.insert(digest@, content@),
            added ==> final(self).digests() == old(self).digests().push(digest@),
            !added ==> final(self)@ == old(self)@ && final(self).digests() == old(self).digests(),
    {
        if !is_valid_hash(digest.as_str()) || self.objects.contains_key(digest.as_str()) {
            return false;
        }
        self.insert_new(digest, content);
        true
    }

    fn insert_new(&mut self, digest: String, content: Vec<u8>)
        requires
            old(self).wf(),
            !old(self)@.contains_key(digest@),
        ensures
            final(self).wf(),
            final(self).limit() == old(self).limit(),
            final(self)@ == old(self)@.insert(digest@, content@),
            final(self).digests() == old(self).digests().push(digest@),
    {
        let key = digest.clone();
        self.objects.insert(key, content);
        self.digests.push(digest);
        assert forall|d: Seq<char>| self.objects@.contains_key(d) implies exists|i: int|
            0 <= i < self.digests@.len() && #[trigger] self.digests@[i]@ == d by {
            if d == digest@ {
                assert(self.digests@[self.digests@.len() - 1]@ == d);
            } else {
                let i = choose|i: int|
                    0 <= i < old(self).digests@.len() && #[trigger] old(self).digests@[i]@ == d;
                assert(self.digests@[i]@ == d);
            }
        }
    }

    /// Stores `content` and returns its digest. Content that is already there is not
    /// stored again.
    pub fn put(&mut self, content: &[u8]) -> (r: Result<String, GiniError>)
        requires
            old(self).wf(),
        ensures
            final(self).wf(),
            final(self).limit() == old(self).limit(),
            final(self)@ == put_spec(old(self)@, content@, old(self).limit()).0,
            match r {
                Ok(digest) => put_spec(old(self)@, content@, old(self).limit()).1 == Ok::<
                    Seq<char>,
                    GiniError,
                >(digest@),
                Err(e) => put_spec(old(self)@, content@, old(self).limit()).1 == Err::<
                    Seq<char>,
                    GiniError,
                >(e),
            },
            final(self).digests() == if r is Ok && !old(self)@.contains_key(r->Ok_0@) {
                old(self).digests().push(r->Ok_0@)
            } else {
                old(self).digests()
            },
            old(self).digests().is_prefix_of(final(self).digests()),
    {
        assert(self.digests().is_prefix_of(self.digests().push(object_digest(content@))));
        if content.len() as u64 > self.limit {
            return Err(GiniError::ObjectTooLarge);
        }
        let digest = digest_of(content);
        if !self.objects.contains_key(digest.as_str()) {
            let bytes = vstd::slice::slice_to_vec(content);
            self.insert_new(digest.clone(), bytes);
        }
        Ok(digest)
    }

    /// The bytes of the object kept under `digest`.
    pub fn get(&self, digest: &str) -> (r: Result<&Vec<u8>, GiniError>)
        ensures
            match r {
                Ok(bytes) => get_spec(self@, digest@) == Ok::<Seq<u8>, GiniError>(bytes@),
                Err(e) => get_spec(self@, digest@) == Err::<Seq<u8>, GiniError>(e),
            },
    {
        if !is_valid_hash(digest) {
            return Err(GiniError::InvalidDigest);
        }
        match self.objects.get(digest) {
            Some(bytes) => Ok(bytes),
            None => Err(GiniError::ObjectNotFound),
        }
    }

    /// The object kept under `digest`, read as text.
    pub fn get_text(&self, digest: &str) -> (r: Result<String, GiniError>)
        ensures
            match r {
                Ok(text) => get_text_spec(self@, digest@) == Ok::<Seq<char>, GiniError>(text@),
                Err(e) => get_text_spec(self@, digest@) == Err::<Seq<char>, GiniError>(e),
            },
    {
        match self.get(digest) {
            Ok(bytes) => read_text(bytes.as_slice()),
            Err(e) => Err(e),
        }
    }
}

} // verus!
