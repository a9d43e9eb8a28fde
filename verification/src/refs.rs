//! `HEAD` and the refs: where the current commit is recorded.

use vstd::hash_map::StringHashMap;
use vstd::prelude::*;

use crate::codec::{entry_name, is_entry_name};
use crate::digest::{is_digest, is_valid_hash};
use crate::error::{same_outcome, GiniError};
use crate::text::{copy_range, has_prefix, starts_with, to_chars, to_string, trim, trimmed};

verus! {

/// The pointer to the current commit: the content of `HEAD`, if it is there, and the
/// content of each ref file by its path below the repository's directory.
pub struct Refs {
    head: Option<String>,
    files: StringHashMap<String>,
}

/// What a `HEAD` that names a ref begins with.
pub open spec fn ref_prefix() -> Seq<char> {
    seq!['r', 'e', 'f', ':', ' ']
}

/// What `HEAD` holds in a new repository: the name of the branch `main`.
pub open spec fn initial_head() -> Seq<char> {
    seq![
        'r',
        'e',
        'f',
        ':',
        ' ',
        'r',
        'e',
        'f',
        's',
        '/',
        'h',
        'e',
        'a',
        'd',
        's',
        '/',
        'm',
        'a',
        'i',
        'n',
    ]
}

/// What the path of a branch's ref begins with.
pub open spec fn heads_prefix() -> Seq<char> {
    seq!['r', 'e', 'f', 's', '/', 'h', 'e', 'a', 'd', 's', '/']
}

/// Whether `path` is the path of a branch's ref: `refs/heads/` and then a name that can
/// name an entry of a directory. No such path leads out of the directory of the refs.
pub open spec fn is_branch_ref(path: Seq<char>) -> bool {
    has_prefix(path, heads_prefix()) && is_entry_name(
        path.subrange(heads_prefix().len() as int, path.len() as int),
    )
}

/// The ref that `head` names, if it names one: what follows `ref: `, without white space
/// around it, where that is the path of a branch's ref. A `HEAD` of any other content
/// names no ref.
pub open spec fn head_target(head: Option<Seq<char>>) -> Option<Seq<char>> {
    match head {
        Some(content) => if has_prefix(content, ref_prefix()) && is_branch_ref(
            trim(content.subrange(ref_prefix().len() as int, content.len() as int)),
        ) {
            Some(trim(content.subrange(ref_prefix().len() as int, content.len() as int)))
        } else {
            None
        },
        None => None,
    }
}

/// The commit that `head` points at. There is none without a `HEAD`, and none while the
/// ref that it names does not exist. A ref file must hold a digest, with or without white
/// space around it; a `HEAD` that names no ref must be a digest and nothing else.
pub open spec fn head_commit(head: Option<Seq<char>>, files: Map<Seq<char>, Seq<char>>) -> Result<
    Option<Seq<char>>,
    GiniError,
> {
    match head {
        None => Ok(None),
        Some(content) => match head_target(head) {
            Some(name) => if !files.contains_key(name) {
                Ok(None)
            } else if is_digest(trim(files[name])) {
                Ok(Some(trim(files[name])))
            } else {
                Err(GiniError::CorruptRepository)
            },
            None => if is_digest(content) {
                Ok(Some(content))
            } else {
                Err(GiniError::CorruptRepository)
            },
        },
    }
}

/// The ref files after `HEAD` was advanced to `digest`, and whether that went well. A
/// `HEAD` that names no ref cannot be advanced; after that, `digest` must have the shape
/// of a digest. The ref that `HEAD` names then holds `digest`.
pub open spec fn advance_spec(
    head: Option<Seq<char>>,
    files: Map<Seq<char>, Seq<char>>,
    digest: Seq<char>,
) -> (Map<Seq<char>, Seq<char>>, Result<(), GiniError>) {
    match head_target(head) {
        None => (files, Err(GiniError::DetachedHeadUnsupported)),
        Some(name) => if !is_digest(digest) {
            (files, Err(GiniError::InvalidDigest))
        } else {
            (files.insert(name, digest), Ok(()))
        },
    }
}

/// The `HEAD` of a new repository names the ref of the branch `main`.
pub proof fn lemma_initial_head_names_main()
    ensures
        head_target(Some(initial_head())) == Some(heads_prefix() + seq!['m', 'a', 'i', 'n']),
{
    let path = heads_prefix() + seq!['m', 'a', 'i', 'n'];
    let rest = initial_head().subrange(5, 20);
    assert(rest =~= path);
    assert(initial_head().subrange(0, 5) =~= ref_prefix());
    lemma_trim_of_plain(path);
    assert(path.subrange(0, 11) =~= heads_prefix());
    assert(path.subrange(11, 15) =~= seq!['m', 'a', 'i', 'n']);
    assert(path.subrange(11, 15)[0] != '.');
}

/// A text that neither begins nor ends with white space is trimmed to itself.
pub proof fn lemma_trim_of_plain(text: Seq<char>)
    requires
        text.len() > 0,
        !crate::text::is_whitespace(text[0]),
        !crate::text::is_whitespace(text.last()),
    ensures
        trim(text) == text,
{
    assert(text.subrange(0, text.len() as int) =~= text);
}

/// A ref file that holds a digest and nothing else is read as that digest: after `HEAD`
/// was advanced to a commit, that commit is the one that `HEAD` points at.
pub proof fn lemma_advanced_head_is_read(
    head: Option<Seq<char>>,
    files: Map<Seq<char>, Seq<char>>,
    digest: Seq<char>,
)
    requires
        advance_spec(head, files, digest).1 is Ok,
    ensures
        head_commit(head, advance_spec(head, files, digest).0) == Ok::<
            Option<Seq<char>>,
            GiniError,
        >(Some(digest)),
{
    assert(crate::text::is_hex_digit(digest[0]));
    assert(crate::text::is_hex_digit(digest[39]));
    lemma_trim_of_plain(digest);
}

/// Advancing a `HEAD` that names no ref fails as unsupported, whatever the digest, and
/// changes no ref file.
pub proof fn lemma_detached_head_is_not_advanced(
    head: Option<Seq<char>>,
    files: Map<Seq<char>, Seq<char>>,
    digest: Seq<char>,
)
    requires
        head_target(head) is None,
    ensures
        advance_spec(head, files, digest) == (
            files,
            Err::<(), GiniError>(GiniError::DetachedHeadUnsupported),
        ),
{
}

fn ref_prefix_chars() -> (v: Vec<char>)
    ensures
        v@ == ref_prefix(),
{
    vec!['r', 'e', 'f', ':', ' ']
}

fn initial_head_chars() -> (v: Vec<char>)
    ensures
        v@ == initial_head(),
{
    vec![
        'r',
        'e',
        'f',
        ':',
        ' ',
        'r',
        'e',
        'f',
        's',
        '/',
        'h',
        'e',
        'a',
        'd',
        's',
        '/',
        'm',
        'a',
        'i',
        'n',
    ]
}

impl Refs {
    /// The content of `HEAD`, if it is there.
    pub closed spec fn head(&self) -> Option<Seq<char>> {
        match self.head {
            Some(content) => Some(content@),
            None => None,
        }
    }

    /// The content of each ref file, by its path.
    pub closed spec fn files(&self) -> Map<Seq<char>, Seq<char>> {
        Map::new(
            |name: Seq<char>| self.files@.contains_key(name),
            |name: Seq<char>| self.files@[name]@,
        )
    }

    /// The refs of a new repository: `HEAD` names the branch `main`, and no ref file
    /// exists.
    pub fn new() -> (refs: Refs)
        ensures
            refs.head() == Some(initial_head()),
            refs.files() == Map::<Seq<char>, Seq<char>>::empty(),
    {
        Refs { head: Some(to_string(&initial_head_chars())), files: StringHashMap::new() }
    }

    /// Refs with the given content of `HEAD` and no ref file.
    pub fn with_head(head: Option<String>) -> (refs: Refs)
        ensures
            refs.head() == crate::codec::option_text(head),
            refs.files() == Map::<Seq<char>, Seq<char>>::empty(),
    {
        Refs { head, files: StringHashMap::new() }
    }

    /// The content of `HEAD`.
    pub fn head_content(&self) -> (head: &Option<String>)
        ensures
            crate::codec::option_text(*head) == self.head(),
    {
        &self.head
    }

    /// Sets the content of the ref file at `name`.
    pub fn set_ref(&mut self, name: String, content: String)
        ensures
            final(self).head() == old(self).head(),
            final(self).files() == old(self).files().insert(name@, content@),
    {
        self.files.insert(name, content);
    }

    /// The content of the ref file at `name`, if it exists.
    pub fn ref_content(&self, name: &str) -> (content: Option<&String>)
        ensures
            match content {
                Some(c) => self.files().contains_key(name@) && self.files()[name@] == c@,
                None => !self.files().contains_key(name@),
            },
    {
        self.files.get(name)
    }

    /// The path of the ref that `HEAD` names, if it names one.
    pub fn head_ref(&self) -> (name: Option<String>)
        ensures
            crate::codec::option_text(name) == head_target(self.head()),
    {
        match &self.head {
            Some(content) => {
                let chars = to_chars(content.as_str());
                let prefix = ref_prefix_chars();
                if !starts_with(&chars, &prefix) {
                    return None;
                }
                let path = trimmed(&copy_range(&chars, 5, chars.len()));
                let heads: Vec<char> = vec!['r', 'e', 'f', 's', '/', 'h', 'e', 'a', 'd', 's', '/'];
                if !starts_with(&path, &heads) {
                    return None;
                }
                if entry_name(&copy_range(&path, 11, path.len())) {
                    Some(to_string(&path))
                } else {
                    None
                }
            },
            None => None,
        }
    }
}

/// The commit that `HEAD` points at, if there is one yet.
pub fn get_head_commit(refs: &Refs) -> (r: Result<Option<String>, GiniError>)
    ensures
        match r {
            Ok(commit) => head_commit(refs.head(), refs.files()) == Ok::<
                Option<Seq<char>>,
                GiniError,
            >(crate::codec::option_text(commit)),
            Err(e) => head_commit(refs.head(), refs.files()) == Err::<
                Option<Seq<char>>,
                GiniError,
            >(e),
        },
{
    let head = match refs.head_content() {
        Some(head) => head,
        None => {
            return Ok(None);
        },
    };
    match refs.head_ref() {
        Some(name) => {
            match refs.ref_content(name.as_str()) {
                Some(content) => {
                    let hash = to_string(&trimmed(&to_chars(content.as_str())));
                    if is_valid_hash(hash.as_str()) {
                        Ok(Some(hash))
                    } else {
                        Err(GiniError::CorruptRepository)
                    }
                },
                None => Ok(None),
            }
        },
        None => {
            if is_valid_hash(head.as_str()) {
                Ok(Some(head.clone()))
            } else {
                Err(GiniError::CorruptRepository)
            }
        },
    }
}

/// Advances the ref that `HEAD` names to `commit_hash`. `HEAD` itself never changes.
pub fn update_head(refs: &mut Refs, commit_hash: &str) -> (r: Result<(), GiniError>)
    ensures
        final(refs).head() == old(refs).head(),
        final(refs).files() == advance_spec(old(refs).head(), old(refs).files(), commit_hash@).0,
        same_outcome(
            r,
            advance_spec(old(refs).head(), old(refs).files(), commit_hash@).1,
        ),
{
    let name = match refs.head_ref() {
        Some(name) => name,
        None => {
            return Err(GiniError::DetachedHeadUnsupported);
        },
    };
    if !is_valid_hash(commit_hash) {
        return Err(GiniError::InvalidDigest);
    }
    let hash = to_string(&to_chars(commit_hash));
    refs.set_ref(name, hash);
    Ok(())
}

} // verus!
