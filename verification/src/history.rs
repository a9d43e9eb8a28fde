//! The chain of commits: writing a commit, reading its tree, walking back to the first.

use vstd::prelude::*;

use crate::codec::{
    commit_bytes, commit_details, commit_tree, encode_commit, option_text, parse_commit_details,
    parse_commit_tree,
};
use crate::error::GiniError;
use crate::store::{get_text_spec, put_spec, ObjectStore, Objects};
use crate::text::{extend_chars, lines, split_lines, to_chars, to_string};

verus! {

/// One commit of a history.
#[derive(Debug)]
pub struct HistoryEntry {
    pub digest: String,
    pub author: String,
    pub message: String,
}

/// One commit of a history, as a mathematical value.
pub struct HistoryEntryModel {
    pub digest: Seq<char>,
    pub author: Seq<char>,
    pub message: Seq<char>,
}

impl View for HistoryEntry {
    type V = HistoryEntryModel;

    open spec fn view(&self) -> HistoryEntryModel {
        HistoryEntryModel { digest: self.digest@, author: self.author@, message: self.message@ }
    }
}

/// The views of the entries of `entries`.
pub open spec fn history_view(entries: Seq<HistoryEntry>) -> Seq<HistoryEntryModel> {
    Seq::new(entries.len(), |i: int| entries[i]@)
}

/// Stores a commit of `tree` with the given parent, author, time and message, and
/// returns its digest. Touches no ref.
pub fn create_commit(
    store: &mut ObjectStore,
    tree: &str,
    parent: &Option<String>,
    author_name: &str,
    author_email: &str,
    timestamp: u64,
    message: &str,
) -> (r: Result<String, GiniError>)
    requires
        old(store).wf(),
    ensures
        final(store).wf(),
        final(store).limit() == old(store).limit(),
        old(store).digests().is_prefix_of(final(store).digests()),
        final(store)@ == put_spec(
            old(store)@,
            commit_bytes(
                tree@,
                option_text(*parent),
                author_name@,
                author_email@,
                timestamp as nat,
                message@,
            ),
            old(store).limit(),
        ).0,
        match r {
            Ok(digest) => put_spec(
                old(store)@,
                commit_bytes(
                    tree@,
                    option_text(*parent),
                    author_name@,
                    author_email@,
                    timestamp as nat,
                    message@,
                ),
                old(store).limit(),
            ).1 == Ok::<Seq<char>, GiniError>(digest@),
            Err(e) => put_spec(
                old(store)@,
                commit_bytes(
                    tree@,
                    option_text(*parent),
                    author_name@,
                    author_email@,
                    timestamp as nat,
                    message@,
                ),
                old(store).limit(),
            ).1 == Err::<Seq<char>, GiniError>(e),
        },
{
    let bytes = encode_commit(tree, parent, author_name, author_email, timestamp, message);
    store.put(bytes.as_slice())
}

/// The tree of the commit kept under `commit` in `objects`.
pub open spec fn resolve_tree_spec(objects: Objects, commit: Seq<char>) -> Result<
    Seq<char>,
    GiniError,
> {
    match get_text_spec(objects, commit) {
        Ok(text) => commit_tree(text),
        Err(e) => Err(e),
    }
}

/// Reads the commit kept under `commit` and returns the digest of its tree.
pub fn resolve_tree(store: &ObjectStore, commit: &str) -> (r: Result<String, GiniError>)
    ensures
        match r {
            Ok(tree) => resolve_tree_spec(store@, commit@) == Ok::<Seq<char>, GiniError>(tree@),
            Err(e) => resolve_tree_spec(store@, commit@) == Err::<Seq<char>, GiniError>(e),
        },
{
    match store.get_text(commit) {
        Ok(text) => parse_commit_tree(text.as_str()),
        Err(e) => Err(e),
    }
}

/// The commits from `at` back to the first, newest first, as far as `fuel` steps reach.
/// Each commit is read from `objects` and names the next by its parent line; the walk
/// ends at a commit without parent. A commit that is missing or cannot be read fails
/// the whole walk, and so does a commit that is there after `fuel` steps.
pub open spec fn history_from(objects: Objects, at: Option<Seq<char>>, fuel: nat) -> Result<
    Seq<HistoryEntryModel>,
    GiniError,
>
    decreases fuel,
{
    match at {
        None => Ok(Seq::empty()),
        Some(digest) => match get_text_spec(objects, digest) {
            Err(e) => Err(e),
            Ok(text) => if fuel == 0 {
                Err(GiniError::MalformedObject)
            } else {
                match commit_details(text) {
                    Err(e) => Err(e),
                    Ok((parent, author, message)) => match history_from(
                        objects,
                        parent,
                        (fuel - 1) as nat,
                    ) {
                        Err(e) => Err(e),
                        Ok(rest) => Ok(seq![HistoryEntryModel { digest, author, message }] + rest),
                    },
                }
            },
        },
    }
}

/// The digests of the commits of `entries`.
pub open spec fn commit_digests(entries: Seq<HistoryEntryModel>) -> Seq<Seq<char>> {
    Seq::new(entries.len(), |i: int| entries[i].digest)
}

/// A walk that succeeds read each of its commits from the store, and took a step for
/// each.
pub proof fn lemma_history_is_kept(objects: Objects, at: Option<Seq<char>>, fuel: nat)
    requires
        history_from(objects, at, fuel) is Ok,
    ensures
        history_from(objects, at, fuel)->Ok_0.len() <= fuel,
        forall|i: int|
            0 <= i < history_from(objects, at, fuel)->Ok_0.len() ==> objects.contains_key(
                #[trigger] history_from(objects, at, fuel)->Ok_0[i].digest,
            ),
    decreases fuel,
{
    if at is Some && fuel > 0 {
        let text = get_text_spec(objects, at->0)->Ok_0;
        let parent = commit_details(text)->Ok_0.0;
        lemma_history_is_kept(objects, parent, (fuel - 1) as nat);
        let rest = history_from(objects, parent, (fuel - 1) as nat)->Ok_0;
        let whole = history_from(objects, at, fuel)->Ok_0;
        assert forall|i: int| 0 < i < whole.len() implies #[trigger] whole[i] == rest[i - 1] by {}
    }
}

/// A walk that succeeds gives the same history with any number of steps that is at
/// least the number of its commits.
pub proof fn lemma_history_needs_its_length(
    objects: Objects,
    at: Option<Seq<char>>,
    fuel: nat,
    other: nat,
)
    requires
        history_from(objects, at, fuel) is Ok,
        other >= history_from(objects, at, fuel)->Ok_0.len(),
    ensures
        history_from(objects, at, other) == history_from(objects, at, fuel),
    decreases fuel,
{
    if at is Some && fuel > 0 {
        let text = get_text_spec(objects, at->0)->Ok_0;
        let parent = commit_details(text)->Ok_0.0;
        lemma_history_needs_its_length(objects, parent, (fuel - 1) as nat, (other - 1) as nat);
    }
}

/// The walk is complete: a history in which no commit occurs twice is walked to its
/// first commit, however long it is. The bound of the walk, the number of objects
/// kept, cuts short only chains of parents that run in a circle.
pub proof fn lemma_walk_is_complete(objects: Objects, at: Option<Seq<char>>, fuel: nat)
    requires
        objects.dom().finite(),
        history_from(objects, at, fuel) is Ok,
        commit_digests(history_from(objects, at, fuel)->Ok_0).no_duplicates(),
    ensures
        history_from(objects, at, objects.dom().len()) == history_from(objects, at, fuel),
{
    let found = history_from(objects, at, fuel)->Ok_0;
    let digests = commit_digests(found);
    lemma_history_is_kept(objects, at, fuel);
    digests.unique_seq_to_set();
    vstd::set_lib::lemma_len_subset(digests.to_set(), objects.dom());
    lemma_history_needs_its_length(objects, at, fuel, objects.dom().len());
}

/// `rest` after the commits `done`, if there is a rest.
pub open spec fn after_commits(
    done: Seq<HistoryEntryModel>,
    rest: Result<Seq<HistoryEntryModel>, GiniError>,
) -> Result<Seq<HistoryEntryModel>, GiniError> {
    match rest {
        Ok(more) => Ok(done + more),
        Err(e) => Err(e),
    }
}

/// Walks the history from the commit `head`, newest first. A chain of parents cannot be
/// longer than the number of objects kept unless it runs in a circle, so that number
/// bounds the walk: a longer chain is reported as malformed.
pub fn walk_history(store: &ObjectStore, head: Option<String>) -> (r: Result<
    Vec<HistoryEntry>,
    GiniError,
>)
    requires
        store.wf(),
    ensures
        match r {
            Ok(entries) => history_from(store@, option_text(head), store@.dom().len()) == Ok::<
                Seq<HistoryEntryModel>,
                GiniError,
            >(history_view(entries@)),
            Err(e) => history_from(store@, option_text(head), store@.dom().len()) == Err::<
                Seq<HistoryEntryModel>,
                GiniError,
            >(e),
        },
{
    proof {
        store.lemma_count();
    }
    let mut entries: Vec<HistoryEntry> = Vec::new();
    let mut at: Option<String> = head;
    let mut fuel: usize = store.len();
    let ghost whole = history_from(store@, option_text(head), store@.dom().len());
    loop
        invariant
            whole == history_from(store@, option_text(head), store@.dom().len()),
            whole == after_commits(
                history_view(entries@),
                history_from(store@, option_text(at), fuel as nat),
            ),
        ensures
            at is None,
            whole == Ok::<Seq<HistoryEntryModel>, GiniError>(history_view(entries@)),
        decreases fuel,
    {
        let digest = match at {
            Some(digest) => digest,
            None => {
                break ;
            },
        };
        let text = match store.get_text(digest.as_str()) {
            Ok(text) => text,
            Err(e) => {
                return Err(e);
            },
        };
        if fuel == 0 {
            return Err(GiniError::MalformedObject);
        }
        let (parent, author, message) = match parse_commit_details(text.as_str()) {
            Ok(details) => details,
            Err(e) => {
                return Err(e);
            },
        };
        let ghost before = history_view(entries@);
        let entry = HistoryEntry { digest, author, message };
        let ghost added = entry@;
        entries.push(entry);
        proof {
            assert(history_view(entries@) =~= before.push(added));
            let rest = history_from(store@, option_text(parent), (fuel - 1) as nat);
            if rest is Ok {
                assert(before + (seq![added] + rest->Ok_0) =~= before.push(added) + rest->Ok_0);
            }
        }
        at = parent;
        fuel = fuel - 1;
    }
    Ok(entries)
}

/// What `checkpoint ` stands for in a log.
pub open spec fn log_head() -> Seq<char> {
    seq!['c', 'h', 'e', 'c', 'k', 'p', 'o', 'i', 'n', 't', ' ']
}

/// What stands between digest and author in a log.
pub open spec fn log_author() -> Seq<char> {
    seq!['\n', 'A', 'u', 't', 'h', 'o', 'r', ':', ' ']
}

/// What stands between author and message in a log.
pub open spec fn log_gap() -> Seq<char> {
    seq!['\n', '\n', '\t']
}

/// The text of one commit in a log: digest, author and, indented, the message.
pub open spec fn log_entry_text(entry: HistoryEntryModel) -> Seq<char> {
    log_head() + entry.digest + log_author() + entry.author + log_gap() + entry.message + seq![
        '\n',
        '\n',
    ]
}

/// The text of a log of the first `upto` of `entries`, one after the other.
pub open spec fn log_text(entries: Seq<HistoryEntryModel>, upto: nat) -> Seq<char>
    decreases upto,
{
    if upto == 0 || upto > entries.len() {
        Seq::empty()
    } else {
        log_text(entries, (upto - 1) as nat) + log_entry_text(entries[upto - 1])
    }
}

/// The first line of `message`; empty if it has no line.
pub open spec fn first_line(message: Seq<char>) -> Seq<char> {
    if lines(message).len() > 0 {
        lines(message)[0]
    } else {
        Seq::empty()
    }
}

/// Digest and first line of the message of each of `entries`.
pub open spec fn summaries(entries: Seq<HistoryEntryModel>) -> Seq<(Seq<char>, Seq<char>)> {
    Seq::new(entries.len(), |i: int| (entries[i].digest, first_line(entries[i].message)))
}

/// The views of the two texts of each pair of `pairs`.
pub open spec fn pairs_view(pairs: Seq<(String, String)>) -> Seq<(Seq<char>, Seq<char>)> {
    Seq::new(pairs.len(), |i: int| (pairs[i].0@, pairs[i].1@))
}

/// Writes `entries` as a log.
pub fn format_log(entries: &Vec<HistoryEntry>) -> (text: String)
    ensures
        text@ == log_text(history_view(entries@), entries@.len()),
{
    let mut out: Vec<char> = Vec::new();
    let ghost all = history_view(entries@);
    let mut i: usize = 0;
    while i < entries.len()
        invariant
            i <= entries.len(),
            all == history_view(entries@),
            out@ == log_text(all, i as nat),
        decreases entries.len() - i,
    {
        let entry = &entries[i];
        extend_chars(&mut out, &vec!['c', 'h', 'e', 'c', 'k', 'p', 'o', 'i', 'n', 't', ' ']);
        extend_chars(&mut out, &to_chars(entry.digest.as_str()));
        extend_chars(&mut out, &vec!['\n', 'A', 'u', 't', 'h', 'o', 'r', ':', ' ']);
        extend_chars(&mut out, &to_chars(entry.author.as_str()));
        extend_chars(&mut out, &vec!['\n', '\n', '\t']);
        extend_chars(&mut out, &to_chars(entry.message.as_str()));
        out.push('\n');
        out.push('\n');
        i += 1;
    }
    to_string(&out)
}

/// Digest and first line of the message of each of `entries`.
pub fn summarize(entries: &Vec<HistoryEntry>) -> (out: Vec<(String, String)>)
    ensures
        pairs_view(out@) == summaries(history_view(entries@)),
{
    let mut out: Vec<(String, String)> = Vec::new();
    let ghost all = history_view(entries@);
    let mut i: usize = 0;
    while i < entries.len()
        invariant
            i <= entries.len(),
            all == history_view(entries@),
            out.len() == i,
            forall|j: int|
                0 <= j < i ==> (#[trigger] out@[j]).0@ == all[j].digest && out@[j].1@
                    == first_line(all[j].message),
        decreases entries.len() - i,
    {
        let entry = &entries[i];
        let rows = split_lines(&to_chars(entry.message.as_str()));
        let first = if rows.len() > 0 {
            to_string(&rows[0])
        } else {
            String::new()
        };
        out.push((entry.digest.clone(), first));
        i += 1;
    }
    out
}

} // verus!
