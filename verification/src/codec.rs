//! The form of tree and commit objects: how they are written as bytes and read back.

use vstd::prelude::*;
use vstd::string::StrSliceExecFns;
use vstd::utf8::{decode_utf8, encode_utf8, valid_utf8};

use crate::digest::{is_digest, is_valid_hash};
use crate::error::GiniError;
use crate::text::{
    copy_range, extend_chars, lines, rows_view, same_chars, split_lines, split_words, to_chars,
    to_string, words,
};

verus! {

/// What a tree entry refers to.
#[derive(Clone, Copy, Debug, PartialEq, Eq, Structural)]
pub enum EntryKind {
    /// The content of a file.
    Blob,
    /// The listing of a subdirectory.
    Tree,
}

/// One line of a tree object: a name in a directory, and the object that holds what is
/// under that name.
#[derive(Debug)]
pub struct TreeEntry {
    pub kind: EntryKind,
    pub digest: String,
    pub name: String,
}

/// A tree entry as a mathematical value.
pub struct TreeEntryModel {
    pub kind: EntryKind,
    pub digest: Seq<char>,
    pub name: Seq<char>,
}

impl View for TreeEntry {
    type V = TreeEntryModel;

    open spec fn view(&self) -> TreeEntryModel {
        TreeEntryModel { kind: self.kind, digest: self.digest@, name: self.name@ }
    }
}

/// The views of the entries of `entries`.
pub open spec fn entries_view(entries: Seq<TreeEntry>) -> Seq<TreeEntryModel> {
    Seq::new(entries.len(), |i: int| entries[i]@)
}

/// The text read from `bytes`, if they are UTF-8.
pub open spec fn text_of(bytes: Seq<u8>) -> Result<Seq<char>, GiniError> {
    if valid_utf8(bytes) {
        Ok(decode_utf8(bytes))
    } else {
        Err(GiniError::MalformedObject)
    }
}

/// Reads `bytes` as text with `String::from_utf8`.
///
/// Trusted: the call succeeds exactly on well-formed UTF-8, and then gives the characters
/// that the bytes encode.
#[verifier::external_body]
fn utf8_text(bytes: &[u8]) -> (r: Option<String>)
    ensures
        r is Some <==> valid_utf8(bytes@),
        r is Some ==> r->0@ == decode_utf8(bytes@),
{
    String::from_utf8(bytes.to_vec()).ok()
}

/// Reads the bytes of an object as text.
pub fn read_text(bytes: &[u8]) -> (r: Result<String, GiniError>)
    ensures
        match r {
            Ok(text) => text_of(bytes@) == Ok::<Seq<char>, GiniError>(text@),
            Err(e) => text_of(bytes@) == Err::<Seq<char>, GiniError>(e),
        },
{
    match utf8_text(bytes) {
        Some(s) => Ok(s),
        None => Err(GiniError::MalformedObject),
    }
}

/// The word `blob`.
pub open spec fn blob_word() -> Seq<char> {
    seq!['b', 'l', 'o', 'b']
}

/// The word `tree`.
pub open spec fn tree_word() -> Seq<char> {
    seq!['t', 'r', 'e', 'e']
}

/// The word that a tree line begins with.
pub open spec fn kind_word(kind: EntryKind) -> Seq<char> {
    match kind {
        EntryKind::Blob => blob_word(),
        EntryKind::Tree => tree_word(),
    }
}

/// The line of a tree object for `entry`: kind, digest and name, with one space after the
/// kind and two before the name.
pub open spec fn entry_line(entry: TreeEntryModel) -> Seq<char> {
    kind_word(entry.kind) + seq![' '] + entry.digest + seq![' ', ' '] + entry.name
}

/// `rows` put together with a line feed between each two.
pub open spec fn join_lines(rows: Seq<Seq<char>>) -> Seq<char>
    decreases rows.len(),
{
    if rows.len() == 0 {
        Seq::empty()
    } else if rows.len() == 1 {
        rows[0]
    } else {
        join_lines(rows.drop_last()) + seq!['\n'] + rows.last()
    }
}

/// The text of the tree object that lists `entries`, in the order given.
pub open spec fn tree_text(entries: Seq<TreeEntryModel>) -> Seq<char> {
    join_lines(Seq::new(entries.len(), |i: int| entry_line(entries[i])))
}

/// The bytes of the tree object that lists `entries`.
pub open spec fn tree_bytes(entries: Seq<TreeEntryModel>) -> Seq<u8> {
    encode_utf8(tree_text(entries))
}

/// The name `.`, which stands for the directory itself.
pub open spec fn dot_name() -> Seq<char> {
    seq!['.']
}

/// The name `..`, which stands for the directory above.
pub open spec fn dot_dot_name() -> Seq<char> {
    seq!['.', '.']
}

/// Whether `name` can name an entry of a directory, and so stand in a tree line: not
/// empty, without `/` or `\`, and neither `.` nor `..`. No such name leads out of the
/// directory that the entry is in.
pub open spec fn is_entry_name(name: Seq<char>) -> bool {
    &&& name.len() > 0
    &&& forall|i: int| 0 <= i < name.len() ==> name[i] != '/' && name[i] != '\\'
    &&& name != dot_name()
    &&& name != dot_dot_name()
}

/// Tells whether `name` can name an entry of a directory.
#[verifier::loop_isolation(false)]
pub fn entry_name(name: &Vec<char>) -> (r: bool)
    ensures
        r == is_entry_name(name@),
{
    if name.len() == 0 {
        return false;
    }
    let dot: Vec<char> = vec!['.'];
    let dot_dot: Vec<char> = vec!['.', '.'];
    assert(dot@ =~= dot_name() && dot_dot@ =~= dot_dot_name());
    if same_chars(name, &dot) || same_chars(name, &dot_dot) {
        return false;
    }
    let mut i: usize = 0;
    while i < name.len()
        invariant
            i <= name.len(),
            forall|j: int| 0 <= j < i ==> name@[j] != '/' && name@[j] != '\\',
        decreases name.len() - i,
    {
        if name[i] == '/' || name[i] == '\\' {
            return false;
        }
        i += 1;
    }
    true
}

/// Tells whether `name` can name an entry of a directory.
pub fn is_valid_entry_name(name: &str) -> (r: bool)
    ensures
        r == is_entry_name(name@),
{
    entry_name(&to_chars(name))
}

/// The entry that `line` stands for: three words, of which the first is `blob` or `tree`,
/// the second a digest, and the third a name.
pub open spec fn parse_entry_line(line: Seq<char>) -> Option<TreeEntryModel> {
    let w = words(line);
    if w.len() != 3 {
        None
    } else if w[0] != blob_word() && w[0] != tree_word() {
        None
    } else if !is_digest(w[1]) {
        None
    } else if !is_entry_name(w[2]) {
        None
    } else {
        Some(
            TreeEntryModel {
                kind: if w[0] == tree_word() {
                    EntryKind::Tree
                } else {
                    EntryKind::Blob
                },
                digest: w[1],
                name: w[2],
            },
        )
    }
}

/// The entries that the text of a tree object lists. One line that is no entry makes the
/// whole text malformed.
pub open spec fn parse_tree_text(text: Seq<char>) -> Result<Seq<TreeEntryModel>, GiniError> {
    let rows = lines(text);
    if forall|i: int| 0 <= i < rows.len() ==> (#[trigger] parse_entry_line(rows[i])) is Some {
        Ok(Seq::new(rows.len(), |i: int| parse_entry_line(rows[i])->0))
    } else {
        Err(GiniError::MalformedObject)
    }
}

/// The entries that the bytes of a tree object list.
pub open spec fn decode_tree_spec(bytes: Seq<u8>) -> Result<Seq<TreeEntryModel>, GiniError> {
    match text_of(bytes) {
        Ok(text) => parse_tree_text(text),
        Err(e) => Err(e),
    }
}

fn blob_chars() -> (v: Vec<char>)
    ensures
        v@ == blob_word(),
{
    vec!['b', 'l', 'o', 'b']
}

fn tree_chars() -> (v: Vec<char>)
    ensures
        v@ == tree_word(),
{
    vec!['t', 'r', 'e', 'e']
}

/// Appends the lines of `rows` to `out`, with a line feed between each two.
pub fn push_joined(out: &mut Vec<char>, rows: &Vec<Vec<char>>, from: usize)
    requires
        from <= rows.len(),
    ensures
        final(out)@ == old(out)@ + join_lines(
            rows_view(rows@).subrange(from as int, rows.len() as int),
        ),
{
    let ghost all = rows_view(rows@);
    let mut i: usize = from;
    while i < rows.len()
        invariant
            from <= i <= rows.len(),
            all == rows_view(rows@),
            out@ == old(out)@ + join_lines(all.subrange(from as int, i as int)),
        decreases rows.len() - i,
    {
        let ghost next = all.subrange(from as int, i + 1);
        assert(next.drop_last() =~= all.subrange(from as int, i as int));
        if i > from {
            out.push('\n');
        }
        extend_chars(out, &rows[i]);
        i += 1;
    }
}

/// Serialises `entries`, in the order given, as the bytes of a tree object.
pub fn encode_tree(entries: &Vec<TreeEntry>) -> (bytes: Vec<u8>)
    ensures
        bytes@ == tree_bytes(entries_view(entries@)),
{
    let mut rows: Vec<Vec<char>> = Vec::new();
    let ghost model = entries_view(entries@);
    let ghost wanted = Seq::new(model.len(), |i: int| entry_line(model[i]));
    let mut i: usize = 0;
    while i < entries.len()
        invariant
            i <= entries.len(),
            model == entries_view(entries@),
            wanted == Seq::new(model.len(), |i: int| entry_line(model[i])),
            rows_view(rows@) =~= wanted.subrange(0, i as int),
        decreases entries.len() - i,
    {
        let entry = &entries[i];
        let mut row: Vec<char> = match entry.kind {
            EntryKind::Blob => blob_chars(),
            EntryKind::Tree => tree_chars(),
        };
        row.push(' ');
        let digest = to_chars(entry.digest.as_str());
        extend_chars(&mut row, &digest);
        row.push(' ');
        row.push(' ');
        let name = to_chars(entry.name.as_str());
        extend_chars(&mut row, &name);
        assert(row@ =~= entry_line(model[i as int]));
        let ghost before = rows_view(rows@);
        let ghost line = row@;
        rows.push(row);
        assert(rows_view(rows@) =~= before.push(line));
        i += 1;
    }
    let mut text: Vec<char> = Vec::new();
    push_joined(&mut text, &rows, 0);
    assert(rows_view(rows@).subrange(0, rows.len() as int) =~= wanted);
    let s = to_string(&text);
    s.as_str().as_bytes_vec()
}

/// Reads one line of a tree object.
fn parse_entry(line: &Vec<char>) -> (r: Option<TreeEntry>)
    ensures
        r is Some <==> parse_entry_line(line@) is Some,
        r is Some ==> r->0@ == parse_entry_line(line@)->0,
{
    let w = split_words(line);
    if w.len() != 3 {
        return None;
    }
    let blob = blob_chars();
    let tree = tree_chars();
    let is_tree = same_chars(&w[0], &tree);
    if !is_tree && !same_chars(&w[0], &blob) {
        return None;
    }
    let digest = to_string(&w[1]);
    if !is_valid_hash(digest.as_str()) {
        return None;
    }
    let name = &w[2];
    if !entry_name(name) {
        return None;
    }
    Some(
        TreeEntry {
            kind: if is_tree {
                EntryKind::Tree
            } else {
                EntryKind::Blob
            },
            digest,
            name: to_string(name),
        },
    )
}

/// Reads the text of a tree object.
pub fn parse_tree(text: &str) -> (r: Result<Vec<TreeEntry>, GiniError>)
    ensures
        r is Ok <==> parse_tree_text(text@) is Ok,
        r is Ok ==> entries_view(r->Ok_0@) == parse_tree_text(text@)->Ok_0,
        r is Err ==> r->Err_0 == GiniError::MalformedObject,
{
    let chars = to_chars(text);
    let rows = split_lines(&chars);
    let mut out: Vec<TreeEntry> = Vec::new();
    let mut i: usize = 0;
    while i < rows.len()
        invariant
            i <= rows.len(),
            rows_view(rows@) == lines(text@),
            out.len() == i,
            forall|j: int|
                0 <= j < i ==> (#[trigger] parse_entry_line(lines(text@)[j])) is Some && out@[j]@
                    == parse_entry_line(lines(text@)[j])->0,
        decreases rows.len() - i,
    {
        match parse_entry(&rows[i]) {
            Some(entry) => {
                out.push(entry);
            },
            None => {
                assert(!(parse_entry_line(lines(text@)[i as int]) is Some));
                return Err(GiniError::MalformedObject);
            },
        }
        i += 1;
    }
    Ok(out)
}

/// Reads the bytes of a tree object. Fails with `MalformedObject` unless the bytes are
/// text of which every line is a tree entry.
pub fn decode_tree(bytes: &[u8]) -> (r: Result<Vec<TreeEntry>, GiniError>)
    ensures
        r is Ok <==> decode_tree_spec(bytes@) is Ok,
        r is Ok ==> entries_view(r->Ok_0@) == decode_tree_spec(bytes@)->Ok_0,
        r is Err ==> r->Err_0 == GiniError::MalformedObject,
{
    match read_text(bytes) {
        Ok(text) => parse_tree(text.as_str()),
        Err(e) => Err(e),
    }
}

/// The views of the two parts of an optional text.
pub open spec fn option_text(o: Option<String>) -> Option<Seq<char>> {
    match o {
        Some(s) => Some(s@),
        None => None,
    }
}

/// What a commit's line that names its tree begins with.
pub open spec fn tree_prefix() -> Seq<char> {
    seq!['t', 'r', 'e', 'e', ' ']
}

/// What a commit's line that names its parent begins with.
pub open spec fn parent_prefix() -> Seq<char> {
    seq!['p', 'a', 'r', 'e', 'n', 't', ' ']
}

/// What a commit's line that names its author begins with.
pub open spec fn author_prefix() -> Seq<char> {
    seq!['a', 'u', 't', 'h', 'o', 'r', ' ']
}

/// The time zone that every commit is written with.
pub open spec fn zone_suffix() -> Seq<char> {
    seq![' ', '+', '0', '5', '3', '0']
}

/// The author line's text after `author `: name, address in angle brackets, time in
/// seconds, and time zone.
pub open spec fn author_text(name: Seq<char>, email: Seq<char>, timestamp: nat) -> Seq<char> {
    name + seq![' ', '<'] + email + seq!['>', ' '] + crate::text::decimal(timestamp)
        + zone_suffix()
}

/// The text of a commit object: the tree line, the parent line if there is a parent, the
/// author line, an empty line, and the message as it is.
pub open spec fn commit_text(
    tree: Seq<char>,
    parent: Option<Seq<char>>,
    name: Seq<char>,
    email: Seq<char>,
    timestamp: nat,
    message: Seq<char>,
) -> Seq<char> {
    tree_prefix() + tree + seq!['\n'] + (match parent {
        Some(p) => parent_prefix() + p + seq!['\n'],
        None => Seq::empty(),
    }) + author_prefix() + author_text(name, email, timestamp) + seq!['\n', '\n'] + message
}

/// The bytes of a commit object.
pub open spec fn commit_bytes(
    tree: Seq<char>,
    parent: Option<Seq<char>>,
    name: Seq<char>,
    email: Seq<char>,
    timestamp: nat,
    message: Seq<char>,
) -> Seq<u8> {
    encode_utf8(commit_text(tree, parent, name, email, timestamp, message))
}

fn tree_prefix_chars() -> (v: Vec<char>)
    ensures
        v@ == tree_prefix(),
{
    vec!['t', 'r', 'e', 'e', ' ']
}

fn parent_prefix_chars() -> (v: Vec<char>)
    ensures
        v@ == parent_prefix(),
{
    vec!['p', 'a', 'r', 'e', 'n', 't', ' ']
}

fn author_prefix_chars() -> (v: Vec<char>)
    ensures
        v@ == author_prefix(),
{
    vec!['a', 'u', 't', 'h', 'o', 'r', ' ']
}

fn zone_suffix_chars() -> (v: Vec<char>)
    ensures
        v@ == zone_suffix(),
{
    vec![' ', '+', '0', '5', '3', '0']
}

/// Serialises a commit as the bytes of a commit object.
pub fn encode_commit(
    tree: &str,
    parent: &Option<String>,
    author_name: &str,
    author_email: &str,
    timestamp: u64,
    message: &str,
) -> (bytes: Vec<u8>)
    ensures
        bytes@ == commit_bytes(
            tree@,
            option_text(*parent),
            author_name@,
            author_email@,
            timestamp as nat,
            message@,
        ),
{
    let mut out = tree_prefix_chars();
    extend_chars(&mut out, &to_chars(tree));
    out.push('\n');
    match parent {
        Some(p) => {
            extend_chars(&mut out, &parent_prefix_chars());
            extend_chars(&mut out, &to_chars(p.as_str()));
            out.push('\n');
        },
        None => {},
    }
    let ghost head = out@;
    assert(head =~= tree_prefix() + tree@ + seq!['\n'] + (match option_text(*parent) {
        Some(p) => parent_prefix() + p + seq!['\n'],
        None => Seq::empty(),
    }));
    let mut author = to_chars(author_name);
    author.push(' ');
    author.push('<');
    extend_chars(&mut author, &to_chars(author_email));
    author.push('>');
    author.push(' ');
    crate::text::push_decimal(&mut author, timestamp);
    extend_chars(&mut author, &zone_suffix_chars());
    assert(author@ =~= author_text(author_name@, author_email@, timestamp as nat));
    extend_chars(&mut out, &author_prefix_chars());
    extend_chars(&mut out, &author);
    out.push('\n');
    out.push('\n');
    extend_chars(&mut out, &to_chars(message));
    assert(out@ =~= head + author_prefix() + author@ + seq!['\n', '\n'] + message@);
    let s = to_string(&out);
    s.as_str().as_bytes_vec()
}

/// Whether an empty line starts at `at`: `at` is the start of a line, and what stands
/// there is a line ending, a line feed alone or after a carriage return.
pub open spec fn is_blank_at(text: Seq<char>, at: int) -> bool {
    &&& 0 <= at < text.len()
    &&& at == 0 || text[at - 1] == '\n'
    &&& text[at] == '\n' || (text[at] == '\r' && at + 1 < text.len() && text[at + 1] == '\n')
}

/// Where the first empty line at or after `from` starts, or the length of `text`.
pub open spec fn first_blank(text: Seq<char>, from: int) -> int
    decreases text.len() - from,
{
    if from < 0 || from >= text.len() {
        text.len() as int
    } else if is_blank_at(text, from) {
        from
    } else {
        first_blank(text, from + 1)
    }
}

/// `first_blank` stays within the text, at or after where it starts.
pub proof fn lemma_first_blank(text: Seq<char>, from: int)
    requires
        0 <= from <= text.len(),
    ensures
        from <= first_blank(text, from) <= text.len(),
        first_blank(text, from) < text.len() ==> is_blank_at(text, first_blank(text, from)),
    decreases text.len() - from,
{
    if from < text.len() && !is_blank_at(text, from) {
        lemma_first_blank(text, from + 1);
    }
}

/// The header of a commit: the lines of `text` before its first empty line; all its
/// lines where it has no empty line.
pub open spec fn commit_header(text: Seq<char>) -> Seq<Seq<char>> {
    lines(text.subrange(0, first_blank(text, 0)))
}

/// Where the body of a commit starts: after the line ending of the first empty line of
/// `text`; at the end of `text` where it has no empty line.
pub open spec fn body_start(text: Seq<char>) -> int {
    let at = first_blank(text, 0);
    if at >= text.len() {
        text.len() as int
    } else if text[at] == '\n' {
        at + 1
    } else {
        at + 2
    }
}

/// The message of a commit: all of `text` after its first empty line, as it stands.
pub open spec fn commit_message(text: Seq<char>) -> Seq<char> {
    text.subrange(body_start(text), text.len() as int)
}

/// Index of the first row at or after `from` that begins with `tree `, or the number of
/// rows.
pub open spec fn first_tree_row(rows: Seq<Seq<char>>, from: int) -> int
    decreases rows.len() - from,
{
    if from < 0 || from >= rows.len() {
        rows.len() as int
    } else if crate::text::has_prefix(rows[from], tree_prefix()) {
        from
    } else {
        first_tree_row(rows, from + 1)
    }
}

/// The digest of the tree that the header `rows` names: the second of the two words of
/// the first row that begins with `tree `. A header without such a row, or whose row
/// does not hold exactly the word `tree` and a digest, is malformed.
pub open spec fn header_tree(rows: Seq<Seq<char>>) -> Result<Seq<char>, GiniError> {
    let at = first_tree_row(rows, 0);
    if !(0 <= at < rows.len()) {
        Err(GiniError::MalformedObject)
    } else if words(rows[at]).len() != 2 || !is_digest(words(rows[at])[1]) {
        Err(GiniError::MalformedObject)
    } else {
        Ok(words(rows[at])[1])
    }
}

/// The digest of the tree that the text of a commit names, in its header. A line of
/// the message that looks like a tree line does not count.
pub open spec fn commit_tree(text: Seq<char>) -> Result<Seq<char>, GiniError> {
    header_tree(commit_header(text))
}

/// Splits the text of a commit into the rows of its header and its body, and returns
/// the rows and where the body starts.
fn split_commit(chars: &Vec<char>) -> (r: (Vec<Vec<char>>, usize))
    ensures
        rows_view(r.0@) == commit_header(chars@),
        r.1 == body_start(chars@),
        r.1 <= chars.len(),
{
    let n = chars.len();
    let mut at: usize = 0;
    while at < n
        invariant
            at <= n,
            n == chars.len(),
            first_blank(chars@, 0) == first_blank(chars@, at as int),
        ensures
            at <= n,
            first_blank(chars@, 0) == at,
            at < n ==> is_blank_at(chars@, at as int),
        decreases n - at,
    {
        if (at == 0 || chars[at - 1] == '\n') && (chars[at] == '\n' || (chars[at] == '\r' && at + 1
            < n && chars[at + 1] == '\n')) {
            break ;
        }
        at += 1;
    }
    let header = copy_range(chars, 0, at);
    let rows = split_lines(&header);
    let body = if at >= n {
        n
    } else if chars[at] == '\n' {
        at + 1
    } else {
        at + 2
    };
    (rows, body)
}

/// Finds the tree that the rows of a header name.
fn find_tree(rows: &Vec<Vec<char>>) -> (r: Result<String, GiniError>)
    ensures
        match r {
            Ok(tree) => header_tree(rows_view(rows@)) == Ok::<Seq<char>, GiniError>(tree@),
            Err(e) => header_tree(rows_view(rows@)) == Err::<Seq<char>, GiniError>(e),
        },
{
    let prefix = tree_prefix_chars();
    let ghost all = rows_view(rows@);
    let mut i: usize = 0;
    while i < rows.len()
        invariant
            i <= rows.len(),
            prefix@ == tree_prefix(),
            all == rows_view(rows@),
            first_tree_row(all, 0) == first_tree_row(all, i as int),
        decreases rows.len() - i,
    {
        assert(all[i as int] == rows@[i as int]@);
        if crate::text::starts_with(&rows[i], &prefix) {
            let w = split_words(&rows[i]);
            if w.len() != 2 {
                return Err(GiniError::MalformedObject);
            }
            assert(rows_view(w@)[1] == w@[1]@);
            let hash = to_string(&w[1]);
            if !is_valid_hash(hash.as_str()) {
                return Err(GiniError::MalformedObject);
            }
            return Ok(hash);
        }
        i += 1;
    }
    Err(GiniError::MalformedObject)
}

/// Finds the tree that a commit names.
pub fn parse_commit_tree(commit_content: &str) -> (r: Result<String, GiniError>)
    ensures
        match r {
            Ok(tree) => commit_tree(commit_content@) == Ok::<Seq<char>, GiniError>(tree@),
            Err(e) => commit_tree(commit_content@) == Err::<Seq<char>, GiniError>(e),
        },
{
    let chars = to_chars(commit_content);
    let (rows, _) = split_commit(&chars);
    find_tree(&rows)
}

/// Whether `row` is a parent line that names its parent properly: the word `parent` and
/// a digest.
pub open spec fn parent_row_ok(row: Seq<char>) -> bool {
    words(row).len() == 2 && is_digest(words(row)[1])
}

/// The parent named by the last parent line among the first `upto` rows.
pub open spec fn last_parent(rows: Seq<Seq<char>>, upto: int) -> Option<Seq<char>>
    decreases upto,
{
    if upto <= 0 || upto > rows.len() {
        None
    } else if crate::text::has_prefix(rows[upto - 1], parent_prefix()) {
        Some(words(rows[upto - 1])[1])
    } else {
        last_parent(rows, upto - 1)
    }
}

/// The author named by the last author line among the first `upto` rows: the text after
/// `author `; empty where there is no such line.
pub open spec fn last_author(rows: Seq<Seq<char>>, upto: int) -> Seq<char>
    decreases upto,
{
    if upto <= 0 || upto > rows.len() {
        Seq::empty()
    } else if crate::text::has_prefix(rows[upto - 1], author_prefix()) {
        rows[upto - 1].subrange(author_prefix().len() as int, rows[upto - 1].len() as int)
    } else {
        last_author(rows, upto - 1)
    }
}

/// Parent, author and message of the commit that `text` holds. The header runs up to the
/// first empty line; the message is all that follows it, unchanged. The header must name
/// a tree properly, and a parent line in it must hold exactly the word `parent` and a
/// digest: a text of which either fails is no commit.
pub open spec fn commit_details(text: Seq<char>) -> Result<
    (Option<Seq<char>>, Seq<char>, Seq<char>),
    GiniError,
> {
    let rows = commit_header(text);
    if header_tree(rows) is Err {
        Err(GiniError::MalformedObject)
    } else if exists|i: int|
        0 <= i < rows.len() && crate::text::has_prefix(#[trigger] rows[i], parent_prefix())
            && !parent_row_ok(rows[i]) {
        Err(GiniError::MalformedObject)
    } else {
        Ok((last_parent(rows, rows.len() as int), last_author(rows, rows.len() as int), commit_message(text)))
    }
}

/// Reads parent, author and message from the text of a commit.
pub fn parse_commit_details(commit_content: &str) -> (r: Result<
    (Option<String>, String, String),
    GiniError,
>)
    ensures
        match r {
            Ok((parent, author, message)) => commit_details(commit_content@) == Ok::<
                (Option<Seq<char>>, Seq<char>, Seq<char>),
                GiniError,
            >((option_text(parent), author@, message@)),
            Err(e) => commit_details(commit_content@) == Err::<
                (Option<Seq<char>>, Seq<char>, Seq<char>),
                GiniError,
            >(e),
        },
{
    let chars = to_chars(commit_content);
    let (rows, body) = split_commit(&chars);
    match find_tree(&rows) {
        Ok(_) => {},
        Err(_) => {
            return Err(GiniError::MalformedObject);
        },
    }
    let ghost all = commit_header(commit_content@);
    let parent_mark = parent_prefix_chars();
    let author_mark = author_prefix_chars();
    let mut parent: Option<String> = None;
    let mut author: Vec<char> = Vec::new();
    let mut i: usize = 0;
    while i < rows.len()
        invariant
            i <= rows.len(),
            all == commit_header(commit_content@),
            rows_view(rows@) == all,
            header_tree(all) is Ok,
            parent_mark@ == parent_prefix(),
            author_mark@ == author_prefix(),
            forall|j: int|
                0 <= j < i && crate::text::has_prefix(#[trigger] all[j], parent_prefix())
                    ==> parent_row_ok(all[j]),
            option_text(parent) == last_parent(all, i as int),
            author@ == last_author(all, i as int),
        decreases rows.len() - i,
    {
        let row = &rows[i];
        assert(all[i as int] == row@);
        if crate::text::starts_with(row, &parent_mark) {
            let w = split_words(row);
            if w.len() != 2 {
                return Err(GiniError::MalformedObject);
            }
            assert(rows_view(w@)[1] == w@[1]@);
            let hash = to_string(&w[1]);
            if !is_valid_hash(hash.as_str()) {
                return Err(GiniError::MalformedObject);
            }
            parent = Some(hash);
        } else if crate::text::starts_with(row, &author_mark) {
            author = copy_range(row, 7, row.len());
        }
        i += 1;
    }
    let message = copy_range(&chars, body, chars.len());
    Ok((parent, to_string(&author), to_string(&message)))
}

/// A commit: the tree it records, the commit before it, who made it, and why.
#[derive(Debug)]
pub struct Commit {
    pub tree: String,
    pub parent: Option<String>,
    pub author: String,
    pub message: String,
}

/// A commit as a mathematical value.
pub struct CommitModel {
    pub tree: Seq<char>,
    pub parent: Option<Seq<char>>,
    pub author: Seq<char>,
    pub message: Seq<char>,
}

impl View for Commit {
    type V = CommitModel;

    open spec fn view(&self) -> CommitModel {
        CommitModel {
            tree: self.tree@,
            parent: option_text(self.parent),
            author: self.author@,
            message: self.message@,
        }
    }
}

/// The commit that the bytes of a commit object hold. They must be text, name a tree
/// properly, and name a parent properly or not at all.
pub open spec fn decode_commit_spec(bytes: Seq<u8>) -> Result<CommitModel, GiniError> {
    match text_of(bytes) {
        Err(e) => Err(e),
        Ok(text) => match commit_tree(text) {
            Err(e) => Err(e),
            Ok(tree) => match commit_details(text) {
                Err(e) => Err(e),
                Ok((parent, author, message)) => Ok(CommitModel { tree, parent, author, message }),
            },
        },
    }
}

/// Reads the bytes of a commit object.
pub fn decode_commit(bytes: &[u8]) -> (r: Result<Commit, GiniError>)
    ensures
        match r {
            Ok(commit) => decode_commit_spec(bytes@) == Ok::<CommitModel, GiniError>(commit@),
            Err(e) => e == GiniError::MalformedObject && decode_commit_spec(bytes@) == Err::<
                CommitModel,
                GiniError,
            >(e),
        },
{
    let text = match read_text(bytes) {
        Ok(text) => text,
        Err(e) => {
            return Err(e);
        },
    };
    let tree = match parse_commit_tree(text.as_str()) {
        Ok(tree) => tree,
        Err(e) => {
            return Err(e);
        },
    };
    match parse_commit_details(text.as_str()) {
        Ok((parent, author, message)) => Ok(Commit { tree, parent, author, message }),
        Err(e) => Err(e),
    }
}

} // verus!
