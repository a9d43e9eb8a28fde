//! Proofs about the object codec: what was written reads back as it was.

use vstd::prelude::*;
use vstd::utf8::{encode_utf8_decode_utf8, encode_utf8_valid_utf8};

use crate::codec::{
    author_prefix, author_text, commit_bytes, commit_details, commit_header, commit_message,
    commit_text, commit_tree, decode_commit_spec, decode_tree_spec, entry_line, first_blank,
    first_tree_row, header_tree, is_blank_at, is_entry_name, join_lines, kind_word, last_author,
    last_parent, lemma_first_blank, parent_prefix, parent_row_ok, parse_entry_line,
    parse_tree_text, text_of, tree_bytes, tree_prefix, tree_text, tree_word, CommitModel,
    TreeEntryModel,
};
use crate::digest::is_digest;
use crate::error::GiniError;
use crate::text::{
    decimal, has_prefix, is_hex_digit, is_whitespace, line_end, line_stop, lines, lines_from,
    skip_whitespace, word_end, words, words_from,
};

verus! {

/// Whether `entry` can be written as a tree line and read back: its digest has the shape
/// of a digest, and its name can name an entry and holds no white space.
pub open spec fn entry_ok(entry: TreeEntryModel) -> bool {
    &&& is_digest(entry.digest)
    &&& is_entry_name(entry.name)
    &&& forall|i: int| 0 <= i < entry.name.len() ==> !is_whitespace(#[trigger] entry.name[i])
}

/// The line feed that ends the line at `from` is the first one there is.
pub proof fn lemma_line_end_is(s: Seq<char>, from: int, end: int)
    requires
        0 <= from <= end <= s.len(),
        forall|j: int| from <= j < end ==> s[j] != '\n',
        end < s.len() ==> s[end] == '\n',
    ensures
        line_end(s, from) == end,
    decreases end - from,
{
    if from < end {
        lemma_line_end_is(s, from + 1, end);
    }
}

/// The word that starts at `from` ends at the first white space there is.
pub proof fn lemma_word_end_is(s: Seq<char>, from: int, end: int)
    requires
        0 <= from <= end <= s.len(),
        forall|j: int| from <= j < end ==> !is_whitespace(s[j]),
        end < s.len() ==> is_whitespace(s[end]),
    ensures
        word_end(s, from) == end,
    decreases end - from,
{
    if from < end {
        lemma_word_end_is(s, from + 1, end);
    }
}

/// White space is skipped up to the first character that is none.
pub proof fn lemma_skip_whitespace_is(s: Seq<char>, from: int, end: int)
    requires
        0 <= from <= end <= s.len(),
        forall|j: int| from <= j < end ==> is_whitespace(s[j]),
        end < s.len() ==> !is_whitespace(s[end]),
    ensures
        skip_whitespace(s, from) == end,
    decreases end - from,
{
    if from < end {
        lemma_skip_whitespace_is(s, from + 1, end);
    }
}

/// Whether `row` reads back as one line: not empty, without line feed, and not ending in
/// a carriage return.
pub open spec fn is_plain_row(row: Seq<char>) -> bool {
    &&& row.len() > 0
    &&& forall|i: int| 0 <= i < row.len() ==> row[i] != '\n'
    &&& row.last() != '\r'
}

/// A text that ends in neither line feed nor carriage return, then a line feed and a
/// plain row, has the lines of the text and then the row.
proof fn lemma_lines_with_one_more(text: Seq<char>, row: Seq<char>, from: int)
    requires
        0 <= from < text.len(),
        text.last() != '\n',
        text.last() != '\r',
        is_plain_row(row),
    ensures
        lines_from(text + seq!['\n'] + row, from) == lines_from(text, from).push(row),
    decreases text.len() - from,
{
    let whole = text + seq!['\n'] + row;
    crate::text::lemma_line_end(text, from);
    let end = line_end(text, from);
    lemma_line_end_is(whole, from, end);
    if end < text.len() {
        assert(whole.subrange(from, line_stop(whole, from, end)) =~= text.subrange(
            from,
            line_stop(text, from, end),
        ));
        lemma_lines_with_one_more(text, row, end + 1);
    } else {
        assert(whole.subrange(from, end) =~= text.subrange(from, text.len() as int));
        let next = end + 1;
        lemma_line_end_is(whole, next, whole.len() as int);
        assert(whole.subrange(next, whole.len() as int) =~= row);
        assert(lines_from(whole, next) =~= seq![row]);
    }
}

/// Plain rows that are joined by line feeds are the lines of the text they make.
pub proof fn lemma_lines_of_joined(rows: Seq<Seq<char>>)
    requires
        forall|i: int| 0 <= i < rows.len() ==> is_plain_row(#[trigger] rows[i]),
    ensures
        lines(join_lines(rows)) == rows,
    decreases rows.len(),
{
    if rows.len() == 1 {
        let row = rows[0];
        lemma_line_end_is(row, 0, row.len() as int);
        assert(row.subrange(0, row.len() as int) =~= row);
    } else if rows.len() > 1 {
        let front = rows.drop_last();
        lemma_lines_of_joined(front);
        lemma_lines_with_one_more(join_lines(front), rows.last(), 0);
    }
}

/// The line of an entry that can be written reads back as that entry.
pub proof fn lemma_entry_line_round_trip(entry: TreeEntryModel)
    requires
        entry_ok(entry),
    ensures
        parse_entry_line(entry_line(entry)) == Some(entry),
        is_plain_row(entry_line(entry)),
{
    let line = entry_line(entry);
    let kind = kind_word(entry.kind);
    let a: int = 4;
    let b: int = 5;
    let c: int = 45;
    let d: int = 47;
    let n = line.len() as int;
    lemma_word_end_is(line, 0, a);
    lemma_skip_whitespace_is(line, a, b);
    lemma_word_end_is(line, b, c);
    lemma_skip_whitespace_is(line, c, d);
    lemma_word_end_is(line, d, n);
    assert(words_from(line, n) =~= Seq::<Seq<char>>::empty());
    assert(words_from(line, c) =~= seq![line.subrange(d, n)]);
    assert(words_from(line, a) =~= seq![line.subrange(b, c), line.subrange(d, n)]);
    assert(line.subrange(0, a) =~= kind);
    assert(line.subrange(b, c) =~= entry.digest);
    assert(line.subrange(d, n) =~= entry.name);
}

/// The text of a tree object reads back as the entries it was written from.
pub proof fn lemma_tree_text_round_trip(entries: Seq<TreeEntryModel>)
    requires
        forall|i: int| 0 <= i < entries.len() ==> entry_ok(#[trigger] entries[i]),
    ensures
        parse_tree_text(tree_text(entries)) == Ok::<Seq<TreeEntryModel>, GiniError>(entries),
{
    let rows = Seq::new(entries.len(), |i: int| entry_line(entries[i]));
    lemma_lines_of_joined(rows);
    assert forall|i: int| 0 <= i < rows.len() implies (#[trigger] parse_entry_line(rows[i]))
        == Some(entries[i]) by {
        lemma_entry_line_round_trip(entries[i]);
    }
    assert(Seq::new(rows.len(), |i: int| parse_entry_line(rows[i])->0) =~= entries);
}

/// Decoding is the inverse of encoding: the bytes of a tree object that was written from
/// entries that can be written decode to those entries, in any order they were given.
pub proof fn lemma_tree_codec_round_trip(entries: Seq<TreeEntryModel>)
    requires
        forall|i: int| 0 <= i < entries.len() ==> entry_ok(#[trigger] entries[i]),
    ensures
        decode_tree_spec(tree_bytes(entries)) == Ok::<Seq<TreeEntryModel>, GiniError>(entries),
{
    encode_utf8_valid_utf8(tree_text(entries));
    encode_utf8_decode_utf8(tree_text(entries));
    lemma_tree_text_round_trip(entries);
}

/// Before the first empty line there is none: a search that passes no start of an empty
/// line goes on from where it has got to.
pub proof fn lemma_first_blank_not_before(text: Seq<char>, from: int, upto: int)
    requires
        0 <= from <= upto <= text.len(),
        forall|q: int| from <= q < upto ==> !is_blank_at(text, q),
    ensures
        first_blank(text, from) == first_blank(text, upto),
    decreases upto - from,
{
    if from < upto {
        lemma_first_blank_not_before(text, from + 1, upto);
    }
}

/// A key, a space and a value, neither with white space in it, are two words.
pub proof fn lemma_keyed_row(key: Seq<char>, value: Seq<char>)
    requires
        key.len() > 0,
        value.len() > 0,
        forall|i: int| 0 <= i < key.len() ==> !is_whitespace(#[trigger] key[i]),
        forall|i: int| 0 <= i < value.len() ==> !is_whitespace(#[trigger] value[i]),
    ensures
        words(key + seq![' '] + value) == seq![key, value],
{
    let row = key + seq![' '] + value;
    let a = key.len() as int;
    let n = row.len() as int;
    assert forall|j: int| 0 <= j < a implies !is_whitespace(row[j]) by {
        assert(row[j] == key[j]);
    }
    assert forall|j: int| a + 1 <= j < n implies !is_whitespace(row[j]) by {
        assert(row[j] == value[j - a - 1]);
    }
    assert(row[a] == ' ');
    lemma_skip_whitespace_is(row, 0, 0);
    lemma_word_end_is(row, 0, a);
    lemma_skip_whitespace_is(row, a, a + 1);
    lemma_word_end_is(row, a + 1, n);
    assert(words_from(row, n) =~= Seq::<Seq<char>>::empty());
    assert(words_from(row, a) =~= seq![row.subrange(a + 1, n)]);
    assert(words(row) =~= seq![row.subrange(0, a), row.subrange(a + 1, n)]);
    assert(row.subrange(0, a) =~= key);
    assert(row.subrange(a + 1, n) =~= value);
}

/// The tree line of a digest holds the word `tree` and the digest, and nothing that
/// ends a line.
pub proof fn lemma_tree_row(tree: Seq<char>)
    requires
        is_digest(tree),
    ensures
        words(tree_prefix() + tree) == seq![tree_word(), tree],
        has_prefix(tree_prefix() + tree, tree_prefix()),
        !has_prefix(tree_prefix() + tree, parent_prefix()),
        is_plain_row(tree_prefix() + tree),
{
    let row = tree_prefix() + tree;
    assert(row =~= tree_word() + seq![' '] + tree);
    lemma_keyed_row(tree_word(), tree);
    assert(row.subrange(0, 5) =~= tree_prefix());
    assert(row.subrange(0, 7)[0] != parent_prefix()[0]);
    assert forall|i: int| 0 <= i < row.len() implies row[i] != '\n' by {
        if i >= 5 {
            assert(row[i] == tree[i - 5]);
        }
    }
    assert(row.last() == tree[39]);
}

/// The text of a commit names the tree that it was written with, whatever its other
/// parts are.
pub proof fn lemma_commit_names_its_tree(
    tree: Seq<char>,
    parent: Option<Seq<char>>,
    name: Seq<char>,
    email: Seq<char>,
    timestamp: nat,
    message: Seq<char>,
)
    requires
        is_digest(tree),
    ensures
        commit_tree(commit_text(tree, parent, name, email, timestamp, message)) == Ok::<
            Seq<char>,
            GiniError,
        >(tree),
        text_of(commit_bytes(tree, parent, name, email, timestamp, message)) == Ok::<
            Seq<char>,
            GiniError,
        >(commit_text(tree, parent, name, email, timestamp, message)),
{
    let text = commit_text(tree, parent, name, email, timestamp, message);
    let row = tree_prefix() + tree;
    let head = row + seq!['\n'];
    lemma_tree_row(tree);
    assert(text.len() >= 48);
    assert forall|j: int| 0 <= j < 46 implies #[trigger] text[j] == head[j] by {}
    assert forall|q: int| 0 <= q < 46 implies !is_blank_at(text, q) by {
        assert(text[q] == head[q]);
        if q < 45 {
            assert(head[q] == row[q]);
        }
        if q > 0 {
            assert(text[q - 1] == head[q - 1]);
            assert(head[q - 1] == row[q - 1]);
        }
    }
    lemma_first_blank_not_before(text, 0, 46);
    lemma_first_blank(text, 46);
    let sub = text.subrange(0, first_blank(text, 0));
    assert forall|j: int| 0 <= j < 45 implies sub[j] != '\n' by {
        assert(sub[j] == head[j]);
        assert(head[j] == row[j]);
    }
    assert(sub[45] == head[45]);
    lemma_line_end_is(sub, 0, 45);
    assert(sub[44] == row[44]);
    assert(sub.subrange(0, 45) =~= row);
    let rows = commit_header(text);
    assert(rows[0] == row);
    assert(first_tree_row(rows, 0) == 0);
    encode_utf8_valid_utf8(text);
    encode_utf8_decode_utf8(text);
}

/// Whether a line of `text` starts at `q`.
pub open spec fn starts_line(text: Seq<char>, q: int) -> bool {
    0 <= q < text.len() && (q == 0 || text[q - 1] == '\n')
}

/// Whether `text` has no empty line, even when a line feed is put after it: no line
/// starts with a line feed, nor with a carriage return that ends the text or stands
/// before a line feed.
pub open spec fn no_blank_line(text: Seq<char>) -> bool {
    forall|q: int| #[trigger]
        starts_line(text, q) ==> text[q] != '\n' && !(text[q] == '\r' && (q + 1 == text.len()
            || text[q + 1] == '\n'))
}

/// Plain rows joined by line feeds make a text without an empty line, which ends as the
/// last row ends.
pub proof fn lemma_joined_has_no_blank_line(rows: Seq<Seq<char>>)
    requires
        rows.len() > 0,
        forall|i: int| 0 <= i < rows.len() ==> is_plain_row(#[trigger] rows[i]),
    ensures
        no_blank_line(join_lines(rows)),
        join_lines(rows).len() > 0,
        join_lines(rows).last() != '\n',
        join_lines(rows).last() != '\r',
    decreases rows.len(),
{
    let last = rows.last();
    assert(is_plain_row(rows[rows.len() - 1]));
    if rows.len() == 1 {
        let whole = join_lines(rows);
        assert forall|q: int| #[trigger] starts_line(whole, q) implies whole[q] != '\n' && !(
        whole[q] == '\r' && (q + 1 == whole.len() || whole[q + 1] == '\n')) by {
            if q + 1 == whole.len() {
                assert(whole[q] == whole.last());
            }
        }
    } else {
        let front = rows.drop_last();
        assert forall|i: int| 0 <= i < front.len() implies is_plain_row(#[trigger] front[i]) by {
            assert(front[i] == rows[i]);
        }
        lemma_joined_has_no_blank_line(front);
        let before = join_lines(front);
        let whole = join_lines(rows);
        let a = before.len() as int;
        assert(whole == before + seq!['\n'] + last);
        assert forall|q: int| #[trigger] starts_line(whole, q) implies whole[q] != '\n' && !(
        whole[q] == '\r' && (q + 1 == whole.len() || whole[q + 1] == '\n')) by {
            if q < a {
                assert(whole[q] == before[q]);
                if q > 0 {
                    assert(whole[q - 1] == before[q - 1]);
                }
                assert(starts_line(before, q));
                if q + 1 < a {
                    assert(whole[q + 1] == before[q + 1]);
                }
            } else if q == a {
                assert(whole[q - 1] == before.last());
            } else if q == a + 1 {
                assert(whole[q] == last[0]);
                if q + 1 < whole.len() {
                    assert(whole[q + 1] == last[1]);
                } else {
                    assert(last.last() == last[0]);
                }
            } else {
                assert(whole[q - 1] == last[q - a - 2]);
            }
        }
        assert(whole.last() == last.last());
    }
}

/// After a text without an empty line that ends in neither line feed nor carriage
/// return, the first empty line is the one that two line feeds make.
pub proof fn lemma_blank_after(joined: Seq<char>, body: Seq<char>)
    requires
        no_blank_line(joined),
        joined.len() > 0,
        joined.last() != '\n',
    ensures
        first_blank(joined + seq!['\n', '\n'] + body, 0) == joined.len() + 1,
{
    let text = joined + seq!['\n', '\n'] + body;
    let a = joined.len() as int;
    assert forall|q: int| 0 <= q < a + 1 implies !is_blank_at(text, q) by {
        if q < a {
            assert(text[q] == joined[q]);
            if q > 0 {
                assert(text[q - 1] == joined[q - 1]);
            }
            if q + 1 < a {
                assert(text[q + 1] == joined[q + 1]);
            }
            if is_blank_at(text, q) {
                assert(starts_line(joined, q));
            }
        } else {
            assert(text[q - 1] == joined.last());
        }
    }
    assert(text[a] == '\n' && text[a + 1] == '\n');
    assert(is_blank_at(text, a + 1));
    lemma_first_blank_not_before(text, 0, a + 1);
}

/// A text without an empty line that ends in neither line feed nor carriage return has
/// the same lines when a line feed is put after it.
pub proof fn lemma_lines_with_final_feed(text: Seq<char>, from: int)
    requires
        0 <= from < text.len(),
        text.last() != '\n',
        text.last() != '\r',
    ensures
        lines_from(text + seq!['\n'], from) == lines_from(text, from),
    decreases text.len() - from,
{
    let whole = text + seq!['\n'];
    crate::text::lemma_line_end(text, from);
    let end = line_end(text, from);
    assert forall|j: int| from <= j < end implies whole[j] != '\n' by {
        assert(whole[j] == text[j]);
    }
    assert(whole[text.len() as int] == '\n');
    if end < text.len() {
        assert(whole[end] == text[end]);
    }
    lemma_line_end_is(whole, from, end);
    if end < text.len() {
        assert(end + 1 < text.len()) by {
            if end + 1 == text.len() {
                assert(text.last() == text[end]);
            }
        }
        if from < end {
            assert(whole[end - 1] == text[end - 1]);
        }
        assert(whole.subrange(from, line_stop(whole, from, end)) =~= text.subrange(
            from,
            line_stop(text, from, end),
        ));
        lemma_lines_with_final_feed(text, end + 1);
    } else {
        assert(whole[end - 1] == text.last());
        assert(whole.subrange(from, end) =~= text.subrange(from, text.len() as int));
        assert(lines_from(whole, end + 1) =~= Seq::<Seq<char>>::empty());
        assert(lines_from(whole, from) =~= seq![whole.subrange(from, end)]);
    }
}

/// Plain rows, an empty line and a body read back as a header of those rows and a
/// message that is the body, unchanged.
pub proof fn lemma_header_of_joined(rows: Seq<Seq<char>>, body: Seq<char>)
    requires
        rows.len() > 0,
        forall|i: int| 0 <= i < rows.len() ==> is_plain_row(#[trigger] rows[i]),
    ensures
        commit_header(join_lines(rows) + seq!['\n', '\n'] + body) == rows,
        commit_message(join_lines(rows) + seq!['\n', '\n'] + body) == body,
{
    let joined = join_lines(rows);
    let text = joined + seq!['\n', '\n'] + body;
    let a = joined.len() as int;
    lemma_joined_has_no_blank_line(rows);
    lemma_blank_after(joined, body);
    assert(text.subrange(0, a + 1) =~= joined + seq!['\n']);
    lemma_lines_with_final_feed(joined, 0);
    lemma_lines_of_joined(rows);
    assert(text[a + 1] == '\n');
    assert(text.subrange(a + 2, text.len() as int) =~= body);
}

/// The digits of a number are digits.
pub proof fn lemma_decimal_is_digits(n: nat)
    ensures
        decimal(n).len() > 0,
        forall|i: int| 0 <= i < decimal(n).len() ==> '0' <= #[trigger] decimal(n)[i] <= '9',
    decreases n,
{
    if n >= 10 {
        lemma_decimal_is_digits(n / 10);
    }
}

/// Whether `text` holds no line feed.
pub open spec fn is_one_line(text: Seq<char>) -> bool {
    forall|i: int| 0 <= i < text.len() ==> #[trigger] text[i] != '\n'
}

/// A commit that was written reads back: the text of a commit decodes to the tree, the
/// parent, the author line and the message that it was written with, the message
/// unchanged. This holds where tree and parent are digests and neither the author's
/// name nor the address holds a line feed.
pub proof fn lemma_commit_round_trip(
    tree: Seq<char>,
    parent: Option<Seq<char>>,
    name: Seq<char>,
    email: Seq<char>,
    timestamp: nat,
    message: Seq<char>,
)
    requires
        is_digest(tree),
        parent is Some ==> is_digest(parent->0),
        is_one_line(name),
        is_one_line(email),
    ensures
        commit_details(commit_text(tree, parent, name, email, timestamp, message)) == Ok::<
            (Option<Seq<char>>, Seq<char>, Seq<char>),
            GiniError,
        >((parent, author_text(name, email, timestamp), message)),
        decode_commit_spec(commit_bytes(tree, parent, name, email, timestamp, message)) == Ok::<
            CommitModel,
            GiniError,
        >(
            CommitModel {
                tree,
                parent,
                author: author_text(name, email, timestamp),
                message,
            },
        ),
{
    let text = commit_text(tree, parent, name, email, timestamp, message);
    let tree_row = tree_prefix() + tree;
    let author = author_text(name, email, timestamp);
    let author_row = author_prefix() + author;
    lemma_tree_row(tree);
    lemma_decimal_is_digits(timestamp);
    let digits = decimal(timestamp);
    let n1 = name.len() as int;
    let n2 = email.len() as int;
    let n3 = digits.len() as int;
    assert(author.len() == n1 + n2 + n3 + 10);
    assert forall|i: int| 0 <= i < author_row.len() implies author_row[i] != '\n' by {
        let k = i - 7;
        if i < 7 {
        } else if k < n1 {
            assert(author_row[i] == name[k]);
        } else if k < n1 + 2 {
        } else if k < n1 + 2 + n2 {
            assert(author_row[i] == email[k - n1 - 2]);
        } else if k < n1 + n2 + 4 {
        } else if k < n1 + n2 + 4 + n3 {
            assert(author_row[i] == digits[k - n1 - n2 - 4]);
        } else {
        }
    }
    assert(author_row.last() == '0');
    assert(is_plain_row(author_row));
    assert(author_row.subrange(0, 7) =~= author_prefix());
    assert(author_row.subrange(0, 7)[0] != parent_prefix()[0]);
    assert(author_row.subrange(0, 5)[0] != tree_prefix()[0]);
    assert(author_row.subrange(7, author_row.len() as int) =~= author);
    reveal_with_fuel(join_lines, 4);
    reveal_with_fuel(last_parent, 4);
    reveal_with_fuel(last_author, 4);
    match parent {
        Some(p) => {
            let parent_row = parent_prefix() + p;
            let key = seq!['p', 'a', 'r', 'e', 'n', 't'];
            assert(parent_row =~= key + seq![' '] + p);
            assert forall|i: int| 0 <= i < p.len() implies !is_whitespace(#[trigger] p[i]) by {
                assert(is_hex_digit(p[i]));
            }
            lemma_keyed_row(key, p);
            assert forall|i: int| 0 <= i < parent_row.len() implies parent_row[i] != '\n' by {
                if i >= 7 {
                    assert(parent_row[i] == p[i - 7]);
                }
            }
            assert(parent_row.last() == p[39]);
            assert(is_plain_row(parent_row));
            assert(parent_row.subrange(0, 7) =~= parent_prefix());
            assert(parent_row_ok(parent_row));
            let rows = seq![tree_row, parent_row, author_row];
            assert(text =~= join_lines(rows) + seq!['\n', '\n'] + message);
            lemma_header_of_joined(rows, message);
            assert(first_tree_row(rows, 0) == 0);
            assert(header_tree(rows) == Ok::<Seq<char>, GiniError>(tree));
            assert(last_parent(rows, 3) == Some(p));
            assert(last_author(rows, 3) == author);
        },
        None => {
            let rows = seq![tree_row, author_row];
            assert(text =~= join_lines(rows) + seq!['\n', '\n'] + message);
            lemma_header_of_joined(rows, message);
            assert(first_tree_row(rows, 0) == 0);
            assert(header_tree(rows) == Ok::<Seq<char>, GiniError>(tree));
            assert(last_parent(rows, 2) is None);
            assert(last_author(rows, 2) == author);
        },
    }
    encode_utf8_valid_utf8(text);
    encode_utf8_decode_utf8(text);
}

} // verus!
