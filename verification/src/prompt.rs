//! What is decided about the answers of a user: messages, menu choices, confirmations.

use vstd::prelude::*;
use vstd::string::StringSliceAdditionalSpecFns;

use crate::engine::{backup_prefix, Repository};
use crate::error::GiniError;
use crate::text::{has_prefix, same_chars, starts_with, to_chars, trim, trimmed};
use crate::worktree::{EntryModel, Node};

verus! {

/// The largest number of bytes that a checkpoint's message may have.
pub const MAX_COMMIT_MESSAGE_LENGTH: usize = 1000;

/// Accepts a checkpoint's message unless it is empty or longer, in bytes, than
/// `MAX_COMMIT_MESSAGE_LENGTH`.
pub fn validate_message(message: &str) -> (r: Result<(), GiniError>)
    ensures
        message@.len() == 0 ==> r == Err::<(), GiniError>(GiniError::EmptyMessage),
        message@.len() > 0 && message.spec_bytes().len() > MAX_COMMIT_MESSAGE_LENGTH ==> r == Err::<
            (),
            GiniError,
        >(GiniError::MessageTooLong),
        message@.len() > 0 && message.spec_bytes().len() <= MAX_COMMIT_MESSAGE_LENGTH ==> r is Ok,
{
    if message.is_empty() {
        Err(GiniError::EmptyMessage)
    } else if message.as_bytes().len() > MAX_COMMIT_MESSAGE_LENGTH {
        Err(GiniError::MessageTooLong)
    } else {
        Ok(())
    }
}

/// Whether `c` is a decimal digit.
pub open spec fn is_digit(c: char) -> bool {
    '0' <= c && c <= '9'
}

/// The value of the decimal digit `c`.
pub open spec fn digit_value(c: char) -> nat {
    (c as u32 - '0' as u32) as nat
}

/// The number that the first `upto` digits of `digits` write.
pub open spec fn digits_value(digits: Seq<char>, upto: nat) -> nat
    decreases upto,
{
    if upto == 0 || upto > digits.len() {
        0
    } else {
        digits_value(digits, (upto - 1) as nat) * 10 + digit_value(digits[upto - 1])
    }
}

/// The digits of a number as it is typed: `text` without white space around it and
/// without one plus sign before it.
pub open spec fn typed_digits(text: Seq<char>) -> Seq<char> {
    let word = trim(text);
    if word.len() > 0 && word[0] == '+' {
        word.subrange(1, word.len() as int)
    } else {
        word
    }
}

/// The number that `text` is, if it is one: decimal digits, at least one, after at most
/// one plus sign, with white space allowed around it.
pub open spec fn typed_number(text: Seq<char>) -> Option<nat> {
    let digits = typed_digits(text);
    if digits.len() > 0 && forall|i: int| 0 <= i < digits.len() ==> is_digit(#[trigger] digits[i]) {
        Some(digits_value(digits, digits.len()))
    } else {
        None
    }
}

/// More digits never write a smaller number.
pub proof fn lemma_digits_value_grows(digits: Seq<char>, fewer: nat, more: nat)
    requires
        fewer <= more <= digits.len(),
    ensures
        digits_value(digits, fewer) <= digits_value(digits, more),
    decreases more,
{
    if fewer < more {
        lemma_digits_value_grows(digits, fewer, (more - 1) as nat);
    }
}

/// Reads a choice from a menu of `count` lines numbered from one, and returns the index
/// of the line chosen, counted from zero. Anything but a number from one to `count` is
/// an invalid selection.
pub fn parse_selection(input: &str, count: usize) -> (r: Result<usize, GiniError>)
    ensures
        match r {
            Ok(index) => typed_number(input@) == Some((index + 1) as nat) && index < count,
            Err(e) => e == GiniError::InvalidSelection && match typed_number(input@) {
                Some(n) => n < 1 || n > count,
                None => true,
            },
        },
{
    let word = trimmed(&to_chars(input));
    let start: usize = if word.len() > 0 && word[0] == '+' {
        1
    } else {
        0
    };
    let ghost digits = typed_digits(input@);
    if start >= word.len() {
        return Err(GiniError::InvalidSelection);
    }
    let mut value: usize = 0;
    let mut i: usize = start;
    while i < word.len()
        invariant
            start <= i <= word.len(),
            start <= 1,
            digits == word@.subrange(start as int, word.len() as int),
            digits == typed_digits(input@),
            forall|j: int| 0 <= j < i - start ==> is_digit(#[trigger] digits[j]),
            value == digits_value(digits, (i - start) as nat),
            value <= count,
        decreases word.len() - i,
    {
        let c = word[i];
        assert(digits[i - start] == c);
        if !(c >= '0' && c <= '9') {
            return Err(GiniError::InvalidSelection);
        }
        let d: usize = (c as u32 - '0' as u32) as usize;
        if d > count || value > (count - d) / 10 {
            proof {
                if forall|j: int| 0 <= j < digits.len() ==> is_digit(#[trigger] digits[j]) {
                    lemma_digits_value_grows(digits, (i - start + 1) as nat, digits.len());
                }
            }
            return Err(GiniError::InvalidSelection);
        }
        value = value * 10 + d;
        i += 1;
    }
    if value < 1 {
        return Err(GiniError::InvalidSelection);
    }
    Ok(value - 1)
}

/// `text` in lower case, as `str::to_lowercase` of the standard library gives it.
pub uninterp spec fn lowercase_of(text: Seq<char>) -> Seq<char>;

/// Puts `text` into lower case with `str::to_lowercase`.
///
/// Trusted: the result is the standard library's lower-case form of the text, which
/// depends on the characters alone.
#[verifier::external_body]
fn lowercase(text: &str) -> (lower: String)
    ensures
        lower@ == lowercase_of(text@),
{
    text.to_lowercase()
}

/// The word that confirms.
pub open spec fn yes_word() -> Seq<char> {
    seq!['y', 'e', 's']
}

/// Whether `lower`, an answer put into lower case, confirms.
pub open spec fn confirms(lower: Seq<char>) -> bool {
    lower == yes_word()
}

/// Tells whether an answer that was put into lower case confirms: whether it is `yes`.
pub fn is_yes(lower: &str) -> (r: bool)
    ensures
        r == confirms(lower@),
{
    same_chars(&to_chars(lower), &vec!['y', 'e', 's'])
}

/// Tells whether `input` confirms an overwrite: whether it is `yes`, in whatever case
/// and with whatever white space around it.
pub fn is_confirmed(input: &str) -> (r: bool)
    ensures
        r == confirms(lowercase_of(trim(input@))),
{
    let word = crate::text::to_string(&trimmed(&to_chars(input)));
    let lower = lowercase(word.as_str());
    is_yes(lower.as_str())
}

/// Where the dialogue before an overwrite stands. The user first picks one of the lines
/// offered, then confirms; only after both is anything done.
#[derive(Clone, Copy, Debug, PartialEq, Eq, Structural)]
pub enum Dialogue {
    /// There is nothing to pick from, and nothing to do.
    Nothing,
    /// One of `count` lines is to be picked.
    Choosing { count: usize },
    /// The line `index`, counted from zero, was picked and is to be confirmed.
    Confirming { index: usize },
    /// The pick was confirmed: the overwrite with line `index` is to be done.
    Confirmed { index: usize },
    /// The pick was not confirmed: nothing is to be done.
    Cancelled,
    /// What was typed picks no line: the dialogue has failed, and nothing is to be done.
    Refused,
}

/// Where the dialogue stands after `input` was typed. A pick that is a number of a line
/// leads on to the confirmation, any other refuses. An answer that confirms leads to the
/// overwrite, any other cancels. In every other state nothing is awaited, and nothing
/// changes.
pub open spec fn answered(state: Dialogue, input: Seq<char>) -> Dialogue {
    match state {
        Dialogue::Choosing { count } => match typed_number(input) {
            Some(n) => if 1 <= n <= count {
                Dialogue::Confirming { index: (n - 1) as usize }
            } else {
                Dialogue::Refused
            },
            None => Dialogue::Refused,
        },
        Dialogue::Confirming { index } => if confirms(lowercase_of(trim(input))) {
            Dialogue::Confirmed { index }
        } else {
            Dialogue::Cancelled
        },
        _ => state,
    }
}

/// Nothing is overwritten unless a line that was offered was picked and the pick was
/// confirmed: the dialogue comes to `Confirmed` from `Confirming` only, by an answer that
/// confirms, and to `Confirming` only by the number of a line.
pub proof fn lemma_acts_only_when_confirmed(state: Dialogue, input: Seq<char>)
    ensures
        answered(state, input) is Confirmed && !(state is Confirmed) ==> state is Confirming
            && confirms(lowercase_of(trim(input))) && answered(state, input)->Confirmed_index
            == state->Confirming_index,
        answered(state, input) is Confirming && !(state is Confirming) ==> state is Choosing
            && answered(state, input)->Confirming_index < state->Choosing_count,
{
}

/// Opens the dialogue over `count` lines.
pub fn begin(count: usize) -> (state: Dialogue)
    ensures
        state == if count == 0 {
            Dialogue::Nothing
        } else {
            Dialogue::Choosing { count }
        },
{
    if count == 0 {
        Dialogue::Nothing
    } else {
        Dialogue::Choosing { count }
    }
}

/// Takes what the user typed and moves the dialogue on.
pub fn answer(state: Dialogue, input: &str) -> (next: Dialogue)
    ensures
        next == answered(state, input@),
{
    match state {
        Dialogue::Choosing { count } => match parse_selection(input, count) {
            Ok(index) => Dialogue::Confirming { index },
            Err(_) => Dialogue::Refused,
        },
        Dialogue::Confirming { index } => if is_confirmed(input) {
            Dialogue::Confirmed { index }
        } else {
            Dialogue::Cancelled
        },
        _ => state,
    }
}

/// Whether `entry` is a backup: a directory whose name begins with `backup_`.
pub open spec fn is_backup(entry: EntryModel) -> bool {
    has_prefix(entry.name, backup_prefix()) && entry.node is Dir
}

/// The names of the backups among the first `upto` of `entries`, the last first.
pub open spec fn backup_names(entries: Seq<EntryModel>, upto: nat) -> Seq<Seq<char>>
    decreases upto,
{
    if upto == 0 || upto > entries.len() {
        Seq::empty()
    } else if is_backup(entries[upto - 1]) {
        seq![entries[upto - 1].name] + backup_names(entries, (upto - 1) as nat)
    } else {
        backup_names(entries, (upto - 1) as nat)
    }
}

/// The names of the backups that can be brought back, in descending order of the names,
/// which puts the newest first among backups whose times have the same number of
/// digits.
pub fn list_backups(repo: &Repository) -> (names: Vec<String>)
    ensures
        crate::snapshot::names_view(names@) == backup_names(
            repo.backups.model(),
            repo.backups.model().len(),
        ),
{
    let mut names: Vec<String> = Vec::new();
    let prefix: Vec<char> = vec!['b', 'a', 'c', 'k', 'u', 'p', '_'];
    let ghost all = repo.backups.model();
    let mut i: usize = repo.backups.len();
    while i > 0
        invariant
            i <= all.len(),
            all == repo.backups.model(),
            prefix@ == backup_prefix(),
            backup_names(all, all.len()) == crate::snapshot::names_view(names@) + backup_names(
                all,
                i as nat,
            ),
        decreases i,
    {
        i -= 1;
        let name = repo.backups.name_at(i);
        let is_dir = match repo.backups.node_at(i) {
            Node::Dir(_) => true,
            Node::File(_) => false,
        };
        if is_dir && starts_with(&to_chars(name.as_str()), &prefix) {
            names.push(name.clone());
        }
    }
    names
}

} // verus!
