use gini::engine::init;
use gini::error::GiniError;
use gini::prompt::{
    answer, begin, is_confirmed, is_yes, list_backups, parse_selection, validate_message,
    Dialogue, MAX_COMMIT_MESSAGE_LENGTH,
};
use gini::worktree::{Directory, Node};

#[test]
fn validate_message_accepts_up_to_a_thousand_bytes() {
    assert_eq!(MAX_COMMIT_MESSAGE_LENGTH, 1000);
    assert_eq!(validate_message("fix"), Ok(()));
    assert_eq!(validate_message(&"x".repeat(1000)), Ok(()));
    assert_eq!(validate_message(" "), Ok(()));
}

#[test]
fn validate_message_rejects_empty_and_long_messages() {
    assert_eq!(validate_message(""), Err(GiniError::EmptyMessage));
    assert_eq!(validate_message(&"x".repeat(1001)), Err(GiniError::MessageTooLong));
    assert_eq!(validate_message(&"\u{e9}".repeat(500)), Ok(()));
    assert_eq!(validate_message(&"\u{e9}".repeat(501)), Err(GiniError::MessageTooLong));
}

#[test]
fn parse_selection_reads_a_line_number() {
    assert_eq!(parse_selection("1", 3), Ok(0));
    assert_eq!(parse_selection("3\n", 3), Ok(2));
    assert_eq!(parse_selection("  2 \r\n", 3), Ok(1));
    assert_eq!(parse_selection("+2", 3), Ok(1));
    assert_eq!(parse_selection("007", 7), Ok(6));
    assert_eq!(parse_selection("18446744073709551615", usize::MAX), Ok(usize::MAX - 1));
}

#[test]
fn parse_selection_rejects_what_is_out_of_range_or_no_number() {
    let bad = [
        "0", "4", "", "  ", "+", "-1", "1.5", "two", "1 2", "++1", "1+", "99999999999999999999999",
        "18446744073709551616", "\u{661}", "0x1",
    ];
    for input in bad {
        assert_eq!(parse_selection(input, 3), Err(GiniError::InvalidSelection), "{:?}", input);
    }
    assert_eq!(parse_selection("1", 0), Err(GiniError::InvalidSelection));
}

#[test]
fn parse_selection_agrees_with_the_standard_parser() {
    let inputs = ["1", "+3", " 10 ", "010", "11", "x", "", "+", "5\n", "-0", "٣", "1_0", "9", "100"];
    for input in inputs {
        for count in [0usize, 1, 9, 10, 11, 100] {
            let expected = match input.trim().parse::<usize>() {
                Ok(n) if n >= 1 && n <= count => Ok(n - 1),
                _ => Err(GiniError::InvalidSelection),
            };
            assert_eq!(parse_selection(input, count), expected, "{:?} of {}", input, count);
        }
    }
}

#[test]
fn is_confirmed_takes_yes_in_any_case() {
    assert!(is_confirmed("yes"));
    assert!(is_confirmed("YES\n"));
    assert!(is_confirmed("  Yes \r\n"));
    assert!(is_confirmed("yEs"));
}

#[test]
fn is_confirmed_takes_nothing_else() {
    for input in ["", "y", "no", "yess", "ye s", "oui", "yes!", "\n"] {
        assert!(!is_confirmed(input), "{:?}", input);
    }
    assert!(is_yes("yes"));
    assert!(!is_yes("YES"));
    assert!(!is_yes("ye"));
}

#[test]
fn list_backups_names_the_backups_in_descending_order() {
    let mut repo = init(false, Directory::new()).unwrap();
    assert_eq!(list_backups(&repo), Vec::<String>::new());
    for name in ["backup_200", "backup_1000", "backup_300", "other", "backup", "Backup_1"] {
        repo.backups.insert(name.to_string(), Node::Dir(Directory::new()));
    }
    repo.backups.insert("backup_999".to_string(), Node::File(b"a file".to_vec()));
    repo.backups.insert("backup_".to_string(), Node::Dir(Directory::new()));
    assert_eq!(list_backups(&repo), vec!["backup_300", "backup_200", "backup_1000", "backup_"]);
}

#[test]
fn the_dialogue_picks_then_confirms_then_acts() {
    assert_eq!(begin(0), Dialogue::Nothing);
    let start = begin(3);
    assert_eq!(start, Dialogue::Choosing { count: 3 });
    let picked = answer(start, " 2\n");
    assert_eq!(picked, Dialogue::Confirming { index: 1 });
    assert_eq!(answer(picked, "YES\n"), Dialogue::Confirmed { index: 1 });
}

#[test]
fn the_dialogue_does_nothing_without_a_pick_and_a_yes() {
    assert_eq!(answer(begin(3), "4"), Dialogue::Refused);
    assert_eq!(answer(begin(3), "yes"), Dialogue::Refused);
    let picked = answer(begin(3), "3");
    assert_eq!(answer(picked, "no\n"), Dialogue::Cancelled);
    assert_eq!(answer(picked, ""), Dialogue::Cancelled);
    assert_eq!(answer(picked, "1"), Dialogue::Cancelled);
    for done in [
        Dialogue::Nothing,
        Dialogue::Cancelled,
        Dialogue::Refused,
        Dialogue::Confirmed { index: 0 },
    ] {
        assert_eq!(answer(done, "yes"), done);
        assert_eq!(answer(done, "1"), done);
    }
}
