use gini::digest::{digest_of, is_valid_hash};

#[test]
fn digest_of_known_input() {
    assert_eq!(digest_of(b"hello world"), "2aae6c35c94fcfb415dbe95f408b9ce91ee846ed");
}

#[test]
fn digest_of_empty_input() {
    assert_eq!(digest_of(b""), "da39a3ee5e6b4b0d3255bfef95601890afd80709");
}

#[test]
fn digest_is_lower_case_hex_of_forty_characters() {
    let d = digest_of(&[0u8, 1, 2, 255, 254]);
    assert_eq!(d.len(), 40);
    assert!(d.chars().all(|c| c.is_ascii_digit() || ('a'..='f').contains(&c)));
    assert!(is_valid_hash(&d));
}

#[test]
fn valid_hash_accepts_forty_hex_digits() {
    assert!(is_valid_hash("2aae6c35c94fcfb415dbe95f408b9ce91ee846ed"));
    assert!(is_valid_hash("2AAE6C35C94FCFB415DBE95F408B9CE91EE846ED"));
    assert!(is_valid_hash("0000000000000000000000000000000000000000"));
}

#[test]
fn valid_hash_rejects_other_shapes() {
    assert!(!is_valid_hash(""));
    assert!(!is_valid_hash("2aae6c35"));
    assert!(!is_valid_hash("2aae6c35c94fcfb415dbe95f408b9ce91ee846e"));
    assert!(!is_valid_hash("2aae6c35c94fcfb415dbe95f408b9ce91ee846edd"));
    assert!(!is_valid_hash("2aae6c35c94fcfb415dbe95f408b9ce91ee846eg"));
    assert!(!is_valid_hash("../../../../../../../../../../etc/passwd"));
    assert!(!is_valid_hash("2aae6c35c94fcfb415dbe95f408b9ce91ee846e\u{e9}"));
}
