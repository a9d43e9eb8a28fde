use gini::digest::digest_of;
use gini::error::GiniError;
use gini::store::{ObjectStore, MAX_FILE_SIZE};

const HELLO: &str = "aaf4c61ddcc5e8a2dabede0f3b482cd9aea9434d";

#[test]
fn the_default_limit_is_one_hundred_mebibytes() {
    assert_eq!(MAX_FILE_SIZE, 100 * 1024 * 1024);
    assert_eq!(ObjectStore::new(MAX_FILE_SIZE).max_size(), 104857600);
}

#[test]
fn put_returns_the_digest_and_keeps_the_content() {
    let mut store = ObjectStore::new(MAX_FILE_SIZE);
    assert_eq!(store.len(), 0);
    assert_eq!(store.put(b"hello"), Ok(HELLO.to_string()));
    assert_eq!(store.len(), 1);
    assert!(store.contains(HELLO));
    assert_eq!(store.get(HELLO).unwrap().as_slice(), b"hello");
    assert_eq!(store.digest_at(0), HELLO);
}

#[test]
fn put_twice_keeps_one_object() {
    let mut store = ObjectStore::new(MAX_FILE_SIZE);
    let first = store.put(b"same bytes").unwrap();
    let second = store.put(b"same bytes").unwrap();
    assert_eq!(first, second);
    assert_eq!(store.len(), 1);
    let other = store.put(b"other bytes").unwrap();
    assert_ne!(first, other);
    assert_eq!(store.len(), 2);
    assert_eq!(store.put(b"same bytes").unwrap(), first);
    assert_eq!(store.len(), 2);
    assert_eq!(store.get(&first).unwrap().as_slice(), b"same bytes");
}

#[test]
fn put_refuses_content_over_the_limit() {
    let mut store = ObjectStore::new(4);
    assert_eq!(store.put(b"12345"), Err(GiniError::ObjectTooLarge));
    assert_eq!(store.len(), 0);
    assert_eq!(store.put(b"1234"), Ok(digest_of(b"1234")));
    assert_eq!(store.put(b""), Ok("da39a3ee5e6b4b0d3255bfef95601890afd80709".to_string()));
    assert_eq!(store.len(), 2);
}

#[test]
fn get_rejects_what_is_no_digest_before_looking() {
    let mut store = ObjectStore::new(MAX_FILE_SIZE);
    store.put(b"hello").unwrap();
    assert_eq!(store.get("../../etc/passwd").map(|b| b.clone()), Err(GiniError::InvalidDigest));
    assert_eq!(store.get("").map(|b| b.clone()), Err(GiniError::InvalidDigest));
    assert_eq!(store.get(&HELLO[..39]).map(|b| b.clone()), Err(GiniError::InvalidDigest));
    assert_eq!(store.get_text("short"), Err(GiniError::InvalidDigest));
}

#[test]
fn get_reports_a_missing_object() {
    let store = ObjectStore::new(MAX_FILE_SIZE);
    assert_eq!(store.get(HELLO).map(|b| b.clone()), Err(GiniError::ObjectNotFound));
    assert_eq!(store.get_text(HELLO), Err(GiniError::ObjectNotFound));
    let mut filled = ObjectStore::new(MAX_FILE_SIZE);
    filled.put(b"hello").unwrap();
    let upper = HELLO.to_uppercase();
    assert_eq!(filled.get(&upper).map(|b| b.clone()), Err(GiniError::ObjectNotFound));
}

#[test]
fn get_text_reads_text_only() {
    let mut store = ObjectStore::new(MAX_FILE_SIZE);
    let text = store.put("h\u{e9}".as_bytes()).unwrap();
    let binary = store.put(&[0xff, 0x00]).unwrap();
    assert_eq!(store.get_text(&text), Ok("h\u{e9}".to_string()));
    assert_eq!(store.get_text(&binary), Err(GiniError::MalformedObject));
    assert_eq!(store.get(&binary).unwrap().as_slice(), &[0xff, 0x00]);
}

#[test]
fn load_keeps_content_under_the_given_digest() {
    let mut store = ObjectStore::new(4);
    let digest = "0123456789abcdef0123456789abcdef01234567";
    assert!(store.load(digest.to_string(), b"not hashed, and long".to_vec()));
    assert_eq!(store.get(digest).unwrap().as_slice(), b"not hashed, and long");
    assert!(!store.load(digest.to_string(), b"again".to_vec()));
    assert_eq!(store.get(digest).unwrap().as_slice(), b"not hashed, and long");
    assert!(!store.load("object.tmp".to_string(), b"x".to_vec()));
    assert_eq!(store.len(), 1);
    assert_eq!(store.max_size(), 4);
}

#[test]
fn digests_are_listed_in_the_order_they_came() {
    let mut store = ObjectStore::new(MAX_FILE_SIZE);
    let a = store.put(b"a").unwrap();
    let b = store.put(b"b").unwrap();
    store.put(b"a").unwrap();
    let c = store.put(b"c").unwrap();
    assert_eq!(store.len(), 3);
    assert_eq!(store.digest_at(0), &a);
    assert_eq!(store.digest_at(1), &b);
    assert_eq!(store.digest_at(2), &c);
}
