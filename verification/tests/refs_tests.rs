use gini::error::GiniError;
use gini::refs::{get_head_commit, update_head, Refs};

const C1: &str = "aaf4c61ddcc5e8a2dabede0f3b482cd9aea9434d";
const C2: &str = "bf7ae92dbbf7f80bbb14743492367362dea428c6";

#[test]
fn new_refs_name_the_branch_main() {
    let refs = Refs::new();
    assert_eq!(refs.head_content().as_deref(), Some("ref: refs/heads/main"));
    assert_eq!(refs.head_ref(), Some("refs/heads/main".to_string()));
    assert!(refs.ref_content("refs/heads/main").is_none());
    assert_eq!(get_head_commit(&refs), Ok(None));
}

#[test]
fn head_commit_is_read_through_the_ref() {
    let mut refs = Refs::new();
    refs.set_ref("refs/heads/main".to_string(), C1.to_string());
    assert_eq!(get_head_commit(&refs), Ok(Some(C1.to_string())));
    refs.set_ref("refs/heads/main".to_string(), format!("  {}\n", C2));
    assert_eq!(get_head_commit(&refs), Ok(Some(C2.to_string())));
    refs.set_ref("refs/heads/other".to_string(), "junk".to_string());
    assert_eq!(get_head_commit(&refs), Ok(Some(C2.to_string())));
}

#[test]
fn the_ref_name_is_taken_without_white_space_around_it() {
    let mut refs = Refs::with_head(Some("ref:   refs/heads/dev \n".to_string()));
    assert_eq!(refs.head_ref(), Some("refs/heads/dev".to_string()));
    assert_eq!(get_head_commit(&refs), Ok(None));
    refs.set_ref("refs/heads/dev".to_string(), C1.to_string());
    assert_eq!(get_head_commit(&refs), Ok(Some(C1.to_string())));
}

#[test]
fn a_ref_that_holds_no_digest_is_corrupt() {
    let mut refs = Refs::new();
    refs.set_ref("refs/heads/main".to_string(), "not a digest".to_string());
    assert_eq!(get_head_commit(&refs), Err(GiniError::CorruptRepository));
    refs.set_ref("refs/heads/main".to_string(), String::new());
    assert_eq!(get_head_commit(&refs), Err(GiniError::CorruptRepository));
}

#[test]
fn a_detached_head_names_its_commit() {
    let refs = Refs::with_head(Some(C1.to_string()));
    assert_eq!(refs.head_ref(), None);
    assert_eq!(get_head_commit(&refs), Ok(Some(C1.to_string())));
}

#[test]
fn a_head_of_neither_shape_is_corrupt() {
    for content in [
        "",
        "garbage",
        "ref:refs/heads/main",
        "Ref: refs/heads/main",
        "ref: ../../outside",
        "ref: /etc/passwd",
        "ref: refs/heads/",
        "ref: refs/heads/..",
        "ref: refs/heads/a/b",
        "ref: refs/heads/../../x",
        "ref: refs/tags/v1",
        "ref: ",
    ] {
        let refs = Refs::with_head(Some(content.to_string()));
        assert_eq!(get_head_commit(&refs), Err(GiniError::CorruptRepository), "{:?}", content);
    }
    let with_newline = Refs::with_head(Some(format!("{}\n", C1)));
    assert_eq!(get_head_commit(&with_newline), Err(GiniError::CorruptRepository));
    let forty_but_no_hex = Refs::with_head(Some("z".repeat(40)));
    assert_eq!(get_head_commit(&forty_but_no_hex), Err(GiniError::CorruptRepository));
}

#[test]
fn without_a_head_there_is_no_commit() {
    let refs = Refs::with_head(None);
    assert!(refs.head_content().is_none());
    assert_eq!(get_head_commit(&refs), Ok(None));
}

#[test]
fn update_head_writes_the_ref_that_head_names() {
    let mut refs = Refs::new();
    assert_eq!(update_head(&mut refs, C1), Ok(()));
    assert_eq!(refs.ref_content("refs/heads/main"), Some(&C1.to_string()));
    assert_eq!(refs.head_content().as_deref(), Some("ref: refs/heads/main"));
    assert_eq!(update_head(&mut refs, C2), Ok(()));
    assert_eq!(get_head_commit(&refs), Ok(Some(C2.to_string())));
}

#[test]
fn update_head_refuses_a_detached_head_and_changes_nothing() {
    let mut refs = Refs::with_head(Some(C1.to_string()));
    assert_eq!(update_head(&mut refs, C2), Err(GiniError::DetachedHeadUnsupported));
    assert_eq!(refs.head_content().as_deref(), Some(C1));
    assert!(refs.ref_content("refs/heads/main").is_none());
    assert_eq!(get_head_commit(&refs), Ok(Some(C1.to_string())));
    assert_eq!(update_head(&mut refs, "not a digest"), Err(GiniError::DetachedHeadUnsupported));

    let mut garbage = Refs::with_head(Some("garbage".to_string()));
    assert_eq!(update_head(&mut garbage, C2), Err(GiniError::DetachedHeadUnsupported));
    let mut outside = Refs::with_head(Some("ref: ../../outside".to_string()));
    assert_eq!(outside.head_ref(), None);
    assert_eq!(update_head(&mut outside, C2), Err(GiniError::DetachedHeadUnsupported));
    assert!(outside.ref_content("../../outside").is_none());
    let mut none = Refs::with_head(None);
    assert_eq!(update_head(&mut none, C2), Err(GiniError::DetachedHeadUnsupported));
    assert!(none.head_content().is_none());
}

#[test]
fn update_head_refuses_what_is_no_digest() {
    let mut refs = Refs::new();
    assert_eq!(update_head(&mut refs, "abc"), Err(GiniError::InvalidDigest));
    assert!(refs.ref_content("refs/heads/main").is_none());
    update_head(&mut refs, C1).unwrap();
    assert_eq!(update_head(&mut refs, ""), Err(GiniError::InvalidDigest));
    assert_eq!(refs.ref_content("refs/heads/main"), Some(&C1.to_string()));
}
