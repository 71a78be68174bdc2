use riki::error::WikiError;
use riki::page::{page_name_of, path_for, render_tag_block, sanitize, PageStore};

#[test]
fn path_for_replaces_unsafe_characters() {
    assert_eq!(path_for("My Page/1"), "My_Page_1.md");
    assert_eq!(path_for("setup-guide_2"), "setup-guide_2.md");
    assert_eq!(sanitize("a.b:c"), "a_b_c");
}

#[test]
fn path_for_is_deterministic_and_idempotent() {
    let name = "Notes: Kubernetes & Helm";
    assert_eq!(path_for(name), path_for(name));
    let once = sanitize(name);
    assert_eq!(sanitize(&once), once);
    assert_eq!(path_for(&once), path_for(name));
}

#[test]
fn create_on_existing_name_fails_and_keeps_the_file() {
    let mut store = PageStore::new();
    store.create("Intro", "first", None).unwrap();
    let again = store.create("Intro", "second", None);
    assert!(matches!(again, Err(WikiError::AlreadyExists)));
    assert_eq!(store.read("Intro").unwrap(), "first");
}

#[test]
fn names_that_sanitize_alike_collide() {
    let mut store = PageStore::new();
    store.create("a b", "x", None).unwrap();
    assert!(matches!(store.create("a_b", "y", None), Err(WikiError::AlreadyExists)));
}

#[test]
fn create_with_tags_writes_the_frontmatter_block() {
    let mut store = PageStore::new();
    store
        .create("Ops", "body", Some(vec!["infra".to_string(), "k8s".to_string()]))
        .unwrap();
    assert_eq!(store.read("Ops").unwrap(), "---\ntags:\n  - infra\n  - k8s\n---\nbody");
    assert_eq!(store.file_text(&"Ops.md".to_string()).unwrap(), store.read("Ops").unwrap());
}

#[test]
fn tag_block_with_no_tags() {
    assert_eq!(render_tag_block(&vec![]), "---\ntags:\n---\n");
}

#[test]
fn read_missing_page_is_not_found() {
    let store = PageStore::new();
    assert!(matches!(store.read("Nope"), Err(WikiError::NotFound)));
}

#[test]
fn update_replaces_text_or_reports_not_found() {
    let mut store = PageStore::new();
    assert!(matches!(store.update("A", "x"), Err(WikiError::NotFound)));
    store.create("A", "old", None).unwrap();
    store.update("A", "new").unwrap();
    assert_eq!(store.read("A").unwrap(), "new");
}

#[test]
fn delete_missing_page_returns_false() {
    let mut store = PageStore::new();
    store.create("Keep", "k", None).unwrap();
    assert!(!store.delete("Ghost"));
    assert_eq!(store.list_pages(), vec!["Keep".to_string()]);
}

#[test]
fn delete_existing_page_then_read_fails() {
    let mut store = PageStore::new();
    store.create("Gone", "g", None).unwrap();
    assert!(store.has_page("Gone"));
    assert!(store.delete("Gone"));
    assert!(!store.has_page("Gone"));
    assert!(matches!(store.read("Gone"), Err(WikiError::NotFound)));
}

#[test]
fn list_pages_strips_the_suffix() {
    let mut store = PageStore::new();
    store.load_file("sub/Deep.md".to_string(), "d".to_string());
    store.load_file("notes.txt".to_string(), "t".to_string());
    store.create("Top", "t", None).unwrap();
    assert_eq!(
        store.list_pages(),
        vec!["sub/Deep".to_string(), "notes.txt".to_string(), "Top".to_string()]
    );
    assert_eq!(page_name_of("x.md"), "x");
    assert_eq!(page_name_of("md"), "md");
}
