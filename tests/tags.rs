use riki::error::WikiError;
use riki::frontmatter::{extract_tags, modify_tags};
use riki::tags::{FileStamp, TagCache, Tags};
use riki::wiki::Wiki;

fn strings(v: &[&str]) -> Vec<String> {
    v.iter().map(|s| s.to_string()).collect()
}

#[test]
fn extract_reads_the_first_block_only() {
    let text = "---\ntags:\n  - infra \n  - draft\n---\n  - body\n---\n  - late\n---\n";
    assert_eq!(extract_tags(text), strings(&["infra", "draft"]));
    assert_eq!(extract_tags("no frontmatter\n  - x\n"), Vec::<String>::new());
    assert_eq!(extract_tags("---\r\n  - win\r\n---\r\n"), strings(&["win"]));
}

#[test]
fn modify_tags_without_frontmatter_fails() {
    let r = modify_tags("just text\n", &strings(&["a"]), &vec![]);
    assert!(matches!(r, Err(WikiError::InvalidFrontmatter)));
    let r = modify_tags("---\ntags:\n  - a\n", &strings(&["b"]), &vec![]);
    assert!(matches!(r, Err(WikiError::InvalidFrontmatter)));
}

#[test]
fn modify_tags_rewrites_the_block_and_keeps_the_body() {
    let text = "---\ntags:\n  - a\n---\nbody\n";
    let r = modify_tags(text, &strings(&["b", "a"]), &strings(&["c"])).unwrap();
    assert_eq!(r, "---\ntags:\n  - a\n  - b\n---\nbody\n");
    let r = modify_tags(&r, &vec![], &strings(&["a"])).unwrap();
    assert_eq!(r, "---\ntags:\n  - b\n---\nbody\n");
}

#[test]
fn modify_then_list_tags_for_page() {
    let mut wiki = Wiki::new("/w".to_string(), "/t".to_string());
    wiki.pages.create("Ops", "text", Some(vec![])).unwrap();
    wiki.modify_tags("Ops", &strings(&["infra", "draft"]), &vec![]).unwrap();
    let mut tags = wiki.tag_index().list_tags_for_page("Ops");
    tags.sort();
    assert_eq!(tags, strings(&["draft", "infra"]));
    wiki.modify_tags("Ops", &vec![], &strings(&["draft"])).unwrap();
    assert_eq!(wiki.tag_index().list_tags_for_page("Ops"), strings(&["infra"]));
    assert!(matches!(
        wiki.modify_tags("Missing", &vec![], &vec![]),
        Err(WikiError::NotFound)
    ));
}

#[test]
fn tag_index_add_remove_list() {
    let mut t = Tags::new();
    t.add_tag("P", "x");
    t.add_tag("Q", "x");
    t.add_tag("P", "x");
    t.add_tag("P", "y");
    assert_eq!(t.list_pages_with_tag("x"), strings(&["P", "Q"]));
    let mut for_p = t.list_tags_for_page("P");
    for_p.sort();
    assert_eq!(for_p, strings(&["x", "y"]));
    t.remove_tag("P", "x");
    assert_eq!(t.list_pages_with_tag("x"), strings(&["Q"]));
    assert!(t.list_pages_with_tag("none").is_empty());
    let mut all = t.list_tags();
    all.sort();
    assert_eq!(all, strings(&["x", "y"]));
}

#[test]
fn tag_cache_hits_until_the_time_changes() {
    let mut cache = TagCache::new();
    let path = "/w/a.md".to_string();
    assert!(cache.lookup(&path, 100).is_none());
    let tags = cache.record(path.clone(), 100, "---\n  - one\n---\n");
    assert_eq!(tags, strings(&["one"]));
    assert_eq!(cache.lookup(&path, 100), Some(strings(&["one"])));
    assert!(cache.lookup(&path, 200).is_none());
    cache.record(path.clone(), 200, "---\n  - two\n---\n");
    assert_eq!(cache.lookup(&path, 200), Some(strings(&["two"])));
    assert!(cache.lookup(&path, 100).is_none());
}

fn stamp(page: &str, mtime: u64) -> FileStamp {
    FileStamp { page: page.to_string(), path: format!("/w/{}.md", page), mtime }
}

#[test]
fn second_build_reads_nothing_until_a_file_changes() {
    let mut cache = TagCache::new();
    let files = vec![stamp("A", 1), stamp("B", 1)];
    assert_eq!(cache.stale(&files), vec![true, true]);
    let contents = vec![
        Some("---\n  - infra\n---\n".to_string()),
        Some("---\n  - draft\n  - infra\n---\n".to_string()),
    ];
    let index = cache.build_index(&files, &contents);
    assert_eq!(index.list_pages_with_tag("infra"), strings(&["A", "B"]));
    assert_eq!(cache.stale(&files), vec![false, false]);
    let again = cache.build_index(&files, &vec![None, None]);
    assert_eq!(again.list_pages_with_tag("draft"), strings(&["B"]));
    let touched = vec![stamp("A", 2), stamp("B", 1)];
    assert_eq!(cache.stale(&touched), vec![true, false]);
    let index = cache.build_index(&touched, &vec![Some("---\n  - ops\n---\n".to_string()), None]);
    assert_eq!(index.list_tags_for_page("A"), strings(&["ops"]));
    assert_eq!(index.list_pages_with_tag("infra"), strings(&["B"]));
}
