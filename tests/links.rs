use riki::config::Config;
use riki::links::{parse_links, render_links, Backlinks, LinkTarget};
use riki::wiki::Wiki;

fn wiki_with(pages: &[(&str, &str)]) -> Wiki {
    let mut wiki = Wiki::new("/w".to_string(), "/t".to_string());
    for (name, text) in pages {
        wiki.pages.create(name, text, None).unwrap();
    }
    wiki
}

#[test]
fn parse_finds_intra_and_inter_wiki_links() {
    let links = parse_links("See [[Setup]] and [[Ops:Deploy]], not [[]] or [[a]b]].");
    assert_eq!(links.len(), 2);
    assert_eq!(links[0].start, 4);
    assert_eq!(links[0].end, 13);
    assert!(links[0].wiki.is_none());
    assert_eq!(links[0].page, "Setup");
    assert_eq!(links[1].wiki.as_deref(), Some("Ops"));
    assert_eq!(links[1].page, "Deploy");
}

#[test]
fn parse_takes_the_leftmost_opening() {
    let links = parse_links("[[[x]] [[:y]] [[z:]]");
    assert_eq!(links.len(), 3);
    assert_eq!(links[0].start, 1);
    assert_eq!(links[0].page, "x");
    assert!(links[1].wiki.is_none());
    assert_eq!(links[1].page, ":y");
    assert!(links[2].wiki.is_none());
    assert_eq!(links[2].page, "z:");
}

#[test]
fn backlink_recorded_for_intra_wiki_link() {
    let mut wiki = wiki_with(&[("Intro", "See [[Setup]] for details."), ("Setup", "")]);
    wiki.read_page("Intro").unwrap();
    assert!(wiki.get_backlinks("Setup").contains(&"Intro".to_string()));
    assert!(wiki.get_backlinks("NoSuchTarget").is_empty());
}

#[test]
fn cross_wiki_link_adds_no_edge() {
    let mut wiki = wiki_with(&[("Intro", "See [[Other:Setup]].")]);
    wiki.read_page("Intro").unwrap();
    assert!(wiki.get_backlinks("Setup").is_empty());
    assert!(wiki.get_backlinks("Other:Setup").is_empty());
    let mut config = Config::new("/t".to_string(), "/i".to_string(), 40);
    config.add_wiki("Other".to_string(), "/other".to_string());
    wiki.read_page("Intro").unwrap();
    assert!(wiki.get_backlinks("Setup").is_empty());
}

#[test]
fn rereading_a_page_does_not_duplicate_edges() {
    let mut wiki = wiki_with(&[("A", "[[B]] and [[B]]"), ("B", "")]);
    wiki.read_page("A").unwrap();
    wiki.read_page("A").unwrap();
    assert_eq!(wiki.get_backlinks("B"), vec!["A".to_string(), "A".to_string()]);
    wiki.pages.update("A", "nothing").unwrap();
    wiki.read_page("A").unwrap();
    assert!(wiki.get_backlinks("B").is_empty());
}

#[test]
fn backlinks_remove_and_forget() {
    let mut b = Backlinks::new();
    b.record_links("A", "[[T]]");
    b.record_links("C", "[[T]] [[U]]");
    assert_eq!(b.get_backlinks("T"), vec!["A".to_string(), "C".to_string()]);
    b.forget_source("A");
    assert_eq!(b.get_backlinks("T"), vec!["C".to_string()]);
    b.remove_backlinks("T");
    assert!(b.get_backlinks("T").is_empty());
    assert_eq!(b.get_backlinks("U"), vec!["C".to_string()]);
}

#[test]
fn links_render_as_markdown() {
    let mut wiki = wiki_with(&[
        ("Intro", "See [[Setup]], [[Later]], [[Other:Page]] and [[Nowhere:X]]."),
        ("Setup", ""),
    ]);
    let mut config = Config::new("/t".to_string(), "/i".to_string(), 40);
    config.add_wiki("Other".to_string(), "/other".to_string());
    let (text, links) = wiki.read_page("Intro").unwrap();
    let targets: Vec<LinkTarget> =
        links.iter().map(|l| wiki.resolve(&config, l, true)).collect();
    assert_eq!(
        render_links(&text, &links, &targets),
        "See [Setup](/w/Setup.md), [Later (not created yet)](/w/Later.md), \
         [Page](/other/Page.md) and [[Nowhere:X (wiki not found)]]."
    );
}

#[test]
fn end_to_end_create_edit_read_delete() {
    let mut wiki = Wiki::new("/w".to_string(), "/t".to_string());
    wiki.pages.create("A", "", None).unwrap();
    wiki.pages.create("B", "", None).unwrap();
    wiki.pages.update("A", "Now see [[B]].").unwrap();
    wiki.read_page("A").unwrap();
    assert_eq!(wiki.get_backlinks("B"), vec!["A".to_string()]);
    assert!(wiki.pages.delete("A"));
    assert!(!wiki.pages.list_pages().contains(&"A".to_string()));
}

#[test]
fn edges_list_every_recorded_link() {
    let mut b = Backlinks::new();
    b.record_links("A", "[[T]] [[U]] [[W:X]]");
    b.record_links("B", "[[T]]");
    let mut edges = b.edges();
    edges.sort();
    assert_eq!(
        edges,
        vec![
            ("A".to_string(), "T".to_string()),
            ("A".to_string(), "U".to_string()),
            ("B".to_string(), "T".to_string()),
        ]
    );
}
