use riki::config::Config;
use riki::export::{Export, Import};
use riki::templates::Templates;

#[test]
fn fill_replaces_every_placeholder() {
    assert_eq!(
        Templates::fill("# {{page_name}}\nAbout {{page_name}}.", "Rust"),
        "# Rust\nAbout Rust."
    );
    assert_eq!(Templates::fill("{{page_name", "X"), "{{page_name");
}

#[test]
fn template_names_are_the_markdown_files() {
    let files = vec!["api.md".to_string(), "readme.txt".to_string(), "tool.md".to_string()];
    assert_eq!(Templates::template_names(&files), vec!["api", "tool"]);
    let config = Config::new("/t".to_string(), "/i".to_string(), 10);
    assert_eq!(Templates::new(&config).templates_dir, "/t");
}

#[test]
fn config_resolves_wiki_names() {
    let mut config = Config::new("/t".to_string(), "/i".to_string(), 10);
    assert!(config.wiki_path("work").is_none());
    config.add_wiki("work".to_string(), "/w1".to_string());
    config.add_wiki("work".to_string(), "/w2".to_string());
    assert_eq!(config.wiki_path("work"), Some("/w2".to_string()));
}

#[test]
fn import_names_pages_from_sources() {
    assert_eq!(Import::page_name_for_file("notes.md"), "notes");
    assert_eq!(Import::page_name_for_url("https://x.org/docs/guide.md"), "guide");
    assert_eq!(Import::page_name_for_url("https://x.org/a.txt.md"), "a");
    assert_eq!(Import::page_name_for_url("plain"), "plain");
    assert_eq!(Import::new("/w").root_dir, "/w");
}

#[test]
fn export_renders_html() {
    assert_eq!(Export::page_html("# Hi"), "<h1>Hi</h1>\n");
    assert_eq!(Export::new("/w").root_dir, "/w");
}
