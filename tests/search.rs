use riki::error::WikiError;
use riki::search::{
    get_snippet, plan_search, search_results, split_words, DateRange, SearchDocument,
    FUZZY_DISTANCE, RESULT_LIMIT,
};
use tantivy::collector::TopDocs;
use tantivy::query::{BooleanQuery, FuzzyTermQuery, Occur, Query};
use tantivy::schema::{Schema, Value, STORED, STRING, TEXT};
use tantivy::{Index, IndexWriter, TantivyDocument, Term};

// 2024-03-10T12:00:00Z in epoch milliseconds.
const MARCH_TENTH_NOON_MS: u64 = 1_710_072_000_000;

#[test]
fn query_words_split_on_whitespace() {
    assert_eq!(split_words("  rust \t async\nio "), vec!["rust", "async", "io"]);
    assert!(split_words("   ").is_empty());
}

#[test]
fn date_range_includes_a_day_inside() {
    let plan = plan_search("x", None, None, Some("2024-03-01"), Some("2024-03-31")).unwrap();
    let range = plan.dates.unwrap();
    assert_eq!(range.from_ms, 1_709_251_200_000);
    assert_eq!(range.to_ms, 1_711_929_599_000);
    assert!(range.contains(MARCH_TENTH_NOON_MS));
}

#[test]
fn date_range_excludes_a_later_day() {
    let plan = plan_search("x", None, None, Some("2024-03-01"), Some("2024-02-28")).unwrap();
    assert!(!plan.dates.unwrap().contains(MARCH_TENTH_NOON_MS));
}

#[test]
fn one_sided_date_range_is_ignored() {
    let plan = plan_search("x", Some("infra"), Some("ops"), Some("2024-03-01"), None).unwrap();
    assert!(plan.dates.is_none());
    assert_eq!(plan.tag.as_deref(), Some("infra"));
    assert_eq!(plan.directory.as_deref(), Some("ops"));
}

#[test]
fn malformed_date_names_the_token() {
    match plan_search("x", None, None, Some("2024-13-01"), Some("2024-03-31")) {
        Err(WikiError::ParseError(tok)) => assert_eq!(tok, "2024-13-01"),
        _ => panic!("expected a parse error"),
    }
    match plan_search("x", None, None, Some("2024-03-01"), Some("soon")) {
        Err(WikiError::ParseError(tok)) => assert_eq!(tok, "soon"),
        _ => panic!("expected a parse error"),
    }
}

#[test]
fn empty_query_finds_nothing() {
    assert!(plan_search("  ", None, None, None, None).unwrap().finds_nothing());
    assert!(!plan_search("rust", None, None, None, None).unwrap().finds_nothing());
    let backwards = plan_search("rust", None, None, Some("2024-03-02"), Some("2024-03-01")).unwrap();
    assert!(backwards.finds_nothing());
}

#[test]
fn u64_bounds_clip_before_the_epoch() {
    let r = DateRange { from_ms: -5, to_ms: 10 };
    assert_eq!(r.u64_bounds(), Some((0, 10)));
    let r = DateRange { from_ms: -5, to_ms: -1 };
    assert_eq!(r.u64_bounds(), None);
}

#[test]
fn snippet_truncates_with_marker() {
    assert_eq!(get_snippet("abcdefgh", 3).unwrap(), "abc ...");
    assert_eq!(get_snippet("abc", 3).unwrap(), "abc");
    assert_eq!(get_snippet("", 0).unwrap(), "");
    let hits = vec![("P".to_string(), "hello world".to_string())];
    let results = search_results(&hits, 5);
    assert_eq!(results[0].page_name, "P");
    assert_eq!(results[0].snippet, "hello ...");
}

#[test]
fn document_fields_come_from_the_page() {
    let doc = SearchDocument::for_page("ops/Deploy", "---\n  - infra\n  - k8s\n---\nbody", 42);
    assert_eq!(doc.name, "ops/Deploy");
    assert_eq!(doc.tags, "infra k8s");
    assert_eq!(doc.directory, "ops");
    assert_eq!(doc.last_modified, 42);
    assert_eq!(SearchDocument::for_page("Top", "", 0).directory, "");
}

#[test]
fn fuzzy_search_finds_a_near_miss() {
    let mut builder = Schema::builder();
    let name = builder.add_text_field("name", STRING | STORED);
    let content = builder.add_text_field("content", TEXT | STORED);
    let index = Index::create_in_ram(builder.build());
    let mut writer: IndexWriter = index.writer(15_000_000).unwrap();
    for (page, text) in [("Cluster", "we run kubernetes in production"), ("Other", "plain notes")] {
        let doc = SearchDocument::for_page(page, text, 0);
        let mut d = TantivyDocument::default();
        d.add_text(name, &doc.name);
        d.add_text(content, &doc.content);
        writer.add_document(d).unwrap();
    }
    writer.commit().unwrap();
    let plan = plan_search("kubernets", None, None, None, None).unwrap();
    let clauses: Vec<(Occur, Box<dyn Query>)> = plan
        .terms
        .iter()
        .map(|t| {
            let q = FuzzyTermQuery::new_prefix(Term::from_field_text(content, t), FUZZY_DISTANCE, true);
            (Occur::Should, Box::new(q) as Box<dyn Query>)
        })
        .collect();
    let searcher = index.reader().unwrap().searcher();
    let hits = searcher
        .search(&BooleanQuery::new(clauses), &TopDocs::with_limit(RESULT_LIMIT).order_by_score())
        .unwrap();
    assert_eq!(hits.len(), 1);
    let found: TantivyDocument = searcher.doc(hits[0].1).unwrap();
    assert_eq!(found.get_first(name).unwrap().as_str(), Some("Cluster"));
}
