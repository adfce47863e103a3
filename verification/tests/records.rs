use bibref_rs::merging::{merge_or_push, same_work};
use bibref_rs::metadata::{Author, SourceKind, WorkRecord};

fn record(title: &str, doi: Option<&str>) -> WorkRecord {
    WorkRecord {
        title: title.to_string(),
        authors: vec![],
        year: None,
        container_title: None,
        volume: None,
        number: None,
        pages: None,
        publisher: None,
        doi: doi.map(|d| d.to_string()),
        arxiv_id: None,
        source: SourceKind::Crossref,
        entry_type: "article".to_string(),
    }
}

#[test]
fn display_names_and_summaries() {
    assert_eq!(Author::new(Some("Ada".to_string()), "Lovelace").display_name(), "Ada Lovelace");
    assert_eq!(Author::new(Some("".to_string()), "Lovelace").display_name(), "Lovelace");
    assert_eq!(Author::new(None, "Lovelace").display_name(), "Lovelace");

    let mut r = record("t", None);
    assert_eq!(r.author_summary(), "Unknown authors");
    r.authors.push(Author::new(Some("Ada".to_string()), "Lovelace"));
    assert_eq!(r.author_summary(), "Ada Lovelace");
    r.authors.push(Author::new(None, "Babbage"));
    assert_eq!(r.author_summary(), "Ada Lovelace and Babbage");
    r.authors.push(Author::new(None, "Turing"));
    assert_eq!(r.author_summary(), "Ada Lovelace et al.");
}

#[test]
fn external_url_prefers_doi() {
    let mut r = record("t", Some("10.1/x"));
    r.arxiv_id = Some("2401.00001".to_string());
    assert_eq!(r.external_url().as_deref(), Some("https://doi.org/10.1/x"));
    r.doi = None;
    assert_eq!(r.external_url().as_deref(), Some("https://arxiv.org/abs/2401.00001"));
    r.arxiv_id = None;
    assert_eq!(r.external_url(), None);
}

#[test]
fn merge_missing_keeps_existing_values() {
    let mut a = record("Title", None);
    a.year = Some(2020);
    let mut b = record("Other", Some("10.1/b"));
    b.year = Some(1999);
    b.arxiv_id = Some("2401.1".to_string());
    b.container_title = Some("J".to_string());
    b.publisher = Some("P".to_string());
    a.merge_missing_from(&b);
    assert_eq!(a.doi.as_deref(), Some("10.1/b"));
    assert_eq!(a.arxiv_id.as_deref(), Some("2401.1"));
    assert_eq!(a.container_title.as_deref(), Some("J"));
    assert_eq!(a.year, Some(2020));
    assert_eq!(a.publisher, None);
    assert_eq!(a.title, "Title");
    let once = a.clone();
    a.merge_missing_from(&b);
    assert_eq!(a, once);
}

#[test]
fn same_work_by_doi_or_title() {
    assert!(same_work(&record("A", Some("10.1/ABC")), &record("B", Some("10.1/abc"))));
    assert!(same_work(
        &record("The  Title: a Study!", None),
        &record("the title a study", Some("10.1/x"))
    ));
    assert!(!same_work(&record("A", Some("10.1/a")), &record("B", Some("10.1/b"))));
}

#[test]
fn merge_or_push_merges_first_same_work() {
    let mut records = vec![record("One", None), record("Two", None)];
    let mut candidate = record("two", Some("10.9/two"));
    candidate.year = Some(2001);
    merge_or_push(&mut records, candidate);
    assert_eq!(records.len(), 2);
    assert_eq!(records[1].doi.as_deref(), Some("10.9/two"));
    assert_eq!(records[1].year, Some(2001));
    assert_eq!(records[1].title, "Two");

    merge_or_push(&mut records, record("Three", None));
    assert_eq!(records.len(), 3);
    assert_eq!(records[2].title, "Three");
}
