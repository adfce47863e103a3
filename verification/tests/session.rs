use bibref_rs::bibtex::format_bibtex;
use bibref_rs::metadata::{Author, SourceKind, WorkRecord};
use bibref_rs::session::SearchSession;

fn record(title: &str, family: &str, doi: Option<&str>) -> WorkRecord {
    WorkRecord {
        title: title.to_string(),
        authors: vec![Author::new(Some("Ada".to_string()), family)],
        year: Some(2020),
        container_title: Some("Journal".to_string()),
        volume: None,
        number: None,
        pages: None,
        publisher: None,
        doi: doi.map(|d| d.to_string()),
        arxiv_id: None,
        source: SourceKind::Crossref,
        entry_type: "article".to_string(),
    }
}

#[test]
fn fresh_session_offers_nothing() {
    let session = SearchSession::new();
    assert_eq!(session.preview(), "Select a search result to preview BibTeX.");
    assert!(!session.can_copy());
    assert!(!session.can_open());
    assert_eq!(session.search_label(), "Search");
    assert_eq!(session.selected_bibtex(), None);
}

#[test]
fn blank_query_is_refused_with_message() {
    let mut session = SearchSession::new();
    assert!(!session.begin_search("  \t "));
    assert_eq!(session.error.as_deref(), Some("Enter a DOI, title, author, or arXiv ID."));
    assert!(!session.loading);
    assert!(!session.begin_search(""));
}

#[test]
fn found_records_select_first_and_preview_it() {
    let mut session = SearchSession::new();
    session.error = Some("old".to_string());
    assert!(session.begin_search(" deep learning "));
    assert!(session.loading);
    assert_eq!(session.search_label(), "Searching");
    assert_eq!(session.error, None);

    let first = record("Deep learning", "Lovelace", Some("10.1/x"));
    let second = record("Other work", "Turing", None);
    session.finish_search(Ok(vec![first.clone(), second]));
    assert!(!session.loading);
    assert_eq!(session.selected, Some(0));
    assert_eq!(session.preview(), format_bibtex(&first));
    assert!(session.can_copy());
    assert!(session.can_open());
    assert_eq!(session.open_target().as_deref(), Some("https://doi.org/10.1/x"));

    session.select(1);
    assert!(!session.can_open());
    assert_eq!(session.open_target(), None);
}

#[test]
fn empty_outcome_says_nothing_was_found() {
    let mut session = SearchSession::new();
    assert!(session.begin_search("nothing here"));
    session.finish_search(Ok(Vec::new()));
    assert!(!session.loading);
    assert_eq!(session.error.as_deref(), Some("No matching literature found."));
    assert_eq!(session.selected, None);
    assert_eq!(session.preview(), "Select a search result to preview BibTeX.");
}

#[test]
fn failed_search_shows_its_error() {
    let mut session = SearchSession::new();
    assert!(session.begin_search("10.1000/xyz"));
    session.finish_search(Err("request failed".to_string()));
    assert!(!session.loading);
    assert_eq!(session.error.as_deref(), Some("request failed"));
    assert!(session.results.is_empty());
}

#[test]
fn copy_returns_preview_and_sets_status() {
    let mut session = SearchSession::new();
    assert!(session.begin_search("q"));
    let only = record("A title", "Hopper", None);
    session.finish_search(Ok(vec![only.clone()]));
    let copied = session.copy_selected();
    assert_eq!(copied, Some(format_bibtex(&only)));
    assert_eq!(copied.unwrap(), session.preview());
    assert_eq!(session.status.as_deref(), Some("Copied BibTeX to clipboard."));

    session.select(0);
    assert_eq!(session.status, None);

    session.error = Some("stale".to_string());
    session.status = Some("stale".to_string());
    session.clear();
    assert_eq!(session.error, None);
    assert_eq!(session.status, None);
    assert_eq!(session.results.len(), 1);
}

#[test]
fn copy_without_entry_changes_nothing() {
    let mut session = SearchSession::new();
    assert_eq!(session.copy_selected(), None);
    assert_eq!(session.status, None);
    session.select(3);
    assert!(session.can_copy());
    assert_eq!(session.copy_selected(), None);
    assert_eq!(session.status, None);
}
