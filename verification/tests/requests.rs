use bibref_rs::filter::{filtered_records, FilterField, SearchFilter};
use bibref_rs::metadata::{Author, SourceKind, WorkRecord};
use bibref_rs::ranking::rank_citation_results;
use bibref_rs::requests::{
    append_crossref_filter, arxiv_citation_url, arxiv_filter_query, arxiv_id_url, arxiv_query_url,
    crossref_citation_url, crossref_doi_url, crossref_query_url, finish_bibliographic,
    needs_arxiv_fallback, plan_search, SearchPlan,
};
use bibref_rs::search::CitationKeyQuery;

fn record(title: &str, family: &str, year: Option<i32>) -> WorkRecord {
    WorkRecord {
        title: title.to_string(),
        authors: vec![Author::new(None, family)],
        year,
        container_title: None,
        volume: None,
        number: None,
        pages: None,
        publisher: None,
        doi: None,
        arxiv_id: None,
        source: SourceKind::Crossref,
        entry_type: "article".to_string(),
    }
}

fn ma_high() -> CitationKeyQuery {
    CitationKeyQuery {
        author: "ma".to_string(),
        year_fragment: "2023".to_string(),
        title_word: "high".to_string(),
        publication_year: Some(2023),
    }
}

#[test]
fn crossref_urls_percent_encode() {
    assert_eq!(
        crossref_doi_url("10.1234/example"),
        "https://api.crossref.org/works/10.1234%2Fexample"
    );
    assert_eq!(
        crossref_query_url("quantum gas", None),
        "https://api.crossref.org/works?query.bibliographic=quantum%20gas&rows=5"
    );
    let author = SearchFilter::new(FilterField::Author, "  Ada Kïng ");
    assert_eq!(
        crossref_query_url("x", Some(&author)),
        "https://api.crossref.org/works?query.bibliographic=x&rows=25&query.author=Ada%20K%C3%AFng"
    );
    let blank = SearchFilter::new(FilterField::Title, "   ");
    assert_eq!(
        crossref_query_url("x", Some(&blank)),
        "https://api.crossref.org/works?query.bibliographic=x&rows=25"
    );
}

#[test]
fn crossref_year_filters() {
    let year = SearchFilter::new(FilterField::Year, " 2020 ");
    let mut url = "u".to_string();
    append_crossref_filter(&mut url, Some(&year));
    assert_eq!(url, "u&filter=from-pub-date:2020-01-01,until-pub-date:2020-12-31");
    let mut again = url.clone();
    append_crossref_filter(&mut again, Some(&year));
    assert_eq!(again, url);
    let mut bad = "u".to_string();
    append_crossref_filter(&mut bad, Some(&SearchFilter::new(FilterField::Year, "twenty")));
    assert_eq!(bad, "u");
    let mut journal = "u".to_string();
    append_crossref_filter(&mut journal, Some(&SearchFilter::new(FilterField::Journal, "Phys. Rev.")));
    assert_eq!(journal, "u&query.container-title=Phys.%20Rev.");
    assert_eq!(
        crossref_citation_url(&ma_high(), Some(&SearchFilter::new(FilterField::Year, "2021"))),
        "https://api.crossref.org/works?query.author=ma&query.title=high&rows=100&filter=from-pub-date:2023-01-01,until-pub-date:2023-12-31"
    );
}

#[test]
fn arxiv_urls() {
    assert_eq!(
        arxiv_id_url("2401.00001"),
        "https://export.arxiv.org/api/query?id_list=2401.00001&max_results=1"
    );
    assert_eq!(
        arxiv_query_url("dipolar gas", Some(&SearchFilter::new(FilterField::Title, "supersolid"))),
        "https://export.arxiv.org/api/query?search_query=all%3Adipolar%20gas%20AND%20ti%3Asupersolid&start=0&max_results=25"
    );
    assert_eq!(
        arxiv_citation_url(&ma_high(), None),
        "https://export.arxiv.org/api/query?search_query=au%3Ama%20AND%20ti%3Ahigh&start=0&max_results=25"
    );
    assert_eq!(
        arxiv_filter_query("all:x".to_string(), Some(&SearchFilter::new(FilterField::Journal, "Nature"))),
        "all:x"
    );
    assert_eq!(
        arxiv_filter_query("all:x".to_string(), Some(&SearchFilter::new(FilterField::General, " y "))),
        "all:x AND all:y"
    );
}

#[test]
fn plans_requests_by_query_kind() {
    match plan_search("10.1/x", None) {
        SearchPlan::CrossrefWork { url } => assert_eq!(url, "https://api.crossref.org/works/10.1%2Fx"),
        _ => panic!("expected a DOI lookup"),
    }
    match plan_search("arXiv:2401.00001", None) {
        SearchPlan::ArxivWork { url } => {
            assert_eq!(url, "https://export.arxiv.org/api/query?id_list=2401.00001&max_results=1")
        }
        _ => panic!("expected an arXiv lookup"),
    }
    match plan_search("ma2023high", None) {
        SearchPlan::CitationKey { query, crossref_url, arxiv_url } => {
            assert_eq!(query, ma_high());
            assert_eq!(crossref_url, crossref_citation_url(&ma_high(), None));
            assert_eq!(arxiv_url, arxiv_citation_url(&ma_high(), None));
        }
        _ => panic!("expected a citation key search"),
    }
    match plan_search(" bose polarons ", None) {
        SearchPlan::Bibliographic { crossref_url, arxiv_url } => {
            assert_eq!(crossref_url, crossref_query_url("bose polarons", None));
            assert_eq!(arxiv_url, arxiv_query_url("bose polarons", None));
        }
        _ => panic!("expected a bibliographic search"),
    }
}

#[test]
fn ranks_and_cuts_citation_results() {
    let crossref = vec![
        record("Zeta high things", "Ma", Some(2023)),
        record("High b", "Ma", Some(2023)),
        record("High a", "Ma", Some(2023)),
        record("High wrong year", "Ma", Some(2022)),
        record("The high road", "Ma", Some(2023)),
        record("High other author", "Li", Some(2023)),
    ];
    let mut duplicate = record("high   B", "Ma", Some(2023));
    duplicate.doi = Some("10.1/hb".to_string());
    let arxiv = vec![
        duplicate,
        record("Also high", "MA", Some(2023)),
        record("High c", "Ma", Some(2023)),
        record("High d", "Ma", Some(2023)),
    ];
    let results = rank_citation_results(crossref, arxiv, &ma_high(), None);
    let titles: Vec<&str> = results.iter().map(|r| r.title.as_str()).collect();
    assert_eq!(titles, vec!["High a", "High b", "High c", "High d", "The high road"]);
    assert_eq!(results[1].doi.as_deref(), Some("10.1/hb"));

    let filter = SearchFilter::new(FilterField::Title, "zeta");
    let filtered = rank_citation_results(
        vec![record("Zeta high things", "Ma", Some(2023)), record("High a", "Ma", Some(2023))],
        vec![],
        &ma_high(),
        Some(&filter),
    );
    assert_eq!(filtered.len(), 1);
    assert_eq!(filtered[0].title, "Zeta high things");
}

#[test]
fn bibliographic_results_fall_back_to_arxiv() {
    let few = vec![record("One", "A", None)];
    assert!(needs_arxiv_fallback(&few));
    let results = finish_bibliographic(
        few,
        vec![record("one", "B", Some(2001)), record("Two", "C", None)],
        None,
    );
    let titles: Vec<&str> = results.iter().map(|r| r.title.as_str()).collect();
    assert_eq!(titles, vec!["One", "Two"]);
    assert_eq!(results[0].year, Some(2001));

    let many: Vec<WorkRecord> = (0..7).map(|i| record(&format!("T{}", i), "A", None)).collect();
    assert!(!needs_arxiv_fallback(&many));
    let cut = finish_bibliographic(many, vec![record("X", "A", None)], None);
    assert_eq!(cut.len(), 5);
    assert_eq!(cut[4].title, "T4");

    let filter = SearchFilter::new(FilterField::Author, "c");
    let only_c = finish_bibliographic(
        vec![record("One", "A", None)],
        vec![record("Two", "C", None)],
        Some(&filter),
    );
    assert_eq!(only_c.len(), 1);
    assert_eq!(only_c[0].title, "Two");
}

#[test]
fn filtered_records_ignores_blank_filters() {
    let records = vec![record("One", "A", Some(2001)), record("Two", "B", Some(2002))];
    let all = filtered_records(records.clone(), Some(&SearchFilter::new(FilterField::Year, "  ")));
    assert_eq!(all, records);
    let general = filtered_records(records.clone(), Some(&SearchFilter::new(FilterField::General, "2002")));
    assert_eq!(general.len(), 1);
    assert_eq!(general[0].title, "Two");
    assert_eq!(filtered_records(records.clone(), None), records);
}
