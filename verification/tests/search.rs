use bibref_rs::search::{classify_query, CitationKeyQuery, QueryKind};

#[test]
fn classifies_doi_forms() {
    assert_eq!(
        classify_query("https://doi.org/10.1103/PhysRevLett.1.1"),
        QueryKind::Doi("10.1103/PhysRevLett.1.1".to_string())
    );
    assert_eq!(
        classify_query("10.1103/PhysRevLett.1.1"),
        QueryKind::Doi("10.1103/PhysRevLett.1.1".to_string())
    );
}

#[test]
fn classifies_arxiv_forms() {
    assert_eq!(
        classify_query("arXiv:2401.00001"),
        QueryKind::Arxiv("2401.00001".to_string())
    );
    assert_eq!(
        classify_query("2401.00001"),
        QueryKind::Arxiv("2401.00001".to_string())
    );
}

#[test]
fn classifies_google_scholar_style_citation_keys() {
    assert_eq!(
        classify_query("blakie2023compressibility"),
        QueryKind::CitationKey(CitationKeyQuery {
            author: "blakie".to_string(),
            year_fragment: "2023".to_string(),
            title_word: "compressibility".to_string(),
            publication_year: Some(2023),
        })
    );
    assert_eq!(
        classify_query("Gallemi2025Excitation"),
        QueryKind::CitationKey(CitationKeyQuery {
            author: "Gallemi".to_string(),
            year_fragment: "2025".to_string(),
            title_word: "Excitation".to_string(),
            publication_year: Some(2025),
        })
    );
    assert_eq!(
        classify_query("compressibility"),
        QueryKind::Bibliographic("compressibility".to_string())
    );
}

fn citation_query(
    author: &str,
    year_fragment: &str,
    title_word: &str,
    publication_year: Option<i32>,
) -> QueryKind {
    QueryKind::CitationKey(CitationKeyQuery {
        author: author.to_string(),
        year_fragment: year_fragment.to_string(),
        title_word: title_word.to_string(),
        publication_year,
    })
}

#[test]
fn classifies_citation_keys_from_samples() {
    let keys = vec![
        "tanzi2019supersolid",
        "natale2019excitation",
        "scheiermann2025excitation",
        "lin2412ai",
        "vsindik2024sound",
        "sanchez2023heating",
        "staub2024new",
        "biss2023probing",
    ];

    let queries = keys.into_iter().map(classify_query).collect::<Vec<_>>();

    assert_eq!(
        queries,
        vec![
            citation_query("tanzi", "2019", "supersolid", Some(2019)),
            citation_query("natale", "2019", "excitation", Some(2019)),
            citation_query("scheiermann", "2025", "excitation", Some(2025)),
            citation_query("lin", "2412", "ai", None),
            citation_query("vsindik", "2024", "sound", Some(2024)),
            citation_query("sanchez", "2023", "heating", Some(2023)),
            citation_query("staub", "2024", "new", Some(2024)),
            citation_query("biss", "2023", "probing", Some(2023)),
        ]
    );
}

#[test]
fn classifies_doi_inside_text_and_arxiv_links() {
    assert_eq!(
        classify_query("  see 10.1000/xyz123.. "),
        QueryKind::Doi("10.1000/xyz123".to_string())
    );
    assert_eq!(
        classify_query("HTTPS://DOI.ORG/10.5/ABC"),
        QueryKind::Doi("10.5/ABC".to_string())
    );
    assert_eq!(
        classify_query("https://arxiv.org/abs/2401.00001V2"),
        QueryKind::Arxiv("2401.00001v2".to_string())
    );
    assert_eq!(
        classify_query("10.5/a b"),
        QueryKind::Doi("10.5/a b".to_string())
    );
    assert_eq!(
        classify_query("ab1899xy"),
        QueryKind::CitationKey(CitationKeyQuery {
            author: "ab".to_string(),
            year_fragment: "1899".to_string(),
            title_word: "xy".to_string(),
            publication_year: Some(1899),
        })
    );
    assert_eq!(
        classify_query("ab1799xy"),
        QueryKind::Bibliographic("ab1799xy".to_string())
    );
    assert_eq!(
        classify_query("quantum gases"),
        QueryKind::Bibliographic("quantum gases".to_string())
    );
}

use bibref_rs::filter::{record_matches_filter, FilterField, SearchFilter};
use bibref_rs::metadata::{Author, SourceKind, WorkRecord};
use bibref_rs::ranking::{citation_match_score, citation_title_starts_with};

#[test]
fn ranks_citation_key_matches_by_author_year_and_title_word() {
    let query = CitationKeyQuery {
        author: "ma".to_string(),
        year_fragment: "2023".to_string(),
        title_word: "high".to_string(),
        publication_year: Some(2023),
    };
    let exact = WorkRecord {
        title:
            "High-fidelity gates with mid-circuit erasure conversion in a metastable neutral atom qubit"
                .to_string(),
        authors: vec![Author::new(Some("Shuo".to_string()), "Ma")],
        year: Some(2023),
        container_title: Some("Nature".to_string()),
        volume: Some("622".to_string()),
        number: None,
        pages: None,
        publisher: None,
        doi: Some("10.1038/s41586-023-06438-1".to_string()),
        arxiv_id: None,
        source: SourceKind::Crossref,
        entry_type: "article".to_string(),
    };
    let unrelated = WorkRecord {
        title: "High-energy physics".to_string(),
        authors: vec![Author::new(Some("Ada".to_string()), "Lovelace")],
        year: Some(2022),
        container_title: None,
        volume: None,
        number: None,
        pages: None,
        publisher: None,
        doi: None,
        arxiv_id: None,
        source: SourceKind::Crossref,
        entry_type: "article".to_string(),
    };

    assert!(citation_match_score(&exact, &query) > citation_match_score(&unrelated, &query));
    assert!(citation_title_starts_with(&exact, &query));
    assert!(record_matches_filter(
        &exact,
        &SearchFilter::new(FilterField::Journal, "nature")
    ));
    assert!(record_matches_filter(
        &exact,
        &SearchFilter::new(FilterField::Author, "shuo ma")
    ));
    assert!(record_matches_filter(
        &exact,
        &SearchFilter::new(FilterField::Year, "2023")
    ));
    assert!(record_matches_filter(
        &exact,
        &SearchFilter::new(FilterField::Title, "mid-circuit")
    ));
    assert!(!record_matches_filter(
        &exact,
        &SearchFilter::new(FilterField::Journal, "science")
    ));

    let contains_later = WorkRecord {
        title: "A model with high accuracy".to_string(),
        authors: vec![Author::new(Some("Shuo".to_string()), "Ma")],
        year: Some(2023),
        source: SourceKind::Arxiv,
        ..unrelated
    };
    assert!(!citation_title_starts_with(&contains_later, &query));
}
