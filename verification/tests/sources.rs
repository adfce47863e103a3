use bibref_rs::sources::{
    arxiv_entry_to_record, clean_text, crossref_item_to_record, extract_year,
    split_arxiv_author, ArxivAuthor, ArxivEntry, CrossrefAuthor, CrossrefDate, CrossrefItem,
};
use bibref_rs::metadata::SourceKind;

fn sample_item() -> CrossrefItem {
    CrossrefItem {
        title: vec!["A Sample Paper".to_string()],
        author: vec![CrossrefAuthor {
            given: Some("Ada".to_string()),
            family: Some("Lovelace".to_string()),
            name: None,
        }],
        container_title: vec!["Journal of Samples".to_string()],
        published_print: Some(CrossrefDate { date_parts: vec![vec![2023, 1, 1]] }),
        published_online: None,
        published: None,
        volume: Some("7".to_string()),
        issue: Some("2".to_string()),
        page: Some("10-20".to_string()),
        publisher: Some("Example Press".to_string()),
        doi: Some("10.1234/example".to_string()),
        item_type: Some("journal-article".to_string()),
    }
}

#[test]
fn maps_crossref_json() {
    let item = sample_item();

    let record = crossref_item_to_record(item);

    assert_eq!(record.title, "A Sample Paper");
    assert_eq!(record.authors[0].family, "Lovelace");
    assert_eq!(record.year, Some(2023));
    assert_eq!(record.doi.as_deref(), Some("10.1234/example"));
}

#[test]
fn maps_arxiv_atom() {
    let entry = ArxivEntry {
        id: "https://arxiv.org/abs/2401.00001".to_string(),
        title: " A Sample Preprint ".to_string(),
        published: Some("2024-01-01T00:00:00Z".to_string()),
        authors: vec![ArxivAuthor { name: "Ada Lovelace".to_string() }],
    };

    let record = arxiv_entry_to_record(entry);

    assert_eq!(record.title, "A Sample Preprint");
    assert_eq!(record.year, Some(2024));
    assert_eq!(record.arxiv_id.as_deref(), Some("2401.00001"));
    assert_eq!(record.authors[0].family, "Lovelace");
}

#[test]
fn crossref_item_details() {
    let mut item = sample_item();
    item.title = vec!["  Spaced \n  out   title ".to_string(), "Second".to_string()];
    item.author = vec![
        CrossrefAuthor { given: None, family: None, name: Some("CERN Collaboration".to_string()) },
        CrossrefAuthor { given: Some("X".to_string()), family: None, name: None },
        CrossrefAuthor { given: Some("Grace".to_string()), family: Some("Hopper".to_string()), name: Some("ignored".to_string()) },
    ];
    item.published_print = None;
    item.published_online = Some(CrossrefDate { date_parts: vec![vec![]] });
    item.published = Some(CrossrefDate { date_parts: vec![vec![1999]] });
    item.doi = Some("  10.5/ABC \t".to_string());
    item.item_type = Some("book-chapter".to_string());
    item.container_title = vec![];

    let record = crossref_item_to_record(item);

    assert_eq!(record.title, "Spaced out title");
    assert_eq!(record.authors.len(), 2);
    assert_eq!(record.authors[0].family, "CERN Collaboration");
    assert_eq!(record.authors[0].given, None);
    assert_eq!(record.authors[1].given.as_deref(), Some("Grace"));
    assert_eq!(record.authors[1].family, "Hopper");
    assert_eq!(record.year, None);
    assert_eq!(record.container_title, None);
    assert_eq!(record.doi.as_deref(), Some("10.5/ABC"));
    assert_eq!(record.entry_type, "incollection");
    assert_eq!(record.source, SourceKind::Crossref);
    assert_eq!(record.arxiv_id, None);
}

#[test]
fn crossref_entry_types() {
    let kinds = [
        (Some("book"), "book"),
        (Some("monograph"), "book"),
        (Some("book-section"), "incollection"),
        (Some("proceedings-article"), "inproceedings"),
        (Some("dataset"), "article"),
        (None, "article"),
    ];
    for (kind, expected) in kinds {
        let mut item = sample_item();
        item.item_type = kind.map(|k| k.to_string());
        assert_eq!(crossref_item_to_record(item).entry_type, expected);
    }
}

#[test]
fn arxiv_entry_details() {
    let entry = ArxivEntry {
        id: "  https://arxiv.org/abs/https://arxiv.org/abs/hep-th/9901001v1 ".to_string(),
        title: "Strings\n   and things".to_string(),
        published: Some("19x9-01-01".to_string()),
        authors: vec![
            ArxivAuthor { name: "  Jean   de la  Fontaine ".to_string() },
            ArxivAuthor { name: "Plato".to_string() },
        ],
    };

    let record = arxiv_entry_to_record(entry);

    assert_eq!(record.arxiv_id.as_deref(), Some("hep-th/9901001v1"));
    assert_eq!(record.title, "Strings and things");
    assert_eq!(record.year, None);
    assert_eq!(record.container_title.as_deref(), Some("arXiv preprint"));
    assert_eq!(record.authors[0].given.as_deref(), Some("Jean de la"));
    assert_eq!(record.authors[0].family, "Fontaine");
    assert_eq!(record.authors[1].given, None);
    assert_eq!(record.authors[1].family, "Plato");
    assert_eq!(record.source, SourceKind::Arxiv);
    assert_eq!(record.entry_type, "article");
}

#[test]
fn arxiv_year_needs_four_ascii_chars() {
    let entry = |published: Option<&str>| ArxivEntry {
        id: "x".to_string(),
        title: "t".to_string(),
        published: published.map(|p| p.to_string()),
        authors: vec![],
    };
    assert_eq!(arxiv_entry_to_record(entry(Some("2024"))).year, Some(2024));
    assert_eq!(arxiv_entry_to_record(entry(Some("-202x"))).year, Some(-202));
    assert_eq!(arxiv_entry_to_record(entry(Some("+123"))).year, Some(123));
    assert_eq!(arxiv_entry_to_record(entry(Some("202"))).year, None);
    assert_eq!(arxiv_entry_to_record(entry(Some("20é4"))).year, None);
    assert_eq!(arxiv_entry_to_record(entry(None)).year, None);
}

#[test]
fn split_and_clean_names() {
    assert_eq!(clean_text("  a \t b\n\nc  "), "a b c");
    assert_eq!(clean_text("   "), "");
    let author = split_arxiv_author(" Ada   King Lovelace ");
    assert_eq!(author.given.as_deref(), Some("Ada King"));
    assert_eq!(author.family, "Lovelace");
    assert_eq!(author.display_name(), clean_text(" Ada   King Lovelace "));
}

#[test]
fn extracts_first_date_part() {
    assert_eq!(extract_year(Some(&CrossrefDate { date_parts: vec![vec![2001, 5]] })), Some(2001));
    assert_eq!(extract_year(Some(&CrossrefDate { date_parts: vec![] })), None);
    assert_eq!(extract_year(None), None);
}

