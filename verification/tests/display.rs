use bibref_rs::display::{author_lines, venue_line};
use bibref_rs::metadata::{Author, SourceKind, WorkRecord};

fn record(authors: Vec<Author>) -> WorkRecord {
    WorkRecord {
        title: "T".to_string(),
        authors,
        year: Some(2020),
        container_title: None,
        volume: None,
        number: None,
        pages: None,
        publisher: None,
        doi: None,
        arxiv_id: None,
        source: SourceKind::Arxiv,
        entry_type: "article".to_string(),
    }
}

#[test]
fn author_lines_use_initials() {
    assert_eq!(author_lines(&record(vec![])), vec!["Unknown authors"]);
    let three = record(vec![
        Author::new(Some("jean-paul  sartre".to_string()), "Sartre"),
        Author::new(None, "Plato"),
        Author::new(Some("".to_string()), "Kant"),
    ]);
    assert_eq!(author_lines(&three), vec!["J P S Sartre, Plato, Kant"]);
    let five = record(vec![
        Author::new(Some("Ada".to_string()), "Lovelace"),
        Author::new(None, "B"),
        Author::new(None, "C"),
        Author::new(None, "D"),
        Author::new(Some("ève".to_string()), "E"),
    ]);
    assert_eq!(author_lines(&five), vec!["A Lovelace, B, C", "D, È E"]);
}

#[test]
fn venue_lines() {
    let mut r = record(vec![]);
    assert_eq!(venue_line(&r), "arXiv preprint, 2020");
    r.source = SourceKind::Crossref;
    r.year = None;
    assert_eq!(venue_line(&r), "Published work");
    r.publisher = Some("APS".to_string());
    assert_eq!(venue_line(&r), "APS, APS");
    r.container_title = Some("PRL".to_string());
    r.year = Some(1999);
    assert_eq!(venue_line(&r), "PRL, 1999, APS");
}
