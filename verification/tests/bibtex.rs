use bibref_rs::bibtex::format_bibtex;
use bibref_rs::metadata::{Author, SourceKind, WorkRecord};

#[test]
fn includes_doi_and_latex_accents() {
    let record = WorkRecord {
        title: "Café & résumé".to_string(),
        authors: vec![Author::new(Some("René".to_string()), "García")],
        year: Some(2024),
        container_title: Some("Journal".to_string()),
        volume: Some("1".to_string()),
        number: None,
        pages: Some("1-2".to_string()),
        publisher: None,
        doi: Some("10.1234/example".to_string()),
        arxiv_id: None,
        source: SourceKind::Crossref,
        entry_type: "article".to_string(),
    };

    let bib = format_bibtex(&record);

    assert!(bib.starts_with("@article{garca2024caf"));
    assert!(bib.contains("title={Caf\\'{e} \\& r\\'{e}sum\\'{e}}"));
    assert!(bib.contains("author={Garc\\'{i}a, Ren\\'{e}}"));
    assert!(bib.contains("doi={10.1234/example}"));
}

#[test]
fn citation_key_splits_hyphenated_title_words() {
    let record = WorkRecord {
        title: "High-fidelity gates with mid-circuit erasure conversion in an atomic qubit"
            .to_string(),
        authors: vec![Author::new(Some("Shuo".to_string()), "Ma")],
        year: Some(2023),
        container_title: Some("Nature".to_string()),
        volume: Some("622".to_string()),
        number: None,
        pages: None,
        publisher: Some("Springer Science and Business Media LLC".to_string()),
        doi: Some("10.1038/s41586-023-06438-1".to_string()),
        arxiv_id: None,
        source: SourceKind::Crossref,
        entry_type: "article".to_string(),
    };

    assert!(format_bibtex(&record).starts_with("@article{ma2023high,"));
}

#[test]
fn citation_key_skips_leading_articles() {
    let record = WorkRecord {
        title: "A new experiment".to_string(),
        authors: vec![Author::new(Some("Etienne".to_string()), "Staub")],
        year: Some(2024),
        container_title: None,
        volume: None,
        number: None,
        pages: None,
        publisher: None,
        doi: None,
        arxiv_id: None,
        source: SourceKind::Crossref,
        entry_type: "phdthesis".to_string(),
    };

    assert!(format_bibtex(&record).starts_with("@phdthesis{staub2024new,"));
}

#[test]
fn citation_key_uses_terminal_component_of_compound_family_name() {
    let record = WorkRecord {
        title: "Ground-state properties of dipolar Bose polarons".to_string(),
        authors: vec![Author::new(Some("L. A.".to_string()), "Peña Ardila")],
        year: Some(2019),
        container_title: Some(
            "Journal of Physics B: Atomic, Molecular and Optical Physics".to_string(),
        ),
        volume: Some("52".to_string()),
        number: None,
        pages: None,
        publisher: None,
        doi: Some("10.1088/1361-6455/aaf35e".to_string()),
        arxiv_id: None,
        source: SourceKind::Crossref,
        entry_type: "article".to_string(),
    };

    assert!(format_bibtex(&record).starts_with("@article{ardila2019ground,"));
}

#[test]
fn whole_entry_has_fields_in_order() {
    let record = WorkRecord {
        title: "  The {Best} Paper ".to_string(),
        authors: vec![
            Author::new(Some("Ada".to_string()), "Lovelace"),
            Author::new(None, "Babbage"),
            Author::new(Some("  ".to_string()), "Turing"),
        ],
        year: Some(-5),
        container_title: Some("J_x".to_string()),
        volume: Some("   ".to_string()),
        number: Some("3".to_string()),
        pages: None,
        publisher: Some("100% Press".to_string()),
        doi: Some(" 10.1/x ".to_string()),
        arxiv_id: Some("2401.00001".to_string()),
        source: SourceKind::Arxiv,
        entry_type: "misc".to_string(),
    };
    let expected = "@misc{lovelace-5best,\n  title={The \\{Best\\} Paper},\n  author={Lovelace, Ada and Babbage and Turing},\n  journal={J\\_x},\n  number={3},\n  year={-5},\n  publisher={100\\% Press},\n  doi={10.1/x},\n  eprint={2401.00001}\n}";
    assert_eq!(format_bibtex(&record), expected);
}

#[test]
fn key_falls_back_to_ref_nodate_work() {
    let record = WorkRecord {
        title: "The an a".to_string(),
        authors: vec![],
        year: None,
        container_title: None,
        volume: None,
        number: None,
        pages: None,
        publisher: None,
        doi: None,
        arxiv_id: None,
        source: SourceKind::Crossref,
        entry_type: "book".to_string(),
    };
    assert_eq!(format_bibtex(&record), "@book{refnodatework,\n  title={The an a}\n}");
}
