use bibref_rs::bibtex::{ascii_key_part, escape_latex, format_bibtex};
use bibref_rs::filter::{filtered_records, record_matches_filter, FilterField, SearchFilter};
use bibref_rs::merging::{merge_or_push, normalize_title, same_work};
use bibref_rs::metadata::{Author, SourceKind, WorkRecord};
use bibref_rs::numbers::{decimal_i32, parse_i32_chars};
use bibref_rs::ranking::{citation_candidate_matches, rank_citation_results, ranks_before_exec};
use bibref_rs::requests::crossref_query_url;
use bibref_rs::search::{classify_query, CitationKeyQuery, QueryKind};
use bibref_rs::sources::clean_text;
use bibref_rs::words::trim_str;

fn record(title: &str, family: &str, year: Option<i32>) -> WorkRecord {
    WorkRecord {
        title: title.to_string(),
        authors: vec![Author::new(Some("Given".to_string()), family)],
        year,
        container_title: None,
        volume: None,
        number: None,
        pages: None,
        publisher: None,
        doi: None,
        arxiv_id: None,
        source: SourceKind::Crossref,
        entry_type: "article".to_string(),
    }
}

fn key_of(bib: &str) -> &str {
    let start = bib.find('{').unwrap() + 1;
    let end = bib.find(',').unwrap();
    &bib[start..end]
}

#[test]
fn written_key_reads_back_as_citation_key() {
    let bib = format_bibtex(&record("The Quantum Hall effect", "von Klitzing", Some(1980)));
    let key = key_of(&bib);
    assert_eq!(key, "klitzing1980quantum");
    assert_eq!(
        classify_query(key),
        QueryKind::CitationKey(CitationKeyQuery {
            author: "klitzing".to_string(),
            year_fragment: "1980".to_string(),
            title_word: "quantum".to_string(),
            publication_year: Some(1980),
        })
    );
}

#[test]
fn citation_key_parts_rebuild_the_key() {
    for input in ["  blakie2023compressibility ", "Gallemi2025Excitation", "lin2412ai"] {
        match classify_query(input) {
            QueryKind::CitationKey(q) => {
                assert_eq!(format!("{}{}{}", q.author, q.year_fragment, q.title_word), input.trim());
                assert!(q.author.len() >= 2);
                assert_eq!(q.year_fragment.len(), 4);
            }
            other => panic!("unexpected {:?}", other),
        }
    }
}

#[test]
fn cleaning_twice_is_cleaning_once() {
    let messy = " \u{2003}a\t\tb  c\n";
    assert_eq!(clean_text(&clean_text(messy)), clean_text(messy));
    assert_eq!(clean_text(messy), "a b c");
    let once: String = trim_str(" \u{a0} x y \u{3000}").into_iter().collect();
    let twice: String = trim_str(&once).into_iter().collect();
    assert_eq!(once, "x y");
    assert_eq!(twice, once);
}

#[test]
fn same_work_is_symmetric_and_merging_twice_adds_once() {
    let a = record("Bose polarons", "A", None);
    let mut b = record("bose POLARONS!", "B", Some(2019));
    b.doi = Some("10.1/x".to_string());
    assert!(same_work(&a, &a));
    assert_eq!(same_work(&a, &b), same_work(&b, &a));

    let mut records = vec![record("Other", "C", None)];
    merge_or_push(&mut records, b.clone());
    let after_once = records.len();
    merge_or_push(&mut records, b);
    assert_eq!(records.len(), after_once);
    assert_eq!(after_once, 2);
}

#[test]
fn citation_results_match_and_come_ranked() {
    let query = CitationKeyQuery {
        author: "ma".to_string(),
        year_fragment: "2023".to_string(),
        title_word: "high".to_string(),
        publication_year: Some(2023),
    };
    let crossref: Vec<WorkRecord> = vec![
        record("Zeta high", "Ma", Some(2023)),
        record("High road", "Ma", Some(2023)),
        record("High road", "Li", Some(2023)),
        record("Also high", "Ma", Some(2023)),
        record("High noon", "Ma", Some(2022)),
    ];
    let results = rank_citation_results(crossref, vec![], &query, None);
    assert!(results.len() <= 5);
    assert_eq!(results.len(), 3);
    for r in &results {
        assert!(citation_candidate_matches(r, &query));
    }
    for i in 0..results.len() {
        for j in (i + 1)..results.len() {
            assert!(!ranks_before_exec(&results[j], &results[i], &query));
        }
    }
}

#[test]
fn blank_filters_keep_everything() {
    let r = record("Title", "Author", Some(2000));
    assert!(record_matches_filter(&r, &SearchFilter::new(FilterField::Journal, " \t ")));
    let kept = filtered_records(vec![r.clone()], Some(&SearchFilter::new(FilterField::Journal, "")));
    assert_eq!(kept, vec![r]);
}

#[test]
fn encoded_values_cannot_add_parameters() {
    let url = crossref_query_url("a&rows=1000?x#y z/é", None);
    let value = &url["https://api.crossref.org/works?query.bibliographic=".len()..url.len() - "&rows=5".len()];
    assert_eq!(value, "a%26rows%3D1000%3Fx%23y%20z%2F%C3%A9");
    assert!(value
        .chars()
        .all(|c| c.is_ascii_alphanumeric() || "-._~%".contains(c)));
}

#[test]
fn decimal_text_parses_back() {
    for n in [0, 7, -7, 2024, i32::MAX, i32::MIN] {
        assert_eq!(parse_i32_chars(&decimal_i32(n)), Some(n));
    }
    let text: String = decimal_i32(-2147483648).into_iter().collect();
    assert_eq!(text, "-2147483648");
    let chars: Vec<char> = "2147483648".chars().collect();
    assert_eq!(parse_i32_chars(&chars), None);
    let chars: Vec<char> = "+12".chars().collect();
    assert_eq!(parse_i32_chars(&chars), Some(12));
    let chars: Vec<char> = "-".chars().collect();
    assert_eq!(parse_i32_chars(&chars), None);
}

#[test]
fn entries_list_no_blank_fields_and_escape_piecewise() {
    let mut r = record("  50% & #1_~^ ", "Øster", None);
    r.volume = Some("  ".to_string());
    r.pages = Some(" 1-2 ".to_string());
    let bib = format_bibtex(&r);
    assert_eq!(
        bib,
        "@article{sternodate50,\n  title={50\\% \\& \\#1\\_\\~{}\\^{}},\n  author={\\O{}ster, Given},\n  pages={1-2}\n}"
    );
    assert!(!bib.contains("volume"));
}

#[test]
fn plain_text_is_not_escaped() {
    let bib = format_bibtex(&record("Hello World 123", "Lovelace", Some(2020)));
    assert!(bib.contains("  title={Hello World 123},\n"));
}

#[test]
fn citation_key_depends_only_on_first_family_year_and_title() {
    let a = record("Quantum gases in optical lattices", "Bloch", Some(2008));
    let mut b = record("Quantum gases in optical lattices", "Bloch", Some(2008));
    b.authors[0].given = Some("Immanuel".to_string());
    b.authors.push(Author::new(Some("Jean".to_string()), "Dalibard"));
    b.container_title = Some("Reviews of Modern Physics".to_string());
    b.doi = Some("10.1103/RevModPhys.80.885".to_string());
    b.pages = Some("885".to_string());
    let ka = format_bibtex(&a);
    let kb = format_bibtex(&b);
    assert_eq!(key_of(&ka), "bloch2008quantum");
    assert_eq!(key_of(&ka), key_of(&kb));
}

#[test]
fn citation_key_is_lowercase_ascii() {
    let bib = format_bibtex(&record("Über die Élasticité", "Peña-Ardila", Some(1999)));
    let key = key_of(&bib);
    assert_eq!(key, "peaardila1999ber");
    assert!(key.chars().all(|c| c.is_ascii_lowercase() || c.is_ascii_digit()));
    let nodate = format_bibtex(&record("", "García", None));
    assert_eq!(key_of(&nodate), "garcanodatework");
}

#[test]
fn normalized_titles_compare_equal() {
    let a = record("  The  Quick, Brown-Fox! ", "Lovelace", None);
    let b = record("the quick brownfox", "Turing", None);
    assert!(same_work(&a, &b));
    let c = record("Café", "Lovelace", None);
    let d = record("caf", "Turing", None);
    assert!(same_work(&c, &d));
    let e = record("the quick brown fox", "Turing", None);
    assert!(!same_work(&a, &e));
}

#[test]
fn merging_a_record_with_itself_changes_nothing() {
    let mut r = record("A title", "Hopper", Some(1952));
    r.doi = Some("10.1/x".to_string());
    let copy = r.clone();
    r.merge_missing_from(&copy);
    assert_eq!(r, copy);
    let mut s = record("A title", "Hopper", None);
    s.merge_missing_from(&copy);
    let again = s.clone();
    s.merge_missing_from(&copy);
    assert_eq!(s, again);
}

#[test]
fn escape_latex_is_piecewise_and_keeps_plain_text() {
    assert_eq!(escape_latex("Hello World 123"), "Hello World 123");
    let a = "50% of R&D";
    let b = " in Málaga_2 {x}";
    assert_eq!(escape_latex(&format!("{a}{b}")), escape_latex(a) + &escape_latex(b));
    assert_eq!(escape_latex("#1 ~ ^"), "\\#1 \\~{} \\^{}");
}

#[test]
fn ascii_key_part_examples() {
    assert_eq!(ascii_key_part("García"), "garca");
    assert_eq!(ascii_key_part("Peña-Ardila"), "peaardila");
    let once = ascii_key_part("Van der Waals-42!");
    assert_eq!(once, "vanderwaals42");
    assert!(once.chars().all(|c| c.is_ascii_lowercase() || c.is_ascii_digit()));
    assert_eq!(ascii_key_part(&once), once);
}

#[test]
fn normalize_title_examples() {
    assert_eq!(normalize_title("  The  Quick, Brown-Fox! "), "the quick brownfox");
    assert_eq!(normalize_title("Café"), "caf");
    let once = normalize_title("  Über\tdas  Problem 2 ");
    assert_eq!(normalize_title(&once), once);
}
