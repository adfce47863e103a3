//! Records as Crossref (JSON) and arXiv (Atom) describe them, and their
//! mapping to the common work record.
use vstd::prelude::*;
use crate::bibtex::opt_trim;
use crate::metadata::{
    Author, AuthorView, display_name_of, RecordView, SourceKind, WorkRecord, authors_view, clone_opt_text,
    opt_text,
};
use crate::numbers::{parse_i32, parse_i32_chars};
use crate::text::{all_ascii, is_white_space, chars_equal_str, chars_of, slice_chars, string_of};
use crate::words::{
    collapse_ws, collapse_ws_chars, lemma_collapse_starts, trim, trim_start_prefix, trim_start_prefix_chars, trim_str,
};

verus! {

// ------------------------------------------------------------------
// Crossref
// ------------------------------------------------------------------

/// An author as Crossref lists it: a person (given and family names) or an
/// organisation (a name).
pub struct CrossrefAuthor {
    pub given: Option<String>,
    pub family: Option<String>,
    pub name: Option<String>,
}

/// A date as `date-parts`: year, month, day, any of them may be missing.
pub struct CrossrefDate {
    pub date_parts: Vec<Vec<i32>>,
}

/// A Crossref work item.
pub struct CrossrefItem {
    pub title: Vec<String>,
    pub author: Vec<CrossrefAuthor>,
    pub container_title: Vec<String>,
    pub published_print: Option<CrossrefDate>,
    pub published_online: Option<CrossrefDate>,
    pub published: Option<CrossrefDate>,
    pub volume: Option<String>,
    pub issue: Option<String>,
    pub page: Option<String>,
    pub publisher: Option<String>,
    pub doi: Option<String>,
    pub item_type: Option<String>,
}

pub struct CrossrefAuthorView {
    pub given: Option<Seq<char>>,
    pub family: Option<Seq<char>>,
    pub name: Option<Seq<char>>,
}

impl View for CrossrefAuthor {
    type V = CrossrefAuthorView;

    open spec fn view(&self) -> CrossrefAuthorView {
        CrossrefAuthorView {
            given: opt_text(self.given),
            family: opt_text(self.family),
            name: opt_text(self.name),
        }
    }
}

pub open spec fn date_view(d: CrossrefDate) -> Seq<Seq<i32>> {
    d.date_parts@.map_values(|p: Vec<i32>| p@)
}

pub open spec fn opt_date_view(d: Option<CrossrefDate>) -> Option<Seq<Seq<i32>>> {
    match d {
        Some(d) => Some(date_view(d)),
        None => None,
    }
}

pub open spec fn texts_view(v: Seq<String>) -> Seq<Seq<char>> {
    v.map_values(|s: String| s@)
}

pub open spec fn crossref_authors_view(v: Seq<CrossrefAuthor>) -> Seq<CrossrefAuthorView> {
    v.map_values(|a: CrossrefAuthor| a@)
}

/// The BibTeX entry type for a Crossref work type.
pub open spec fn entry_type_of(t: Option<Seq<char>>) -> Seq<char> {
    match t {
        Some(s) => if s == "book"@ || s == "monograph"@ {
            "book"@
        } else if s == "book-chapter"@ || s == "book-section"@ {
            "incollection"@
        } else if s == "proceedings-article"@ {
            "inproceedings"@
        } else {
            "article"@
        },
        None => "article"@,
    }
}

/// The authors that have a family name or, failing that, a name; that name
/// becomes the family name.
pub open spec fn crossref_authors_of(v: Seq<CrossrefAuthorView>) -> Seq<AuthorView>
    decreases v.len(),
{
    if v.len() == 0 {
        Seq::empty()
    } else {
        let a = v.last();
        let rest = crossref_authors_of(v.drop_last());
        match (if a.family is Some {
            a.family
        } else {
            a.name
        }) {
            Some(f) => rest.push(AuthorView { given: a.given, family: f }),
            None => rest,
        }
    }
}

/// The year of a date: its first part, when there is one.
pub open spec fn year_of_date(d: Option<Seq<Seq<i32>>>) -> Option<i32> {
    match d {
        Some(parts) => if parts.len() > 0 && parts[0].len() > 0 {
            Some(parts[0][0])
        } else {
            None
        },
        None => None,
    }
}

/// The date that dates the work: print, else online, else `published`.
pub open spec fn item_date(item: CrossrefItem) -> Option<Seq<Seq<i32>>> {
    if item.published_print is Some {
        opt_date_view(item.published_print)
    } else if item.published_online is Some {
        opt_date_view(item.published_online)
    } else {
        opt_date_view(item.published)
    }
}

pub open spec fn first_text(v: Seq<String>) -> Option<Seq<char>> {
    if v.len() > 0 {
        Some(v[0]@)
    } else {
        None
    }
}

pub open spec fn opt_collapse(o: Option<Seq<char>>) -> Option<Seq<char>> {
    match o {
        Some(s) => Some(collapse_ws(s)),
        None => None,
    }
}

/// The record a Crossref item describes.
pub open spec fn crossref_record_of(item: CrossrefItem) -> RecordView {
    RecordView {
        title: collapse_ws(
            match first_text(item.title@) {
                Some(t) => t,
                None => Seq::empty(),
            },
        ),
        authors: crossref_authors_of(crossref_authors_view(item.author@)),
        year: year_of_date(item_date(item)),
        container_title: opt_collapse(first_text(item.container_title@)),
        volume: opt_text(item.volume),
        number: opt_text(item.issue),
        pages: opt_text(item.page),
        publisher: opt_text(item.publisher),
        doi: opt_trim(opt_text(item.doi)),
        arxiv_id: None,
        source: SourceKind::Crossref,
        entry_type: entry_type_of(opt_text(item.item_type)),
    }
}

pub fn clean_text(input: &str) -> (r: String)
    ensures
        r@ == collapse_ws(input@),
{
    let cs = chars_of(input);
    let c = collapse_ws_chars(cs.as_slice());
    string_of(c.as_slice())
}

pub fn extract_year(date: Option<&CrossrefDate>) -> (r: Option<i32>)
    ensures
        r == year_of_date(
            match date {
                Some(d) => Some(date_view(*d)),
                None => None,
            },
        ),
{
    match date {
        Some(d) => {
            if d.date_parts.len() > 0 && d.date_parts[0].len() > 0 {
                assert(date_view(*d)[0] == d.date_parts@[0]@);
                Some(d.date_parts[0][0])
            } else {
                assert(d.date_parts.len() > 0 ==> date_view(*d)[0] == d.date_parts@[0]@);
                None
            }
        },
        None => None,
    }
}

fn entry_type_for(item_type: &Option<String>) -> (r: String)
    ensures
        r@ == entry_type_of(opt_text(*item_type)),
{
    match item_type {
        Some(t) => {
            let cs = chars_of(t.as_str());
            if chars_equal_str(cs.as_slice(), "book") || chars_equal_str(cs.as_slice(), "monograph") {
                String::from_str("book")
            } else if chars_equal_str(cs.as_slice(), "book-chapter") || chars_equal_str(
                cs.as_slice(),
                "book-section",
            ) {
                String::from_str("incollection")
            } else if chars_equal_str(cs.as_slice(), "proceedings-article") {
                String::from_str("inproceedings")
            } else {
                String::from_str("article")
            }
        },
        None => String::from_str("article"),
    }
}

fn crossref_authors(authors: &Vec<CrossrefAuthor>) -> (r: Vec<Author>)
    ensures
        authors_view(r@) == crossref_authors_of(crossref_authors_view(authors@)),
{
    let mut r: Vec<Author> = Vec::new();
    let mut i: usize = 0;
    while i < authors.len()
        invariant
            i <= authors.len(),
            authors_view(r@) == crossref_authors_of(crossref_authors_view(authors@.take(i as int))),
        decreases authors.len() - i,
    {
        let ghost prev = crossref_authors_view(authors@.take(i as int));
        let a = &authors[i];
        proof {
            assert(crossref_authors_view(authors@.take(i as int + 1)) =~= prev.push(a@));
            assert(prev.push(a@).drop_last() =~= prev);
        }
        let family = match &a.family {
            Some(f) => Some(f.clone()),
            None => match &a.name {
                Some(n) => Some(n.clone()),
                None => None,
            },
        };
        if let Some(f) = family {
            let author = Author { given: clone_opt_text(&a.given), family: f };
            let ghost before = r@;
            r.push(author);
            proof {
                assert(authors_view(r@) =~= authors_view(before).push(author@));
            }
        }
        i += 1;
    }
    proof {
        assert(authors@.take(authors@.len() as int) == authors@);
    }
    r
}

fn first_clean(v: &Vec<String>) -> (r: Option<String>)
    ensures
        opt_text(r) == opt_collapse(first_text(v@)),
{
    if v.len() > 0 {
        Some(clean_text(v[0].as_str()))
    } else {
        None
    }
}

pub fn crossref_item_to_record(item: CrossrefItem) -> (r: WorkRecord)
    ensures
        r@ == crossref_record_of(item),
{
    let entry_type = entry_type_for(&item.item_type);
    let title = if item.title.len() > 0 {
        clean_text(item.title[0].as_str())
    } else {
        clean_text("")
    };
    proof {
        reveal_strlit("");
    }
    let authors = crossref_authors(&item.author);
    let date = if item.published_print.is_some() {
        item.published_print.as_ref()
    } else if item.published_online.is_some() {
        item.published_online.as_ref()
    } else {
        item.published.as_ref()
    };
    let year = extract_year(date);
    let container_title = first_clean(&item.container_title);
    let doi = match &item.doi {
        Some(d) => {
            let t = trim_str(d.as_str());
            Some(string_of(t.as_slice()))
        },
        None => None,
    };
    WorkRecord {
        title,
        authors,
        year,
        container_title,
        volume: item.volume,
        number: item.issue,
        pages: item.page,
        publisher: item.publisher,
        doi,
        arxiv_id: None,
        source: SourceKind::Crossref,
        entry_type,
    }
}

pub fn crossref_items_to_records(items: Vec<CrossrefItem>) -> (r: Vec<WorkRecord>)
    ensures
        r@.len() == items@.len(),
        forall|i: int| 0 <= i < r@.len() ==> #[trigger] r@[i]@ == crossref_record_of(items@[i]),
{
    let ghost all = items@;
    let mut items = items;
    let mut out: Vec<WorkRecord> = Vec::new();
    let ghost total = items@.len();
    while items.len() > 0
        invariant
            items@.len() <= total == all.len(),
            items@ =~= all.skip(total - items@.len()),
            out@.len() == total - items@.len(),
            forall|i: int| 0 <= i < out@.len() ==> #[trigger] out@[i]@ == crossref_record_of(all[i]),
        decreases items.len(),
    {
        let ghost done_n = total - items@.len();
        let ghost before = items@;
        let item = items.remove(0);
        proof {
            assert(item == all[done_n]);
            assert(items@ =~= all.skip(done_n + 1));
        }
        let rec = crossref_item_to_record(item);
        out.push(rec);
    }
    out
}

// ------------------------------------------------------------------
// arXiv
// ------------------------------------------------------------------

pub struct ArxivAuthor {
    pub name: String,
}

/// An Atom entry of the arXiv API.
pub struct ArxivEntry {
    pub id: String,
    pub title: String,
    pub published: Option<String>,
    pub authors: Vec<ArxivAuthor>,
}

/// The last position of `c` in `s`.
pub open spec fn last_index_of(s: Seq<char>, c: char) -> Option<int>
    decreases s.len(),
{
    if s.len() == 0 {
        None
    } else if s.last() == c {
        Some(s.len() - 1)
    } else {
        last_index_of(s.drop_last(), c)
    }
}

/// An arXiv author name: cleaned, the part after the last space is the
/// family name and the part before it the given name.
pub open spec fn split_author_of(name: Seq<char>) -> AuthorView {
    let n = collapse_ws(name);
    match last_index_of(n, ' ') {
        Some(k) => AuthorView { given: Some(n.take(k)), family: n.skip(k + 1) },
        None => AuthorView { given: None, family: n },
    }
}

pub open spec fn arxiv_authors_of(v: Seq<ArxivAuthor>) -> Seq<AuthorView> {
    v.map_values(|a: ArxivAuthor| split_author_of(a.name@))
}

/// The year an arXiv date starts with: its first four chars, when they are
/// ASCII and read as an `i32`.
pub open spec fn published_year_of(p: Option<Seq<char>>) -> Option<i32> {
    match p {
        Some(s) => if s.len() >= 4 && all_ascii(s.take(4)) {
            parse_i32(s.take(4))
        } else {
            None
        },
        None => None,
    }
}

/// The arXiv id of an entry: its `<id>` trimmed, with the abstract-page
/// prefix removed.
pub open spec fn arxiv_id_of(id: Seq<char>) -> Seq<char> {
    trim_start_prefix(trim(id), "https://arxiv.org/abs/"@)
}

/// The record an arXiv entry describes.
pub open spec fn arxiv_record_of(entry: ArxivEntry) -> RecordView {
    RecordView {
        title: collapse_ws(entry.title@),
        authors: arxiv_authors_of(entry.authors@),
        year: published_year_of(opt_text(entry.published)),
        container_title: Some("arXiv preprint"@),
        volume: None,
        number: None,
        pages: None,
        publisher: None,
        doi: None,
        arxiv_id: Some(arxiv_id_of(entry.id@)),
        source: SourceKind::Arxiv,
        entry_type: "article"@,
    }
}

pub proof fn lemma_last_index_of(s: Seq<char>, c: char)
    ensures
        last_index_of(s, c) matches Some(k) ==> 0 <= k < s.len() && s[k] == c && forall|j: int|
            k < j < s.len() ==> #[trigger] s[j] != c,
        last_index_of(s, c) is None ==> forall|j: int| 0 <= j < s.len() ==> #[trigger] s[j] != c,
    decreases s.len(),
{
    if s.len() > 0 && s.last() != c {
        lemma_last_index_of(s.drop_last(), c);
        assert forall|j: int| 0 <= j < s.len() - 1 implies s.drop_last()[j] == s[j] by {}
    }
}

/// An arXiv author, split into given and family name and shown again,
/// reads as the cleaned name.
pub proof fn law_split_author_display(name: Seq<char>)
    ensures
        display_name_of(split_author_of(name)) == collapse_ws(name),
{
    let n = collapse_ws(name);
    lemma_collapse_starts(name);
    lemma_last_index_of(n, ' ');
    if let Some(k) = last_index_of(n, ' ') {
        assert(is_white_space(' '));
        assert(k > 0);
        assert(n.take(k).len() > 0);
        assert(n.take(k) + seq![' '] + n.skip(k + 1) =~= n);
    }
}

fn last_space(s: &[char]) -> (r: Option<usize>)
    ensures
        match r {
            Some(k) => last_index_of(s@, ' ') == Some(k as int),
            None => last_index_of(s@, ' ') is None,
        },
{
    let mut j: usize = s.len();
    proof {
        assert(s@.take(s@.len() as int) == s@);
    }
    while j > 0
        invariant
            j <= s.len(),
            last_index_of(s@, ' ') == last_index_of(s@.take(j as int), ' '),
        decreases j,
    {
        if s[j - 1] == ' ' {
            return Some(j - 1);
        }
        proof {
            assert(s@.take(j as int).drop_last() == s@.take(j - 1));
        }
        j -= 1;
    }
    None
}

pub fn split_arxiv_author(name: &str) -> (r: Author)
    ensures
        r@ == split_author_of(name@),
{
    let n = clean_text(name);
    let cs = chars_of(n.as_str());
    match last_space(cs.as_slice()) {
        Some(k) => {
            proof {
                lemma_last_index_of(cs@, ' ');
            }
            let given = slice_chars(cs.as_slice(), 0, k);
            let family = slice_chars(cs.as_slice(), k + 1, cs.len());
            assert(given@ == cs@.take(k as int));
            assert(family@ == cs@.skip(k + 1));
            Author { given: Some(string_of(given.as_slice())), family: string_of(family.as_slice()) }
        },
        None => Author { given: None, family: n },
    }
}

fn published_year(published: &Option<String>) -> (r: Option<i32>)
    ensures
        r == published_year_of(opt_text(*published)),
{
    match published {
        Some(p) => {
            let cs = chars_of(p.as_str());
            if cs.len() < 4 {
                return None;
            }
            let head = slice_chars(cs.as_slice(), 0, 4);
            assert(head@ == cs@.take(4));
            let mut i: usize = 0;
            while i < 4
                invariant
                    i <= 4 == head.len(),
                    head@ == cs@.take(4),
                    cs@ == p@,
                    *published == Some(*p),
                    forall|j: int| 0 <= j < i ==> crate::text::is_ascii_char(#[trigger] head@[j]),
                decreases 4 - i,
            {
                if head[i] as u32 >= 128 {
                    assert(!crate::text::is_ascii_char(head@[i as int]));
                    assert(!all_ascii(cs@.take(4)));
                    return None;
                }
                i += 1;
            }
            parse_i32_chars(head.as_slice())
        },
        None => None,
    }
}

fn arxiv_authors(authors: &Vec<ArxivAuthor>) -> (r: Vec<Author>)
    ensures
        authors_view(r@) == arxiv_authors_of(authors@),
{
    let mut r: Vec<Author> = Vec::new();
    let mut i: usize = 0;
    while i < authors.len()
        invariant
            i <= authors.len(),
            authors_view(r@) == arxiv_authors_of(authors@.take(i as int)),
        decreases authors.len() - i,
    {
        let a = split_arxiv_author(authors[i].name.as_str());
        let ghost before = r@;
        r.push(a);
        proof {
            assert(authors_view(r@) =~= authors_view(before).push(a@));
            assert(arxiv_authors_of(authors@.take(i as int + 1)) =~= arxiv_authors_of(
                authors@.take(i as int),
            ).push(split_author_of(authors@[i as int].name@)));
        }
        i += 1;
    }
    proof {
        assert(authors@.take(authors@.len() as int) == authors@);
    }
    r
}

pub fn arxiv_entry_to_record(entry: ArxivEntry) -> (r: WorkRecord)
    ensures
        r@ == arxiv_record_of(entry),
{
    let id_trimmed = trim_str(entry.id.as_str());
    let prefix = chars_of("https://arxiv.org/abs/");
    let id = trim_start_prefix_chars(id_trimmed.as_slice(), prefix.as_slice());
    let title = clean_text(entry.title.as_str());
    let authors = arxiv_authors(&entry.authors);
    let year = published_year(&entry.published);
    WorkRecord {
        title,
        authors,
        year,
        container_title: Some(String::from_str("arXiv preprint")),
        volume: None,
        number: None,
        pages: None,
        publisher: None,
        doi: None,
        arxiv_id: Some(string_of(id.as_slice())),
        source: SourceKind::Arxiv,
        entry_type: String::from_str("article"),
    }
}

pub fn arxiv_entries_to_records(entries: Vec<ArxivEntry>) -> (r: Vec<WorkRecord>)
    ensures
        r@.len() == entries@.len(),
        forall|i: int| 0 <= i < r@.len() ==> #[trigger] r@[i]@ == arxiv_record_of(entries@[i]),
{
    let ghost all = entries@;
    let mut entries = entries;
    let mut out: Vec<WorkRecord> = Vec::new();
    let ghost total = entries@.len();
    while entries.len() > 0
        invariant
            entries@.len() <= total == all.len(),
            entries@ =~= all.skip(total - entries@.len()),
            out@.len() == total - entries@.len(),
            forall|i: int| 0 <= i < out@.len() ==> #[trigger] out@[i]@ == arxiv_record_of(all[i]),
        decreases entries.len(),
    {
        let ghost done_n = total - entries@.len();
        let entry = entries.remove(0);
        proof {
            assert(entry == all[done_n]);
            assert(entries@ =~= all.skip(done_n + 1));
        }
        let rec = arxiv_entry_to_record(entry);
        out.push(rec);
    }
    out
}

/// A Crossref item's volume, issue, page range and publisher become the
/// record's volume, number, pages and publisher unchanged; its DOI is
/// trimmed; the record comes from Crossref and has no arXiv id.
pub proof fn law_crossref_fields(item: CrossrefItem)
    ensures
        ({
            let r = crossref_record_of(item);
            &&& r.volume == opt_text(item.volume)
            &&& r.number == opt_text(item.issue)
            &&& r.pages == opt_text(item.page)
            &&& r.publisher == opt_text(item.publisher)
            &&& (r.doi is Some) == (item.doi is Some)
            &&& item.doi is Some ==> r.doi == Some(trim(item.doi->0@))
            &&& r.arxiv_id is None
            &&& r.source == SourceKind::Crossref
        }),
{
}

/// An arXiv entry becomes an arXiv preprint record: no volume, number,
/// pages, publisher or DOI, and an arXiv id.
pub proof fn law_arxiv_fields(entry: ArxivEntry)
    ensures
        ({
            let r = arxiv_record_of(entry);
            &&& r.volume is None
            &&& r.number is None
            &&& r.pages is None
            &&& r.publisher is None
            &&& r.doi is None
            &&& r.arxiv_id is Some
            &&& r.source == SourceKind::Arxiv
        }),
{
}

} // verus!
