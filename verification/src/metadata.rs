//! The work record shared by every source, and its authors.
use vstd::prelude::*;
use vstd::string::StringExecFns;
use crate::text::push_char;

verus! {

/// An author: an optional given name and a family name.
#[derive(Debug, Clone, PartialEq, Eq)]
pub struct Author {
    pub given: Option<String>,
    pub family: String,
}

/// The model of an `Author`: its names as char sequences.
pub struct AuthorView {
    pub given: Option<Seq<char>>,
    pub family: Seq<char>,
}

pub open spec fn opt_text(o: Option<String>) -> Option<Seq<char>> {
    match o {
        Some(s) => Some(s@),
        None => None,
    }
}

impl View for Author {
    type V = AuthorView;

    open spec fn view(&self) -> AuthorView {
        AuthorView { given: opt_text(self.given), family: self.family@ }
    }
}

/// The name as it is shown: `given family` when there is a non-empty given
/// name, else the family name alone.
pub open spec fn display_name_of(a: AuthorView) -> Seq<char> {
    match a.given {
        Some(g) => if g.len() > 0 {
            g + seq![' '] + a.family
        } else {
            a.family
        },
        None => a.family,
    }
}

pub fn clone_opt_text(o: &Option<String>) -> (r: Option<String>)
    ensures
        opt_text(r) == opt_text(*o),
{
    match o {
        Some(s) => Some(s.clone()),
        None => None,
    }
}

impl Author {
    pub fn new(given: Option<String>, family: &str) -> (r: Author)
        ensures
            r@ == (AuthorView { given: opt_text(given), family: family@ }),
    {
        Author { given, family: String::from_str(family) }
    }

    pub fn display_name(&self) -> (r: String)
        ensures
            r@ == display_name_of(self@),
    {
        match &self.given {
            Some(given) => {
                if !given.as_str().is_empty() {
                    let mut r = given.clone();
                    push_char(&mut r, ' ');
                    r.append(self.family.as_str());
                    r
                } else {
                    self.family.clone()
                }
            },
            None => self.family.clone(),
        }
    }
}

/// The service a record was read from.
#[derive(Debug, Clone, Copy, PartialEq, Eq, Structural)]
pub enum SourceKind {
    Crossref,
    Arxiv,
}

/// A bibliographic work, whichever source it came from.
#[derive(Debug, Clone, PartialEq, Eq)]
pub struct WorkRecord {
    pub title: String,
    pub authors: Vec<Author>,
    pub year: Option<i32>,
    pub container_title: Option<String>,
    pub volume: Option<String>,
    pub number: Option<String>,
    pub pages: Option<String>,
    pub publisher: Option<String>,
    pub doi: Option<String>,
    pub arxiv_id: Option<String>,
    pub source: SourceKind,
    pub entry_type: String,
}

/// The model of a `WorkRecord`: every text as a char sequence.
pub struct RecordView {
    pub title: Seq<char>,
    pub authors: Seq<AuthorView>,
    pub year: Option<i32>,
    pub container_title: Option<Seq<char>>,
    pub volume: Option<Seq<char>>,
    pub number: Option<Seq<char>>,
    pub pages: Option<Seq<char>>,
    pub publisher: Option<Seq<char>>,
    pub doi: Option<Seq<char>>,
    pub arxiv_id: Option<Seq<char>>,
    pub source: SourceKind,
    pub entry_type: Seq<char>,
}

pub open spec fn authors_view(authors: Seq<Author>) -> Seq<AuthorView> {
    authors.map_values(|a: Author| a@)
}

impl View for WorkRecord {
    type V = RecordView;

    open spec fn view(&self) -> RecordView {
        RecordView {
            title: self.title@,
            authors: authors_view(self.authors@),
            year: self.year,
            container_title: opt_text(self.container_title),
            volume: opt_text(self.volume),
            number: opt_text(self.number),
            pages: opt_text(self.pages),
            publisher: opt_text(self.publisher),
            doi: opt_text(self.doi),
            arxiv_id: opt_text(self.arxiv_id),
            source: self.source,
            entry_type: self.entry_type@,
        }
    }
}

/// The page a record links to: its DOI resolver page, else its arXiv abstract page.
pub open spec fn external_url_of(r: RecordView) -> Option<Seq<char>> {
    match r.doi {
        Some(doi) => Some("https://doi.org/"@ + doi),
        None => match r.arxiv_id {
            Some(id) => Some("https://arxiv.org/abs/"@ + id),
            None => None,
        },
    }
}

/// A short author line: one name, two names joined by `and`, or the first
/// name and `et al.`.
pub open spec fn author_summary_of(authors: Seq<AuthorView>) -> Seq<char> {
    if authors.len() == 0 {
        "Unknown authors"@
    } else if authors.len() == 1 {
        display_name_of(authors[0])
    } else if authors.len() == 2 {
        display_name_of(authors[0]) + " and "@ + display_name_of(authors[1])
    } else {
        display_name_of(authors[0]) + " et al."@
    }
}

/// `a` with its missing DOI, arXiv id, container title and year taken from `b`.
pub open spec fn merged_record(a: RecordView, b: RecordView) -> RecordView {
    RecordView {
        doi: if a.doi is None {
            b.doi
        } else {
            a.doi
        },
        arxiv_id: if a.arxiv_id is None {
            b.arxiv_id
        } else {
            a.arxiv_id
        },
        container_title: if a.container_title is None {
            b.container_title
        } else {
            a.container_title
        },
        year: if a.year is None {
            b.year
        } else {
            a.year
        },
        ..a
    }
}

/// Merging the same record again changes nothing, and merging a record
/// with itself changes nothing.
pub proof fn law_merge_idempotent(a: RecordView, b: RecordView)
    ensures
        merged_record(merged_record(a, b), b) == merged_record(a, b),
        merged_record(a, a) == a,
{
}

impl WorkRecord {
    pub fn external_url(&self) -> (r: Option<String>)
        ensures
            opt_text(r) == external_url_of(self@),
    {
        if let Some(doi) = &self.doi {
            let mut url = String::from_str("https://doi.org/");
            url.append(doi.as_str());
            return Some(url);
        }
        match &self.arxiv_id {
            Some(id) => {
                let mut url = String::from_str("https://arxiv.org/abs/");
                url.append(id.as_str());
                Some(url)
            },
            None => None,
        }
    }

    pub fn author_summary(&self) -> (r: String)
        ensures
            r@ == author_summary_of(self@.authors),
    {
        let n = self.authors.len();
        if n == 0 {
            String::from_str("Unknown authors")
        } else if n == 1 {
            self.authors[0].display_name()
        } else if n == 2 {
            let mut r = self.authors[0].display_name();
            r.append(" and ");
            let second = self.authors[1].display_name();
            r.append(second.as_str());
            r
        } else {
            let mut r = self.authors[0].display_name();
            r.append(" et al.");
            r
        }
    }

    pub fn merge_missing_from(&mut self, other: &WorkRecord)
        ensures
            final(self)@ == merged_record(old(self)@, other@),
    {
        if self.doi.is_none() {
            self.doi = clone_opt_text(&other.doi);
        }
        if self.arxiv_id.is_none() {
            self.arxiv_id = clone_opt_text(&other.arxiv_id);
        }
        if self.container_title.is_none() {
            self.container_title = clone_opt_text(&other.container_title);
        }
        if self.year.is_none() {
            self.year = other.year;
        }
    }
}

} // verus!
