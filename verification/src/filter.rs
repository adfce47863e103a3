//! Narrowing results to those whose field holds a keyword.
use vstd::prelude::*;
use crate::metadata::{AuthorView, RecordView, WorkRecord, display_name_of, opt_text};
use crate::numbers::{decimal, decimal_i32};
use crate::text::{chars_of, lowercase_str, str_lowercase, string_of};
use crate::words::{contains_chars, contains_text, trim, trim_str};

verus! {

/// The field a filter looks at.
#[derive(Debug, Clone, Copy, PartialEq, Eq, Structural)]
pub enum FilterField {
    General,
    Author,
    Journal,
    Year,
    Title,
}

/// A keyword to look for in one field of a record.
#[derive(Debug, Clone, PartialEq, Eq)]
pub struct SearchFilter {
    pub field: FilterField,
    pub keyword: String,
}

pub struct SearchFilterView {
    pub field: FilterField,
    pub keyword: Seq<char>,
}

impl View for SearchFilter {
    type V = SearchFilterView;

    open spec fn view(&self) -> SearchFilterView {
        SearchFilterView { field: self.field, keyword: self.keyword@ }
    }
}

impl SearchFilter {
    pub fn new(field: FilterField, keyword: &str) -> (r: SearchFilter)
        ensures
            r@ == (SearchFilterView { field: field, keyword: keyword@ }),
    {
        SearchFilter { field, keyword: String::from_str(keyword) }
    }
}

/// A filter is in force when its keyword is not blank.
pub open spec fn filter_active(f: Option<SearchFilterView>) -> bool {
    match f {
        Some(f) => trim(f.keyword).len() > 0,
        None => false,
    }
}

pub open spec fn opt_filter_view(f: Option<&SearchFilter>) -> Option<SearchFilterView> {
    match f {
        Some(f) => Some(f@),
        None => None,
    }
}

/// The keyword as it is compared: trimmed and lowercased.
pub open spec fn filter_keyword(f: SearchFilterView) -> Seq<char> {
    str_lowercase(trim(f.keyword))
}

/// Whether the lowercased value holds the keyword.
pub open spec fn text_matches(value: Seq<char>, kw: Seq<char>) -> bool {
    contains_text(str_lowercase(value), kw)
}

pub open spec fn opt_text_matches(value: Option<Seq<char>>, kw: Seq<char>) -> bool {
    match value {
        Some(v) => text_matches(v, kw),
        None => false,
    }
}

pub open spec fn year_matches(year: Option<i32>, kw: Seq<char>) -> bool {
    match year {
        Some(y) => text_matches(decimal(y as int), kw),
        None => false,
    }
}

pub open spec fn author_matches(authors: Seq<AuthorView>, kw: Seq<char>) -> bool {
    exists|i: int| 0 <= i < authors.len() && text_matches(display_name_of(#[trigger] authors[i]), kw)
}

/// Whether a record passes a filter: always when the keyword is blank,
/// else when the chosen field (for `General`, any field) holds it.
pub open spec fn record_matches_of(r: RecordView, f: SearchFilterView) -> bool {
    let kw = filter_keyword(f);
    if kw.len() == 0 {
        true
    } else {
        match f.field {
            FilterField::General => {
                ||| text_matches(r.title, kw)
                ||| author_matches(r.authors, kw)
                ||| opt_text_matches(r.container_title, kw)
                ||| opt_text_matches(r.publisher, kw)
                ||| year_matches(r.year, kw)
                ||| opt_text_matches(r.doi, kw)
                ||| opt_text_matches(r.arxiv_id, kw)
            },
            FilterField::Author => author_matches(r.authors, kw),
            FilterField::Journal => opt_text_matches(r.container_title, kw),
            FilterField::Year => year_matches(r.year, kw),
            FilterField::Title => text_matches(r.title, kw),
        }
    }
}

pub open spec fn records_view(rs: Seq<WorkRecord>) -> Seq<RecordView> {
    rs.map_values(|r: WorkRecord| r@)
}

/// The records that pass the filter, in order.
pub open spec fn keep_matching(rs: Seq<RecordView>, f: SearchFilterView) -> Seq<RecordView>
    decreases rs.len(),
{
    if rs.len() == 0 {
        rs
    } else if record_matches_of(rs.last(), f) {
        keep_matching(rs.drop_last(), f).push(rs.last())
    } else {
        keep_matching(rs.drop_last(), f)
    }
}

/// The records a filter leaves: all of them when no filter is in force.
pub open spec fn filtered_of(rs: Seq<RecordView>, f: Option<SearchFilterView>) -> Seq<RecordView> {
    if filter_active(f) {
        keep_matching(rs, f->0)
    } else {
        rs
    }
}

fn text_matches_exec(value: &str, kw: &[char]) -> (r: bool)
    ensures
        r == text_matches(value@, kw@),
{
    let low = lowercase_str(value);
    let cs = chars_of(low.as_str());
    contains_chars(cs.as_slice(), kw)
}

fn opt_text_matches_exec(value: &Option<String>, kw: &[char]) -> (r: bool)
    ensures
        r == opt_text_matches(opt_text(*value), kw@),
{
    match value {
        Some(v) => text_matches_exec(v.as_str(), kw),
        None => false,
    }
}

fn year_matches_exec(year: Option<i32>, kw: &[char]) -> (r: bool)
    ensures
        r == year_matches(year, kw@),
{
    match year {
        Some(y) => {
            let d = decimal_i32(y);
            let s = string_of(d.as_slice());
            text_matches_exec(s.as_str(), kw)
        },
        None => false,
    }
}

fn author_matches_exec(record: &WorkRecord, kw: &[char]) -> (r: bool)
    ensures
        r == author_matches(record@.authors, kw@),
{
    let ghost authors = record@.authors;
    let mut i: usize = 0;
    while i < record.authors.len()
        invariant
            i <= record.authors.len(),
            authors == record@.authors,
            forall|j: int| 0 <= j < i ==> !text_matches(display_name_of(#[trigger] authors[j]), kw@),
        decreases record.authors.len() - i,
    {
        let name = record.authors[i].display_name();
        assert(authors[i as int] == record.authors@[i as int]@);
        if text_matches_exec(name.as_str(), kw) {
            return true;
        }
        i += 1;
    }
    false
}

pub fn record_matches_filter(record: &WorkRecord, filter: &SearchFilter) -> (r: bool)
    ensures
        r == record_matches_of(record@, filter@),
        trim(filter@.keyword).len() == 0 ==> r,
{
    let t = trim_str(filter.keyword.as_str());
    let ts = string_of(t.as_slice());
    let kw_text = lowercase_str(ts.as_str());
    let kw = chars_of(kw_text.as_str());
    if kw.len() == 0 {
        return true;
    }
    let k = kw.as_slice();
    match filter.field {
        FilterField::General => {
            text_matches_exec(record.title.as_str(), k) || author_matches_exec(record, k)
                || opt_text_matches_exec(&record.container_title, k) || opt_text_matches_exec(
                &record.publisher,
                k,
            ) || year_matches_exec(record.year, k) || opt_text_matches_exec(&record.doi, k)
                || opt_text_matches_exec(&record.arxiv_id, k)
        },
        FilterField::Author => author_matches_exec(record, k),
        FilterField::Journal => opt_text_matches_exec(&record.container_title, k),
        FilterField::Year => year_matches_exec(record.year, k),
        FilterField::Title => text_matches_exec(record.title.as_str(), k),
    }
}

pub fn filter_is_active(filter: Option<&SearchFilter>) -> (r: bool)
    ensures
        r == filter_active(opt_filter_view(filter)),
{
    match filter {
        Some(f) => {
            let t = trim_str(f.keyword.as_str());
            t.len() > 0
        },
        None => false,
    }
}

/// The records that pass the filter, in order (`Vec::retain`).
pub fn retain_matching(records: Vec<WorkRecord>, filter: &SearchFilter) -> (r: Vec<WorkRecord>)
    ensures
        records_view(r@) == keep_matching(records_view(records@), filter@),
{
    let ghost all = records_view(records@);
    let mut records = records;
    let mut kept: Vec<WorkRecord> = Vec::new();
    let ghost total = records@.len();
    proof {
        assert(all.skip(0) =~= all);
    }
    while records.len() > 0
        invariant
            records@.len() <= total == all.len(),
            records_view(records@) =~= all.skip(total - records@.len()),
            records_view(kept@) == keep_matching(all.take(total - records@.len()), filter@),
        decreases records.len(),
    {
        let ghost done_n = total - records@.len();
        let ghost before = records@;
        let x = records.remove(0);
        proof {
            assert(x == before[0]);
            assert(records_view(before)[0] == before[0]@);
            assert(all.skip(done_n)[0] == all[done_n]);
            assert(x@ == all[done_n]);
            assert(records@ =~= before.subrange(1, before.len() as int));
            assert(records_view(records@) =~= records_view(before).subrange(1, before.len() as int));
            assert(all.skip(done_n).subrange(1, before.len() as int) =~= all.skip(done_n + 1));
            assert(records_view(records@) =~= all.skip(done_n + 1));
            assert(all.take(done_n + 1).drop_last() =~= all.take(done_n));
        }
        if record_matches_filter(&x, filter) {
            let ghost kb = kept@;
            kept.push(x);
            proof {
                assert(records_view(kept@) =~= records_view(kb).push(all[done_n]));
            }
        }
    }
    proof {
        assert(all.take(total as int) =~= all);
    }
    kept
}

pub fn filtered_records(records: Vec<WorkRecord>, filter: Option<&SearchFilter>) -> (r: Vec<
    WorkRecord,
>)
    ensures
        records_view(r@) == filtered_of(records_view(records@), opt_filter_view(filter)),
{
    if !filter_is_active(filter) {
        return records;
    }
    retain_matching(records, filter.unwrap())
}

/// Records kept by a filter pass it, and keep every property all the
/// records had.
pub proof fn lemma_keep_matching(rs: Seq<RecordView>, f: SearchFilterView, p: spec_fn(RecordView) -> bool)
    requires
        forall|k: int| 0 <= k < rs.len() ==> p(#[trigger] rs[k]),
    ensures
        forall|k: int|
            0 <= k < keep_matching(rs, f).len() ==> p(#[trigger] keep_matching(rs, f)[k])
                && record_matches_of(keep_matching(rs, f)[k], f),
    decreases rs.len(),
{
    if rs.len() > 0 {
        assert forall|k: int| 0 <= k < rs.drop_last().len() implies p(#[trigger] rs.drop_last()[k]) by {
            assert(rs.drop_last()[k] == rs[k]);
        }
        lemma_keep_matching(rs.drop_last(), f, p);
        assert(p(rs[rs.len() - 1]));
        let d = keep_matching(rs.drop_last(), f);
        assert forall|k: int| 0 <= k < d.len() implies d.push(rs.last())[k] == d[k] by {}
    }
}

/// With a keyword that is not blank, a record passes a filter exactly when
/// the keyword, trimmed and lowercased, occurs in the lowercased text of the
/// chosen field: the title; the display name of any one of its authors,
/// whatever its place in the list; the container title; the year written
/// in decimal. `General` accepts a match in any of these, in the publisher,
/// the DOI or the arXiv id.
pub proof fn law_filter_fields(r: RecordView, f: SearchFilterView)
    requires
        str_lowercase(trim(f.keyword)).len() > 0,
    ensures
        ({
            let kw = str_lowercase(trim(f.keyword));
            let in_title = contains_text(str_lowercase(r.title), kw);
            let in_author = exists|i: int|
                0 <= i < r.authors.len() && contains_text(
                    str_lowercase(display_name_of(#[trigger] r.authors[i])),
                    kw,
                );
            let in_journal = r.container_title is Some && contains_text(
                str_lowercase(r.container_title->0),
                kw,
            );
            let in_year = r.year is Some && contains_text(str_lowercase(decimal(r.year->0 as int)), kw);
            let in_publisher = r.publisher is Some && contains_text(str_lowercase(r.publisher->0), kw);
            let in_doi = r.doi is Some && contains_text(str_lowercase(r.doi->0), kw);
            let in_arxiv = r.arxiv_id is Some && contains_text(str_lowercase(r.arxiv_id->0), kw);
            &&& f.field is Author ==> (record_matches_of(r, f) <==> in_author)
            &&& f.field is Title ==> (record_matches_of(r, f) <==> in_title)
            &&& f.field is Journal ==> (record_matches_of(r, f) <==> in_journal)
            &&& f.field is Year ==> (record_matches_of(r, f) <==> in_year)
            &&& f.field is General ==> (record_matches_of(r, f) <==> (in_title || in_author || in_journal
                || in_publisher || in_year || in_doi || in_arxiv))
        }),
{
}

/// An author whose display name holds the keyword lets the record through
/// an author filter, whichever author of the list it is.
pub proof fn law_any_author_passes(r: RecordView, f: SearchFilterView, i: int)
    requires
        f.field is Author,
        0 <= i < r.authors.len(),
        contains_text(str_lowercase(display_name_of(r.authors[i])), str_lowercase(trim(f.keyword))),
    ensures
        record_matches_of(r, f),
{
}

} // verus!
