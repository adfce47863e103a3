//! The requests a search makes to Crossref and arXiv, and how their answers
//! become the result list.
use vstd::prelude::*;
use vstd::string::StringExecFns;
use vstd::utf8::encode_utf8;
use crate::filter::{
    FilterField, SearchFilter, SearchFilterView, filter_active, filter_is_active, filtered_of,
    filtered_records, opt_filter_view, records_view,
};
use crate::merging::{merge_all, merge_all_of};
use crate::metadata::{RecordView, WorkRecord};
use crate::numbers::{decimal, decimal_i32, parse_i32, parse_i32_chars};
use crate::ranking::first_five;
use crate::search::{
    CitationKeyQuery, CitationKeyView, QueryKind, QueryKindView, classify_of, classify_query,
};
use crate::text::{chars_of, is_ascii_alnum, string_of};
use crate::words::{contains_chars, contains_text, trim, trim_str};

verus! {

// ------------------------------------------------------------------
// Percent-encoding
// ------------------------------------------------------------------

/// The bytes `urlencoding` leaves as they are: ASCII letters, digits, `-._~`.
pub open spec fn is_unreserved(b: u8) -> bool {
    ||| (48 <= b && b <= 57)
    ||| (65 <= b && b <= 90)
    ||| (97 <= b && b <= 122)
    ||| b == 45
    ||| b == 46
    ||| b == 95
    ||| b == 126
}

/// An uppercase hexadecimal digit.
pub open spec fn hex_digit(d: int) -> char {
    if d < 10 {
        (48 + d) as char
    } else {
        (55 + d) as char
    }
}

pub open spec fn percent_byte(b: u8) -> Seq<char> {
    if is_unreserved(b) {
        seq![b as char]
    } else {
        seq!['%', hex_digit((b / 16) as int), hex_digit((b % 16) as int)]
    }
}

/// Every byte kept or written as `%` and two uppercase hex digits.
pub open spec fn percent_encode(bytes: Seq<u8>) -> Seq<char>
    decreases bytes.len(),
{
    if bytes.len() == 0 {
        Seq::empty()
    } else {
        percent_encode(bytes.drop_last()) + percent_byte(bytes.last())
    }
}

/// The text percent-encoded over its UTF-8 bytes.
pub open spec fn url_encoded(s: Seq<char>) -> Seq<char> {
    percent_encode(encode_utf8(s))
}

/// The chars percent-encoded text is made of.
pub open spec fn url_safe_char(c: char) -> bool {
    is_ascii_alnum(c) || c == '-' || c == '.' || c == '_' || c == '~' || c == '%'
}

proof fn lemma_percent_byte_safe(b: u8)
    ensures
        forall|i: int| 0 <= i < percent_byte(b).len() ==> url_safe_char(#[trigger] percent_byte(b)[i]),
{
    if is_unreserved(b) {
        let c = b as char;
        assert(c as u32 == b as u32);
        assert(percent_byte(b)[0] == c);
    } else {
        let hi = (b / 16) as int;
        let lo = (b % 16) as int;
        assert(0 <= hi < 16 && 0 <= lo < 16);
        assert(hex_digit(hi) as u32 == if hi < 10 { 48 + hi } else { 55 + hi });
        assert(hex_digit(lo) as u32 == if lo < 10 { 48 + lo } else { 55 + lo });
        assert(percent_byte(b)[1] == hex_digit(hi));
        assert(percent_byte(b)[2] == hex_digit(lo));
    }
}

proof fn lemma_percent_encode_safe(bytes: Seq<u8>)
    ensures
        forall|i: int|
            0 <= i < percent_encode(bytes).len() ==> url_safe_char(#[trigger] percent_encode(bytes)[i]),
    decreases bytes.len(),
{
    if bytes.len() > 0 {
        lemma_percent_encode_safe(bytes.drop_last());
        lemma_percent_byte_safe(bytes.last());
        let a = percent_encode(bytes.drop_last());
        let b = percent_byte(bytes.last());
        assert forall|i: int| 0 <= i < (a + b).len() implies url_safe_char(#[trigger] (a + b)[i]) by {
            if i < a.len() {
                assert((a + b)[i] == a[i]);
            } else {
                assert((a + b)[i] == b[i - a.len()]);
            }
        }
    }
}

/// Percent-encoded text holds only ASCII letters, digits, `-._~` and `%`:
/// an encoded value cannot end its query parameter or start another one.
pub proof fn law_url_encoded_safe(s: Seq<char>)
    ensures
        forall|i: int| 0 <= i < url_encoded(s).len() ==> url_safe_char(#[trigger] url_encoded(s)[i]),
{
    lemma_percent_encode_safe(encode_utf8(s));
}

/// Wrapper of `urlencoding::encode`. Claims what its source does: each byte
/// of the UTF-8 text is kept when it is an ASCII letter or digit or one of
/// `-._~`, and written as `%XY` with uppercase hex digits otherwise.
#[verifier::external_body]
fn url_encode(s: &str) -> (r: String)
    ensures
        r@ == url_encoded(s@),
{
    urlencoding::encode(s).into_owned()
}

// ------------------------------------------------------------------
// Crossref URLs
// ------------------------------------------------------------------

pub open spec fn crossref_base() -> Seq<char> {
    "https://api.crossref.org/works"@
}

pub open spec fn arxiv_base() -> Seq<char> {
    "https://export.arxiv.org/api/query"@
}

/// How many rows to ask for: more when a filter will thin them out.
pub open spec fn rows_of(has_filter: bool) -> Seq<char> {
    if has_filter {
        "25"@
    } else {
        "5"@
    }
}

/// The Crossref filter for works published in a year.
pub open spec fn year_filter_of(y: i32) -> Seq<char> {
    "&filter=from-pub-date:"@ + decimal(y as int) + "-01-01,until-pub-date:"@ + decimal(y as int)
        + "-12-31"@
}

/// What a filter adds to a Crossref URL: the keyword as a query on its
/// field, or for a year keyword a publication-date filter when the URL has
/// none yet.
pub open spec fn crossref_filter_suffix(url: Seq<char>, f: Option<SearchFilterView>) -> Seq<char> {
    if !filter_active(f) {
        Seq::empty()
    } else {
        let kw = trim(f->0.keyword);
        let enc = url_encoded(kw);
        match f->0.field {
            FilterField::General => "&query.bibliographic="@ + enc,
            FilterField::Author => "&query.author="@ + enc,
            FilterField::Journal => "&query.container-title="@ + enc,
            FilterField::Title => "&query.title="@ + enc,
            FilterField::Year => match parse_i32(kw) {
                Some(y) => if !contains_text(url, "&filter="@) {
                    year_filter_of(y)
                } else {
                    Seq::empty()
                },
                None => Seq::empty(),
            },
        }
    }
}

pub open spec fn crossref_doi_url_of(doi: Seq<char>) -> Seq<char> {
    crossref_base() + "/"@ + url_encoded(doi)
}

pub open spec fn crossref_query_url_of(query: Seq<char>, f: Option<SearchFilterView>) -> Seq<char> {
    let base = crossref_base() + "?query.bibliographic="@ + url_encoded(query) + "&rows="@ + rows_of(
        f is Some,
    );
    base + crossref_filter_suffix(base, f)
}

pub open spec fn crossref_citation_url_of(q: CitationKeyView, f: Option<SearchFilterView>) -> Seq<
    char,
> {
    let start = crossref_base() + "?query.author="@ + url_encoded(q.author) + "&query.title="@
        + url_encoded(q.title_word) + "&rows=100"@;
    let base = match q.publication_year {
        Some(y) => start + year_filter_of(y),
        None => start,
    };
    base + crossref_filter_suffix(base, f)
}

fn push_year_filter(url: &mut String, year: i32)
    ensures
        final(url)@ == old(url)@ + year_filter_of(year),
{
    let d = decimal_i32(year);
    let ds = string_of(d.as_slice());
    url.append("&filter=from-pub-date:");
    url.append(ds.as_str());
    url.append("-01-01,until-pub-date:");
    url.append(ds.as_str());
    url.append("-12-31");
}

pub fn append_crossref_filter(url: &mut String, filter: Option<&SearchFilter>)
    ensures
        final(url)@ == old(url)@ + crossref_filter_suffix(old(url)@, opt_filter_view(filter)),
{
    if !filter_is_active(filter) {
        assert(url@ =~= old(url)@ + Seq::<char>::empty());
        return;
    }
    let filter = filter.unwrap();
    let kw = trim_str(filter.keyword.as_str());
    let kws = string_of(kw.as_slice());
    let keyword = url_encode(kws.as_str());
    match filter.field {
        FilterField::General => {
            url.append("&query.bibliographic=");
            url.append(keyword.as_str());
        },
        FilterField::Author => {
            url.append("&query.author=");
            url.append(keyword.as_str());
        },
        FilterField::Journal => {
            url.append("&query.container-title=");
            url.append(keyword.as_str());
        },
        FilterField::Title => {
            url.append("&query.title=");
            url.append(keyword.as_str());
        },
        FilterField::Year => {
            if let Some(year) = parse_i32_chars(kw.as_slice()) {
                let current = chars_of(url.as_str());
                let marker = chars_of("&filter=");
                if !contains_chars(current.as_slice(), marker.as_slice()) {
                    push_year_filter(url, year);
                } else {
                    assert(url@ =~= old(url)@ + Seq::<char>::empty());
                }
            } else {
                assert(url@ =~= old(url)@ + Seq::<char>::empty());
            }
        },
    }
}

fn rows_text(has_filter: bool) -> (r: &'static str)
    ensures
        r@ == rows_of(has_filter),
{
    if has_filter {
        "25"
    } else {
        "5"
    }
}

pub fn crossref_doi_url(doi: &str) -> (r: String)
    ensures
        r@ == crossref_doi_url_of(doi@),
{
    let mut url = String::from_str("https://api.crossref.org/works");
    url.append("/");
    let enc = url_encode(doi);
    url.append(enc.as_str());
    url
}

pub fn crossref_query_url(query: &str, filter: Option<&SearchFilter>) -> (r: String)
    ensures
        r@ == crossref_query_url_of(query@, opt_filter_view(filter)),
{
    let mut url = String::from_str("https://api.crossref.org/works");
    url.append("?query.bibliographic=");
    let enc = url_encode(query);
    url.append(enc.as_str());
    url.append("&rows=");
    url.append(rows_text(filter.is_some()));
    append_crossref_filter(&mut url, filter);
    url
}

pub fn crossref_citation_url(query: &CitationKeyQuery, filter: Option<&SearchFilter>) -> (r: String)
    ensures
        r@ == crossref_citation_url_of(query@, opt_filter_view(filter)),
{
    let mut url = String::from_str("https://api.crossref.org/works");
    url.append("?query.author=");
    let author = url_encode(query.author.as_str());
    url.append(author.as_str());
    url.append("&query.title=");
    let title = url_encode(query.title_word.as_str());
    url.append(title.as_str());
    url.append("&rows=100");
    if let Some(year) = query.publication_year {
        push_year_filter(&mut url, year);
    }
    append_crossref_filter(&mut url, filter);
    url
}

// ------------------------------------------------------------------
// arXiv URLs
// ------------------------------------------------------------------

/// An arXiv search query narrowed by a filter on the general, author or
/// title field; journal and year filters leave it as it is.
pub open spec fn arxiv_filter_query_of(base: Seq<char>, f: Option<SearchFilterView>) -> Seq<char> {
    if !filter_active(f) {
        base
    } else {
        let kw = trim(f->0.keyword);
        match f->0.field {
            FilterField::General => base + " AND all:"@ + kw,
            FilterField::Author => base + " AND au:"@ + kw,
            FilterField::Title => base + " AND ti:"@ + kw,
            FilterField::Journal => base,
            FilterField::Year => base,
        }
    }
}

pub open spec fn arxiv_id_url_of(id: Seq<char>) -> Seq<char> {
    arxiv_base() + "?id_list="@ + url_encoded(id) + "&max_results=1"@
}

pub open spec fn arxiv_query_url_of(query: Seq<char>, f: Option<SearchFilterView>) -> Seq<char> {
    arxiv_base() + "?search_query="@ + url_encoded(arxiv_filter_query_of("all:"@ + query, f))
        + "&start=0&max_results="@ + rows_of(f is Some)
}

pub open spec fn arxiv_citation_url_of(q: CitationKeyView, f: Option<SearchFilterView>) -> Seq<
    char,
> {
    arxiv_base() + "?search_query="@ + url_encoded(
        arxiv_filter_query_of("au:"@ + q.author + " AND ti:"@ + q.title_word, f),
    ) + "&start=0&max_results=25"@
}

pub fn arxiv_filter_query(base: String, filter: Option<&SearchFilter>) -> (r: String)
    ensures
        r@ == arxiv_filter_query_of(base@, opt_filter_view(filter)),
{
    if !filter_is_active(filter) {
        return base;
    }
    let filter = filter.unwrap();
    let kw = trim_str(filter.keyword.as_str());
    let keyword = string_of(kw.as_slice());
    let mut out = base;
    match filter.field {
        FilterField::General => {
            out.append(" AND all:");
            out.append(keyword.as_str());
        },
        FilterField::Author => {
            out.append(" AND au:");
            out.append(keyword.as_str());
        },
        FilterField::Title => {
            out.append(" AND ti:");
            out.append(keyword.as_str());
        },
        FilterField::Journal => {},
        FilterField::Year => {},
    }
    out
}

pub fn arxiv_id_url(id: &str) -> (r: String)
    ensures
        r@ == arxiv_id_url_of(id@),
{
    let mut url = String::from_str("https://export.arxiv.org/api/query");
    url.append("?id_list=");
    let enc = url_encode(id);
    url.append(enc.as_str());
    url.append("&max_results=1");
    url
}

pub fn arxiv_query_url(query: &str, filter: Option<&SearchFilter>) -> (r: String)
    ensures
        r@ == arxiv_query_url_of(query@, opt_filter_view(filter)),
{
    let mut base = String::from_str("all:");
    base.append(query);
    let search_query = arxiv_filter_query(base, filter);
    let mut url = String::from_str("https://export.arxiv.org/api/query");
    url.append("?search_query=");
    let enc = url_encode(search_query.as_str());
    url.append(enc.as_str());
    url.append("&start=0&max_results=");
    url.append(rows_text(filter.is_some()));
    url
}

pub fn arxiv_citation_url(query: &CitationKeyQuery, filter: Option<&SearchFilter>) -> (r: String)
    ensures
        r@ == arxiv_citation_url_of(query@, opt_filter_view(filter)),
{
    let mut base = String::from_str("au:");
    base.append(query.author.as_str());
    base.append(" AND ti:");
    base.append(query.title_word.as_str());
    let search_query = arxiv_filter_query(base, filter);
    let mut url = String::from_str("https://export.arxiv.org/api/query");
    url.append("?search_query=");
    let enc = url_encode(search_query.as_str());
    url.append(enc.as_str());
    url.append("&start=0&max_results=25");
    url
}

// ------------------------------------------------------------------
// The search as a plan of requests
// ------------------------------------------------------------------

/// What a search asks for, by the kind of query.
pub enum SearchPlan {
    /// One Crossref work, by DOI.
    CrossrefWork { url: String },
    /// One arXiv entry, by id.
    ArxivWork { url: String },
    /// Crossref and arXiv searches by author and title word.
    CitationKey { query: CitationKeyQuery, crossref_url: String, arxiv_url: String },
    /// A Crossref search, with an arXiv search when Crossref finds few works.
    Bibliographic { crossref_url: String, arxiv_url: String },
}

pub enum SearchPlanView {
    CrossrefWork { url: Seq<char> },
    ArxivWork { url: Seq<char> },
    CitationKey { query: CitationKeyView, crossref_url: Seq<char>, arxiv_url: Seq<char> },
    Bibliographic { crossref_url: Seq<char>, arxiv_url: Seq<char> },
}

impl View for SearchPlan {
    type V = SearchPlanView;

    open spec fn view(&self) -> SearchPlanView {
        match self {
            SearchPlan::CrossrefWork { url } => SearchPlanView::CrossrefWork { url: url@ },
            SearchPlan::ArxivWork { url } => SearchPlanView::ArxivWork { url: url@ },
            SearchPlan::CitationKey { query, crossref_url, arxiv_url } => SearchPlanView::CitationKey {
                query: query@,
                crossref_url: crossref_url@,
                arxiv_url: arxiv_url@,
            },
            SearchPlan::Bibliographic { crossref_url, arxiv_url } => SearchPlanView::Bibliographic {
                crossref_url: crossref_url@,
                arxiv_url: arxiv_url@,
            },
        }
    }
}

/// The requests for a query: by DOI, by arXiv id, by citation key, or a
/// bibliographic search.
pub open spec fn plan_of(input: Seq<char>, f: Option<SearchFilterView>) -> SearchPlanView {
    match classify_of(input) {
        QueryKindView::Doi(doi) => SearchPlanView::CrossrefWork { url: crossref_doi_url_of(doi) },
        QueryKindView::Arxiv(id) => SearchPlanView::ArxivWork { url: arxiv_id_url_of(id) },
        QueryKindView::CitationKey(q) => SearchPlanView::CitationKey {
            query: q,
            crossref_url: crossref_citation_url_of(q, f),
            arxiv_url: arxiv_citation_url_of(q, f),
        },
        QueryKindView::Bibliographic(text) => SearchPlanView::Bibliographic {
            crossref_url: crossref_query_url_of(text, f),
            arxiv_url: arxiv_query_url_of(text, f),
        },
    }
}

pub fn plan_search(input: &str, filter: Option<&SearchFilter>) -> (r: SearchPlan)
    ensures
        r@ == plan_of(input@, opt_filter_view(filter)),
{
    match classify_query(input) {
        QueryKind::Doi(doi) => SearchPlan::CrossrefWork { url: crossref_doi_url(doi.as_str()) },
        QueryKind::Arxiv(id) => SearchPlan::ArxivWork { url: arxiv_id_url(id.as_str()) },
        QueryKind::CitationKey(query) => {
            let crossref_url = crossref_citation_url(&query, filter);
            let arxiv_url = arxiv_citation_url(&query, filter);
            SearchPlan::CitationKey { query, crossref_url, arxiv_url }
        },
        QueryKind::Bibliographic(text) => {
            let crossref_url = crossref_query_url(text.as_str(), filter);
            let arxiv_url = arxiv_query_url(text.as_str(), filter);
            SearchPlan::Bibliographic { crossref_url, arxiv_url }
        },
    }
}

/// Crossref found fewer than three works, so arXiv is asked too.
pub fn needs_arxiv_fallback(crossref: &Vec<WorkRecord>) -> (r: bool)
    ensures
        r == (crossref@.len() < 3),
{
    crossref.len() < 3
}

/// The answer to a bibliographic search: the arXiv records merged in when
/// Crossref found fewer than three works, the filter applied, the first five.
pub open spec fn bibliographic_results_of(
    crossref: Seq<RecordView>,
    arxiv: Seq<RecordView>,
    f: Option<SearchFilterView>,
) -> Seq<RecordView> {
    let merged = if crossref.len() < 3 {
        merge_all_of(crossref, arxiv)
    } else {
        crossref
    };
    first_five(filtered_of(merged, f))
}

pub fn finish_bibliographic(
    crossref: Vec<WorkRecord>,
    arxiv: Vec<WorkRecord>,
    filter: Option<&SearchFilter>,
) -> (r: Vec<WorkRecord>)
    ensures
        records_view(r@) == bibliographic_results_of(
            records_view(crossref@),
            records_view(arxiv@),
            opt_filter_view(filter),
        ),
{
    let mut records = crossref;
    if needs_arxiv_fallback(&records) {
        merge_all(&mut records, arxiv);
    }
    let mut kept = filtered_records(records, filter);
    if kept.len() > 5 {
        let ghost before = records_view(kept@);
        kept.truncate(5);
        proof {
            assert(records_view(kept@) =~= before.take(5));
        }
    }
    kept
}

/// A bibliographic search answers at most five records, and when a filter
/// is in force every one of them passes it.
pub proof fn law_bibliographic_results(
    crossref: Seq<RecordView>,
    arxiv: Seq<RecordView>,
    f: Option<SearchFilterView>,
)
    ensures
        ({
            let res = bibliographic_results_of(crossref, arxiv, f);
            &&& res.len() <= 5
            &&& filter_active(f) ==> forall|k: int|
                0 <= k < res.len() ==> crate::filter::record_matches_of(#[trigger] res[k], f->0)
        }),
{
    let merged = if crossref.len() < 3 {
        merge_all_of(crossref, arxiv)
    } else {
        crossref
    };
    if filter_active(f) {
        let any = |r: RecordView| true;
        crate::filter::lemma_keep_matching(merged, f->0, any);
        let kept = filtered_of(merged, f);
        let res = first_five(kept);
        assert forall|k: int| 0 <= k < res.len() implies crate::filter::record_matches_of(
            #[trigger] res[k],
            f->0,
        ) by {
            assert(res[k] == kept[k]);
        }
    }
}

} // verus!
