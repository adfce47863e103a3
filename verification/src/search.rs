//! What a query is: a DOI, an arXiv id, a citation key such as
//! `smith2020quantum`, or free bibliographic text.
use vstd::prelude::*;
use crate::numbers::{parse_i32, parse_i32_chars};
use crate::text::{
    all_ascii, all_ascii_alnum, all_ascii_alpha, all_ascii_digits, ascii_lower, ascii_lower_seq, is_ascii_digit,
    char_is_whitespace, chars_of, is_alnum, is_alpha, is_digit, is_white_space,
    lower_ascii_chars, slice_chars, string_of,
};
use crate::words::{
    contains_char, find_chars, find_text, lemma_find_from, law_trim_idempotent, occurs_at, starts_with_str, trim, trim_chars, trim_end_char,
    trim_end_char_chars, trim_str,
};

verus! {

/// A citation key cut into its author, year and title-word parts.
#[derive(Debug, Clone, PartialEq, Eq)]
pub struct CitationKeyQuery {
    pub author: String,
    pub year_fragment: String,
    pub title_word: String,
    pub publication_year: Option<i32>,
}

pub struct CitationKeyView {
    pub author: Seq<char>,
    pub year_fragment: Seq<char>,
    pub title_word: Seq<char>,
    pub publication_year: Option<i32>,
}

impl View for CitationKeyQuery {
    type V = CitationKeyView;

    open spec fn view(&self) -> CitationKeyView {
        CitationKeyView {
            author: self.author@,
            year_fragment: self.year_fragment@,
            title_word: self.title_word@,
            publication_year: self.publication_year,
        }
    }
}

/// The kind of a query, with the text the search uses.
#[derive(Debug, Clone, PartialEq, Eq)]
pub enum QueryKind {
    Doi(String),
    Arxiv(String),
    CitationKey(CitationKeyQuery),
    Bibliographic(String),
}

pub enum QueryKindView {
    Doi(Seq<char>),
    Arxiv(Seq<char>),
    CitationKey(CitationKeyView),
    Bibliographic(Seq<char>),
}

impl View for QueryKind {
    type V = QueryKindView;

    open spec fn view(&self) -> QueryKindView {
        match self {
            QueryKind::Doi(s) => QueryKindView::Doi(s@),
            QueryKind::Arxiv(s) => QueryKindView::Arxiv(s@),
            QueryKind::CitationKey(q) => QueryKindView::CitationKey(q@),
            QueryKind::Bibliographic(s) => QueryKindView::Bibliographic(s@),
        }
    }
}

// ------------------------------------------------------------------
// Years and arXiv ids
// ------------------------------------------------------------------

/// A year fragment read as a publication year: its value when it is
/// between 1800 and 2100.
pub open spec fn publication_year_of(v: Seq<char>) -> Option<i32> {
    match parse_i32(v) {
        Some(y) => if 1800 <= y <= 2100 {
            Some(y)
        } else {
            None
        },
        None => None,
    }
}

/// Whether the third and fourth chars read as a month, as in the `YYMM`
/// prefix of new-style arXiv ids.
pub open spec fn arxiv_month_of(v: Seq<char>) -> bool {
    v.len() >= 4 && match parse_i32(v.subrange(2, 4)) {
        Some(m) => 1 <= m <= 12,
        None => false,
    }
}

/// A new-style arXiv id: four digits, one dot, at least four digits.
pub open spec fn arxiv_id_like(input: Seq<char>) -> bool {
    let t = trim(input);
    t.len() >= 9 && match find_text(t, seq!['.']) {
        Some(k) => {
            let month = t.take(k);
            let number = t.skip(k + 1);
            &&& !number.contains('.')
            &&& month.len() == 4
            &&& number.len() >= 4
            &&& all_ascii_digits(month)
            &&& all_ascii_digits(number)
        },
        None => false,
    }
}

fn publication_year(value: &[char]) -> (r: Option<i32>)
    ensures
        r == publication_year_of(value@),
{
    match parse_i32_chars(value) {
        Some(y) => if 1800 <= y && y <= 2100 {
            Some(y)
        } else {
            None
        },
        None => None,
    }
}

/// Whether chars 2..4 read as a month from 1 to 12.
///
/// The month is cut by byte offsets from the text. This function is only
/// given the four chars of a citation key's year part after they were
/// checked to be ASCII digits, and on ASCII text byte offsets and char
/// offsets agree; the `requires` records that. How other text would be
/// cut by bytes is not modelled.
fn looks_like_arxiv_month(value: &[char]) -> (r: bool)
    requires
        all_ascii(value@),
    ensures
        r == arxiv_month_of(value@),
{
    if value.len() < 4 {
        return false;
    }
    let part = slice_chars(value, 2, 4);
    match parse_i32_chars(part.as_slice()) {
        Some(month) => 1 <= month && month <= 12,
        None => false,
    }
}

fn all_digits(s: &[char]) -> (r: bool)
    ensures
        r == all_ascii_digits(s@),
{
    let mut i: usize = 0;
    while i < s.len()
        invariant
            i <= s.len(),
            all_ascii_digits(s@.take(i as int)),
        decreases s.len() - i,
    {
        if !is_digit(s[i]) {
            return false;
        }
        proof {
            assert forall|j: int| 0 <= j < i + 1 implies crate::text::is_ascii_digit(
                #[trigger] s@.take(i as int + 1)[j],
            ) by {
                if j < i {
                    assert(s@.take(i as int + 1)[j] == s@.take(i as int)[j]);
                }
            }
        }
        i += 1;
    }
    proof {
        assert(s@.take(s@.len() as int) == s@);
    }
    true
}

fn all_alpha(s: &[char]) -> (r: bool)
    ensures
        r == all_ascii_alpha(s@),
{
    let mut i: usize = 0;
    while i < s.len()
        invariant
            i <= s.len(),
            all_ascii_alpha(s@.take(i as int)),
        decreases s.len() - i,
    {
        if !is_alpha(s[i]) {
            return false;
        }
        proof {
            assert forall|j: int| 0 <= j < i + 1 implies crate::text::is_ascii_alpha(
                #[trigger] s@.take(i as int + 1)[j],
            ) by {
                if j < i {
                    assert(s@.take(i as int + 1)[j] == s@.take(i as int)[j]);
                }
            }
        }
        i += 1;
    }
    proof {
        assert(s@.take(s@.len() as int) == s@);
    }
    true
}

fn all_alnum(s: &[char]) -> (r: bool)
    ensures
        r == all_ascii_alnum(s@),
{
    let mut i: usize = 0;
    while i < s.len()
        invariant
            i <= s.len(),
            all_ascii_alnum(s@.take(i as int)),
        decreases s.len() - i,
    {
        if !is_alnum(s[i]) {
            return false;
        }
        proof {
            assert forall|j: int| 0 <= j < i + 1 implies crate::text::is_ascii_alnum(
                #[trigger] s@.take(i as int + 1)[j],
            ) by {
                if j < i {
                    assert(s@.take(i as int + 1)[j] == s@.take(i as int)[j]);
                }
            }
        }
        i += 1;
    }
    proof {
        assert(s@.take(s@.len() as int) == s@);
    }
    true
}

fn looks_like_arxiv_id(input: &[char]) -> (r: bool)
    ensures
        r == arxiv_id_like(input@),
{
    let t = trim_chars(input);
    if t.len() < 9 {
        return false;
    }
    let dot: Vec<char> = vec!['.'];
    assert(dot@ == seq!['.']);
    match find_chars(t.as_slice(), dot.as_slice()) {
        Some(k) => {
            proof {
                crate::words::lemma_find_from(t@, seq!['.'], 0);
            }
            let month = slice_chars(t.as_slice(), 0, k);
            let number = slice_chars(t.as_slice(), k + 1, t.len());
            assert(month@ == t@.take(k as int));
            assert(number@ == t@.skip(k + 1));
            !contains_char(number.as_slice(), '.') && month.len() == 4 && number.len() >= 4
                && all_digits(month.as_slice()) && all_digits(number.as_slice())
        },
        None => false,
    }
}

// ------------------------------------------------------------------
// Citation keys
// ------------------------------------------------------------------

/// The key cut at `ys`: letters before, four digits from `ys`, letters after,
/// and the digits a publication year or a `YYMM` arXiv month.
pub open spec fn citation_split_at(key: Seq<char>, ys: int) -> Option<CitationKeyView> {
    let year = key.subrange(ys, ys + 4);
    let author = key.take(ys);
    let title = key.skip(ys + 4);
    if !all_ascii_digits(year) || !all_ascii_alpha(author) || !all_ascii_alpha(title) {
        None
    } else {
        let py = publication_year_of(year);
        if py is None && !arxiv_month_of(year) {
            None
        } else {
            Some(
                CitationKeyView {
                    author: author,
                    year_fragment: year,
                    title_word: title,
                    publication_year: py,
                },
            )
        }
    }
}

/// The first cut at or after `ys` (and at most five chars before the end)
/// that splits the key.
pub open spec fn citation_split_from(key: Seq<char>, ys: int) -> Option<CitationKeyView>
    decreases key.len() - ys,
{
    if ys < 0 || ys + 5 > key.len() {
        None
    } else {
        match citation_split_at(key, ys) {
            Some(q) => Some(q),
            None => citation_split_from(key, ys + 1),
        }
    }
}

proof fn lemma_split_from_parts(key: Seq<char>, s: int)
    ensures
        citation_split_from(key, s) matches Some(q) ==> {
            &&& q.author + q.year_fragment + q.title_word == key
            &&& q.author.len() >= s
            &&& q.year_fragment.len() == 4
            &&& q.title_word.len() >= 1
            &&& all_ascii_alpha(q.author)
            &&& all_ascii_digits(q.year_fragment)
            &&& all_ascii_alpha(q.title_word)
        },
    decreases key.len() - s,
{
    if s < 0 || s + 5 > key.len() {
    } else {
        match citation_split_at(key, s) {
            Some(q) => {
                assert(key.take(s) + key.subrange(s, s + 4) + key.skip(s + 4) =~= key);
            },
            None => {
                lemma_split_from_parts(key, s + 1);
            },
        }
    }
}

/// A citation key is only cut, never changed: its author part, year and
/// title word put back together give the trimmed query; the author part has
/// at least two ASCII letters, the year four ASCII digits, the title word at
/// least one ASCII letter.
pub proof fn law_citation_key_parts(input: Seq<char>)
    ensures
        citation_key_query_of(input) matches Some(q) ==> {
            &&& q.author + q.year_fragment + q.title_word == trim(input)
            &&& q.author.len() >= 2
            &&& q.year_fragment.len() == 4
            &&& q.title_word.len() >= 1
            &&& all_ascii_alpha(q.author)
            &&& all_ascii_digits(q.year_fragment)
            &&& all_ascii_alpha(q.title_word)
        },
{
    lemma_split_from_parts(trim(input), 2);
}

pub open spec fn has_white_space(s: Seq<char>) -> bool {
    exists|i: int| 0 <= i < s.len() && is_white_space(#[trigger] s[i])
}

/// A citation key: at least eight ASCII letters and digits, cut at the
/// first position from the third char on where it splits.
pub open spec fn citation_key_query_of(input: Seq<char>) -> Option<CitationKeyView> {
    let key = trim(input);
    if has_white_space(key) || key.len() < 8 || !all_ascii_alnum(key) {
        None
    } else {
        citation_split_from(key, 2)
    }
}

fn has_whitespace(s: &[char]) -> (r: bool)
    ensures
        r == has_white_space(s@),
{
    let mut i: usize = 0;
    while i < s.len()
        invariant
            i <= s.len(),
            forall|j: int| 0 <= j < i ==> !is_white_space(#[trigger] s@[j]),
        decreases s.len() - i,
    {
        if char_is_whitespace(s[i]) {
            return true;
        }
        i += 1;
    }
    false
}

fn split_citation_key_at(key: &[char], ys: usize) -> (r: Option<CitationKeyQuery>)
    requires
        ys + 5 <= key.len(),
        all_ascii_alnum(key@),
    ensures
        match r {
            Some(q) => citation_split_at(key@, ys as int) == Some(q@),
            None => citation_split_at(key@, ys as int) is None,
        },
{
    let year = slice_chars(key, ys, ys + 4);
    let author = slice_chars(key, 0, ys);
    let title = slice_chars(key, ys + 4, key.len());
    assert(author@ == key@.take(ys as int));
    assert(title@ == key@.skip(ys + 4));
    if !all_digits(year.as_slice()) || !all_alpha(author.as_slice()) || !all_alpha(title.as_slice()) {
        return None;
    }
    let py = publication_year(year.as_slice());
    if py.is_none() {
        proof {
            assert forall|i: int| 0 <= i < year@.len() implies crate::text::is_ascii_char(
                #[trigger] year@[i],
            ) by {
                assert(crate::text::is_ascii_digit(year@[i]));
            }
        }
        if !looks_like_arxiv_month(year.as_slice()) {
            return None;
        }
    }
    Some(
        CitationKeyQuery {
            author: string_of(author.as_slice()),
            year_fragment: string_of(year.as_slice()),
            title_word: string_of(title.as_slice()),
            publication_year: py,
        },
    )
}

fn parse_citation_key(input: &[char]) -> (r: Option<CitationKeyQuery>)
    ensures
        match r {
            Some(q) => citation_key_query_of(input@) == Some(q@),
            None => citation_key_query_of(input@) is None,
        },
{
    let key = trim_chars(input);
    if has_whitespace(key.as_slice()) || key.len() < 8 || !all_alnum(key.as_slice()) {
        return None;
    }
    let last_start = key.len() - 5;
    let mut ys: usize = 2;
    while ys <= last_start
        invariant
            2 <= ys <= last_start + 1,
            last_start + 5 == key.len(),
            all_ascii_alnum(key@),
            key@ == trim(input@),
            !has_white_space(key@),
            key.len() >= 8,
            citation_split_from(key@, 2) == citation_split_from(key@, ys as int),
        decreases last_start + 1 - ys,
    {
        match split_citation_key_at(key.as_slice(), ys) {
            Some(q) => {
                return Some(q);
            },
            None => {},
        }
        ys += 1;
    }
    None
}

// ------------------------------------------------------------------
// Classification
// ------------------------------------------------------------------

pub open spec fn doi_candidate(c: Seq<char>) -> bool {
    c.contains('/') && !c.contains(' ')
}

/// The kind of a query, tried in this order: a `https://doi.org/` link; the
/// text from the first `10.` on, when it holds a `/` and no space; text
/// starting with `10.` that holds a `/`; an `arXiv:` prefix; an arXiv
/// abstract link; a bare new-style arXiv id; a citation key; anything else
/// is bibliographic text. Prefix tests ignore ASCII case except `arXiv:`.
pub open spec fn classify_of(input: Seq<char>) -> QueryKindView {
    let trimmed = trim(input);
    let lower = ascii_lower_seq(trimmed);
    let found = find_text(lower, "10."@);
    if "https://doi.org/"@.is_prefix_of(lower) {
        QueryKindView::Doi(trim(trimmed.skip("https://doi.org/"@.len() as int)))
    } else if found is Some && doi_candidate(trimmed.skip(found->0)) {
        QueryKindView::Doi(trim_end_char(trimmed.skip(found->0), '.'))
    } else if "10."@.is_prefix_of(lower) && lower.contains('/') {
        QueryKindView::Doi(trim_end_char(trimmed, '.'))
    } else if "arXiv:"@.is_prefix_of(trimmed) {
        QueryKindView::Arxiv(trim(trimmed.skip("arXiv:"@.len() as int)))
    } else if "https://arxiv.org/abs/"@.is_prefix_of(lower) {
        QueryKindView::Arxiv(trim(lower.skip("https://arxiv.org/abs/"@.len() as int)))
    } else if arxiv_id_like(trimmed) {
        QueryKindView::Arxiv(trimmed)
    } else {
        match citation_key_query_of(trimmed) {
            Some(q) => QueryKindView::CitationKey(q),
            None => QueryKindView::Bibliographic(trimmed),
        }
    }
}

fn skip_trim_string(s: &[char], n: usize) -> (r: String)
    requires
        n <= s.len(),
    ensures
        r@ == trim(s@.skip(n as int)),
{
    let rest = slice_chars(s, n, s.len());
    assert(rest@ == s@.skip(n as int));
    let t = trim_chars(rest.as_slice());
    string_of(t.as_slice())
}

pub fn classify_query(input: &str) -> (r: QueryKind)
    ensures
        r@ == classify_of(input@),
{
    let trimmed = trim_str(input);
    let lower = lower_ascii_chars(trimmed.as_slice());
    let ten = chars_of("10.");
    let found = find_chars(lower.as_slice(), ten.as_slice());
    proof {
        assert(lower@.len() == trimmed@.len());
    }
    if starts_with_str(lower.as_slice(), "https://doi.org/") {
        let n = chars_of("https://doi.org/").len();
        return QueryKind::Doi(skip_trim_string(trimmed.as_slice(), n));
    }
    if let Some(index) = found {
        proof {
            crate::words::lemma_find_from(lower@, "10."@, 0);
        }
        let candidate = slice_chars(trimmed.as_slice(), index, trimmed.len());
        assert(candidate@ == trimmed@.skip(index as int));
        if contains_char(candidate.as_slice(), '/') && !contains_char(candidate.as_slice(), ' ') {
            let doi = trim_end_char_chars(candidate.as_slice(), '.');
            return QueryKind::Doi(string_of(doi.as_slice()));
        }
    }
    if starts_with_str(lower.as_slice(), "10.") && contains_char(lower.as_slice(), '/') {
        let doi = trim_end_char_chars(trimmed.as_slice(), '.');
        return QueryKind::Doi(string_of(doi.as_slice()));
    }
    if starts_with_str(trimmed.as_slice(), "arXiv:") {
        let n = chars_of("arXiv:").len();
        return QueryKind::Arxiv(skip_trim_string(trimmed.as_slice(), n));
    }
    if starts_with_str(lower.as_slice(), "https://arxiv.org/abs/") {
        let n = chars_of("https://arxiv.org/abs/").len();
        return QueryKind::Arxiv(skip_trim_string(lower.as_slice(), n));
    }
    if looks_like_arxiv_id(trimmed.as_slice()) {
        return QueryKind::Arxiv(string_of(trimmed.as_slice()));
    }
    match parse_citation_key(trimmed.as_slice()) {
        Some(query) => QueryKind::CitationKey(query),
        None => QueryKind::Bibliographic(string_of(trimmed.as_slice())),
    }
}

/// A query that is, once trimmed, four ASCII digits, a dot and at least
/// four more ASCII digits is a new-style arXiv id, and the id searched for
/// is the trimmed query.
pub proof fn law_new_style_arxiv_id(input: Seq<char>)
    requires
        ({
            let t = trim(input);
            &&& t.len() >= 9
            &&& t[4] == '.'
            &&& all_ascii_digits(t.take(4))
            &&& all_ascii_digits(t.skip(5))
        }),
    ensures
        classify_of(input) == QueryKindView::Arxiv(trim(input)),
{
    let t = trim(input);
    let lower = ascii_lower_seq(t);
    reveal_strlit("https://doi.org/");
    reveal_strlit("10.");
    reveal_strlit("arXiv:");
    reveal_strlit("https://arxiv.org/abs/");
    assert(is_ascii_digit(t.take(4)[0]));
    assert(t[0] == t.take(4)[0]);
    assert(lower[0] == t[0]);
    assert(!"https://doi.org/"@.is_prefix_of(lower)) by {
        assert("https://doi.org/"@[0] == 'h');
    }
    assert(!"https://arxiv.org/abs/"@.is_prefix_of(lower)) by {
        assert("https://arxiv.org/abs/"@[0] == 'h');
    }
    assert(!"arXiv:"@.is_prefix_of(t)) by {
        assert("arXiv:"@[0] == 'a');
    }
    // Only digits and one dot: no `/` anywhere.
    assert forall|i: int| 0 <= i < t.len() implies #[trigger] t[i] != '/' && (i != 4 ==> t[i] != '.') by {
        if i < 4 {
            assert(t[i] == t.take(4)[i]);
            assert(is_ascii_digit(t.take(4)[i]));
        } else if i > 4 {
            assert(t[i] == t.skip(5)[i - 5]);
            assert(is_ascii_digit(t.skip(5)[i - 5]));
        }
    }
    assert(!lower.contains('/')) by {
        assert forall|i: int| 0 <= i < lower.len() implies lower[i] != '/' by {
            assert(lower[i] == ascii_lower(t[i]));
        }
    }
    let found = find_text(lower, "10."@);
    if let Some(k) = found {
        lemma_find_from(lower, "10."@, 0);
        assert(!t.skip(k).contains('/')) by {
            assert forall|i: int| 0 <= i < t.skip(k).len() implies t.skip(k)[i] != '/' by {
                assert(t.skip(k)[i] == t[k + i]);
            }
        }
    }
    // The first dot is at index 4.
    let dot = seq!['.'];
    lemma_find_from(t, dot, 0);
    assert(occurs_at(t, dot, 4)) by {
        assert(t.subrange(4, 5) =~= dot);
    }
    match find_text(t, dot) {
        Some(k) => {
            assert(t.subrange(k, k + 1)[0] == t[k]);
            assert(k == 4);
        },
        None => {},
    }
    let number = t.skip(5);
    assert(!number.contains('.')) by {
        assert forall|i: int| 0 <= i < number.len() implies number[i] != '.' by {
            assert(is_ascii_digit(number[i]));
        }
    }
    assert(t.take(4).len() == 4);
    law_trim_idempotent(input);
    assert(trim(t) == t);
    assert(find_text(trim(t), seq!['.']) == Some(4int));
}

} // verus!
