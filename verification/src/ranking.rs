//! Matching records against a citation key and ranking the matches.
use vstd::prelude::*;
use crate::filter::{
    SearchFilter, SearchFilterView, keep_matching, opt_filter_view, records_view, retain_matching,
};
use crate::keys::{
    first_title_keyword, first_title_keyword_chars, key_part, key_part_chars, title_word_list,
    title_words_of,
};
use crate::merging::{merge_all, merge_all_of};
use crate::metadata::{RecordView, WorkRecord};
use crate::search::{CitationKeyQuery, CitationKeyView};
use crate::text::{ascii_lower_seq, chars_equal, chars_of, lower_ascii_chars, string_of};
use crate::words::{view_chars, view_strings};

verus! {

// ------------------------------------------------------------------
// Matching a record against a citation key
// ------------------------------------------------------------------

/// The first author's family name, as a key part, is the key's author part
/// (ASCII case ignored).
pub open spec fn author_key_matches(r: RecordView, q: CitationKeyView) -> bool {
    r.authors.len() > 0 && key_part(r.authors[0].family) == ascii_lower_seq(q.author)
}

/// The key's publication year, when it has one, is the record's year.
pub open spec fn year_key_matches(r: RecordView, q: CitationKeyView) -> bool {
    match q.publication_year {
        Some(y) => r.year == Some(y),
        None => true,
    }
}

/// The key's title word is one of the title's words.
pub open spec fn title_key_matches(r: RecordView, q: CitationKeyView) -> bool {
    title_words_of(r.title).contains(ascii_lower_seq(q.title_word))
}

pub open spec fn candidate_matches_of(r: RecordView, q: CitationKeyView) -> bool {
    author_key_matches(r, q) && year_key_matches(r, q) && title_key_matches(r, q)
}

/// The title's first word that is not an article is the key's title word.
pub open spec fn title_starts_with_of(r: RecordView, q: CitationKeyView) -> bool {
    first_title_keyword(r.title) == Some(ascii_lower_seq(q.title_word))
}

/// Author 4, year 3, title word 3, title start 2.
pub open spec fn match_score_of(r: RecordView, q: CitationKeyView) -> int {
    (if author_key_matches(r, q) {
        4int
    } else {
        0int
    }) + (if q.publication_year is Some && r.year == q.publication_year {
        3int
    } else {
        0int
    }) + (if title_key_matches(r, q) {
        3int
    } else {
        0int
    }) + (if title_starts_with_of(r, q) {
        2int
    } else {
        0int
    })
}

pub fn normalize_key_part(input: &str) -> (r: String)
    ensures
        r@ == key_part(input@),
{
    let cs = chars_of(input);
    let k = key_part_chars(cs.as_slice());
    string_of(k.as_slice())
}

pub fn title_words(title: &str) -> (r: Vec<String>)
    ensures
        view_strings(r@) == title_words_of(title@),
{
    let cs = chars_of(title);
    let ws = title_word_list(cs.as_slice());
    let mut r: Vec<String> = Vec::new();
    let mut i: usize = 0;
    while i < ws.len()
        invariant
            i <= ws.len(),
            view_strings(r@) == view_chars(ws@.take(i as int)),
        decreases ws.len() - i,
    {
        let s = string_of(ws[i].as_slice());
        let ghost before = r@;
        r.push(s);
        proof {
            assert(view_strings(r@) =~= view_strings(before).push(s@));
            assert(view_chars(ws@.take(i as int + 1)) =~= view_chars(ws@.take(i as int)).push(
                ws@[i as int]@,
            ));
        }
        i += 1;
    }
    proof {
        assert(ws@.take(ws@.len() as int) == ws@);
    }
    r
}

pub fn first_title_word(title: &str) -> (r: Option<String>)
    ensures
        match r {
            Some(w) => first_title_keyword(title@) == Some(w@),
            None => first_title_keyword(title@) is None,
        },
{
    let cs = chars_of(title);
    match first_title_keyword_chars(cs.as_slice()) {
        Some(w) => Some(string_of(w.as_slice())),
        None => None,
    }
}

fn words_contain(ws: &Vec<Vec<char>>, w: &[char]) -> (r: bool)
    ensures
        r == view_chars(ws@).contains(w@),
{
    let mut i: usize = 0;
    while i < ws.len()
        invariant
            i <= ws.len(),
            forall|k: int| 0 <= k < i ==> view_chars(ws@)[k] != w@,
        decreases ws.len() - i,
    {
        if chars_equal(ws[i].as_slice(), w) {
            assert(view_chars(ws@)[i as int] == w@);
            return true;
        }
        i += 1;
    }
    false
}

fn author_key_matches_exec(record: &WorkRecord, query: &CitationKeyQuery) -> (r: bool)
    ensures
        r == author_key_matches(record@, query@),
{
    if record.authors.len() == 0 {
        return false;
    }
    assert(record@.authors[0] == record.authors@[0]@);
    let fam = chars_of(record.authors[0].family.as_str());
    let k = key_part_chars(fam.as_slice());
    let qa = chars_of(query.author.as_str());
    let ql = lower_ascii_chars(qa.as_slice());
    chars_equal(k.as_slice(), ql.as_slice())
}

fn title_key_matches_exec(record: &WorkRecord, query: &CitationKeyQuery) -> (r: bool)
    ensures
        r == title_key_matches(record@, query@),
{
    let t = chars_of(record.title.as_str());
    let ws = title_word_list(t.as_slice());
    let qt = chars_of(query.title_word.as_str());
    let ql = lower_ascii_chars(qt.as_slice());
    words_contain(&ws, ql.as_slice())
}

pub fn citation_candidate_matches(record: &WorkRecord, query: &CitationKeyQuery) -> (r: bool)
    ensures
        r == candidate_matches_of(record@, query@),
{
    let author_matches = author_key_matches_exec(record, query);
    let year_matches = match query.publication_year {
        Some(year) => record.year == Some(year),
        None => true,
    };
    let title_matches = title_key_matches_exec(record, query);
    author_matches && year_matches && title_matches
}

pub fn citation_title_starts_with(record: &WorkRecord, query: &CitationKeyQuery) -> (r: bool)
    ensures
        r == title_starts_with_of(record@, query@),
{
    let t = chars_of(record.title.as_str());
    let qt = chars_of(query.title_word.as_str());
    let ql = lower_ascii_chars(qt.as_slice());
    match first_title_keyword_chars(t.as_slice()) {
        Some(w) => chars_equal(w.as_slice(), ql.as_slice()),
        None => false,
    }
}

pub fn citation_match_score(record: &WorkRecord, query: &CitationKeyQuery) -> (r: u8)
    ensures
        r as int == match_score_of(record@, query@),
{
    let mut score: u8 = 0;
    if author_key_matches_exec(record, query) {
        score += 4;
    }
    if query.publication_year.is_some() && record.year == query.publication_year {
        score += 3;
    }
    if title_key_matches_exec(record, query) {
        score += 3;
    }
    if citation_title_starts_with(record, query) {
        score += 2;
    }
    score
}

// ------------------------------------------------------------------
// Ranking
// ------------------------------------------------------------------

/// `a < b` on texts, by code points, as `String` orders them.
pub open spec fn text_lt(a: Seq<char>, b: Seq<char>) -> bool
    decreases a.len(),
{
    if a.len() == 0 {
        b.len() > 0
    } else if b.len() == 0 {
        false
    } else if a[0] != b[0] {
        a[0] < b[0]
    } else {
        text_lt(a.drop_first(), b.drop_first())
    }
}

/// `a` comes strictly before `b`: a title that starts with the key's word
/// first, then the higher score, then the smaller title.
pub open spec fn ranks_before(a: RecordView, b: RecordView, q: CitationKeyView) -> bool {
    let sa = title_starts_with_of(a, q);
    let sb = title_starts_with_of(b, q);
    ||| sa && !sb
    ||| sa == sb && match_score_of(a, q) > match_score_of(b, q)
    ||| sa == sb && match_score_of(a, q) == match_score_of(b, q) && text_lt(a.title, b.title)
}

/// `x` inserted before the first record it ranks strictly before.
pub open spec fn sorted_insert(s: Seq<RecordView>, x: RecordView, q: CitationKeyView) -> Seq<
    RecordView,
>
    decreases s.len(),
{
    if s.len() == 0 {
        seq![x]
    } else if ranks_before(x, s[0], q) {
        seq![x] + s
    } else {
        seq![s[0]] + sorted_insert(s.drop_first(), x, q)
    }
}

/// The stable sort by `ranks_before`: records that rank equally keep their order.
pub open spec fn rank_sort(rs: Seq<RecordView>, q: CitationKeyView) -> Seq<RecordView>
    decreases rs.len(),
{
    if rs.len() == 0 {
        rs
    } else {
        sorted_insert(rank_sort(rs.drop_last(), q), rs.last(), q)
    }
}

/// The records that match the key, in order.
pub open spec fn keep_candidates(rs: Seq<RecordView>, q: CitationKeyView) -> Seq<RecordView>
    decreases rs.len(),
{
    if rs.len() == 0 {
        rs
    } else if candidate_matches_of(rs.last(), q) {
        keep_candidates(rs.drop_last(), q).push(rs.last())
    } else {
        keep_candidates(rs.drop_last(), q)
    }
}

pub open spec fn first_five(rs: Seq<RecordView>) -> Seq<RecordView> {
    if rs.len() > 5 {
        rs.take(5)
    } else {
        rs
    }
}

/// The answer to a citation-key search: the arXiv records merged into the
/// Crossref ones, those that match the key and the filter kept, ranked,
/// and the first five.
pub open spec fn citation_results_of(
    crossref: Seq<RecordView>,
    arxiv: Seq<RecordView>,
    q: CitationKeyView,
    f: Option<SearchFilterView>,
) -> Seq<RecordView> {
    let merged = merge_all_of(crossref, arxiv);
    let candidates = keep_candidates(merged, q);
    let filtered = match f {
        Some(f) => keep_matching(candidates, f),
        None => candidates,
    };
    first_five(rank_sort(filtered, q))
}

fn text_less(a: &[char], b: &[char]) -> (r: bool)
    ensures
        r == text_lt(a@, b@),
{
    let mut i: usize = 0;
    proof {
        assert(a@.skip(0) == a@);
        assert(b@.skip(0) == b@);
    }
    while i < a.len() && i < b.len()
        invariant
            i <= a.len(),
            i <= b.len(),
            text_lt(a@, b@) == text_lt(a@.skip(i as int), b@.skip(i as int)),
        decreases a.len() - i,
    {
        if a[i] != b[i] {
            assert(a@.skip(i as int)[0] == a@[i as int]);
            assert(b@.skip(i as int)[0] == b@[i as int]);
            return a[i] < b[i];
        }
        proof {
            assert(a@.skip(i as int).drop_first() == a@.skip(i + 1));
            assert(b@.skip(i as int).drop_first() == b@.skip(i + 1));
        }
        i += 1;
    }
    b.len() > i
}

pub fn ranks_before_exec(a: &WorkRecord, b: &WorkRecord, query: &CitationKeyQuery) -> (r: bool)
    ensures
        r == ranks_before(a@, b@, query@),
{
    let sa = citation_title_starts_with(a, query);
    let sb = citation_title_starts_with(b, query);
    if sa && !sb {
        return true;
    }
    if sa != sb {
        return false;
    }
    let pa = citation_match_score(a, query);
    let pb = citation_match_score(b, query);
    if pa > pb {
        return true;
    }
    if pa < pb {
        return false;
    }
    let ta = chars_of(a.title.as_str());
    let tb = chars_of(b.title.as_str());
    text_less(ta.as_slice(), tb.as_slice())
}

pub proof fn lemma_sorted_insert_at(s: Seq<RecordView>, x: RecordView, q: CitationKeyView, j: int)
    requires
        0 <= j <= s.len(),
        forall|k: int| 0 <= k < j ==> !ranks_before(x, #[trigger] s[k], q),
        j < s.len() ==> ranks_before(x, s[j], q),
    ensures
        sorted_insert(s, x, q) == s.take(j).push(x) + s.skip(j),
    decreases j,
{
    if j == 0 {
        if s.len() == 0 {
            assert(s.take(0).push(x) + s.skip(0) =~= seq![x]);
        } else {
            assert(s.take(0).push(x) + s.skip(0) =~= seq![x] + s);
        }
    } else {
        assert forall|k: int| 0 <= k < j - 1 implies !ranks_before(x, #[trigger] s.drop_first()[k], q) by {
            assert(s.drop_first()[k] == s[k + 1]);
        }
        if j - 1 < s.drop_first().len() {
            assert(s.drop_first()[j - 1] == s[j]);
        }
        lemma_sorted_insert_at(s.drop_first(), x, q, j - 1);
        assert(!ranks_before(x, s[0], q));
        assert(seq![s[0]] + (s.drop_first().take(j - 1).push(x) + s.drop_first().skip(j - 1))
            =~= s.take(j).push(x) + s.skip(j));
    }
}

fn insert_ranked(out: &mut Vec<WorkRecord>, x: WorkRecord, query: &CitationKeyQuery)
    ensures
        records_view(final(out)@) == sorted_insert(records_view(old(out)@), x@, query@),
{
    let ghost s = records_view(out@);
    let mut j: usize = 0;
    while j < out.len() && !ranks_before_exec(&x, &out[j], query)
        invariant
            j <= out.len(),
            s == records_view(out@),
            out@ == old(out)@,
            forall|k: int| 0 <= k < j ==> !ranks_before(x@, #[trigger] s[k], query@),
        decreases out.len() - j,
    {
        assert(s[j as int] == out@[j as int]@);
        j += 1;
    }
    proof {
        if j < out.len() {
            assert(s[j as int] == out@[j as int]@);
        }
        lemma_sorted_insert_at(s, x@, query@, j as int);
    }
    let ghost xv = x@;
    out.insert(j, x);
    proof {
        assert(records_view(out@) =~= s.take(j as int).push(xv) + s.skip(j as int));
    }
}

/// The records sorted by `ranks_before`, equal ones in their order (`sort_by`).
pub fn sort_ranked(records: Vec<WorkRecord>, query: &CitationKeyQuery) -> (r: Vec<WorkRecord>)
    ensures
        records_view(r@) == rank_sort(records_view(records@), query@),
{
    let ghost all = records_view(records@);
    let mut records = records;
    let mut out: Vec<WorkRecord> = Vec::new();
    let ghost total = records@.len();
    proof {
        assert(all.skip(0) =~= all);
        assert(all.take(0) =~= Seq::<RecordView>::empty());
    }
    while records.len() > 0
        invariant
            records@.len() <= total == all.len(),
            records_view(records@) =~= all.skip(total - records@.len()),
            records_view(out@) == rank_sort(all.take(total - records@.len()), query@),
        decreases records.len(),
    {
        let ghost done_n = total - records@.len();
        let ghost before = records@;
        let x = records.remove(0);
        proof {
            assert(x == before[0]);
            assert(records_view(before)[0] == before[0]@);
            assert(all.skip(done_n)[0] == all[done_n]);
            assert(records@ =~= before.subrange(1, before.len() as int));
            assert(records_view(records@) =~= records_view(before).subrange(1, before.len() as int));
            assert(all.skip(done_n).subrange(1, before.len() as int) =~= all.skip(done_n + 1));
            assert(all.take(done_n + 1).drop_last() =~= all.take(done_n));
            assert(all.take(done_n + 1).last() == x@);
        }
        insert_ranked(&mut out, x, query);
    }
    proof {
        assert(all.take(total as int) =~= all);
    }
    out
}

/// The records that match the key, in order (`Vec::retain`).
pub fn retain_candidates(records: Vec<WorkRecord>, query: &CitationKeyQuery) -> (r: Vec<WorkRecord>)
    ensures
        records_view(r@) == keep_candidates(records_view(records@), query@),
{
    let ghost all = records_view(records@);
    let mut records = records;
    let mut kept: Vec<WorkRecord> = Vec::new();
    let ghost total = records@.len();
    proof {
        assert(all.skip(0) =~= all);
    }
    while records.len() > 0
        invariant
            records@.len() <= total == all.len(),
            records_view(records@) =~= all.skip(total - records@.len()),
            records_view(kept@) == keep_candidates(all.take(total - records@.len()), query@),
        decreases records.len(),
    {
        let ghost done_n = total - records@.len();
        let ghost before = records@;
        let x = records.remove(0);
        proof {
            assert(x == before[0]);
            assert(records_view(before)[0] == before[0]@);
            assert(all.skip(done_n)[0] == all[done_n]);
            assert(records@ =~= before.subrange(1, before.len() as int));
            assert(records_view(records@) =~= records_view(before).subrange(1, before.len() as int));
            assert(all.skip(done_n).subrange(1, before.len() as int) =~= all.skip(done_n + 1));
            assert(all.take(done_n + 1).drop_last() =~= all.take(done_n));
        }
        if citation_candidate_matches(&x, query) {
            let ghost kb = kept@;
            kept.push(x);
            proof {
                assert(records_view(kept@) =~= records_view(kb).push(all[done_n]));
            }
        }
    }
    proof {
        assert(all.take(total as int) =~= all);
    }
    kept
}

/// The answer to a citation-key search, from what Crossref and arXiv
/// returned for the key.
pub fn rank_citation_results(
    crossref: Vec<WorkRecord>,
    arxiv: Vec<WorkRecord>,
    query: &CitationKeyQuery,
    filter: Option<&SearchFilter>,
) -> (r: Vec<WorkRecord>)
    ensures
        records_view(r@) == citation_results_of(
            records_view(crossref@),
            records_view(arxiv@),
            query@,
            opt_filter_view(filter),
        ),
{
    let mut records = crossref;
    merge_all(&mut records, arxiv);
    let candidates = retain_candidates(records, query);
    let filtered = match filter {
        Some(f) => retain_matching(candidates, f),
        None => candidates,
    };
    let mut sorted = sort_ranked(filtered, query);
    if sorted.len() > 5 {
        let ghost before = records_view(sorted@);
        sorted.truncate(5);
        proof {
            assert(records_view(sorted@) =~= before.take(5));
        }
    }
    sorted
}

// ------------------------------------------------------------------
// Properties of the ranking
// ------------------------------------------------------------------

/// No record of a ranked list ranks strictly before one that precedes it.
pub open spec fn ranked(s: Seq<RecordView>, q: CitationKeyView) -> bool {
    forall|i: int, j: int| 0 <= i < j < s.len() ==> !ranks_before(#[trigger] s[j], #[trigger] s[i], q)
}

pub proof fn lemma_text_lt_irreflexive(a: Seq<char>)
    ensures
        !text_lt(a, a),
    decreases a.len(),
{
    if a.len() > 0 {
        lemma_text_lt_irreflexive(a.drop_first());
    }
}

pub proof fn lemma_text_lt_transitive(a: Seq<char>, b: Seq<char>, c: Seq<char>)
    requires
        text_lt(a, b),
        text_lt(b, c),
    ensures
        text_lt(a, c),
    decreases a.len(),
{
    if a.len() > 0 && b.len() > 0 && c.len() > 0 && a[0] == b[0] && b[0] == c[0] {
        lemma_text_lt_transitive(a.drop_first(), b.drop_first(), c.drop_first());
    }
}

/// `ranks_before` is a strict order.
pub proof fn lemma_ranks_before_order(a: RecordView, b: RecordView, c: RecordView, q: CitationKeyView)
    ensures
        !ranks_before(a, a, q),
        ranks_before(a, b, q) && ranks_before(b, c, q) ==> ranks_before(a, c, q),
{
    lemma_text_lt_irreflexive(a.title);
    if ranks_before(a, b, q) && ranks_before(b, c, q) {
        if text_lt(a.title, b.title) && text_lt(b.title, c.title) {
            lemma_text_lt_transitive(a.title, b.title, c.title);
        }
    }
}

proof fn lemma_sorted_insert_all(t: Seq<RecordView>, x: RecordView, q: CitationKeyView, p: spec_fn(
    RecordView,
) -> bool)
    requires
        p(x),
        forall|k: int| 0 <= k < t.len() ==> p(#[trigger] t[k]),
    ensures
        sorted_insert(t, x, q).len() == t.len() + 1,
        forall|k: int| 0 <= k < sorted_insert(t, x, q).len() ==> p(#[trigger] sorted_insert(t, x, q)[k]),
    decreases t.len(),
{
    if t.len() > 0 && !ranks_before(x, t[0], q) {
        assert forall|k: int| 0 <= k < t.drop_first().len() implies p(#[trigger] t.drop_first()[k]) by {
            assert(t.drop_first()[k] == t[k + 1]);
        }
        lemma_sorted_insert_all(t.drop_first(), x, q, p);
        let rest = sorted_insert(t.drop_first(), x, q);
        assert forall|k: int| 0 <= k < (seq![t[0]] + rest).len() implies p(
            #[trigger] (seq![t[0]] + rest)[k],
        ) by {
            if k > 0 {
                assert((seq![t[0]] + rest)[k] == rest[k - 1]);
            }
        }
    } else if t.len() > 0 {
        assert forall|k: int| 0 <= k < (seq![x] + t).len() implies p(#[trigger] (seq![x] + t)[k]) by {
            if k > 0 {
                assert((seq![x] + t)[k] == t[k - 1]);
            }
        }
    }
}

proof fn lemma_sorted_insert_ranked(t: Seq<RecordView>, x: RecordView, q: CitationKeyView)
    requires
        ranked(t, q),
    ensures
        ranked(sorted_insert(t, x, q), q),
    decreases t.len(),
{
    if t.len() == 0 {
    } else if ranks_before(x, t[0], q) {
        let r = seq![x] + t;
        assert forall|i: int, j: int| 0 <= i < j < r.len() implies !ranks_before(
            #[trigger] r[j],
            #[trigger] r[i],
            q,
        ) by {
            if i == 0 {
                let e = t[j - 1];
                assert(r[j] == e);
                lemma_ranks_before_order(e, x, t[0], q);
                lemma_ranks_before_order(t[0], x, t[0], q);
                if j - 1 > 0 {
                    assert(!ranks_before(t[j - 1], t[0], q));
                }
            } else {
                assert(r[i] == t[i - 1]);
                assert(r[j] == t[j - 1]);
            }
        }
    } else {
        let d = t.drop_first();
        assert(ranked(d, q)) by {
            assert forall|i: int, j: int| 0 <= i < j < d.len() implies !ranks_before(
                #[trigger] d[j],
                #[trigger] d[i],
                q,
            ) by {
                assert(d[i] == t[i + 1]);
                assert(d[j] == t[j + 1]);
            }
        }
        lemma_sorted_insert_ranked(d, x, q);
        let rest = sorted_insert(d, x, q);
        let first = t[0];
        let p = |e: RecordView| !ranks_before(e, first, q);
        assert forall|k: int| 0 <= k < d.len() implies p(#[trigger] d[k]) by {
            assert(d[k] == t[k + 1]);
            assert(!ranks_before(t[k + 1], t[0], q));
        }
        lemma_sorted_insert_all(d, x, q, p);
        let r = seq![first] + rest;
        assert forall|i: int, j: int| 0 <= i < j < r.len() implies !ranks_before(
            #[trigger] r[j],
            #[trigger] r[i],
            q,
        ) by {
            if i == 0 {
                assert(r[j] == rest[j - 1]);
                assert(p(rest[j - 1]));
            } else {
                assert(r[i] == rest[i - 1]);
                assert(r[j] == rest[j - 1]);
            }
        }
    }
}

/// The stable sort leaves its records ranked, and keeps every property all
/// of its records have.
pub proof fn lemma_rank_sort(s: Seq<RecordView>, q: CitationKeyView, p: spec_fn(RecordView) -> bool)
    requires
        forall|k: int| 0 <= k < s.len() ==> p(#[trigger] s[k]),
    ensures
        ranked(rank_sort(s, q), q),
        rank_sort(s, q).len() == s.len(),
        forall|k: int| 0 <= k < rank_sort(s, q).len() ==> p(#[trigger] rank_sort(s, q)[k]),
    decreases s.len(),
{
    if s.len() > 0 {
        assert forall|k: int| 0 <= k < s.drop_last().len() implies p(#[trigger] s.drop_last()[k]) by {
            assert(s.drop_last()[k] == s[k]);
        }
        lemma_rank_sort(s.drop_last(), q, p);
        assert(p(s[s.len() - 1]));
        lemma_sorted_insert_ranked(rank_sort(s.drop_last(), q), s.last(), q);
        lemma_sorted_insert_all(rank_sort(s.drop_last(), q), s.last(), q, p);
    }
}

proof fn lemma_keep_candidates(rs: Seq<RecordView>, q: CitationKeyView, p: spec_fn(RecordView) -> bool)
    requires
        forall|k: int| 0 <= k < rs.len() ==> p(#[trigger] rs[k]),
    ensures
        forall|k: int|
            0 <= k < keep_candidates(rs, q).len() ==> p(#[trigger] keep_candidates(rs, q)[k])
                && candidate_matches_of(keep_candidates(rs, q)[k], q),
    decreases rs.len(),
{
    if rs.len() > 0 {
        assert forall|k: int| 0 <= k < rs.drop_last().len() implies p(#[trigger] rs.drop_last()[k]) by {
            assert(rs.drop_last()[k] == rs[k]);
        }
        lemma_keep_candidates(rs.drop_last(), q, p);
        assert(p(rs[rs.len() - 1]));
        let d = keep_candidates(rs.drop_last(), q);
        assert forall|k: int| 0 <= k < d.len() + 1 && k < d.len() implies d.push(rs.last())[k] == d[k] by {}
    }
}

/// A citation-key search answers at most five records; each matches the
/// key (first author, year, title word) and the filter; and they come
/// ranked: titles that start with the key's word first, then higher
/// scores, then titles in order.
pub proof fn law_citation_results(
    crossref: Seq<RecordView>,
    arxiv: Seq<RecordView>,
    q: CitationKeyView,
    f: Option<SearchFilterView>,
)
    ensures
        ({
            let res = citation_results_of(crossref, arxiv, q, f);
            &&& res.len() <= 5
            &&& ranked(res, q)
            &&& forall|k: int|
                0 <= k < res.len() ==> candidate_matches_of(#[trigger] res[k], q) && (f is Some
                    ==> crate::filter::record_matches_of(res[k], f->0))
        }),
{
    let merged = merge_all_of(crossref, arxiv);
    let any = |r: RecordView| true;
    lemma_keep_candidates(merged, q, any);
    let candidates = keep_candidates(merged, q);
    let good = |r: RecordView| candidate_matches_of(r, q) && (f is Some ==> crate::filter::record_matches_of(
        r,
        f->0,
    ));
    let filtered = match f {
        Some(fv) => keep_matching(candidates, fv),
        None => candidates,
    };
    match f {
        Some(fv) => {
            let cand = |r: RecordView| candidate_matches_of(r, q);
            crate::filter::lemma_keep_matching(candidates, fv, cand);
        },
        None => {},
    }
    assert forall|k: int| 0 <= k < filtered.len() implies good(#[trigger] filtered[k]) by {}
    lemma_rank_sort(filtered, q, good);
    let sorted = rank_sort(filtered, q);
    let res = first_five(sorted);
    assert forall|k: int| 0 <= k < res.len() implies res[k] == sorted[k] by {}
    assert forall|i: int, j: int| 0 <= i < j < res.len() implies !ranks_before(
        #[trigger] res[j],
        #[trigger] res[i],
        q,
    ) by {
        assert(res[i] == sorted[i]);
        assert(res[j] == sorted[j]);
    }
    assert forall|k: int| 0 <= k < res.len() implies candidate_matches_of(#[trigger] res[k], q) && (f
        is Some ==> crate::filter::record_matches_of(res[k], f->0)) by {
        assert(res[k] == sorted[k]);
        assert(good(sorted[k]));
    }
}

// ------------------------------------------------------------------
// Laws on ASCII case in a citation key
// ------------------------------------------------------------------

/// Two citation keys that differ at most in the ASCII case of their author
/// part and title word, with the same publication year.
pub open spec fn same_key_but_case(a: CitationKeyView, b: CitationKeyView) -> bool {
    &&& ascii_lower_seq(a.author) == ascii_lower_seq(b.author)
    &&& ascii_lower_seq(a.title_word) == ascii_lower_seq(b.title_word)
    &&& a.publication_year == b.publication_year
}

/// A record matches a citation key exactly when it has a first author whose
/// family name, reduced to lowercase ASCII letters and digits, is the key's
/// author part with ASCII letters lowercased; its year is the key's
/// publication year when the key has one; and one of its title words is
/// the key's title word with ASCII letters lowercased.
pub proof fn law_candidate_match_parts(r: RecordView, q: CitationKeyView)
    ensures
        candidate_matches_of(r, q) <==> {
            &&& r.authors.len() > 0
            &&& key_part(r.authors[0].family) == ascii_lower_seq(q.author)
            &&& q.publication_year is Some ==> r.year == q.publication_year
            &&& exists|i: int|
                0 <= i < title_words_of(r.title).len() && #[trigger] title_words_of(r.title)[i]
                    == ascii_lower_seq(q.title_word)
        },
{
}

/// Whether a record matches a citation key, and how it scores and ranks,
/// does not depend on the ASCII case in which the key was typed.
pub proof fn law_citation_match_case_blind(r: RecordView, s: RecordView, a: CitationKeyView, b: CitationKeyView)
    requires
        same_key_but_case(a, b),
    ensures
        candidate_matches_of(r, a) == candidate_matches_of(r, b),
        match_score_of(r, a) == match_score_of(r, b),
        title_starts_with_of(r, a) == title_starts_with_of(r, b),
        ranks_before(r, s, a) == ranks_before(r, s, b),
{
}

proof fn lemma_keep_candidates_case_blind(rs: Seq<RecordView>, a: CitationKeyView, b: CitationKeyView)
    requires
        same_key_but_case(a, b),
    ensures
        keep_candidates(rs, a) == keep_candidates(rs, b),
    decreases rs.len(),
{
    if rs.len() > 0 {
        lemma_keep_candidates_case_blind(rs.drop_last(), a, b);
        law_citation_match_case_blind(rs.last(), rs.last(), a, b);
    }
}

proof fn lemma_sorted_insert_case_blind(t: Seq<RecordView>, x: RecordView, a: CitationKeyView, b: CitationKeyView)
    requires
        same_key_but_case(a, b),
    ensures
        sorted_insert(t, x, a) == sorted_insert(t, x, b),
    decreases t.len(),
{
    if t.len() > 0 {
        law_citation_match_case_blind(x, t[0], a, b);
        lemma_sorted_insert_case_blind(t.drop_first(), x, a, b);
    }
}

proof fn lemma_rank_sort_case_blind(rs: Seq<RecordView>, a: CitationKeyView, b: CitationKeyView)
    requires
        same_key_but_case(a, b),
    ensures
        rank_sort(rs, a) == rank_sort(rs, b),
    decreases rs.len(),
{
    if rs.len() > 0 {
        lemma_rank_sort_case_blind(rs.drop_last(), a, b);
        lemma_sorted_insert_case_blind(rank_sort(rs.drop_last(), a), rs.last(), a, b);
    }
}

/// A citation-key search answers the same records, in the same order,
/// whatever the ASCII case of the key's author part and title word: keys
/// typed as `Gallemi2025Excitation` and `gallemi2025excitation` find the
/// same works.
pub proof fn law_citation_results_case_blind(
    crossref: Seq<RecordView>,
    arxiv: Seq<RecordView>,
    a: CitationKeyView,
    b: CitationKeyView,
    f: Option<SearchFilterView>,
)
    requires
        same_key_but_case(a, b),
    ensures
        citation_results_of(crossref, arxiv, a, f) == citation_results_of(crossref, arxiv, b, f),
{
    let merged = merge_all_of(crossref, arxiv);
    lemma_keep_candidates_case_blind(merged, a, b);
    let candidates = keep_candidates(merged, a);
    let filtered = match f {
        Some(fv) => keep_matching(candidates, fv),
        None => candidates,
    };
    lemma_rank_sort_case_blind(filtered, a, b);
}

} // verus!
