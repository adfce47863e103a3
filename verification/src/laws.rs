//! Properties that relate several operations of the library.
use vstd::prelude::*;
use crate::bibtex::{citation_key_of, key_author_part, key_word_part};
use crate::metadata::RecordView;
use crate::numbers::{
    decimal, lemma_nat_decimal_four, lemma_nat_decimal_value, lemma_parse_decimal,
    nat_decimal, parse_i32,
};
use crate::search::{
    CitationKeyView, QueryKindView, arxiv_id_like, citation_key_query_of, citation_split_at,
    citation_split_from, classify_of, has_white_space, publication_year_of,
};
use crate::text::{
    all_ascii_alnum, all_ascii_alpha, all_ascii_digits, ascii_lower_seq,
    is_ascii_alnum, is_ascii_alpha, is_ascii_digit, is_ascii_lower, is_white_space,
};
use crate::words::{find_text, lemma_find_from, lemma_trim_id, occurs_at, trim};

verus! {

pub open spec fn all_ascii_lower_alpha(s: Seq<char>) -> bool {
    forall|i: int| 0 <= i < s.len() ==> is_ascii_lower(#[trigger] s[i])
}

/// ASCII letters lowercase to lowercase ASCII letters.
pub proof fn lemma_lower_alpha(s: Seq<char>)
    requires
        all_ascii_alpha(s),
    ensures
        all_ascii_lower_alpha(ascii_lower_seq(s)),
        ascii_lower_seq(s).len() == s.len(),
{
    assert forall|i: int| 0 <= i < ascii_lower_seq(s).len() implies is_ascii_lower(
        #[trigger] ascii_lower_seq(s)[i],
    ) by {
        let c = s[i];
        assert(is_ascii_alpha(c));
        if 'A' <= c && c <= 'Z' {
            assert(((c as u32) + 32) as char as u32 == (c as u32) + 32);
        }
    }
}

/// Lowercase ASCII letters and digits are their own ASCII lowercase.
pub proof fn lemma_lower_fixed(s: Seq<char>)
    requires
        forall|i: int| 0 <= i < s.len() ==> is_ascii_lower(#[trigger] s[i]) || is_ascii_digit(s[i]),
    ensures
        ascii_lower_seq(s) == s,
{
    assert(ascii_lower_seq(s) =~= s);
}

/// A text of ASCII letters and digits never has `c` at position `i` when
/// `c` is neither.
proof fn lemma_not_prefix(key: Seq<char>, lit: Seq<char>, i: int)
    requires
        all_ascii_alnum(key),
        0 <= i < lit.len(),
        !is_ascii_alnum(lit[i]),
    ensures
        !lit.is_prefix_of(key),
{
    if lit.is_prefix_of(key) {
        assert(key.subrange(0, lit.len() as int)[i] == key[i]);
        assert(is_ascii_alnum(key[i]));
    }
}

proof fn lemma_not_found(key: Seq<char>, lit: Seq<char>, i: int)
    requires
        all_ascii_alnum(key),
        0 <= i < lit.len(),
        !is_ascii_alnum(lit[i]),
    ensures
        find_text(key, lit) is None,
{
    lemma_find_from(key, lit, 0);
    if let Some(k) = find_text(key, lit) {
        assert(occurs_at(key, lit, k));
        assert(key.subrange(k, k + lit.len())[i] == key[k + i]);
        assert(is_ascii_alnum(key[k + i]));
    }
}

/// The cut search finds the author/year boundary of `a + d + w`.
proof fn lemma_split_search(a: Seq<char>, d: Seq<char>, w: Seq<char>, y: i32, s: int)
    requires
        2 <= s <= a.len(),
        all_ascii_lower_alpha(a),
        all_ascii_lower_alpha(w),
        w.len() >= 1,
        d == decimal(y as int),
        d.len() == 4,
        all_ascii_digits(d),
        1800 <= y <= 2100,
        parse_i32(d) == Some(y),
    ensures
        citation_split_from(a + d + w, s) == Some(
            CitationKeyView { author: a, year_fragment: d, title_word: w, publication_year: Some(y) },
        ),
    decreases a.len() - s,
{
    let key = a + d + w;
    assert(key.len() == a.len() + 4 + w.len());
    if s == a.len() {
        assert(key.subrange(s, s + 4) =~= d);
        assert(key.take(s) =~= a);
        assert(key.skip(s + 4) =~= w);
        assert(publication_year_of(d) == Some(y));
        assert(all_ascii_alpha(a)) by {
            assert forall|i: int| 0 <= i < a.len() implies is_ascii_alpha(#[trigger] a[i]) by {
                assert(is_ascii_lower(a[i]));
            }
        }
        assert(all_ascii_alpha(w)) by {
            assert forall|i: int| 0 <= i < w.len() implies is_ascii_alpha(#[trigger] w[i]) by {
                assert(is_ascii_lower(w[i]));
            }
        }
    } else {
        let year = key.subrange(s, s + 4);
        assert(year[0] == key[s]);
        assert(key[s] == a[s]);
        assert(is_ascii_lower(a[s]));
        assert(!all_ascii_digits(year));
        assert(citation_split_at(key, s) is None);
        lemma_split_search(a, d, w, y, s + 1);
    }
}

/// The citation key that `format_bibtex` writes reads back, through
/// `classify_query`, as a citation-key query with the same author part,
/// year and title word, when the author part and the title word are ASCII
/// letters (the author part at least two of them), the year lies between
/// 1800 and 2100, and the key has at least eight chars.
pub proof fn law_written_key_reads_back(r: RecordView)
    requires
        all_ascii_alpha(key_author_part(r)),
        key_author_part(r).len() >= 2,
        all_ascii_alpha(key_word_part(r)),
        key_word_part(r).len() >= 1,
        r.year is Some,
        1800 <= r.year->0 <= 2100,
        key_author_part(r).len() + key_word_part(r).len() >= 4,
    ensures
        classify_of(citation_key_of(r)) == QueryKindView::CitationKey(
            CitationKeyView {
                author: ascii_lower_seq(key_author_part(r)),
                year_fragment: decimal(r.year->0 as int),
                title_word: ascii_lower_seq(key_word_part(r)),
                publication_year: r.year,
            },
        ),
{
    let y = r.year->0;
    let a = ascii_lower_seq(key_author_part(r));
    let w = ascii_lower_seq(key_word_part(r));
    let d = decimal(y as int);
    lemma_lower_alpha(key_author_part(r));
    lemma_lower_alpha(key_word_part(r));
    lemma_nat_decimal_value(y as nat);
    lemma_nat_decimal_four(y as nat);
    lemma_parse_decimal(y);
    assert(d == nat_decimal(y as nat));
    let key = a + d + w;
    assert(citation_key_of(r) == key);
    assert(key.len() == a.len() + 4 + w.len());
    assert forall|i: int| 0 <= i < key.len() implies is_ascii_alnum(#[trigger] key[i]) by {
        if i < a.len() {
            assert(key[i] == a[i]);
            assert(is_ascii_lower(a[i]));
        } else if i < a.len() + 4 {
            assert(key[i] == d[i - a.len()]);
            assert(is_ascii_digit(d[i - a.len()]));
        } else {
            assert(key[i] == w[i - a.len() - 4]);
            assert(is_ascii_lower(w[i - a.len() - 4]));
        }
    }
    assert forall|i: int| 0 <= i < key.len() implies is_ascii_lower(#[trigger] key[i]) || is_ascii_digit(
        key[i],
    ) by {
        if i < a.len() {
            assert(key[i] == a[i]);
        } else if i < a.len() + 4 {
            assert(key[i] == d[i - a.len()]);
        } else {
            assert(key[i] == w[i - a.len() - 4]);
        }
    }
    assert(!is_white_space(key[0]));
    assert(!is_white_space(key.last())) by {
        assert(key.last() == key[key.len() - 1]);
        assert(is_ascii_alnum(key[key.len() - 1]));
    }
    lemma_trim_id(key);
    assert(trim(key) == key);
    lemma_lower_fixed(key);
    assert(ascii_lower_seq(key) == key);
    assert(!has_white_space(key)) by {
        if has_white_space(key) {
            let i = choose|i: int| 0 <= i < key.len() && is_white_space(#[trigger] key[i]);
            assert(is_ascii_alnum(key[i]));
        }
    }
    reveal_strlit("https://doi.org/");
    reveal_strlit("10.");
    reveal_strlit("arXiv:");
    reveal_strlit("https://arxiv.org/abs/");
    lemma_not_prefix(key, "https://doi.org/"@, 5);
    lemma_not_found(key, "10."@, 2);
    lemma_not_prefix(key, "10."@, 2);
    lemma_not_prefix(key, "arXiv:"@, 5);
    lemma_not_prefix(key, "https://arxiv.org/abs/"@, 5);
    lemma_not_found(key, seq!['.'], 0);
    assert(!arxiv_id_like(key));
    lemma_split_search(a, d, w, y, 2);
    assert(citation_key_query_of(key) == Some(
        CitationKeyView { author: a, year_fragment: d, title_word: w, publication_year: Some(y) },
    ));
}

} // verus!
