//! Key parts: the lowercase ASCII letters and digits of a word, the words
//! of a title, and the first title word that is not an article.
use vstd::prelude::*;
use crate::text::{
    all_ascii, all_ascii_alnum, append_chars, ascii_lower, ascii_lower_seq, chars_equal_str, copy_chars, char_lowercase,
    is_alnum, is_ascii_alnum, is_ascii_char, is_ascii_digit, is_ascii_lower, is_ascii_upper, lowercase_char,
};
use crate::words::{
    Separator, drop_empty, non_empty_pieces, split_chars, split_pieces,
    view_chars, words, words_of,
};

verus! {

/// Each char replaced by what `char::to_lowercase` yields for it.
pub open spec fn lower_flat(s: Seq<char>) -> Seq<char>
    decreases s.len(),
{
    if s.len() == 0 {
        s
    } else {
        lower_flat(s.drop_last()) + char_lowercase(s.last())
    }
}

/// The ASCII letters and digits of a text, in order.
pub open spec fn keep_ascii_alnum(s: Seq<char>) -> Seq<char>
    decreases s.len(),
{
    if s.len() == 0 {
        s
    } else if is_ascii_alnum(s.last()) {
        keep_ascii_alnum(s.drop_last()).push(s.last())
    } else {
        keep_ascii_alnum(s.drop_last())
    }
}

/// A key part: the text lowercased, then everything but ASCII letters and
/// digits dropped.
pub open spec fn key_part(s: Seq<char>) -> Seq<char> {
    keep_ascii_alnum(lower_flat(s))
}

pub open spec fn key_parts(ws: Seq<Seq<char>>) -> Seq<Seq<char>>
    decreases ws.len(),
{
    if ws.len() == 0 {
        Seq::empty()
    } else {
        key_parts(ws.drop_last()).push(key_part(ws.last()))
    }
}

/// The words of a title: its pieces between non-alphanumeric chars, as key
/// parts, the empty ones left out.
pub open spec fn title_words_of(t: Seq<char>) -> Seq<Seq<char>> {
    drop_empty(key_parts(split_pieces(t, Separator::NonAlphanumeric)))
}

pub open spec fn is_article(w: Seq<char>) -> bool {
    w == "a"@ || w == "an"@ || w == "the"@
}

/// The first word that is not `a`, `an` or `the`.
pub open spec fn first_non_article(ws: Seq<Seq<char>>) -> Option<Seq<char>>
    decreases ws.len(),
{
    if ws.len() == 0 {
        None
    } else {
        match first_non_article(ws.drop_last()) {
            Some(w) => Some(w),
            None => if !is_article(ws.last()) {
                Some(ws.last())
            } else {
                None
            },
        }
    }
}

pub open spec fn first_title_keyword(t: Seq<char>) -> Option<Seq<char>> {
    first_non_article(title_words_of(t))
}

/// The key part of the last white-space separated word of a family name
/// (empty when the name has no word).
pub open spec fn family_key(f: Seq<char>) -> Seq<char> {
    let ws = words(f, Separator::WhiteSpace);
    if ws.len() == 0 {
        Seq::empty()
    } else {
        key_part(ws.last())
    }
}

/// A key part of ASCII text: the text with its ASCII letters lowercased,
/// then everything but ASCII letters and digits dropped.
pub open spec fn ascii_key_of(s: Seq<char>) -> Seq<char> {
    keep_ascii_alnum(ascii_lower_seq(s))
}

/// A char a key is made of: a lowercase ASCII letter or a digit.
pub open spec fn is_key_char(c: char) -> bool {
    is_ascii_lower(c) || is_ascii_digit(c)
}

pub open spec fn all_key_chars(s: Seq<char>) -> bool {
    forall|i: int| 0 <= i < s.len() ==> is_key_char(#[trigger] s[i])
}

/// Lowercased ASCII letters and digits are key chars.
pub proof fn lemma_ascii_lower_key_chars(x: Seq<char>)
    requires
        all_ascii_alnum(x),
    ensures
        all_key_chars(ascii_lower_seq(x)),
{
    assert forall|i: int| 0 <= i < ascii_lower_seq(x).len() implies is_key_char(
        #[trigger] ascii_lower_seq(x)[i],
    ) by {
        assert(is_ascii_alnum(x[i]));
    }
}

proof fn lemma_keep_no_upper(s: Seq<char>)
    requires
        forall|i: int| 0 <= i < s.len() ==> !is_ascii_upper(#[trigger] s[i]),
    ensures
        all_key_chars(keep_ascii_alnum(s)),
    decreases s.len(),
{
    if s.len() > 0 {
        assert forall|i: int| 0 <= i < s.drop_last().len() implies !is_ascii_upper(#[trigger] s.drop_last()[i]) by {
            assert(s.drop_last()[i] == s[i]);
        }
        lemma_keep_no_upper(s.drop_last());
        assert(!is_ascii_upper(s[s.len() - 1]));
        let k = keep_ascii_alnum(s.drop_last());
        if is_ascii_alnum(s.last()) {
            assert forall|i: int| 0 <= i < k.push(s.last()).len() implies is_key_char(
                #[trigger] k.push(s.last())[i],
            ) by {
                if i < k.len() {
                    assert(k.push(s.last())[i] == k[i]);
                }
            }
        }
    }
}

proof fn lemma_keep_id(s: Seq<char>)
    requires
        all_ascii_alnum(s),
    ensures
        keep_ascii_alnum(s) == s,
    decreases s.len(),
{
    if s.len() > 0 {
        assert forall|i: int| 0 <= i < s.drop_last().len() implies is_ascii_alnum(#[trigger] s.drop_last()[i]) by {
            assert(s.drop_last()[i] == s[i]);
        }
        lemma_keep_id(s.drop_last());
        assert(is_ascii_alnum(s[s.len() - 1]));
        assert(s.drop_last().push(s.last()) =~= s);
    }
}

/// A key part of ASCII text is made of lowercase ASCII letters and digits,
/// text made of them is its own key part, and so taking the key part twice
/// is taking it once.
pub proof fn law_ascii_key_part(s: Seq<char>)
    ensures
        all_key_chars(ascii_key_of(s)),
        all_key_chars(s) ==> ascii_key_of(s) == s,
        ascii_key_of(ascii_key_of(s)) == ascii_key_of(s),
{
    let l = ascii_lower_seq(s);
    assert forall|i: int| 0 <= i < l.len() implies !is_ascii_upper(#[trigger] l[i]) by {
        assert(l[i] == ascii_lower(s[i]));
    }
    lemma_keep_no_upper(l);
    let k = ascii_key_of(s);
    assert forall|t: Seq<char>| all_key_chars(t) implies #[trigger] ascii_key_of(t) == t by {
        assert(ascii_lower_seq(t) =~= t) by {
            assert forall|i: int| 0 <= i < t.len() implies ascii_lower_seq(t)[i] == t[i] by {
                assert(is_key_char(t[i]));
            }
        }
        assert forall|i: int| 0 <= i < t.len() implies is_ascii_alnum(#[trigger] t[i]) by {
            assert(is_key_char(t[i]));
        }
        lemma_keep_id(t);
    }
    assert(ascii_key_of(k) == k);
}

pub proof fn lemma_keep_ascii_alnum(s: Seq<char>)
    ensures
        all_ascii_alnum(keep_ascii_alnum(s)),
        keep_ascii_alnum(s).len() <= s.len(),
    decreases s.len(),
{
    if s.len() > 0 {
        lemma_keep_ascii_alnum(s.drop_last());
    }
}

pub proof fn lemma_key_part_alnum(s: Seq<char>)
    ensures
        all_ascii_alnum(key_part(s)),
{
    lemma_keep_ascii_alnum(lower_flat(s));
}

pub fn lower_flat_chars(s: &[char]) -> (r: Vec<char>)
    ensures
        r@ == lower_flat(s@),
        all_ascii(s@) ==> r@ == ascii_lower_seq(s@),
{
    let mut r: Vec<char> = Vec::new();
    let mut i: usize = 0;
    while i < s.len()
        invariant
            i <= s.len(),
            r@ == lower_flat(s@.take(i as int)),
            all_ascii(s@) ==> r@ == ascii_lower_seq(s@.take(i as int)),
        decreases s.len() - i,
    {
        let low = lowercase_char(s[i]);
        let ghost before = r@;
        append_chars(&mut r, low.as_slice());
        proof {
            assert(s@.take(i as int + 1).drop_last() == s@.take(i as int));
            if all_ascii(s@) {
                assert(is_ascii_char(s@[i as int]));
                assert(ascii_lower_seq(s@.take(i as int + 1)) =~= ascii_lower_seq(s@.take(i as int)).push(
                    ascii_lower(s@[i as int]),
                ));
                assert(before + seq![ascii_lower(s@[i as int])] =~= before.push(ascii_lower(s@[i as int])));
            }
        }
        i += 1;
    }
    proof {
        assert(s@.take(s@.len() as int) == s@);
    }
    r
}

pub fn keep_ascii_alnum_chars(s: &[char]) -> (r: Vec<char>)
    ensures
        r@ == keep_ascii_alnum(s@),
{
    let mut r: Vec<char> = Vec::new();
    let mut i: usize = 0;
    while i < s.len()
        invariant
            i <= s.len(),
            r@ == keep_ascii_alnum(s@.take(i as int)),
        decreases s.len() - i,
    {
        proof {
            assert(s@.take(i as int + 1).drop_last() == s@.take(i as int));
        }
        if is_alnum(s[i]) {
            r.push(s[i]);
        }
        i += 1;
    }
    proof {
        assert(s@.take(s@.len() as int) == s@);
    }
    r
}

pub fn key_part_chars(s: &[char]) -> (r: Vec<char>)
    ensures
        r@ == key_part(s@),
        all_ascii(s@) ==> r@ == ascii_key_of(s@),
{
    let low = lower_flat_chars(s);
    keep_ascii_alnum_chars(low.as_slice())
}

pub fn title_word_list(t: &[char]) -> (r: Vec<Vec<char>>)
    ensures
        view_chars(r@) == title_words_of(t@),
{
    let pieces = split_chars(t, Separator::NonAlphanumeric);
    let mut parts: Vec<Vec<char>> = Vec::new();
    let mut i: usize = 0;
    while i < pieces.len()
        invariant
            i <= pieces.len(),
            view_chars(parts@) == key_parts(view_chars(pieces@.take(i as int))),
        decreases pieces.len() - i,
    {
        let p = key_part_chars(pieces[i].as_slice());
        let ghost before = parts@;
        parts.push(p);
        proof {
            let prev = view_chars(pieces@.take(i as int));
            assert(view_chars(pieces@.take(i as int + 1)) =~= prev.push(pieces@[i as int]@));
            assert(prev.push(pieces@[i as int]@).drop_last() =~= prev);
            assert(view_chars(parts@) =~= view_chars(before).push(p@));
        }
        i += 1;
    }
    proof {
        assert(pieces@.take(pieces@.len() as int) == pieces@);
    }
    non_empty_pieces(&parts)
}

pub fn is_article_chars(w: &[char]) -> (r: bool)
    ensures
        r == is_article(w@),
{
    chars_equal_str(w, "a") || chars_equal_str(w, "an") || chars_equal_str(w, "the")
}

pub fn first_non_article_of(ws: &Vec<Vec<char>>) -> (r: Option<Vec<char>>)
    ensures
        match r {
            Some(w) => first_non_article(view_chars(ws@)) == Some(w@),
            None => first_non_article(view_chars(ws@)) is None,
        },
{
    let mut i: usize = 0;
    while i < ws.len()
        invariant
            i <= ws.len(),
            first_non_article(view_chars(ws@.take(i as int))) is None,
        decreases ws.len() - i,
    {
        let ghost prev = view_chars(ws@.take(i as int));
        proof {
            assert(view_chars(ws@.take(i as int + 1)) =~= prev.push(ws@[i as int]@));
            assert(prev.push(ws@[i as int]@).drop_last() =~= prev);
        }
        if !is_article_chars(ws[i].as_slice()) {
            proof {
                assert(view_chars(ws@).take(i as int + 1) =~= view_chars(ws@.take(i as int + 1)));
                assert(first_non_article(view_chars(ws@.take(i as int + 1))) == Some(ws@[i as int]@));
                lemma_first_non_article_extend(view_chars(ws@), i as int + 1);
            }
            return Some(copy_chars(ws[i].as_slice()));
        }
        i += 1;
    }
    proof {
        assert(ws@.take(ws@.len() as int) == ws@);
    }
    None
}

/// Once a prefix has a non-article word, longer prefixes keep that answer.
pub proof fn lemma_first_non_article_extend(ws: Seq<Seq<char>>, k: int)
    requires
        0 <= k <= ws.len(),
        first_non_article(ws.take(k)) is Some,
    ensures
        first_non_article(ws) == first_non_article(ws.take(k)),
    decreases ws.len() - k,
{
    if k < ws.len() {
        assert(ws.drop_last().take(k) == ws.take(k));
        lemma_first_non_article_extend(ws.drop_last(), k);
    } else {
        assert(ws.take(k) == ws);
    }
}

pub fn first_title_keyword_chars(t: &[char]) -> (r: Option<Vec<char>>)
    ensures
        match r {
            Some(w) => first_title_keyword(t@) == Some(w@),
            None => first_title_keyword(t@) is None,
        },
{
    let ws = title_word_list(t);
    first_non_article_of(&ws)
}

pub fn family_key_chars(f: &[char]) -> (r: Vec<char>)
    ensures
        r@ == family_key(f@),
{
    let ws = words_of(f, Separator::WhiteSpace);
    if ws.len() == 0 {
        Vec::new()
    } else {
        key_part_chars(ws[ws.len() - 1].as_slice())
    }
}

} // verus!

verus! {

pub proof fn lemma_drop_empty_alnum(ws: Seq<Seq<char>>)
    requires
        forall|i: int| 0 <= i < ws.len() ==> all_ascii_alnum(#[trigger] ws[i]),
    ensures
        forall|i: int| 0 <= i < drop_empty(ws).len() ==> all_ascii_alnum(#[trigger] drop_empty(ws)[i]),
    decreases ws.len(),
{
    if ws.len() > 0 {
        assert forall|i: int| 0 <= i < ws.drop_last().len() implies all_ascii_alnum(
            #[trigger] ws.drop_last()[i],
        ) by {
            assert(ws.drop_last()[i] == ws[i]);
        }
        lemma_drop_empty_alnum(ws.drop_last());
        assert(all_ascii_alnum(ws[ws.len() - 1]));
        let d = drop_empty(ws.drop_last());
        if ws.last().len() > 0 {
            assert forall|i: int| 0 <= i < d.push(ws.last()).len() implies all_ascii_alnum(
                #[trigger] d.push(ws.last())[i],
            ) by {
                if i < d.len() {
                    assert(d.push(ws.last())[i] == d[i]);
                }
            }
        }
    }
}

pub proof fn lemma_key_parts_alnum(ws: Seq<Seq<char>>)
    ensures
        key_parts(ws).len() == ws.len(),
        forall|i: int| 0 <= i < key_parts(ws).len() ==> all_ascii_alnum(#[trigger] key_parts(ws)[i]),
    decreases ws.len(),
{
    if ws.len() > 0 {
        lemma_key_parts_alnum(ws.drop_last());
        lemma_key_part_alnum(ws.last());
    }
}

pub proof fn lemma_first_non_article_in(ws: Seq<Seq<char>>)
    ensures
        first_non_article(ws) matches Some(w) ==> exists|i: int| 0 <= i < ws.len() && ws[i] == w,
    decreases ws.len(),
{
    if ws.len() > 0 {
        lemma_first_non_article_in(ws.drop_last());
        if let Some(w) = first_non_article(ws.drop_last()) {
            let i = choose|i: int| 0 <= i < ws.drop_last().len() && ws.drop_last()[i] == w;
            assert(ws[i] == w);
        } else if !is_article(ws.last()) {
            assert(ws[ws.len() - 1] == ws.last());
        }
    }
}

/// Title keywords are made of ASCII letters and digits.
pub proof fn lemma_first_title_keyword_alnum(t: Seq<char>)
    ensures
        first_title_keyword(t) matches Some(w) ==> all_ascii_alnum(w),
{
    let ps = key_parts(split_pieces(t, Separator::NonAlphanumeric));
    lemma_key_parts_alnum(split_pieces(t, Separator::NonAlphanumeric));
    lemma_drop_empty_alnum(ps);
    lemma_first_non_article_in(drop_empty(ps));
}

proof fn lemma_first_non_article_shape(ws: Seq<Seq<char>>)
    requires
        forall|i: int| 0 <= i < ws.len() ==> (#[trigger] ws[i]).len() > 0,
    ensures
        first_non_article(ws) matches Some(w) ==> w.len() > 0 && !is_article(w),
    decreases ws.len(),
{
    if ws.len() > 0 {
        assert forall|i: int| 0 <= i < ws.drop_last().len() implies (#[trigger] ws.drop_last()[i]).len()
            > 0 by {
            assert(ws.drop_last()[i] == ws[i]);
        }
        lemma_first_non_article_shape(ws.drop_last());
        assert(ws[ws.len() - 1].len() > 0);
    }
}

proof fn lemma_drop_empty_non_empty(ws: Seq<Seq<char>>)
    ensures
        forall|i: int| 0 <= i < drop_empty(ws).len() ==> (#[trigger] drop_empty(ws)[i]).len() > 0,
    decreases ws.len(),
{
    if ws.len() > 0 {
        lemma_drop_empty_non_empty(ws.drop_last());
        let d = drop_empty(ws.drop_last());
        assert forall|i: int| 0 <= i < d.len() implies d.push(ws.last())[i] == d[i] by {}
    }
}

/// The title word of a key is never empty and never `a`, `an` or `the`.
pub proof fn law_title_keyword_not_article(t: Seq<char>)
    ensures
        first_title_keyword(t) matches Some(w) ==> w.len() > 0 && !is_article(w),
{
    let ps = key_parts(split_pieces(t, Separator::NonAlphanumeric));
    lemma_drop_empty_non_empty(ps);
    lemma_first_non_article_shape(drop_empty(ps));
}

} // verus!
