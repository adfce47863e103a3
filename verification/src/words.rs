//! Trimming, splitting text into pieces at separator chars, and joining.
use vstd::prelude::*;
use crate::text::{
    append_chars, char_alphanumeric, char_is_alnum, char_is_whitespace, chars_equal, chars_of, copy_chars,
    is_white_space, slice_chars,
};

verus! {

// ------------------------------------------------------------------
// Trimming
// ------------------------------------------------------------------

pub open spec fn trim_start(s: Seq<char>) -> Seq<char>
    decreases s.len(),
{
    if s.len() > 0 && is_white_space(s[0]) {
        trim_start(s.drop_first())
    } else {
        s
    }
}

pub open spec fn trim_end(s: Seq<char>) -> Seq<char>
    decreases s.len(),
{
    if s.len() > 0 && is_white_space(s.last()) {
        trim_end(s.drop_last())
    } else {
        s
    }
}

/// `str::trim`: leading and trailing `White_Space` removed.
pub open spec fn trim(s: Seq<char>) -> Seq<char> {
    trim_end(trim_start(s))
}

/// `str::trim_end_matches(c)` for a single char.
pub open spec fn trim_end_char(s: Seq<char>, c: char) -> Seq<char>
    decreases s.len(),
{
    if s.len() > 0 && s.last() == c {
        trim_end_char(s.drop_last(), c)
    } else {
        s
    }
}

/// `str::trim_start_matches(p)` for a text pattern: every leading copy removed.
pub open spec fn trim_start_prefix(s: Seq<char>, p: Seq<char>) -> Seq<char>
    decreases s.len(),
{
    if p.len() > 0 && p.is_prefix_of(s) {
        trim_start_prefix(s.skip(p.len() as int), p)
    } else {
        s
    }
}

pub proof fn lemma_trim_start_skip(s: Seq<char>, i: int)
    requires
        0 <= i <= s.len(),
        forall|j: int| 0 <= j < i ==> is_white_space(#[trigger] s[j]),
    ensures
        trim_start(s) == trim_start(s.skip(i)),
    decreases i,
{
    if i > 0 {
        assert(s.skip(1) == s.drop_first());
        lemma_trim_start_skip(s.drop_first(), i - 1);
        assert(s.drop_first().skip(i - 1) == s.skip(i));
    } else {
        assert(s.skip(0) == s);
    }
}

pub proof fn lemma_trim_end_take(s: Seq<char>, j: int)
    requires
        0 <= j <= s.len(),
        forall|k: int| j <= k < s.len() ==> is_white_space(#[trigger] s[k]),
    ensures
        trim_end(s) == trim_end(s.take(j)),
    decreases s.len() - j,
{
    if j < s.len() {
        lemma_trim_end_take(s.drop_last(), j);
        assert(s.drop_last().take(j) == s.take(j));
    } else {
        assert(s.take(j) == s);
    }
}

/// `trim_start` removes exactly the leading white space.
pub proof fn lemma_trim_start_shape(s: Seq<char>)
    ensures
        exists|i: int|
            0 <= i <= s.len() && trim_start(s) == s.skip(i) && (forall|j: int|
                0 <= j < i ==> is_white_space(#[trigger] s[j])) && (i < s.len()
                ==> !is_white_space(s[i])),
    decreases s.len(),
{
    if s.len() > 0 && is_white_space(s[0]) {
        lemma_trim_start_shape(s.drop_first());
        let i = choose|i: int|
            0 <= i <= s.drop_first().len() && trim_start(s.drop_first()) == s.drop_first().skip(i)
                && (forall|j: int| 0 <= j < i ==> is_white_space(#[trigger] s.drop_first()[j]))
                && (i < s.drop_first().len() ==> !is_white_space(s.drop_first()[i]));
        assert(s.drop_first().skip(i) == s.skip(i + 1));
        assert forall|j: int| 0 <= j < i + 1 implies is_white_space(#[trigger] s[j]) by {
            if j > 0 {
                assert(s[j] == s.drop_first()[j - 1]);
            }
        }
    } else {
        assert(s.skip(0) == s);
    }
}

/// `trim_end` removes exactly the trailing white space.
pub proof fn lemma_trim_end_shape(s: Seq<char>)
    ensures
        exists|j: int|
            0 <= j <= s.len() && trim_end(s) == s.take(j) && (forall|k: int|
                j <= k < s.len() ==> is_white_space(#[trigger] s[k])) && (j > 0 ==> !is_white_space(
                s[j - 1],
            )),
    decreases s.len(),
{
    if s.len() > 0 && is_white_space(s.last()) {
        lemma_trim_end_shape(s.drop_last());
        let j = choose|j: int|
            0 <= j <= s.drop_last().len() && trim_end(s.drop_last()) == s.drop_last().take(j)
                && (forall|k: int| j <= k < s.drop_last().len() ==> is_white_space(#[trigger] s.drop_last()[k]))
                && (j > 0 ==> !is_white_space(s.drop_last()[j - 1]));
        assert(s.drop_last().take(j) == s.take(j));
        assert forall|k: int| j <= k < s.len() implies is_white_space(#[trigger] s[k]) by {
            if k < s.len() - 1 {
                assert(s[k] == s.drop_last()[k]);
            }
        }
    } else {
        assert(s.take(s.len() as int) == s);
    }
}

/// Trimmed text neither starts nor ends with white space.
pub proof fn lemma_trim_ends(s: Seq<char>)
    ensures
        trim(s).len() > 0 ==> !is_white_space(trim(s)[0]) && !is_white_space(trim(s).last()),
        trim(s).len() <= s.len(),
{
    lemma_trim_start_shape(s);
    lemma_trim_end_shape(trim_start(s));
}

/// Text that neither starts nor ends with white space is its own trim.
pub proof fn lemma_trim_id(s: Seq<char>)
    requires
        s.len() > 0 ==> !is_white_space(s[0]) && !is_white_space(s.last()),
    ensures
        trim(s) == s,
{
}

pub fn trim_chars(cs: &[char]) -> (r: Vec<char>)
    ensures
        r@ == trim(cs@),
{
    let n = cs.len();
    let mut i: usize = 0;
    while i < n && char_is_whitespace(cs[i])
        invariant
            i <= n == cs.len(),
            forall|j: int| 0 <= j < i ==> is_white_space(#[trigger] cs@[j]),
        decreases n - i,
    {
        i += 1;
    }
    proof {
        lemma_trim_start_skip(cs@, i as int);
    }
    let ghost t = cs@.skip(i as int);
    let mut j: usize = n;
    while j > i && char_is_whitespace(cs[j - 1])
        invariant
            i <= j <= n == cs.len(),
            t == cs@.skip(i as int),
            forall|k: int| (j - i) <= k < t.len() ==> is_white_space(#[trigger] t[k]),
        decreases j,
    {
        j -= 1;
    }
    proof {
        lemma_trim_end_take(t, j - i);
        if j > i {
            assert(!is_white_space(t[j - i - 1]));
        } else {
        }
        if i < n {
            assert(t.len() > 0);
        }
        assert(trim_start(cs@) == t);
        assert(t.take(j - i) == cs@.subrange(i as int, j as int));
        if j > i {
            assert(trim_end(t.take(j - i)) == t.take(j - i));
        } else {
            assert(t.take(0) =~= Seq::<char>::empty());
        }
    }
    slice_chars(cs, i, j)
}

pub fn trim_str(s: &str) -> (r: Vec<char>)
    ensures
        r@ == trim(s@),
{
    let cs = chars_of(s);
    trim_chars(cs.as_slice())
}

pub fn trim_end_char_chars(cs: &[char], c: char) -> (r: Vec<char>)
    ensures
        r@ == trim_end_char(cs@, c),
{
    let mut j: usize = cs.len();
    proof {
        assert(cs@.take(cs@.len() as int) == cs@);
    }
    while j > 0 && cs[j - 1] == c
        invariant
            j <= cs.len(),
            trim_end_char(cs@, c) == trim_end_char(cs@.take(j as int), c),
        decreases j,
    {
        proof {
            assert(cs@.take(j as int).drop_last() == cs@.take(j - 1));
        }
        j -= 1;
    }
    proof {
        assert(cs@.take(cs@.len() as int) == cs@);
    }
    slice_chars(cs, 0, j)
}

// ------------------------------------------------------------------
// Prefixes, search
// ------------------------------------------------------------------

pub fn starts_with_chars(s: &[char], p: &[char]) -> (r: bool)
    ensures
        r == p@.is_prefix_of(s@),
{
    if p.len() > s.len() {
        return false;
    }
    let head = slice_chars(s, 0, p.len());
    assert(head@ == s@.subrange(0, p@.len() as int));
    chars_equal(head.as_slice(), p)
}

pub fn starts_with_str(s: &[char], p: &str) -> (r: bool)
    ensures
        r == p@.is_prefix_of(s@),
{
    let pv = chars_of(p);
    starts_with_chars(s, pv.as_slice())
}

pub fn trim_start_prefix_chars(s: &[char], p: &[char]) -> (r: Vec<char>)
    ensures
        r@ == trim_start_prefix(s@, p@),
{
    if p.len() == 0 {
        return copy_chars(s);
    }
    let mut i: usize = 0;
    proof {
        assert(s@.skip(0) == s@);
    }
    while p.len() <= s.len() - i && starts_with_chars(slice_chars(s, i, s.len()).as_slice(), p)
        invariant
            i <= s.len(),
            p.len() > 0,
            trim_start_prefix(s@, p@) == trim_start_prefix(s@.skip(i as int), p@),
        decreases s.len() - i,
    {
        proof {
            assert(s@.skip(i as int).skip(p@.len() as int) == s@.skip(i + p@.len()));
        }
        i += p.len();
    }
    proof {
        if p@.len() > s@.len() - i {
            assert(!p@.is_prefix_of(s@.skip(i as int)));
        }
    }
    slice_chars(s, i, s.len())
}

/// Whether `pat` occurs in `s` starting at index `i`.
pub open spec fn occurs_at(s: Seq<char>, pat: Seq<char>, i: int) -> bool {
    0 <= i && i + pat.len() <= s.len() && s.subrange(i, i + pat.len()) == pat
}

/// `str::contains` for a text pattern.
pub open spec fn contains_text(s: Seq<char>, pat: Seq<char>) -> bool {
    exists|i: int| occurs_at(s, pat, i)
}

/// `str::find` for a text pattern: the first index at or after `from`.
pub open spec fn find_from(s: Seq<char>, pat: Seq<char>, from: int) -> Option<int>
    decreases s.len() + 1 - from,
{
    if from < 0 || from + pat.len() > s.len() {
        None
    } else if occurs_at(s, pat, from) {
        Some(from)
    } else {
        find_from(s, pat, from + 1)
    }
}

pub open spec fn find_text(s: Seq<char>, pat: Seq<char>) -> Option<int> {
    find_from(s, pat, 0)
}

pub proof fn lemma_find_from(s: Seq<char>, pat: Seq<char>, from: int)
    requires
        0 <= from,
    ensures
        find_from(s, pat, from) matches Some(i) ==> from <= i && occurs_at(s, pat, i) && forall|
            k: int,
        | from <= k < i ==> !occurs_at(s, pat, k),
        find_from(s, pat, from) is None ==> forall|k: int| from <= k ==> !occurs_at(s, pat, k),
    decreases s.len() + 1 - from,
{
    if from + pat.len() > s.len() {
    } else if occurs_at(s, pat, from) {
    } else {
        lemma_find_from(s, pat, from + 1);
    }
}

pub fn find_chars(s: &[char], pat: &[char]) -> (r: Option<usize>)
    ensures
        r matches Some(i) ==> find_text(s@, pat@) == Some(i as int),
        r is None ==> find_text(s@, pat@) is None,
{
    if pat.len() == 0 {
        assert(s@.subrange(0, 0) =~= pat@);
        return Some(0);
    }
    let mut i: usize = 0;
    while pat.len() <= s.len() - i
        invariant
            pat.len() > 0,
            i <= s.len(),
            find_text(s@, pat@) == find_from(s@, pat@, i as int),
        decreases s.len() - i,
    {
        let piece = slice_chars(s, i, i + pat.len());
        assert(piece@ == s@.subrange(i as int, i + pat@.len()));
        if chars_equal(piece.as_slice(), pat) {
            return Some(i);
        }
        i += 1;
    }
    None
}

pub fn contains_chars(s: &[char], pat: &[char]) -> (r: bool)
    ensures
        r == contains_text(s@, pat@),
{
    proof {
        lemma_find_from(s@, pat@, 0);
    }
    match find_chars(s, pat) {
        Some(_) => true,
        None => false,
    }
}

pub fn contains_char(s: &[char], c: char) -> (r: bool)
    ensures
        r == s@.contains(c),
{
    let mut i: usize = 0;
    while i < s.len()
        invariant
            i <= s.len(),
            forall|k: int| 0 <= k < i ==> s@[k] != c,
        decreases s.len() - i,
    {
        if s[i] == c {
            return true;
        }
        i += 1;
    }
    false
}

// ------------------------------------------------------------------
// Splitting and joining
// ------------------------------------------------------------------

/// The separators at which text is cut into pieces.
#[derive(Clone, Copy, PartialEq, Eq, Debug)]
pub enum Separator {
    /// `White_Space` chars, as `str::split_whitespace` cuts.
    WhiteSpace,
    /// Chars that are not alphanumeric (`char::is_alphanumeric` is false).
    NonAlphanumeric,
    /// `White_Space` chars and `-`.
    WhiteSpaceOrHyphen,
}

pub open spec fn is_separator(sep: Separator, c: char) -> bool {
    match sep {
        Separator::WhiteSpace => is_white_space(c),
        Separator::NonAlphanumeric => !char_is_alnum(c),
        Separator::WhiteSpaceOrHyphen => is_white_space(c) || c == '-',
    }
}

pub fn separates(sep: Separator, c: char) -> (r: bool)
    ensures
        r == is_separator(sep, c),
{
    match sep {
        Separator::WhiteSpace => char_is_whitespace(c),
        Separator::NonAlphanumeric => !char_alphanumeric(c),
        Separator::WhiteSpaceOrHyphen => char_is_whitespace(c) || c == '-',
    }
}

/// `str::split` with a char predicate: the pieces between separators,
/// empty pieces included (so there is always one more piece than separators).
pub open spec fn split_pieces(s: Seq<char>, sep: Separator) -> Seq<Seq<char>>
    decreases s.len(),
{
    if s.len() == 0 {
        seq![Seq::<char>::empty()]
    } else {
        let p = split_pieces(s.drop_last(), sep);
        if is_separator(sep, s.last()) {
            p.push(Seq::<char>::empty())
        } else {
            p.update(p.len() - 1, p.last().push(s.last()))
        }
    }
}

pub proof fn lemma_split_pieces_len(s: Seq<char>, sep: Separator)
    ensures
        split_pieces(s, sep).len() >= 1,
    decreases s.len(),
{
    if s.len() > 0 {
        lemma_split_pieces_len(s.drop_last(), sep);
    }
}

/// The pieces that are not empty, in order.
pub open spec fn drop_empty(ws: Seq<Seq<char>>) -> Seq<Seq<char>>
    decreases ws.len(),
{
    if ws.len() == 0 {
        ws
    } else if ws.last().len() > 0 {
        drop_empty(ws.drop_last()).push(ws.last())
    } else {
        drop_empty(ws.drop_last())
    }
}

/// The non-empty pieces: `str::split_whitespace` for `Separator::WhiteSpace`.
pub open spec fn words(s: Seq<char>, sep: Separator) -> Seq<Seq<char>> {
    drop_empty(split_pieces(s, sep))
}

/// `join` of the pieces with a separator text between neighbours.
pub open spec fn join(ws: Seq<Seq<char>>, sep: Seq<char>) -> Seq<char>
    decreases ws.len(),
{
    if ws.len() == 0 {
        Seq::empty()
    } else if ws.len() == 1 {
        ws[0]
    } else {
        join(ws.drop_last(), sep) + sep + ws.last()
    }
}

pub open spec fn view_chars(v: Seq<Vec<char>>) -> Seq<Seq<char>> {
    v.map_values(|x: Vec<char>| x@)
}

pub open spec fn view_strings(v: Seq<String>) -> Seq<Seq<char>> {
    v.map_values(|x: String| x@)
}

pub fn split_chars(s: &[char], sep: Separator) -> (r: Vec<Vec<char>>)
    ensures
        view_chars(r@) == split_pieces(s@, sep),
{
    let mut done: Vec<Vec<char>> = Vec::new();
    let mut cur: Vec<char> = Vec::new();
    let mut i: usize = 0;
    while i < s.len()
        invariant
            i <= s.len(),
            split_pieces(s@.take(i as int), sep) == view_chars(done@).push(cur@),
        decreases s.len() - i,
    {
        let c = s[i];
        proof {
            assert(s@.take(i as int + 1).drop_last() == s@.take(i as int));
        }
        if separates(sep, c) {
            let ghost before = done@;
            let finished = cur;
            done.push(finished);
            cur = Vec::new();
            proof {
                assert(view_chars(done@) =~= view_chars(before).push(finished@));
            }
        } else {
            cur.push(c);
        }
        i += 1;
    }
    proof {
        assert(s@.take(s@.len() as int) == s@);
    }
    let ghost before = done@;
    let last = cur;
    done.push(last);
    proof {
        assert(view_chars(done@) =~= view_chars(before).push(last@));
    }
    done
}

pub fn non_empty_pieces(pieces: &Vec<Vec<char>>) -> (r: Vec<Vec<char>>)
    ensures
        view_chars(r@) == drop_empty(view_chars(pieces@)),
{
    let mut r: Vec<Vec<char>> = Vec::new();
    let mut i: usize = 0;
    while i < pieces.len()
        invariant
            i <= pieces.len(),
            view_chars(r@) == drop_empty(view_chars(pieces@.take(i as int))),
        decreases pieces.len() - i,
    {
        let ghost before = r@;
        proof {
            let x = pieces@[i as int]@;
            assert(view_chars(pieces@.take(i as int + 1)) =~= view_chars(pieces@.take(i as int)).push(x));
            assert(view_chars(pieces@.take(i as int)).push(x).drop_last() =~= view_chars(
                pieces@.take(i as int),
            ));
        }
        if pieces[i].len() > 0 {
            let w = copy_chars(pieces[i].as_slice());
            r.push(w);
            proof {
                assert(view_chars(r@) =~= view_chars(before).push(w@));
            }
        }
        i += 1;
    }
    proof {
        assert(pieces@.take(pieces@.len() as int) == pieces@);
    }
    r
}

pub fn join_chars(ws: &Vec<Vec<char>>, sep: &[char]) -> (r: Vec<char>)
    ensures
        r@ == join(view_chars(ws@), sep@),
{
    let mut r: Vec<char> = Vec::new();
    let mut i: usize = 0;
    while i < ws.len()
        invariant
            i <= ws.len(),
            r@ == join(view_chars(ws@.take(i as int)), sep@),
        decreases ws.len() - i,
    {
        let ghost prev = view_chars(ws@.take(i as int));
        proof {
            let x = ws@[i as int]@;
            assert(view_chars(ws@.take(i as int + 1)) =~= prev.push(x));
            assert(prev.push(x).drop_last() =~= prev);
        }
        if i > 0 {
            append_chars(&mut r, sep);
        }
        append_chars(&mut r, ws[i].as_slice());
        i += 1;
    }
    proof {
        assert(ws@.take(ws@.len() as int) == ws@);
    }
    r
}

/// The non-empty pieces of a text, cut at the given separators.
pub fn words_of(s: &[char], sep: Separator) -> (r: Vec<Vec<char>>)
    ensures
        view_chars(r@) == words(s@, sep),
{
    let pieces = split_chars(s, sep);
    non_empty_pieces(&pieces)
}

/// White-space separated words joined by single spaces.
pub open spec fn collapse_ws(s: Seq<char>) -> Seq<char> {
    join(words(s, Separator::WhiteSpace), seq![' '])
}

pub fn collapse_ws_chars(s: &[char]) -> (r: Vec<char>)
    ensures
        r@ == collapse_ws(s@),
{
    let ws = words_of(s, Separator::WhiteSpace);
    let mut space: Vec<char> = Vec::new();
    space.push(' ');
    proof {
        assert(space@ =~= seq![' ']);
    }
    join_chars(&ws, space.as_slice())
}

// ------------------------------------------------------------------
// Properties of splitting and joining
// ------------------------------------------------------------------

pub open spec fn no_separator(w: Seq<char>, sep: Separator) -> bool {
    forall|i: int| 0 <= i < w.len() ==> !is_separator(sep, #[trigger] w[i])
}

/// Pieces never hold a separator.
pub proof fn lemma_pieces_no_separator(s: Seq<char>, sep: Separator)
    ensures
        split_pieces(s, sep).len() >= 1,
        forall|k: int|
            0 <= k < split_pieces(s, sep).len() ==> no_separator(#[trigger] split_pieces(s, sep)[k], sep),
    decreases s.len(),
{
    if s.len() > 0 {
        lemma_pieces_no_separator(s.drop_last(), sep);
        let p = split_pieces(s.drop_last(), sep);
        if !is_separator(sep, s.last()) {
            let q = p.update(p.len() - 1, p.last().push(s.last()));
            assert forall|k: int| 0 <= k < q.len() implies no_separator(#[trigger] q[k], sep) by {
                if k == p.len() - 1 {
                    assert(no_separator(p[k], sep));
                    assert forall|i: int| 0 <= i < q[k].len() implies !is_separator(sep, #[trigger] q[k][i]) by {
                        if i < p[k].len() {
                            assert(q[k][i] == p[k][i]);
                        }
                    }
                }
            }
        } else {
            let q = p.push(Seq::<char>::empty());
            assert forall|k: int| 0 <= k < q.len() implies no_separator(#[trigger] q[k], sep) by {
                if k < p.len() {
                    assert(q[k] == p[k]);
                }
            }
        }
    }
}

/// `drop_empty` keeps exactly the non-empty pieces.
pub proof fn lemma_drop_empty(ws: Seq<Seq<char>>, sep: Separator)
    requires
        forall|k: int| 0 <= k < ws.len() ==> no_separator(#[trigger] ws[k], sep),
    ensures
        forall|k: int|
            0 <= k < drop_empty(ws).len() ==> #[trigger] drop_empty(ws)[k].len() > 0 && no_separator(
                drop_empty(ws)[k],
                sep,
            ),
    decreases ws.len(),
{
    if ws.len() > 0 {
        assert forall|k: int| 0 <= k < ws.drop_last().len() implies no_separator(
            #[trigger] ws.drop_last()[k],
            sep,
        ) by {
            assert(ws.drop_last()[k] == ws[k]);
        }
        lemma_drop_empty(ws.drop_last(), sep);
        assert(no_separator(ws[ws.len() - 1], sep));
        let d = drop_empty(ws.drop_last());
        if ws.last().len() > 0 {
            assert forall|k: int| 0 <= k < d.push(ws.last()).len() implies #[trigger] d.push(
                ws.last(),
            )[k].len() > 0 && no_separator(d.push(ws.last())[k], sep) by {
                if k < d.len() {
                    assert(d.push(ws.last())[k] == d[k]);
                }
            }
        }
    }
}

/// Words are non-empty and hold no separator.
pub proof fn lemma_words_shape(s: Seq<char>, sep: Separator)
    ensures
        forall|k: int|
            0 <= k < words(s, sep).len() ==> #[trigger] words(s, sep)[k].len() > 0 && no_separator(
                words(s, sep)[k],
                sep,
            ),
{
    lemma_pieces_no_separator(s, sep);
    lemma_drop_empty(split_pieces(s, sep), sep);
}

/// Appending separator-free text extends the last piece.
pub proof fn lemma_split_extend(p: Seq<char>, b: Seq<char>, sep: Separator)
    requires
        no_separator(b, sep),
    ensures
        split_pieces(p + b, sep) == split_pieces(p, sep).update(
            split_pieces(p, sep).len() - 1,
            split_pieces(p, sep).last() + b,
        ),
    decreases b.len(),
{
    lemma_split_pieces_len(p, sep);
    if b.len() == 0 {
        assert(p + b =~= p);
        assert(split_pieces(p, sep).last() + b =~= split_pieces(p, sep).last());
        assert(split_pieces(p, sep).update(split_pieces(p, sep).len() - 1, split_pieces(p, sep).last())
            =~= split_pieces(p, sep));
    } else {
        let b0 = b.drop_last();
        assert forall|i: int| 0 <= i < b0.len() implies !is_separator(sep, #[trigger] b0[i]) by {
            assert(b0[i] == b[i]);
        }
        lemma_split_extend(p, b0, sep);
        assert((p + b).drop_last() =~= p + b0);
        assert((p + b).last() == b.last());
        assert(!is_separator(sep, b[b.len() - 1]));
        let q = split_pieces(p, sep);
        let r = q.update(q.len() - 1, q.last() + b0);
        assert(r.last() == q.last() + b0);
        assert((q.last() + b0).push(b.last()) =~= q.last() + b);
        assert(r.update(r.len() - 1, r.last().push(b.last())) =~= q.update(q.len() - 1, q.last() + b));
    }
}

/// Splitting at white space undoes joining separator-free words with spaces.
pub proof fn lemma_words_of_join(ws: Seq<Seq<char>>)
    requires
        forall|k: int|
            0 <= k < ws.len() ==> #[trigger] ws[k].len() > 0 && no_separator(ws[k], Separator::WhiteSpace),
    ensures
        words(join(ws, seq![' ']), Separator::WhiteSpace) == ws,
    decreases ws.len(),
{
    let sep = Separator::WhiteSpace;
    if ws.len() == 0 {
        let one = seq![Seq::<char>::empty()];
        assert(split_pieces(Seq::<char>::empty(), sep) == one);
        assert(one.drop_last() =~= Seq::<Seq<char>>::empty());
        assert(one.last().len() == 0);
        assert(drop_empty(one) == drop_empty(one.drop_last()));
        assert(drop_empty(one.drop_last()) == one.drop_last());
        assert(drop_empty(one) =~= ws);
    } else if ws.len() == 1 {
        let w = ws[0];
        lemma_split_extend(Seq::<char>::empty(), w, sep);
        assert(Seq::<char>::empty() + w =~= w);
        assert(Seq::<char>::empty() + w == w);
        let one = seq![Seq::<char>::empty()];
        assert(split_pieces(Seq::<char>::empty(), sep) == one);
        assert(one.update(0, one.last() + w) =~= seq![w]);
        let single = seq![w];
        assert(single.drop_last() =~= Seq::<Seq<char>>::empty());
        assert(single.last() == w);
        assert(w.len() > 0);
        assert(drop_empty(single) == drop_empty(single.drop_last()).push(w));
        assert(drop_empty(single.drop_last()) == single.drop_last());
        assert(drop_empty(single) =~= ws);
    } else {
        let front = ws.drop_last();
        let w = ws.last();
        assert forall|k: int|
            0 <= k < front.len() implies #[trigger] front[k].len() > 0 && no_separator(front[k], sep) by {
            assert(front[k] == ws[k]);
        }
        lemma_words_of_join(front);
        let a = join(front, seq![' ']);
        assert(join(ws, seq![' ']) == a + seq![' '] + w);
        assert(ws[ws.len() - 1].len() > 0 && no_separator(ws[ws.len() - 1], sep));
        lemma_split_extend(a + seq![' '], w, sep);
        assert(is_separator(sep, ' '));
        assert((a + seq![' ']).drop_last() =~= a);
        assert((a + seq![' ']).last() == ' ');
        let pa = split_pieces(a, sep);
        let pb = split_pieces(a + seq![' '], sep);
        assert(pb == pa.push(Seq::<char>::empty()));
        assert(pb.last() + w =~= w);
        assert(pb.update(pb.len() - 1, pb.last() + w) =~= pa.push(w));
        assert(pa.push(w).drop_last() =~= pa);
        assert(drop_empty(pa.push(w)) == drop_empty(pa).push(w));
        assert(drop_empty(pa).push(w) =~= ws);
    }
}

/// Joining non-empty words starts with the first word.
pub proof fn lemma_join_starts(ws: Seq<Seq<char>>, sep: Seq<char>)
    requires
        ws.len() > 0,
    ensures
        join(ws, sep).len() >= ws[0].len(),
        join(ws, sep).take(ws[0].len() as int) == ws[0],
    decreases ws.len(),
{
    if ws.len() > 1 {
        lemma_join_starts(ws.drop_last(), sep);
        let j = join(ws.drop_last(), sep);
        assert(ws.drop_last()[0] == ws[0]);
        assert((j + sep + ws.last()).take(ws[0].len() as int) =~= j.take(ws[0].len() as int));
    } else {
        assert(join(ws, sep).take(ws[0].len() as int) =~= ws[0]);
    }
}

/// Collapsed text neither starts with a space nor holds white space other
/// than single spaces between words.
pub proof fn lemma_collapse_starts(s: Seq<char>)
    ensures
        collapse_ws(s).len() > 0 ==> !is_white_space(collapse_ws(s)[0]),
{
    let ws = words(s, Separator::WhiteSpace);
    lemma_words_shape(s, Separator::WhiteSpace);
    if ws.len() > 0 {
        lemma_join_starts(ws, seq![' ']);
        assert(ws[0].len() > 0);
        assert(collapse_ws(s)[0] == collapse_ws(s).take(ws[0].len() as int)[0]);
        assert(!is_separator(Separator::WhiteSpace, ws[0][0]));
    }
}

/// Every char of `s` has the property `p`.
pub open spec fn all_chars(s: Seq<char>, p: spec_fn(char) -> bool) -> bool {
    forall|i: int| 0 <= i < s.len() ==> p(#[trigger] s[i])
}

/// Pieces hold only chars of the text they were cut from.
pub proof fn lemma_pieces_chars(s: Seq<char>, sep: Separator, p: spec_fn(char) -> bool)
    requires
        all_chars(s, p),
    ensures
        forall|k: int| 0 <= k < split_pieces(s, sep).len() ==> all_chars(#[trigger] split_pieces(s, sep)[k], p),
    decreases s.len(),
{
    if s.len() > 0 {
        assert forall|i: int| 0 <= i < s.drop_last().len() implies p(#[trigger] s.drop_last()[i]) by {
            assert(s.drop_last()[i] == s[i]);
        }
        lemma_pieces_chars(s.drop_last(), sep, p);
        lemma_split_pieces_len(s.drop_last(), sep);
        let q = split_pieces(s.drop_last(), sep);
        assert(p(s[s.len() - 1]));
        if !is_separator(sep, s.last()) {
            let r = q.update(q.len() - 1, q.last().push(s.last()));
            assert forall|k: int| 0 <= k < r.len() implies all_chars(#[trigger] r[k], p) by {
                if k == q.len() - 1 {
                    assert(all_chars(q[k], p));
                    assert forall|i: int| 0 <= i < r[k].len() implies p(#[trigger] r[k][i]) by {
                        if i < q[k].len() {
                            assert(r[k][i] == q[k][i]);
                        }
                    }
                }
            }
        } else {
            let r = q.push(Seq::<char>::empty());
            assert forall|k: int| 0 <= k < r.len() implies all_chars(#[trigger] r[k], p) by {
                if k < q.len() {
                    assert(r[k] == q[k]);
                }
            }
        }
    }
}

pub proof fn lemma_drop_empty_chars(ws: Seq<Seq<char>>, p: spec_fn(char) -> bool)
    requires
        forall|k: int| 0 <= k < ws.len() ==> all_chars(#[trigger] ws[k], p),
    ensures
        forall|k: int| 0 <= k < drop_empty(ws).len() ==> all_chars(#[trigger] drop_empty(ws)[k], p),
    decreases ws.len(),
{
    if ws.len() > 0 {
        assert forall|k: int| 0 <= k < ws.drop_last().len() implies all_chars(#[trigger] ws.drop_last()[k], p) by {
            assert(ws.drop_last()[k] == ws[k]);
        }
        lemma_drop_empty_chars(ws.drop_last(), p);
        assert(all_chars(ws[ws.len() - 1], p));
        let d = drop_empty(ws.drop_last());
        assert forall|k: int| 0 <= k < d.push(ws.last()).len() implies all_chars(
            #[trigger] d.push(ws.last())[k],
            p,
        ) by {
            if k < d.len() {
                assert(d.push(ws.last())[k] == d[k]);
            }
        }
    }
}

/// Joined text holds only chars of the pieces and of the separator.
pub proof fn lemma_join_chars(ws: Seq<Seq<char>>, sep: Seq<char>, p: spec_fn(char) -> bool)
    requires
        forall|k: int| 0 <= k < ws.len() ==> all_chars(#[trigger] ws[k], p),
        all_chars(sep, p),
    ensures
        all_chars(join(ws, sep), p),
    decreases ws.len(),
{
    if ws.len() > 1 {
        assert forall|k: int| 0 <= k < ws.drop_last().len() implies all_chars(#[trigger] ws.drop_last()[k], p) by {
            assert(ws.drop_last()[k] == ws[k]);
        }
        lemma_join_chars(ws.drop_last(), sep, p);
        let j = join(ws.drop_last(), sep);
        let w = ws.last();
        assert(all_chars(ws[ws.len() - 1], p));
        assert forall|i: int| 0 <= i < (j + sep + w).len() implies p(#[trigger] (j + sep + w)[i]) by {
            if i < j.len() {
                assert((j + sep + w)[i] == j[i]);
            } else if i < j.len() + sep.len() {
                assert((j + sep + w)[i] == sep[i - j.len()]);
            } else {
                assert((j + sep + w)[i] == w[i - j.len() - sep.len()]);
            }
        }
    } else if ws.len() == 1 {
        assert(all_chars(ws[0], p));
    }
}

/// Collapsing white space brings in no char but the space.
pub proof fn lemma_collapse_chars(s: Seq<char>, p: spec_fn(char) -> bool)
    requires
        all_chars(s, p),
        p(' '),
    ensures
        all_chars(collapse_ws(s), p),
{
    lemma_pieces_chars(s, Separator::WhiteSpace, p);
    lemma_drop_empty_chars(split_pieces(s, Separator::WhiteSpace), p);
    assert(all_chars(seq![' '], p));
    lemma_join_chars(words(s, Separator::WhiteSpace), seq![' '], p);
}

/// Collapsing white space twice is collapsing it once.
pub proof fn law_collapse_idempotent(s: Seq<char>)
    ensures
        collapse_ws(collapse_ws(s)) == collapse_ws(s),
{
    lemma_words_shape(s, Separator::WhiteSpace);
    lemma_words_of_join(words(s, Separator::WhiteSpace));
}

/// Trimming twice is trimming once.
pub proof fn law_trim_idempotent(s: Seq<char>)
    ensures
        trim(trim(s)) == trim(s),
{
    lemma_trim_ends(s);
    lemma_trim_id(trim(s));
}

} // verus!
