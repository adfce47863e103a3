//! Recognising the same work from two sources and merging what one of them lacks.
use vstd::prelude::*;
use crate::keys::{lower_flat, lower_flat_chars};
use crate::metadata::{RecordView, WorkRecord, merged_record};
use crate::filter::records_view;
use crate::text::{
    all_ascii, ascii_lower, ascii_lower_seq, char_is_whitespace, chars_equal, chars_of, is_alnum,
    is_ascii_alnum, is_ascii_char, is_ascii_upper, is_white_space, lower_ascii_chars, string_of,
};
use crate::words::{all_chars, collapse_ws, collapse_ws_chars, lemma_collapse_chars, law_collapse_idempotent};

verus! {

/// The chars a title keeps for comparison: ASCII letters, digits, white space.
pub open spec fn keep_title_chars(s: Seq<char>) -> Seq<char>
    decreases s.len(),
{
    if s.len() == 0 {
        s
    } else if is_ascii_alnum(s.last()) || is_white_space(s.last()) {
        keep_title_chars(s.drop_last()).push(s.last())
    } else {
        keep_title_chars(s.drop_last())
    }
}

/// A title reduced for comparison: only letters, digits and white space,
/// lowercased, words joined by single spaces.
pub open spec fn normalize_title_of(t: Seq<char>) -> Seq<char> {
    collapse_ws(lower_flat(keep_title_chars(t)))
}

/// Two records are the same work when both have DOIs equal up to ASCII
/// case, or when their normalized titles are equal.
pub open spec fn same_work_of(l: RecordView, r: RecordView) -> bool {
    ||| (l.doi is Some && r.doi is Some && ascii_lower_seq(l.doi->0) == ascii_lower_seq(r.doi->0))
    ||| normalize_title_of(l.title) == normalize_title_of(r.title)
}

/// The first record that is the same work as `c`.
pub open spec fn first_same_work(rs: Seq<RecordView>, c: RecordView) -> Option<int>
    decreases rs.len(),
{
    if rs.len() == 0 {
        None
    } else {
        match first_same_work(rs.drop_last(), c) {
            Some(j) => Some(j),
            None => if same_work_of(rs.last(), c) {
                Some(rs.len() - 1)
            } else {
                None
            },
        }
    }
}

/// `c` merged into the first record that is the same work, or appended.
pub open spec fn merge_or_push_of(rs: Seq<RecordView>, c: RecordView) -> Seq<RecordView> {
    match first_same_work(rs, c) {
        Some(j) => rs.update(j, merged_record(rs[j], c)),
        None => rs.push(c),
    }
}

/// Every candidate merged or appended in turn.
pub open spec fn merge_all_of(rs: Seq<RecordView>, cs: Seq<RecordView>) -> Seq<RecordView>
    decreases cs.len(),
{
    if cs.len() == 0 {
        rs
    } else {
        merge_or_push_of(merge_all_of(rs, cs.drop_last()), cs.last())
    }
}

pub proof fn lemma_first_same_work(rs: Seq<RecordView>, c: RecordView)
    ensures
        first_same_work(rs, c) matches Some(j) ==> 0 <= j < rs.len() && same_work_of(rs[j], c)
            && forall|k: int| 0 <= k < j ==> !same_work_of(#[trigger] rs[k], c),
        first_same_work(rs, c) is None ==> forall|k: int|
            0 <= k < rs.len() ==> !same_work_of(#[trigger] rs[k], c),
    decreases rs.len(),
{
    if rs.len() > 0 {
        lemma_first_same_work(rs.drop_last(), c);
        assert forall|k: int| 0 <= k < rs.len() - 1 implies rs.drop_last()[k] == rs[k] by {}
    }
}

/// The normalized form of an ASCII title: ASCII lowercasing in place of
/// `char::to_lowercase`, which agrees with it on ASCII chars.
pub open spec fn normalize_ascii_title(t: Seq<char>) -> Seq<char> {
    collapse_ws(ascii_lower_seq(keep_title_chars(t)))
}

pub open spec fn is_title_char(c: char) -> bool {
    is_ascii_alnum(c) || is_white_space(c)
}

/// The kept chars come from the title and are letters, digits or white space.
pub proof fn lemma_keep_title_chars(s: Seq<char>, p: spec_fn(char) -> bool)
    requires
        all_chars(s, p),
    ensures
        all_chars(keep_title_chars(s), p),
        all_chars(keep_title_chars(s), |c: char| is_title_char(c)),
    decreases s.len(),
{
    if s.len() > 0 {
        assert forall|i: int| 0 <= i < s.drop_last().len() implies p(#[trigger] s.drop_last()[i]) by {
            assert(s.drop_last()[i] == s[i]);
        }
        lemma_keep_title_chars(s.drop_last(), p);
        assert(p(s[s.len() - 1]));
        let k = keep_title_chars(s.drop_last());
        if is_title_char(s.last()) {
            assert forall|i: int| 0 <= i < k.push(s.last()).len() implies p(#[trigger] k.push(s.last())[i])
                && is_title_char(k.push(s.last())[i]) by {
                if i < k.len() {
                    assert(k.push(s.last())[i] == k[i]);
                }
            }
        }
    }
}

proof fn lemma_keep_title_id(s: Seq<char>)
    requires
        all_chars(s, |c: char| is_title_char(c)),
    ensures
        keep_title_chars(s) == s,
    decreases s.len(),
{
    if s.len() > 0 {
        assert forall|i: int| 0 <= i < s.drop_last().len() implies is_title_char(#[trigger] s.drop_last()[i]) by {
            assert(s.drop_last()[i] == s[i]);
        }
        assert(all_chars(s.drop_last(), |c: char| is_title_char(c)));
        lemma_keep_title_id(s.drop_last());
        assert(is_title_char(s[s.len() - 1]));
        assert(s.drop_last().push(s.last()) =~= s);
    }
}

/// Every white-space char of the text is ASCII (non-ASCII letters and
/// digits may occur: normalizing drops them before lowercasing).
pub open spec fn ascii_white_space_only(t: Seq<char>) -> bool {
    forall|i: int| 0 <= i < t.len() ==> (is_white_space(#[trigger] t[i]) ==> is_ascii_char(t[i]))
}

/// The chars kept from a title whose white space is ASCII are all ASCII.
pub proof fn lemma_kept_ascii(t: Seq<char>)
    requires
        ascii_white_space_only(t),
    ensures
        all_ascii(keep_title_chars(t)),
{
    let p = |c: char| is_white_space(c) ==> is_ascii_char(c);
    assert(all_chars(t, p));
    lemma_keep_title_chars(t, p);
    let k = keep_title_chars(t);
    assert forall|i: int| 0 <= i < k.len() implies is_ascii_char(#[trigger] k[i]) by {
        assert(p(k[i]));
        assert(is_title_char(k[i]));
    }
}

/// A normalized title (one whose white space is ASCII) is ASCII text, is
/// kept whole by the char filter, and normalizing it once more changes
/// nothing.
pub proof fn law_normalize_title_idempotent(t: Seq<char>)
    requires
        ascii_white_space_only(t),
    ensures
        all_ascii(normalize_ascii_title(t)),
        keep_title_chars(normalize_ascii_title(t)) == normalize_ascii_title(t),
        normalize_ascii_title(normalize_ascii_title(t)) == normalize_ascii_title(t),
{
    let plain = |c: char| is_ascii_char(c) && is_title_char(c) && !is_ascii_upper(c);
    let k = keep_title_chars(t);
    lemma_kept_ascii(t);
    assert(all_chars(t, |c: char| true));
    lemma_keep_title_chars(t, |c: char| true);
    let l = ascii_lower_seq(k);
    assert forall|i: int| 0 <= i < l.len() implies plain(#[trigger] l[i]) by {
        assert(is_ascii_char(k[i]));
        assert(is_title_char(k[i]));
        assert(l[i] == ascii_lower(k[i]));
    }
    assert(plain(' '));
    lemma_collapse_chars(l, plain);
    let u = collapse_ws(l);
    assert(all_ascii(u)) by {
        assert forall|i: int| 0 <= i < u.len() implies is_ascii_char(#[trigger] u[i]) by {
            assert(plain(u[i]));
        }
    }
    assert(all_chars(u, |c: char| is_title_char(c))) by {
        assert forall|i: int| 0 <= i < u.len() implies is_title_char(#[trigger] u[i]) by {
            assert(plain(u[i]));
        }
    }
    lemma_keep_title_id(u);
    assert(ascii_lower_seq(u) =~= u) by {
        assert forall|i: int| 0 <= i < u.len() implies ascii_lower_seq(u)[i] == u[i] by {
            assert(plain(u[i]));
        }
    }
    law_collapse_idempotent(l);
}

fn keep_title_chars_exec(s: &[char]) -> (r: Vec<char>)
    ensures
        r@ == keep_title_chars(s@),
{
    let mut r: Vec<char> = Vec::new();
    let mut i: usize = 0;
    while i < s.len()
        invariant
            i <= s.len(),
            r@ == keep_title_chars(s@.take(i as int)),
        decreases s.len() - i,
    {
        proof {
            assert(s@.take(i as int + 1).drop_last() == s@.take(i as int));
        }
        if is_alnum(s[i]) || char_is_whitespace(s[i]) {
            r.push(s[i]);
        }
        i += 1;
    }
    proof {
        assert(s@.take(s@.len() as int) == s@);
    }
    r
}

fn normalize_title_chars(title: &str) -> (r: Vec<char>)
    ensures
        r@ == normalize_title_of(title@),
        all_ascii(keep_title_chars(title@)) ==> r@ == normalize_ascii_title(title@),
{
    let cs = chars_of(title);
    let kept = keep_title_chars_exec(cs.as_slice());
    let low = lower_flat_chars(kept.as_slice());
    collapse_ws_chars(low.as_slice())
}

/// A title reduced for comparison. When the kept chars are ASCII (as they
/// are when the title's white space is ASCII), the result is also stated
/// with ASCII lowercasing.
pub fn normalize_title(title: &str) -> (r: String)
    ensures
        r@ == normalize_title_of(title@),
        all_ascii(keep_title_chars(title@)) ==> r@ == normalize_ascii_title(title@),
{
    let cs = normalize_title_chars(title);
    string_of(cs.as_slice())
}

pub fn same_work(left: &WorkRecord, right: &WorkRecord) -> (r: bool)
    ensures
        r == same_work_of(left@, right@),
{
    match (&left.doi, &right.doi) {
        (Some(l), Some(r)) => {
            let lc = chars_of(l.as_str());
            let rc = chars_of(r.as_str());
            let ll = lower_ascii_chars(lc.as_slice());
            let rl = lower_ascii_chars(rc.as_slice());
            if chars_equal(ll.as_slice(), rl.as_slice()) {
                return true;
            }
        },
        _ => {},
    }
    let lt = normalize_title_chars(left.title.as_str());
    let rt = normalize_title_chars(right.title.as_str());
    chars_equal(lt.as_slice(), rt.as_slice())
}

pub fn merge_or_push(records: &mut Vec<WorkRecord>, candidate: WorkRecord)
    ensures
        records_view(final(records)@) == merge_or_push_of(records_view(old(records)@), candidate@),
{
    let ghost rs = records_view(records@);
    let mut i: usize = 0;
    while i < records.len()
        invariant
            i <= records.len(),
            rs == records_view(records@),
            records@ == old(records)@,
            forall|k: int| 0 <= k < i ==> !same_work_of(#[trigger] rs[k], candidate@),
        decreases records.len() - i,
    {
        if same_work(&records[i], &candidate) {
            proof {
                lemma_first_same_work(rs, candidate@);
                assert(rs[i as int] == records@[i as int]@);
                if let Some(j) = first_same_work(rs, candidate@) {
                    assert(j == i);
                } else {
                    assert(!same_work_of(rs[i as int], candidate@));
                }
                assert(first_same_work(rs, candidate@) == Some(i as int));
            }
            let mut existing = records.remove(i);
            existing.merge_missing_from(&candidate);
            records.insert(i, existing);
            proof {
                assert(records_view(records@) =~= rs.update(i as int, merged_record(rs[i as int], candidate@)));
            }
            return;
        }
        i += 1;
    }
    proof {
        lemma_first_same_work(rs, candidate@);
        if let Some(j) = first_same_work(rs, candidate@) {
            assert(!same_work_of(rs[j], candidate@));
        }
    }
    let ghost c = candidate@;
    records.push(candidate);
    proof {
        assert(records_view(records@) =~= rs.push(c));
    }
}

/// Every candidate merged into the records or appended, in turn.
pub fn merge_all(records: &mut Vec<WorkRecord>, candidates: Vec<WorkRecord>)
    ensures
        records_view(final(records)@) == merge_all_of(records_view(old(records)@), records_view(
            candidates@,
        )),
{
    let ghost start = records_view(records@);
    let ghost cs = records_view(candidates@);
    let mut candidates = candidates;
    let mut rest: Vec<WorkRecord> = Vec::new();
    // Reverse the candidates so that they can be taken from the back in order.
    while candidates.len() > 0
        invariant
            records_view(candidates@) + records_view(rest@).reverse() =~= cs,
        decreases candidates.len(),
    {
        let ghost before_c = candidates@;
        let ghost before_r = rest@;
        let c = candidates.pop().unwrap();
        rest.push(c);
        proof {
            assert(records_view(before_c) =~= records_view(candidates@).push(c@));
            assert(records_view(rest@) =~= records_view(before_r).push(c@));
            assert(records_view(rest@).reverse() =~= seq![c@] + records_view(before_r).reverse());
        }
    }
    let ghost total = rest@.len();
    assert(records_view(rest@).reverse() =~= cs);
    while rest.len() > 0
        invariant
            rest@.len() <= total == cs.len(),
            records_view(rest@).reverse() =~= cs.skip(total - rest@.len()),
            records_view(records@) == merge_all_of(start, cs.take(total - rest@.len())),
        decreases rest.len(),
    {
        let ghost done_n = total - rest@.len();
        let ghost before_r = rest@;
        let c = rest.pop().unwrap();
        proof {
            assert(records_view(before_r) =~= records_view(rest@).push(c@));
            assert(records_view(before_r).reverse()[0] == c@);
            assert(cs[done_n] == c@);
            assert(records_view(rest@).reverse() =~= records_view(before_r).reverse().drop_first());
            assert(cs.take(done_n + 1).drop_last() =~= cs.take(done_n));
        }
        merge_or_push(records, c);
    }
    proof {
        assert(cs.take(cs.len() as int) == cs);
    }
}

/// Being the same work is reflexive and symmetric.
pub proof fn law_same_work_symmetric(a: RecordView, b: RecordView)
    ensures
        same_work_of(a, a),
        same_work_of(a, b) == same_work_of(b, a),
{
}

/// A record merged into a list is the same work as the one it was merged
/// into: merging it a second time does not add it again.
pub proof fn law_merge_or_push_once(rs: Seq<RecordView>, c: RecordView)
    ensures
        merge_or_push_of(merge_or_push_of(rs, c), c).len() == merge_or_push_of(rs, c).len(),
        merge_or_push_of(rs, c).len() <= rs.len() + 1,
{
    let once = merge_or_push_of(rs, c);
    lemma_first_same_work(rs, c);
    lemma_first_same_work(once, c);
    match first_same_work(rs, c) {
        Some(j) => {
            assert(once[j] == merged_record(rs[j], c));
            assert(same_work_of(once[j], c));
        },
        None => {
            assert(once[rs.len() as int] == c);
            assert(same_work_of(once[rs.len() as int], c));
        },
    }
}

} // verus!
