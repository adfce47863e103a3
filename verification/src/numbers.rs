//! Decimal text of integers (`i32` as `Display` writes it) and parsing of
//! decimal text (`str::parse::<i32>`).
use vstd::prelude::*;
use crate::text::{all_ascii_digits, is_ascii_digit, is_digit};

verus! {

pub open spec fn digit_char(d: int) -> char {
    (48 + d) as char
}

pub open spec fn digit_value(c: char) -> int {
    (c as u32) - 48
}

/// Decimal digits of a natural number, most significant first, no leading zeros.
pub open spec fn nat_decimal(n: nat) -> Seq<char>
    decreases n,
{
    if n < 10 {
        seq![digit_char(n as int)]
    } else {
        nat_decimal(n / 10).push(digit_char((n % 10) as int))
    }
}

/// The text `Display` writes for an integer: a `-` before negative values.
pub open spec fn decimal(n: int) -> Seq<char> {
    if n < 0 {
        seq!['-'] + nat_decimal((-n) as nat)
    } else {
        nat_decimal(n as nat)
    }
}

/// The value of a run of decimal digits.
pub open spec fn digits_value(s: Seq<char>) -> int
    decreases s.len(),
{
    if s.len() == 0 {
        0
    } else {
        digits_value(s.drop_last()) * 10 + digit_value(s.last())
    }
}

/// `str::parse::<i32>`: an optional `+` or `-`, then at least one ASCII digit,
/// and a value that fits in `i32`.
pub open spec fn parse_i32(s: Seq<char>) -> Option<i32> {
    let signed = s.len() > 0 && (s[0] == '-' || s[0] == '+');
    let negative = s.len() > 0 && s[0] == '-';
    let ds = if signed {
        s.drop_first()
    } else {
        s
    };
    if ds.len() == 0 || !all_ascii_digits(ds) {
        None
    } else {
        let v = if negative {
            -digits_value(ds)
        } else {
            digits_value(ds)
        };
        if i32::MIN <= v <= i32::MAX {
            Some(v as i32)
        } else {
            None
        }
    }
}

pub proof fn lemma_digits_value_nonneg(s: Seq<char>)
    requires
        all_ascii_digits(s),
    ensures
        digits_value(s) >= 0,
    decreases s.len(),
{
    if s.len() > 0 {
        lemma_digits_value_nonneg(s.drop_last());
    }
}

/// A longer run of digits has at least the value of its prefix.
pub proof fn lemma_digits_value_prefix(s: Seq<char>, k: int)
    requires
        all_ascii_digits(s),
        0 <= k <= s.len(),
    ensures
        digits_value(s.take(k)) <= digits_value(s),
    decreases s.len() - k,
{
    if k < s.len() {
        lemma_digits_value_prefix(s.drop_last(), k);
        assert(s.drop_last().take(k) == s.take(k));
        lemma_digits_value_nonneg(s.drop_last());
    } else {
        assert(s.take(k) == s);
    }
}

pub proof fn lemma_digit_char(d: int)
    requires
        0 <= d <= 9,
    ensures
        digit_value(digit_char(d)) == d,
        is_ascii_digit(digit_char(d)),
{
    assert((digit_char(d) as u32) == 48 + d);
}

/// The decimal digits of a natural number read back give the number.
pub proof fn lemma_nat_decimal_value(n: nat)
    ensures
        all_ascii_digits(nat_decimal(n)),
        digits_value(nat_decimal(n)) == n,
        nat_decimal(n).len() >= 1,
        is_ascii_digit(nat_decimal(n)[0]),
        n > 0 ==> nat_decimal(n)[0] != '0',
    decreases n,
{
    lemma_digit_char((n % 10) as int);
    if n < 10 {
        let t = seq![digit_char(n as int)];
        assert(t.drop_last() =~= Seq::<char>::empty());
        assert(n % 10 == n);
        assert(digits_value(t) == digits_value(t.drop_last()) * 10 + digit_value(t.last()));
        assert(digits_value(t) == n);
    }
    if n >= 10 {
        lemma_nat_decimal_value(n / 10);
        let s = nat_decimal(n / 10);
        let t = s.push(digit_char((n % 10) as int));
        assert(t.drop_last() == s);
        assert(nat_decimal(n) == t);
        assert(digits_value(t) == digits_value(s) * 10 + digit_value(t.last()));
        assert(digits_value(s) == n / 10);
        assert((n / 10) * 10 + n % 10 == n);
        assert forall|i: int| 0 <= i < t.len() implies is_ascii_digit(#[trigger] t[i]) by {
            if i < s.len() {
                assert(t[i] == s[i]);
            }
        }
        assert(t[0] == s[0]);
    }
}

/// Four-digit numbers have four decimal digits.
pub proof fn lemma_nat_decimal_four(n: nat)
    requires
        1000 <= n <= 9999,
    ensures
        nat_decimal(n).len() == 4,
{
    assert(100 <= n / 10 <= 999);
    assert(10 <= n / 100 <= 99);
    assert(1 <= n / 1000 <= 9);
    assert(n / 10 / 10 == n / 100);
    assert(n / 100 / 10 == n / 1000);
    assert(nat_decimal(n / 1000).len() == 1);
    assert(nat_decimal(n / 100).len() == 2);
    assert(nat_decimal(n / 10).len() == 3);
}

/// The decimal text of an `i32` parses back to it.
pub proof fn lemma_parse_decimal(n: i32)
    ensures
        parse_i32(decimal(n as int)) == Some(n),
{
    if n >= 0 {
        lemma_nat_decimal_value(n as nat);
        let d = nat_decimal(n as nat);
        assert(d[0] != '-' && d[0] != '+');
    } else {
        let m = (-n) as nat;
        lemma_nat_decimal_value(m);
        let d = nat_decimal(m);
        let t = seq!['-'] + d;
        assert(t.drop_first() =~= d);
        assert(t[0] == '-');
    }
}

fn push_nat_digits(out: &mut Vec<char>, m: u64)
    ensures
        final(out)@ == old(out)@ + nat_decimal(m as nat),
    decreases m,
{
    if m >= 10 {
        push_nat_digits(out, m / 10);
    }
    let d: u8 = (m % 10) as u8;
    let c = (48u8 + d) as char;
    assert(c == digit_char((m % 10) as int));
    out.push(c);
    proof {
        if m >= 10 {
            assert(nat_decimal(m as nat) == nat_decimal((m / 10) as nat).push(c));
        } else {
            assert(nat_decimal(m as nat) == seq![c]);
        }
    }
}

/// The decimal text of an `i32`, as `i32::to_string` writes it.
pub fn decimal_i32(n: i32) -> (r: Vec<char>)
    ensures
        r@ == decimal(n as int),
{
    let mut r: Vec<char> = Vec::new();
    if n < 0 {
        r.push('-');
        let m: i64 = -(n as i64);
        push_nat_digits(&mut r, m as u64);
        assert(r@ == seq!['-'] + nat_decimal((-n) as nat));
    } else {
        push_nat_digits(&mut r, n as u64);
        assert(r@ == nat_decimal(n as nat));
    }
    r
}

/// `str::parse::<i32>` on text.
pub fn parse_i32_chars(s: &[char]) -> (r: Option<i32>)
    ensures
        r == parse_i32(s@),
{
    let signed = s.len() > 0 && (s[0] == '-' || s[0] == '+');
    let negative = s.len() > 0 && s[0] == '-';
    let start: usize = if signed {
        1
    } else {
        0
    };
    let ghost ds = if signed {
        s@.drop_first()
    } else {
        s@
    };
    assert(ds == s@.skip(start as int));
    assert(signed == (s@.len() > 0 && (s@[0] == '-' || s@[0] == '+')));
    assert(negative == (s@.len() > 0 && s@[0] == '-'));
    if s.len() == start {
        return None;
    }
    let mut acc: u64 = 0;
    let mut i: usize = start;
    while i < s.len()
        invariant
            start <= i <= s.len(),
            ds == s@.skip(start as int),
            ds == (if s@.len() > 0 && (s@[0] == '-' || s@[0] == '+') {
                s@.drop_first()
            } else {
                s@
            }),
            negative == (s@.len() > 0 && s@[0] == '-'),
            all_ascii_digits(ds.take(i - start)),
            acc == digits_value(ds.take(i - start)),
            acc <= 2147483648,
        decreases s.len() - i,
    {
        let c = s[i];
        if !is_digit(c) {
            assert(ds[i - start] == c);
            assert(!all_ascii_digits(ds));
            return None;
        }
        let ghost k: int = i - start;
        proof {
            assert(ds.take(k + 1).drop_last() == ds.take(k));
            assert(ds.take(k + 1).last() == c);
        }
        let d: u8 = (c as u8) - 48;
        acc = acc * 10 + (d as u64);
        proof {
            assert(d == digit_value(c));
            assert(acc == digits_value(ds.take(k + 1)));
            assert(all_ascii_digits(ds.take(k + 1))) by {
                assert forall|j: int| 0 <= j < k + 1 implies is_ascii_digit(#[trigger] ds.take(k + 1)[j]) by {
                    if j < k {
                        assert(ds.take(k + 1)[j] == ds.take(k)[j]);
                    }
                }
            }
        }
        i += 1;
        if acc > 2147483648 {
            proof {
                let kk = i - start;
                assert(all_ascii_digits(ds.take(kk)));
                if all_ascii_digits(ds) {
                    lemma_digits_value_prefix(ds, kk);
                    assert(digits_value(ds) > 2147483648);
                }
            }
            return None;
        }
    }
    proof {
        assert(ds.take(ds.len() as int) == ds);
    }
    if negative {
        let v: i64 = -(acc as i64);
        Some(v as i32)
    } else if acc <= 2147483647 {
        Some(acc as i32)
    } else {
        None
    }
}

} // verus!
