//! Decimal text of integers, as Rust's `Display` writes it and as
//! `str::parse` reads it back, over the bytes of ASCII text.

use vstd::prelude::*;

verus! {

/// `b` is one of the ASCII digits `0`..`9`.
pub open spec fn is_digit(b: u8) -> bool {
    48 <= b <= 57
}

/// Every byte of `s` is an ASCII digit.
pub open spec fn all_digits(s: Seq<u8>) -> bool {
    forall|i: int| 0 <= i < s.len() ==> is_digit(#[trigger] s[i])
}

/// The natural number that the digit string `s` denotes (most significant first).
pub open spec fn digits_value(s: Seq<u8>) -> int
    decreases s.len(),
{
    if s.len() == 0 {
        0
    } else {
        10 * digits_value(s.drop_last()) + (s.last() - 48)
    }
}

/// The shortest decimal digit string of `n`.
pub open spec fn nat_digits(n: nat) -> Seq<u8>
    decreases n,
{
    if n < 10 {
        seq![(48 + n) as u8]
    } else {
        nat_digits(n / 10).push((48 + n % 10) as u8)
    }
}

/// The text of an integer as `Display` writes it: a `-` for negative values,
/// then the digits of the magnitude.
pub open spec fn int_text(n: int) -> Seq<u8> {
    if n < 0 {
        seq![45u8] + nat_digits((-n) as nat)
    } else {
        nat_digits(n as nat)
    }
}

/// What `str::parse` gives for a signed integer type with range `lo..=hi`:
/// an optional `+` or `-`, then one or more ASCII digits, and a value in range.
pub open spec fn parse_signed(s: Seq<u8>, lo: int, hi: int) -> Option<int> {
    let neg = s.len() > 0 && s[0] == 45u8;
    let body = if s.len() > 0 && (s[0] == 45u8 || s[0] == 43u8) {
        s.drop_first()
    } else {
        s
    };
    let v = if neg {
        -digits_value(body)
    } else {
        digits_value(body)
    };
    if body.len() > 0 && all_digits(body) && lo <= v <= hi {
        Some(v)
    } else {
        None
    }
}

/// The value of a digit string grows as digits are appended.
pub proof fn lemma_digits_value_prefix(s: Seq<u8>, i: int, j: int)
    requires
        0 <= i <= j <= s.len(),
        all_digits(s),
    ensures
        0 <= digits_value(s.take(i)) <= digits_value(s.take(j)),
    decreases j - i,
{
    if i < j {
        lemma_digits_value_prefix(s, i, j - 1);
        assert(s.take(j).drop_last() =~= s.take(j - 1));
        assert(is_digit(s[j - 1]));
    } else {
        lemma_digits_value_nonneg(s.take(i));
    }
}

/// A digit string denotes a natural number.
pub proof fn lemma_digits_value_nonneg(s: Seq<u8>)
    requires
        all_digits(s),
    ensures
        digits_value(s) >= 0,
    decreases s.len(),
{
    if s.len() > 0 {
        assert(all_digits(s.drop_last()));
        lemma_digits_value_nonneg(s.drop_last());
        assert(is_digit(s[s.len() - 1]));
    }
}

/// The digits of `n` are a non-empty digit string that denotes `n`.
pub proof fn lemma_nat_digits(n: nat)
    ensures
        nat_digits(n).len() > 0,
        all_digits(nat_digits(n)),
        digits_value(nat_digits(n)) == n,
    decreases n,
{
    if n >= 10 {
        lemma_nat_digits(n / 10);
        let d = nat_digits(n / 10);
        let s = d.push((48 + n % 10) as u8);
        assert(s.drop_last() =~= d);
        assert(s.last() == 48 + n % 10);
        assert(nat_digits(n) == s);
        assert(digits_value(s) == 10 * digits_value(d) + (s.last() - 48));
        assert(n == 10 * (n / 10) + n % 10);
        assert forall|i: int| 0 <= i < s.len() implies is_digit(#[trigger] s[i]) by {
            if i < d.len() {
                assert(s[i] == d[i]);
            }
        }
    } else {
        let s = nat_digits(n);
        assert(s.drop_last() =~= Seq::<u8>::empty());
        assert(s.last() == 48 + n);
        assert(digits_value(s.drop_last()) == 0);
        assert(digits_value(s) == n);
    }
}

/// Reading back the text of an in-range integer gives the integer.
pub proof fn lemma_parse_int_text(n: int, lo: int, hi: int)
    requires
        lo <= n <= hi,
    ensures
        parse_signed(int_text(n), lo, hi) == Some(n),
{
    if n < 0 {
        lemma_nat_digits((-n) as nat);
        let t = int_text(n);
        assert(t.drop_first() =~= nat_digits((-n) as nat));
    } else {
        lemma_nat_digits(n as nat);
        let d = nat_digits(n as nat);
        assert(is_digit(d[0]));
    }
}

/// Appends the decimal digits of `n` to `out`.
pub fn push_nat_digits(out: &mut Vec<u8>, n: u64)
    ensures
        final(out)@ == old(out)@ + nat_digits(n as nat),
    decreases n,
{
    if n >= 10 {
        push_nat_digits(out, n / 10);
    }
    let d: u8 = (n % 10) as u8;
    out.push(48u8 + d);
    proof {
        if n >= 10 {
            assert(old(out)@ + nat_digits(n as nat) =~= old(out)@ + nat_digits((n / 10) as nat)
                + seq![(48 + n % 10) as u8]);
        } else {
            assert(old(out)@ + nat_digits(n as nat) =~= old(out)@.push((48 + n) as u8));
        }
    }
}

/// Appends the text of `n`, as `Display` writes it, to `out`.
pub fn push_int_text(out: &mut Vec<u8>, n: i64)
    requires
        n > i64::MIN,
    ensures
        final(out)@ == old(out)@ + int_text(n as int),
{
    if n < 0 {
        out.push(45u8);
        let m: u64 = (0 - n) as u64;
        push_nat_digits(out, m);
        assert(old(out)@ + int_text(n as int) =~= old(out)@.push(45u8) + nat_digits(m as nat));
    } else {
        push_nat_digits(out, n as u64);
    }
}

/// Reads a signed integer in `lo..=hi` from `s` as `str::parse` does.
pub fn parse_signed_bytes(s: &[u8], lo: i64, hi: i64) -> (r: Option<i64>)
    requires
        -0x1_0000_0000 <= lo <= 0 <= hi <= 0x1_0000_0000,
    ensures
        r matches Some(v) ==> parse_signed(s@, lo as int, hi as int) == Some(v as int),
        r is None ==> parse_signed(s@, lo as int, hi as int) is None,
{
    let len = s.len();
    let mut start: usize = 0;
    let mut neg = false;
    if len > 0 && (s[0] == 45u8 || s[0] == 43u8) {
        start = 1;
        neg = s[0] == 45u8;
    }
    let ghost body = if start == 1 { s@.drop_first() } else { s@ };
    if start >= len {
        return None;
    }
    let bound: i64 = if neg { 0 - lo } else { hi };
    let mut acc: i64 = 0;
    let mut i: usize = start;
    while i < len
        invariant
            start <= i <= len,
            len == s@.len(),
            start == 0 || start == 1,
            body == s@.subrange(start as int, len as int),
            0 <= bound <= 0x1_0000_0000,
            all_digits(body.take(i - start)),
            acc == digits_value(body.take(i - start)),
            0 <= acc <= bound,
            neg == (s@.len() > 0 && s@[0] == 45u8),
            (start == 1) == (s@.len() > 0 && (s@[0] == 45u8 || s@[0] == 43u8)),
            bound == (if neg { -lo } else { hi as int }),
            -0x1_0000_0000 <= lo <= 0 <= hi <= 0x1_0000_0000,
        decreases len - i,
    {
        let b = s[i];
        if b < 48u8 || b > 57u8 {
            proof {
                assert(body[i - start] == b);
                assert(!is_digit(body[i - start]));
            }
            return None;
        }
        proof {
            assert(body.take(i + 1 - start).drop_last() =~= body.take(i - start));
            assert(body[i - start] == b);
            assert forall|k: int| 0 <= k < body.take(i + 1 - start).len() implies is_digit(
                #[trigger] body.take(i + 1 - start)[k],
            ) by {
                if k < i - start {
                    assert(body.take(i + 1 - start)[k] == body.take(i - start)[k]);
                }
            }
        }
        let next: i64 = acc * 10 + (b - 48u8) as i64;
        assert(digits_value(body.take(i + 1 - start)) == next);
        if next > bound {
            proof {
                let sbody = if s@.len() > 0 && (s@[0] == 45u8 || s@[0] == 43u8) {
                    s@.drop_first()
                } else {
                    s@
                };
                assert(sbody =~= body);
                if all_digits(body) {
                    lemma_digits_value_prefix(body, i + 1 - start, body.len() as int);
                    assert(body.take(body.len() as int) =~= body);
                    assert(digits_value(body) > bound);
                }
                assert(parse_signed(s@, lo as int, hi as int) is None);
            }
            return None;
        }
        acc = next;
        i = i + 1;
    }
    proof {
        assert(body.take(len - start) =~= body);
    }
    if neg {
        Some(0 - acc)
    } else {
        Some(acc)
    }
}


/// Reads a digit string as a `usize`; `None` when its value does not fit.
pub fn parse_unsigned_digits(digits: &[u8]) -> (r: Option<usize>)
    requires
        all_digits(digits@),
    ensures
        r matches Some(v) ==> v as int == digits_value(digits@),
        r is None ==> digits_value(digits@) > usize::MAX,
{
    let mut acc: usize = 0;
    let mut i: usize = 0;
    while i < digits.len()
        invariant
            0 <= i <= digits.len(),
            all_digits(digits@),
            acc as int == digits_value(digits@.take(i as int)),
        decreases digits.len() - i,
    {
        let b = digits[i];
        proof {
            assert(digits@.take(i + 1).drop_last() =~= digits@.take(i as int));
            assert(digits@.take(i + 1).last() == b);
            assert(is_digit(digits@[i as int]));
        }
        let d: usize = (b - 48u8) as usize;
        match acc.checked_mul(10) {
            Some(m) => match m.checked_add(d) {
                Some(next) => {
                    acc = next;
                },
                None => {
                    proof {
                        lemma_digits_value_prefix(digits@, i + 1, digits@.len() as int);
                        assert(digits@.take(digits@.len() as int) =~= digits@);
                    }
                    return None;
                },
            },
            None => {
                proof {
                    lemma_digits_value_prefix(digits@, i + 1, digits@.len() as int);
                    assert(digits@.take(digits@.len() as int) =~= digits@);
                }
                return None;
            },
        }
        i = i + 1;
    }
    proof {
        assert(digits@.take(digits@.len() as int) =~= digits@);
    }
    Some(acc)
}

} // verus!
