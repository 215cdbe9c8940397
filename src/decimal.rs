//! Decimal text of integers: reading it as `u64`/`i64` parsing accepts it,
//! and writing it as `to_string` does.
use vstd::prelude::*;
use crate::bytes::{
    all_digits, decimal, decimal_i64, digits_value, is_decimal_run, is_digit, parse_i64_spec,
    parse_u64_spec, unsigned_body, DIGIT_ZERO, MINUS_SIGN, PLUS_SIGN,
};

verus! {

proof fn lemma_prefix_value_grows(s: Seq<u8>, j: int, k: int)
    requires
        all_digits(s),
        0 <= j <= k <= s.len(),
    ensures
        digits_value(s.subrange(0, j)) <= digits_value(s.subrange(0, k)),
    decreases k - j,
{
    if j < k {
        lemma_prefix_value_grows(s, j, k - 1);
        assert(s.subrange(0, k).drop_last() =~= s.subrange(0, k - 1));
        assert(is_digit(s[k - 1]));
    }
}

/// The value of the digit run `s[start..]`, when it is a non-empty run of
/// digits whose value is at most `limit`.
fn parse_digits(s: &[u8], start: usize, limit: u64) -> (r: Option<u64>)
    requires
        start <= s@.len(),
    ensures
        r == (if is_decimal_run(s@.subrange(start as int, s@.len() as int)) && digits_value(
            s@.subrange(start as int, s@.len() as int),
        ) <= limit {
            Some(digits_value(s@.subrange(start as int, s@.len() as int)) as u64)
        } else {
            None
        }),
{
    let ghost d = s@.subrange(start as int, s@.len() as int);
    if start == s.len() {
        return None;
    }
    let mut acc: u64 = 0;
    let mut i: usize = start;
    while i < s.len()
        invariant
            start <= i <= s@.len(),
            d == s@.subrange(start as int, s@.len() as int),
            all_digits(d.subrange(0, i - start)),
            acc as nat == digits_value(d.subrange(0, i - start)),
            acc <= limit,
        decreases s@.len() - i,
    {
        let b = s[i];
        if b < DIGIT_ZERO || b > 57 {
            assert(d[i - start] == b);
            return None;
        }
        let next: u128 = acc as u128 * 10 + (b - DIGIT_ZERO) as u128;
        proof {
            assert(d.subrange(0, i + 1 - start).drop_last() =~= d.subrange(0, i - start));
            assert(d.subrange(0, i + 1 - start).last() == b);
            assert(all_digits(d.subrange(0, i + 1 - start)));
        }
        if next > limit as u128 {
            if all_digits_from(s, i + 1) {
                proof {
                    assert(all_digits(d)) by {
                        assert forall|k: int| 0 <= k < d.len() implies is_digit(#[trigger] d[k]) by {
                            if k < i - start {
                                assert(d.subrange(0, i - start)[k] == d[k]);
                            } else if k == i - start {
                            } else {
                                assert(s@[start + k] == d[k]);
                            }
                        }
                    }
                    lemma_prefix_value_grows(d, i + 1 - start, d.len() as int);
                    assert(d.subrange(0, d.len() as int) =~= d);
                }
            } else {
                proof {
                    let k = choose|k: int| i + 1 <= k < s@.len() && !is_digit(s@[k]);
                    assert(d[k - start] == s@[k]);
                }
            }
            return None;
        }
        acc = next as u64;
        i = i + 1;
    }
    assert(d.subrange(0, d.len() as int) =~= d);
    Some(acc)
}

/// Whether every byte of `s` from `from` on is a digit.
fn all_digits_from(s: &[u8], from: usize) -> (r: bool)
    requires
        from <= s@.len(),
    ensures
        r == (forall|k: int| from <= k < s@.len() ==> is_digit(#[trigger] s@[k])),
{
    let mut i: usize = from;
    while i < s.len()
        invariant
            from <= i <= s@.len(),
            forall|k: int| from <= k < i ==> is_digit(#[trigger] s@[k]),
        decreases s@.len() - i,
    {
        if s[i] < DIGIT_ZERO || s[i] > 57 {
            return false;
        }
        i = i + 1;
    }
    true
}

/// Parse `s` as `u64::from_str` would.
pub fn parse_u64(s: &[u8]) -> (r: Option<u64>)
    ensures
        r == parse_u64_spec(s@),
{
    let start: usize = if s.len() > 0 && s[0] == PLUS_SIGN {
        1
    } else {
        0
    };
    assert(unsigned_body(s@) =~= s@.subrange(start as int, s@.len() as int));
    parse_digits(s, start, u64::MAX)
}

/// Parse `s` as `i64::from_str` would.
pub fn parse_i64(s: &[u8]) -> (r: Option<i64>)
    ensures
        r == parse_i64_spec(s@),
{
    if s.len() > 0 && s[0] == MINUS_SIGN {
        assert(s@.drop_first() =~= s@.subrange(1, s@.len() as int));
        match parse_digits(s, 1, 0x8000_0000_0000_0000) {
            Some(v) => {
                if v == 0x8000_0000_0000_0000 {
                    Some(i64::MIN)
                } else {
                    Some(-(v as i64))
                }
            },
            None => None,
        }
    } else {
        let start: usize = if s.len() > 0 && s[0] == PLUS_SIGN {
            1
        } else {
            0
        };
        assert(unsigned_body(s@) =~= s@.subrange(start as int, s@.len() as int));
        match parse_digits(s, start, 0x7fff_ffff_ffff_ffff) {
            Some(v) => Some(v as i64),
            None => None,
        }
    }
}

/// Append the decimal text of `n` to `out`.
pub fn push_decimal(out: &mut Vec<u8>, n: u64)
    ensures
        final(out)@ == old(out)@ + decimal(n as nat),
    decreases n,
{
    if n >= 10 {
        push_decimal(out, n / 10);
    }
    out.push((n % 10) as u8 + DIGIT_ZERO);
    assert(final(out)@ =~= old(out)@ + decimal(n as nat)) by {
        reveal_with_fuel(decimal, 2);
    }
}

/// The decimal text of `n`, as `i64::to_string` writes it.
pub fn format_i64(n: i64) -> (r: Vec<u8>)
    ensures
        r@ == decimal_i64(n),
{
    let mut out: Vec<u8> = Vec::new();
    if n < 0 {
        out.push(MINUS_SIGN);
        let m: u64 = (-(n as i128)) as u64;
        push_decimal(&mut out, m);
        assert(out@ =~= decimal_i64(n));
    } else {
        push_decimal(&mut out, n as u64);
        assert(out@ =~= decimal_i64(n));
    }
    out
}

pub proof fn lemma_decimal_is_digits(n: nat)
    ensures
        is_decimal_run(decimal(n)),
        digits_value(decimal(n)) == n,
        is_digit(decimal(n)[0]),
    decreases n,
{
    if n >= 10 {
        lemma_decimal_is_digits(n / 10);
        let s = decimal(n);
        assert(s.drop_last() =~= decimal(n / 10));
        assert forall|i: int| 0 <= i < s.len() implies is_digit(#[trigger] s[i]) by {
            if i < s.len() - 1 {
                assert(s[i] == decimal(n / 10)[i]);
            }
        }
        assert(s[0] == decimal(n / 10)[0]);
        assert(s.last() == (n % 10 + 48) as u8);
        assert(digits_value(s) == (n / 10) * 10 + n % 10);
    } else {
        assert(decimal(n).drop_last() =~= Seq::<u8>::empty());
        assert(digits_value(Seq::<u8>::empty()) == 0);
    }
}

/// Reading back the text that `format_i64` writes gives the same integer.
pub proof fn lemma_i64_text_round_trip(n: i64)
    ensures
        parse_i64_spec(decimal_i64(n)) == Some(n),
{
    if n < 0 {
        let m = (-(n as int)) as nat;
        lemma_decimal_is_digits(m);
        assert((seq![MINUS_SIGN] + decimal(m)).drop_first() =~= decimal(m));
    } else {
        lemma_decimal_is_digits(n as nat);
    }
}

} // verus!
