//! Byte-string helpers: copying, prefixes, ASCII case, decimal integers and
//! big-endian encodings, each stated over `Seq<u8>`.
use vstd::prelude::*;
use vstd::string::StringSliceAdditionalSpecFns;

verus! {

/// The ASCII code of '0'.
pub const DIGIT_ZERO: u8 = 48;

/// The ASCII code of '+'.
pub const PLUS_SIGN: u8 = 43;

/// The ASCII code of '-'.
pub const MINUS_SIGN: u8 = 45;

pub open spec fn is_digit(b: u8) -> bool {
    48 <= b <= 57
}

pub open spec fn all_digits(s: Seq<u8>) -> bool {
    forall|i: int| 0 <= i < s.len() ==> is_digit(#[trigger] s[i])
}

/// The number that a run of decimal digits spells, most significant first.
pub open spec fn digits_value(s: Seq<u8>) -> nat
    decreases s.len(),
{
    if s.len() == 0 {
        0
    } else {
        digits_value(s.drop_last()) * 10 + (s.last() - 48) as nat
    }
}

/// The shortest decimal spelling of `n`.
pub open spec fn decimal(n: nat) -> Seq<u8>
    decreases n,
{
    if n < 10 {
        seq![(n + 48) as u8]
    } else {
        decimal(n / 10).push((n % 10 + 48) as u8)
    }
}

/// Text of a signed integer as `i64::to_string` writes it.
pub open spec fn decimal_i64(n: i64) -> Seq<u8> {
    if n < 0 {
        seq![MINUS_SIGN] + decimal((-(n as int)) as nat)
    } else {
        decimal(n as nat)
    }
}

/// The digits after an optional leading '+'.
pub open spec fn unsigned_body(s: Seq<u8>) -> Seq<u8> {
    if s.len() > 0 && s[0] == PLUS_SIGN {
        s.drop_first()
    } else {
        s
    }
}

pub open spec fn is_decimal_run(d: Seq<u8>) -> bool {
    d.len() > 0 && all_digits(d)
}

/// What `u64::from_str` accepts: an optional '+', then one or more digits,
/// with a value that fits in 64 bits.
pub open spec fn parse_u64_spec(s: Seq<u8>) -> Option<u64> {
    let d = unsigned_body(s);
    if is_decimal_run(d) && digits_value(d) <= u64::MAX {
        Some(digits_value(d) as u64)
    } else {
        None
    }
}

/// What `i64::from_str` accepts: an optional sign, then one or more digits,
/// with a value in the range of `i64`.
pub open spec fn parse_i64_spec(s: Seq<u8>) -> Option<i64> {
    if s.len() > 0 && s[0] == MINUS_SIGN {
        let d = s.drop_first();
        if is_decimal_run(d) && digits_value(d) <= 0x8000_0000_0000_0000 {
            Some((-(digits_value(d) as int)) as i64)
        } else {
            None
        }
    } else {
        let d = unsigned_body(s);
        if is_decimal_run(d) && digits_value(d) <= i64::MAX {
            Some(digits_value(d) as i64)
        } else {
            None
        }
    }
}

/// Upper case of an ASCII letter; every other byte unchanged.
pub open spec fn upper_byte(b: u8) -> u8 {
    if 97 <= b <= 122 {
        (b - 32) as u8
    } else {
        b
    }
}

pub open spec fn upper_seq(s: Seq<u8>) -> Seq<u8> {
    s.map_values(|b: u8| upper_byte(b))
}

/// A byte string equal to `s`.
pub fn copy_bytes(s: &[u8]) -> (r: Vec<u8>)
    ensures
        r@ == s@,
{
    let mut r: Vec<u8> = Vec::new();
    let mut i: usize = 0;
    while i < s.len()
        invariant
            i <= s@.len(),
            r@ == s@.subrange(0, i as int),
        decreases s@.len() - i,
    {
        r.push(s[i]);
        i = i + 1;
    }
    assert(r@ =~= s@);
    r
}

/// Append all of `s` to `out`.
pub fn append_bytes(out: &mut Vec<u8>, s: &[u8])
    ensures
        final(out)@ == old(out)@ + s@,
{
    let ghost start = out@;
    let mut i: usize = 0;
    while i < s.len()
        invariant
            i <= s@.len(),
            out@ == start + s@.subrange(0, i as int),
        decreases s@.len() - i,
    {
        out.push(s[i]);
        i = i + 1;
        assert(out@ =~= start + s@.subrange(0, i as int));
    }
    assert(s@.subrange(0, s@.len() as int) =~= s@);
}

/// The bytes of a text literal.
pub fn text_bytes(s: &str) -> (r: Vec<u8>)
    ensures
        r@ == s.spec_bytes(),
{
    copy_bytes(s.as_bytes())
}

pub fn starts_with(s: &[u8], prefix: &[u8]) -> (r: bool)
    ensures
        r == (prefix@.len() <= s@.len() && s@.subrange(0, prefix@.len() as int) == prefix@),
{
    if prefix.len() > s.len() {
        return false;
    }
    let mut i: usize = 0;
    while i < prefix.len()
        invariant
            prefix@.len() <= s@.len(),
            i <= prefix@.len(),
            forall|j: int| 0 <= j < i ==> s@[j] == prefix@[j],
        decreases prefix@.len() - i,
    {
        if s[i] != prefix[i] {
            assert(s@.subrange(0, prefix@.len() as int)[i as int] != prefix@[i as int]);
            return false;
        }
        i = i + 1;
    }
    assert(s@.subrange(0, prefix@.len() as int) =~= prefix@);
    true
}

pub fn bytes_equal(a: &[u8], b: &[u8]) -> (r: bool)
    ensures
        r == (a@ == b@),
{
    if a.len() != b.len() {
        return false;
    }
    let e = starts_with(a, b);
    assert(a@.subrange(0, b@.len() as int) =~= a@);
    e
}

pub fn to_upper_byte(b: u8) -> (r: u8)
    ensures
        r == upper_byte(b),
{
    if 97 <= b && b <= 122 {
        b - 32
    } else {
        b
    }
}

/// ASCII upper case of every byte.
pub fn to_upper(s: &[u8]) -> (r: Vec<u8>)
    ensures
        r@ == upper_seq(s@),
{
    let mut r: Vec<u8> = Vec::new();
    let mut i: usize = 0;
    while i < s.len()
        invariant
            i <= s@.len(),
            r@ == upper_seq(s@.subrange(0, i as int)),
        decreases s@.len() - i,
    {
        r.push(to_upper_byte(s[i]));
        i = i + 1;
        assert(r@ =~= upper_seq(s@.subrange(0, i as int)));
    }
    assert(s@.subrange(0, s@.len() as int) =~= s@);
    r
}

/// Whether `s`, read without regard to ASCII case, is the upper-case word `word`.
pub fn eq_ignore_case(s: &[u8], word: &str) -> (r: bool)
    ensures
        r == (upper_seq(s@) == word.spec_bytes()),
{
    let u = to_upper(s);
    bytes_equal(u.as_slice(), word.as_bytes())
}


/// The last `n` bytes of `v` in big-endian order, as `to_be_bytes` writes them.
pub open spec fn be_bytes(v: nat, n: nat) -> Seq<u8>
    decreases n,
{
    if n == 0 {
        Seq::empty()
    } else {
        be_bytes(v / 256, (n - 1) as nat).push((v % 256) as u8)
    }
}

/// The number that big-endian bytes spell.
pub open spec fn be_value(s: Seq<u8>) -> nat
    decreases s.len(),
{
    if s.len() == 0 {
        0
    } else {
        be_value(s.drop_last()) * 256 + s.last() as nat
    }
}

/// Append the `n` low-order bytes of `v`, most significant first.
pub fn push_be(out: &mut Vec<u8>, v: u128, n: usize)
    ensures
        final(out)@ == old(out)@ + be_bytes(v as nat, n as nat),
    decreases n,
{
    if n > 0 {
        push_be(out, v / 256, n - 1);
        out.push((v % 256) as u8);
        assert(final(out)@ =~= old(out)@ + be_bytes(v as nat, n as nat));
    } else {
        assert(final(out)@ =~= old(out)@ + be_bytes(v as nat, n as nat));
    }
}

/// The 16-byte big-endian form of `v`, as `u128::to_be_bytes` gives it.
pub fn u128_to_be(v: u128) -> (r: Vec<u8>)
    ensures
        r@ == be_bytes(v as nat, 16),
{
    let mut r: Vec<u8> = Vec::new();
    push_be(&mut r, v, 16);
    assert(r@ =~= be_bytes(v as nat, 16));
    r
}

proof fn lemma_be_value_bound(s: Seq<u8>)
    ensures
        be_value(s) < pow256(s.len()),
    decreases s.len(),
{
    if s.len() > 0 {
        lemma_be_value_bound(s.drop_last());
        let p = pow256((s.len() - 1) as nat);
        assert(be_value(s.drop_last()) * 256 + (s.last() as nat) < p * 256) by (nonlinear_arith)
            requires
                be_value(s.drop_last()) < p,
                (s.last() as nat) < 256,
        ;
    }
}

pub open spec fn pow256(n: nat) -> nat
    decreases n,
{
    if n == 0 {
        1
    } else {
        pow256((n - 1) as nat) * 256
    }
}

/// The value of 16 big-endian bytes, as `u128::from_be_bytes` reads them.
pub fn u128_from_be(s: &[u8]) -> (r: u128)
    requires
        s@.len() == 16,
    ensures
        r as nat == be_value(s@),
{
    let mut acc: u128 = 0;
    let mut i: usize = 0;
    while i < 16
        invariant
            s@.len() == 16,
            i <= 16,
            acc as nat == be_value(s@.subrange(0, i as int)),
        decreases 16 - i,
    {
        proof {
            lemma_be_value_bound(s@.subrange(0, i as int));
            assert(pow256(16) == 0x1_0000_0000_0000_0000_0000_0000_0000_0000) by {
                reveal_with_fuel(pow256, 17);
            }
            lemma_pow256_grows(i as nat, 15);
            assert(s@.subrange(0, i + 1).drop_last() =~= s@.subrange(0, i as int));
        }
        acc = acc * 256 + s[i] as u128;
        i = i + 1;
    }
    assert(s@.subrange(0, 16) =~= s@);
    acc
}

proof fn lemma_pow256_grows(a: nat, b: nat)
    requires
        a <= b,
    ensures
        pow256(a) <= pow256(b),
    decreases b - a,
{
    if a < b {
        lemma_pow256_grows(a, (b - 1) as nat);
    }
}

/// Reading back big-endian bytes gives the value modulo their range.
pub proof fn lemma_be_round_trip(v: nat, n: nat)
    ensures
        be_value(be_bytes(v, n)) == v % pow256(n),
        be_bytes(v, n).len() == n,
    decreases n,
{
    if n > 0 {
        lemma_be_round_trip(v / 256, (n - 1) as nat);
        let b = be_bytes(v, n);
        assert(b.drop_last() =~= be_bytes(v / 256, (n - 1) as nat));
        let p = pow256((n - 1) as nat);
        assert(p > 0) by {
            lemma_pow256_grows(0, (n - 1) as nat);
        }
        vstd::arithmetic::div_mod::lemma_mod_breakdown(v as int, 256, p as int);
        assert(p * 256 == 256 * p) by (nonlinear_arith);
    }
}

} // verus!
