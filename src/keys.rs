//! Backing-store keys: a namespace tag and a logical key packed as a tuple,
//! and chunk keys inside such a key's subspace.
use vstd::prelude::*;
use foundationdb_tuple::Subspace;
use crate::bytes::{be_bytes, lemma_be_round_trip, pow256};

verus! {

/// Longest logical key that the gateway packs; a request larger than the
/// connection's read buffer never reaches it.
pub const MAX_KEY_LEN: usize = 0x2000_0000;

/// The tuple encoding of `(tag, key)`.
pub uninterp spec fn tuple_tag_key(tag: u64, key: Seq<u8>) -> Seq<u8>;

/// The tuple encoding of the one-element tuple `(tag,)`.
pub uninterp spec fn tuple_tag(tag: u64) -> Seq<u8>;

/// How many bytes it takes to write `i` without leading zero bytes.
pub open spec fn byte_len(i: nat) -> nat
    decreases i,
{
    if i == 0 {
        0
    } else {
        1 + byte_len(i / 256)
    }
}

/// The tuple encoding of an unsigned integer below 2^64: the code byte
/// `0x14` plus its byte length, then those bytes, most significant first.
pub open spec fn tuple_uint(i: nat) -> Seq<u8> {
    seq![(20 + byte_len(i)) as u8] + be_bytes(i, byte_len(i))
}

/// The key of entry `index` in the subspace whose prefix is `prefix`.
pub open spec fn subspace_index_key(prefix: Seq<u8>, index: nat) -> Seq<u8> {
    prefix + tuple_uint(index)
}

/// Relies on `foundationdb_tuple::pack` of the pair `(tag, key)`; it panics only
/// when the encoding outgrows `u32`, which the bound on `key` rules out.
#[verifier::external_body]
pub(crate) fn pack_tag_key(tag: u64, key: &[u8]) -> (r: Vec<u8>)
    requires
        key@.len() <= MAX_KEY_LEN,
    ensures
        r@ == tuple_tag_key(tag, key@),
{
    foundationdb_tuple::pack(&(tag, key))
}

/// Relies on `foundationdb_tuple::pack` of the one-element tuple `(tag,)`:
/// the prefix that every `(tag, key)` pair's encoding begins with.
#[verifier::external_body]
pub(crate) fn pack_tag(tag: u64) -> (r: Vec<u8>)
    ensures
        r@ == tuple_tag(tag),
{
    foundationdb_tuple::pack(&(tag,))
}

/// Relies on `Subspace::from_bytes(prefix).pack(&index)`: the prefix followed
/// by the tuple encoding of the `usize`, a code byte and its significant bytes.
#[verifier::external_body]
pub(crate) fn pack_index_key(prefix: &[u8], index: usize) -> (r: Vec<u8>)
    requires
        prefix@.len() <= 2 * MAX_KEY_LEN + 16,
    ensures
        r@ == prefix@ + tuple_uint(index as nat),
{
    Subspace::from_bytes(prefix).pack(&index)
}

/// Relies on `foundationdb_tuple::unpack::<(u64, Vec<u8>)>`: it reads back
/// what `pack` wrote for such a pair.
#[verifier::external_body]
pub(crate) fn unpack_tag_key(packed: &[u8]) -> (r: Option<(u64, Vec<u8>)>)
    ensures
        forall|tag: u64, key: Seq<u8>| packed@ == #[trigger] tuple_tag_key(tag, key) ==> (r.is_some() && r.unwrap().0 == tag && r.unwrap().1@ == key),
{
    foundationdb_tuple::unpack::<(u64, Vec<u8>)>(packed).ok()
}


/// `a` and `b` agree before position `k`, where `a` ends while `b` goes on
/// or `a` has the smaller byte.
pub open spec fn differs_at(a: Seq<u8>, b: Seq<u8>, k: int) -> bool {
    &&& 0 <= k <= a.len()
    &&& k <= b.len()
    &&& a.subrange(0, k) == b.subrange(0, k)
    &&& ((k == a.len() && k < b.len()) || (k < a.len() && k < b.len() && a[k] < b[k]))
}

/// `a` sorts before `b` in byte order, as the store orders its keys.
pub open spec fn lex_less(a: Seq<u8>, b: Seq<u8>) -> bool {
    exists|k: int| #[trigger] differs_at(a, b, k)
}

proof fn lemma_byte_len_bound(i: nat, m: nat)
    requires
        i < pow256(m),
    ensures
        byte_len(i) <= m,
    decreases i,
{
    if i > 0 {
        assert(m > 0);
        let p = pow256((m - 1) as nat);
        assert(i / 256 < p) by (nonlinear_arith)
            requires
                i < p * 256,
        ;
        lemma_byte_len_bound(i / 256, (m - 1) as nat);
    }
}

proof fn lemma_below_pow(i: nat)
    ensures
        i < pow256(byte_len(i)),
    decreases i,
{
    if i > 0 {
        lemma_below_pow(i / 256);
        let p = pow256(byte_len(i / 256));
        assert(i < p * 256) by (nonlinear_arith)
            requires
                i / 256 < p,
        ;
    }
}

proof fn lemma_byte_len_grows(i: nat, j: nat)
    requires
        i <= j,
    ensures
        byte_len(i) <= byte_len(j),
    decreases j,
{
    if i > 0 {
        assert(i / 256 <= j / 256) by (nonlinear_arith)
            requires
                i <= j,
        ;
        lemma_byte_len_grows(i / 256, j / 256);
    }
}

proof fn lemma_be_bytes_ordered(i: nat, j: nat, n: nat)
    requires
        i < j < pow256(n),
    ensures
        exists|k: int| #[trigger] differs_at(be_bytes(i, n), be_bytes(j, n), k),
    decreases n,
{
    assert(n > 0);
    lemma_be_round_trip(i, n);
    lemma_be_round_trip(j, n);
    lemma_be_round_trip(i / 256, (n - 1) as nat);
    lemma_be_round_trip(j / 256, (n - 1) as nat);
    let a = be_bytes(i / 256, (n - 1) as nat);
    let b = be_bytes(j / 256, (n - 1) as nat);
    let big_a = be_bytes(i, n);
    let big_b = be_bytes(j, n);
    assert(big_a == a.push((i % 256) as u8));
    assert(big_b == b.push((j % 256) as u8));
    assert(i / 256 <= j / 256) by (nonlinear_arith)
        requires
            i < j,
    ;
    if i / 256 == j / 256 {
        assert(i % 256 < j % 256) by (nonlinear_arith)
            requires
                i < j,
                i / 256 == j / 256,
        ;
        let k = (n - 1) as int;
        assert(big_a.subrange(0, k) =~= a);
        assert(big_b.subrange(0, k) =~= b);
        assert(differs_at(big_a, big_b, k));
    } else {
        let p = pow256((n - 1) as nat);
        assert(j / 256 < p) by (nonlinear_arith)
            requires
                j < p * 256,
        ;
        lemma_be_bytes_ordered(i / 256, j / 256, (n - 1) as nat);
        let k = choose|k: int| #[trigger] differs_at(a, b, k);
        assert(k < a.len());
        assert(big_a.subrange(0, k) =~= a.subrange(0, k));
        assert(big_b.subrange(0, k) =~= b.subrange(0, k));
        assert(big_a[k] == a[k] && big_b[k] == b[k]);
        assert(differs_at(big_a, big_b, k));
    }
}

/// Chunk keys sort in the order of their indices: a forward range read of a
/// subspace returns chunk 0, then 1, and so on.
pub proof fn lemma_index_keys_ordered(prefix: Seq<u8>, i: nat, j: nat)
    requires
        i < j,
        j <= u64::MAX,
    ensures
        lex_less(subspace_index_key(prefix, i), subspace_index_key(prefix, j)),
{
    let bi = byte_len(i);
    let bj = byte_len(j);
    lemma_byte_len_grows(i, j);
    assert(pow256(8) == 0x1_0000_0000_0000_0000) by {
        reveal_with_fuel(pow256, 9);
    }
    lemma_byte_len_bound(j, 8);
    lemma_be_round_trip(i, bi);
    lemma_be_round_trip(j, bj);
    let a = subspace_index_key(prefix, i);
    let b = subspace_index_key(prefix, j);
    let n = prefix.len() as int;
    assert(a[n] == (20 + bi) as u8);
    assert(b[n] == (20 + bj) as u8);
    if bi < bj {
        assert(a.subrange(0, n) =~= prefix);
        assert(b.subrange(0, n) =~= prefix);
        assert(differs_at(a, b, n));
    } else {
        lemma_below_pow(j);
        lemma_be_bytes_ordered(i, j, bi);
        let k = choose|k: int| #[trigger] differs_at(be_bytes(i, bi), be_bytes(j, bi), k);
        let ea = be_bytes(i, bi);
        let eb = be_bytes(j, bi);
        assert(k < ea.len());
        assert(a =~= prefix + seq![(20 + bi) as u8] + ea);
        assert(b =~= prefix + seq![(20 + bi) as u8] + eb);
        let kk = n + 1 + k;
        assert(a.subrange(0, kk) =~= prefix + seq![(20 + bi) as u8] + ea.subrange(0, k));
        assert(b.subrange(0, kk) =~= prefix + seq![(20 + bi) as u8] + eb.subrange(0, k));
        assert(a[kk] == ea[k] && b[kk] == eb[k]);
        assert(differs_at(a, b, kk));
    }
}

} // verus!
