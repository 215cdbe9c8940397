//! What holds across calls: the store model that the data-model decisions
//! act on, and the properties of sequences of commands over it.
use vstd::prelude::*;
use crate::bytes::{be_bytes, decimal_i64, lemma_be_round_trip, pow256};
use crate::chunk::{
    chunks_of, covers_in_order, flatten, lemma_chunks_rejoin, lemma_stored_chunks_rejoin, stored_chunks,
    MAX_VALUE_SIZE,
};
use crate::decimal::lemma_i64_text_round_trip;
use crate::reader::decode_all;
use crate::keys::{lemma_index_keys_ordered, lex_less, subspace_index_key};
use crate::lock::{holder_expired, release_clears, token_time, uuid_hyphenated};
use vstd::utf8::valid_utf8;
use crate::frame::{is_bulk, is_simple_text, Frame};
use crate::acl::{auth_reply_ok, first_separator, hash_accepts, is_bcrypt_text, lemma_record_credential, record_bytes, UserInfo};
use crate::string::{
    counter_next, get_view, set_proceeds, GetView, set_reply_ok, ttl_write_spec, SetFlags, SetMethod, SetTTL, TtlWrite,
    MAX_CLOCK_MS,
};

verus! {

/// What the backing store holds for one logical key: its chunks in index
/// order and its expiry row.
pub struct StoredKey {
    pub chunks: Seq<Seq<u8>>,
    pub row: Option<Seq<u8>>,
}

/// A key with nothing stored.
pub open spec fn empty_key() -> StoredKey {
    StoredKey { chunks: Seq::empty(), row: None }
}

/// What `StringDataModel::get_outcome` decides for the key at `now_ms`.
pub open spec fn get_of(st: StoredKey, now_ms: u128) -> GetView {
    get_view(st.chunks.len() > 0, flatten(st.chunks), st.row, now_ms)
}

/// The value that GET returns at `now_ms`.
pub open spec fn live_value(st: StoredKey, now_ms: u128) -> Option<Seq<u8>> {
    match get_of(st, now_ms) {
        GetView::Value(v) => Some(v),
        _ => None,
    }
}

/// The key after a GET at `now_ms`: an expired value and its row are removed.
pub open spec fn after_get(st: StoredKey, now_ms: u128) -> StoredKey {
    if get_of(st, now_ms) is Expired {
        empty_key()
    } else {
        st
    }
}

/// The key after `SET value` with `flags` at `now_ms`, carried out as
/// `StringDataModel::plan_set` decides: when the write goes ahead, the chunks
/// become those of the new value and the row follows the plan's `ttl`.
pub open spec fn after_set(st: StoredKey, flags: SetFlags, value: Seq<u8>, now_ms: u128) -> StoredKey {
    let seen = after_get(st, now_ms);
    if set_proceeds(flags, live_value(st, now_ms)) {
        StoredKey {
            chunks: stored_chunks(value),
            row: match ttl_write_spec(flags, now_ms) {
                TtlWrite::Keep => seen.row,
                TtlWrite::Clear => None,
                TtlWrite::Write(t) => Some(be_bytes(t as nat, 16)),
            },
        }
    } else {
        seen
    }
}

/// The reply of DEL at `now_ms`: 1 when a live value was removed, else 0.
pub open spec fn del_count(st: StoredKey, now_ms: u128) -> i64 {
    if live_value(st, now_ms) is Some {
        1
    } else {
        0
    }
}

/// The key after DEL: nothing is left.
pub open spec fn after_del(st: StoredKey) -> StoredKey {
    empty_key()
}

pub open spec fn plain_flags() -> SetFlags {
    SetFlags { method: None, ttl: None, get: false }
}

/// Any value written by a plain SET, the empty one included, is what a
/// later GET returns.
pub proof fn law_set_get_round_trip(st: StoredKey, value: Seq<u8>, now_ms: u128, later_ms: u128)
    ensures
        live_value(after_set(st, plain_flags(), value, now_ms), later_ms) == Some(value),
{
    lemma_stored_chunks_rejoin(value);
}

/// The chunks of a value, read back in index order, give the value, each
/// chunk holding between one and `MAX_VALUE_SIZE` bytes; the chunk keys sort
/// in index order, so a forward range read returns the chunks in that order; batches that cover
/// the indices in order hold every index, and each batch ends before the next
/// begins, so no index is in two.
pub proof fn law_chunk_order(value: Seq<u8>, batches: Seq<(usize, usize)>, prefix: Seq<u8>)
    requires
        covers_in_order(batches, chunks_of(value, MAX_VALUE_SIZE as nat).len()),
    ensures
        flatten(chunks_of(value, MAX_VALUE_SIZE as nat)) == value,
        forall|i: int|
            0 <= i < chunks_of(value, MAX_VALUE_SIZE as nat).len() ==> 0 < (#[trigger] chunks_of(
                value,
                MAX_VALUE_SIZE as nat,
            )[i]).len() <= MAX_VALUE_SIZE,
        forall|i: int| 0 <= i < chunks_of(value, MAX_VALUE_SIZE as nat).len() ==> #[trigger] in_some_batch(batches, i),
        forall|a: int, b: int| 0 <= a < b < batches.len() ==> (#[trigger] batches[a]).1 <= (#[trigger] batches[b]).0,
        forall|i: nat, j: nat|
            i < j <= u64::MAX ==> #[trigger] lex_less(subspace_index_key(prefix, i), subspace_index_key(prefix, j)),
{
    assert forall|i: nat, j: nat| i < j <= u64::MAX implies #[trigger] lex_less(
        subspace_index_key(prefix, i),
        subspace_index_key(prefix, j),
    ) by {
        lemma_index_keys_ordered(prefix, i, j);
    }
    lemma_chunks_rejoin(value, MAX_VALUE_SIZE as nat);
    let n = chunks_of(value, MAX_VALUE_SIZE as nat).len();
    lemma_batch_starts_grow(batches, n);
    assert forall|i: int| 0 <= i < n implies #[trigger] in_some_batch(batches, i) by {
        lemma_index_in_some_batch(batches, n, i);
    }
}

/// Index `i` lies in one of the batches.
pub open spec fn in_some_batch(batches: Seq<(usize, usize)>, i: int) -> bool {
    exists|k: int| 0 <= k < batches.len() && (#[trigger] batches[k]).0 <= i < batches[k].1
}

proof fn lemma_batch_starts_grow(batches: Seq<(usize, usize)>, n: nat)
    requires
        covers_in_order(batches, n),
    ensures
        forall|a: int, b: int| 0 <= a < b < batches.len() ==> (#[trigger] batches[a]).1 <= (#[trigger] batches[b]).0,
{
    assert forall|a: int, b: int| 0 <= a < b < batches.len() implies (#[trigger] batches[a]).1 <= (
    #[trigger] batches[b]).0 by {
        lemma_batch_gap(batches, n, a, b);
    }
}

proof fn lemma_batch_gap(batches: Seq<(usize, usize)>, n: nat, a: int, b: int)
    requires
        covers_in_order(batches, n),
        0 <= a < b < batches.len(),
    ensures
        batches[a].1 <= batches[b].0,
    decreases b - a,
{
    if b > a + 1 {
        lemma_batch_gap(batches, n, a, b - 1);
        assert(batches[b - 1].0 < batches[b - 1].1);
    }
}

proof fn lemma_index_in_some_batch(batches: Seq<(usize, usize)>, n: nat, i: int)
    requires
        covers_in_order(batches, n),
        0 <= i < n,
    ensures
        exists|k: int| 0 <= k < batches.len() && (#[trigger] batches[k]).0 <= i < batches[k].1,
{
    let last = batches.len() - 1;
    lemma_find_batch(batches, n, i, last);
}

proof fn lemma_find_batch(batches: Seq<(usize, usize)>, n: nat, i: int, k: int)
    requires
        covers_in_order(batches, n),
        0 <= k < batches.len(),
        0 <= i < batches[k].1,
    ensures
        exists|j: int| 0 <= j < batches.len() && (#[trigger] batches[j]).0 <= i < batches[j].1,
    decreases k,
{
    if batches[k].0 <= i {
        assert(batches[k].0 <= i < batches[k].1);
    } else {
        assert(k > 0);
        assert(batches[k - 1].1 == batches[k].0);
        lemma_find_batch(batches, n, i, k - 1);
    }
}

/// The counter's text after `k` increments of a counter that started at "0".
pub open spec fn incremented(k: nat) -> Seq<u8>
    decreases k,
{
    if k == 0 {
        decimal_i64(0)
    } else {
        match counter_next(incremented((k - 1) as nat), 1) {
            Some(n) => decimal_i64(n),
            None => Seq::empty(),
        }
    }
}

/// Increments applied one after another, as the store's transactions
/// serialize them, count exactly: `k` of them from "0" leave `k`.
pub proof fn law_counter_counts(k: nat)
    requires
        k <= i64::MAX,
    ensures
        incremented(k) == decimal_i64(k as i64),
        counter_next(incremented(k), 1) == (if k < i64::MAX { Some((k + 1) as i64) } else { Some(i64::MIN) }),
    decreases k,
{
    if k > 0 {
        law_counter_counts((k - 1) as nat);
    }
    lemma_i64_text_round_trip(k as i64);
    assert(decimal_i64(k as i64).len() > 0) by {
        crate::decimal::lemma_decimal_is_digits(k as nat);
    }
}

/// `SET K V` then `DEL K` twice: the first removes one key, the second none,
/// and GET then finds nothing.
pub proof fn law_del_idempotent(st: StoredKey, value: Seq<u8>, t1: u128, t2: u128, t3: u128)
    ensures
        del_count(after_set(st, plain_flags(), value, t1), t2) == 1,
        del_count(after_del(after_set(st, plain_flags(), value, t1)), t3) == 0,
        live_value(after_del(after_del(after_set(st, plain_flags(), value, t1))), t3) is None,
{
    law_set_get_round_trip(st, value, t1, t2);
}

/// NX writes only over an absent key, XX only over a present one.
pub proof fn law_nx_xx(st: StoredKey, v1: Seq<u8>, v2: Seq<u8>, t1: u128, t2: u128, t3: u128)
    ensures
        ({
            let nx = SetFlags { method: Some(SetMethod::NX), ttl: None, get: false };
            let s1 = after_set(empty_key(), nx, v1, t1);
            &&& live_value(s1, t2) == Some(v1)
            &&& live_value(after_set(s1, nx, v2, t2), t3) == Some(v1)
            &&& forall|f: Frame| #[trigger] set_reply_ok(f, nx, live_value(s1, t2)) ==> f is Null
        }),
        ({
            let xx = SetFlags { method: Some(SetMethod::XX), ttl: None, get: false };
            &&& after_set(empty_key(), xx, v1, t1) == empty_key()
            &&& forall|f: Frame| #[trigger] set_reply_ok(f, xx, live_value(empty_key(), t1)) ==> f is Null
            &&& live_value(after_set(after_set(st, plain_flags(), v2, t1), xx, v1, t2), t3) == Some(v1)
        }),
{
    lemma_stored_chunks_rejoin(v1);
    lemma_stored_chunks_rejoin(v2);
    assert(flatten(Seq::<Seq<u8>>::empty()) == Seq::<u8>::empty());
}

/// A value set to expire `px` milliseconds after `now_ms` is gone at any
/// later time past that: GET finds nothing and leaves neither chunks nor row.
pub proof fn law_ttl_expiry(st: StoredKey, value: Seq<u8>, px: u64, now_ms: u128, later_ms: u128)
    requires
        0 < now_ms + px,
        now_ms <= MAX_CLOCK_MS,
        now_ms + px <= later_ms,
    ensures
        ({
            let flags = SetFlags { method: None, ttl: Some(SetTTL::Px(px)), get: false };
            let s1 = after_set(st, flags, value, now_ms);
            &&& live_value(s1, later_ms) is None
            &&& after_get(s1, later_ms) == empty_key()
        }),
{
    lemma_stored_chunks_rejoin(value);
    let t = now_ms + px;
    lemma_be_round_trip(t as nat, 16);
    assert(pow256(16) == 0x1_0000_0000_0000_0000_0000_0000_0000_0000) by {
        reveal_with_fuel(pow256, 17);
    }
}

/// KEEPTTL leaves the expiry row that an earlier SET wrote.
pub proof fn law_keepttl(value1: Seq<u8>, value2: Seq<u8>, px: u64, t1: u128, t2: u128)
    requires
        t1 <= MAX_CLOCK_MS,
        t2 < t1 + px,
    ensures
        ({
            let first = SetFlags { method: None, ttl: Some(SetTTL::Px(px)), get: false };
            let keep = SetFlags { method: None, ttl: Some(SetTTL::KeepTTL), get: false };
            let s1 = after_set(empty_key(), first, value1, t1);
            after_set(s1, keep, value2, t2).row == s1.row && s1.row == Some(be_bytes((t1 + px) as nat, 16))
        }),
{
    lemma_stored_chunks_rejoin(value1);
    lemma_be_round_trip((t1 + px) as nat, 16);
    assert(pow256(16) == 0x1_0000_0000_0000_0000_0000_0000_0000_0000) by {
        reveal_with_fuel(pow256, 17);
    }
}

/// SET with GET replies with the value it replaces, and stores the new one.
pub proof fn law_get_flag(st: StoredKey, old_v: Seq<u8>, new_v: Seq<u8>, t1: u128, t2: u128, t3: u128)
    ensures
        ({
            let get = SetFlags { method: None, ttl: None, get: true };
            let s1 = after_set(st, plain_flags(), old_v, t1);
            &&& live_value(s1, t2) == Some(old_v)
            &&& forall|f: Frame| #[trigger] set_reply_ok(f, get, live_value(s1, t2)) ==> is_bulk(f, old_v)
            &&& live_value(after_set(s1, get, new_v, t2), t3) == Some(new_v)
        }),
{
    lemma_stored_chunks_rejoin(old_v);
    lemma_stored_chunks_rejoin(new_v);
}


/// A read that completes no frame leaves every byte of it buffered, so the
/// next read decodes exactly as if both had arrived together.
pub proof fn law_fragment_without_frame(a: Seq<u8>, b: Seq<u8>)
    requires
        decode_all(a).0.len() == 0,
        !decode_all(a).2,
    ensures
        a.subrange(decode_all(a).1 as int, a.len() as int) + b == a + b,
{
    if a.len() > 0 {
        let n = crate::frame::resp2_front_len(a);
        if n > 0 && n <= a.len() {
            assert(decode_all(a).0.len() > 0);
        }
    }
    assert(a.subrange(0, a.len() as int) =~= a);
}


/// The lock frees a waiter either way: a holder's release matches the entry
/// it wrote, so the entry goes and the waiter's next attempt finds none; and
/// a holder that never releases counts as expired once more than the lock's
/// lifetime has passed since the time in its token.
pub proof fn law_lock_liveness(v: u128, text: Seq<u8>, ttl_ms: u128, now_ms: u128)
    requires
        text == uuid_hyphenated(v),
        valid_utf8(text),
    ensures
        release_clears(Some(text), text),
        now_ms > token_time(v) + ttl_ms ==> holder_expired(v, now_ms, ttl_ms),
        now_ms <= token_time(v) + ttl_ms ==> !holder_expired(v, now_ms, ttl_ms),
{
    assert(text.subrange(0, text.len() as int) =~= text);
}


/// A user stored by `ACL SETUSER` with a password that was hashed
/// authenticates with that password: the record reads back the hash, and the
/// check of the password against it replies `+OK`.
pub proof fn law_auth_after_setuser(hash: Seq<u8>, rules: Option<Seq<u8>>, password: Seq<u8>)
    requires
        is_bcrypt_text(hash),
        hash_accepts(hash, password),
    ensures
        first_separator(record_bytes(hash, rules)) == Some(hash.len() as int),
        record_bytes(hash, rules).subrange(0, hash.len() as int) == hash,
        forall|u: UserInfo, f: Frame|
            u.hash@ == hash && #[trigger] auth_reply_ok(f, Some(u), password) ==> is_simple_text(f, "OK"),
{
    lemma_record_credential(hash, rules);
}

} // verus!
