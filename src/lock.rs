//! Decisions of the per-key advisory lock: when a write takes the lock, whether
//! a holder's token has outlived the lock's lifetime, whether a release matches,
//! and the back-off schedule between attempts.
use vstd::prelude::*;
use std::sync::Arc;
use uuid::Uuid;
use vstd::utf8::valid_utf8;
use crate::bytes::{starts_with};
use crate::chunk::{Prefix, MAX_VALUE_SIZE};
use crate::frame::is_utf8;
use crate::keys::{pack_tag_key, tuple_tag_key, MAX_KEY_LEN};

verus! {

/// Milliseconds after which a lock counts as abandoned.
pub const LOCK_TTL_MS: u128 = 10_000;

/// Milliseconds that an acquire waits when the caller gives no timeout.
pub const DEFAULT_TIMEOUT_MS: u64 = 30_000;

/// The hyphenated text of a 128-bit identifier.
pub uninterp spec fn uuid_hyphenated(v: u128) -> Seq<u8>;

/// Relies on `Uuid::now_v7`: a fresh time-ordered identifier whose high
/// 48 bits hold the current Unix time in milliseconds; nothing is promised of it.
#[verifier::external_body]
fn fresh_token_value() -> (r: u128) {
    Uuid::now_v7().as_u128()
}

/// Relies on the `Display` text of `Uuid::from_u128`: the 36-byte hyphenated
/// form, ASCII hex digits and hyphens.
#[verifier::external_body]
fn token_text(v: u128) -> (r: Vec<u8>)
    ensures
        r@ == uuid_hyphenated(v),
        r@.len() == 36,
        valid_utf8(r@),
{
    Uuid::from_u128(v).to_string().into_bytes()
}

/// Relies on `Uuid::try_parse_ascii` and `Uuid::as_u128`: the hyphenated text
/// of a value parses back to that value.
#[verifier::external_body]
fn parse_token(s: &[u8]) -> (r: Option<u128>)
    ensures
        forall|v: u128| s@ == #[trigger] uuid_hyphenated(v) ==> (r.is_some() && r.unwrap() == v),
{
    Uuid::try_parse_ascii(s).ok().map(|u| u.as_u128())
}

/// The acquisition time, in Unix milliseconds, held in a token's high 48 bits.
pub open spec fn token_time(v: u128) -> u128 {
    v >> 80u128
}

/// Whether the holder of token `v` has held the lock longer than `ttl_ms` at `now_ms`.
pub open spec fn holder_expired(v: u128, now_ms: u128, ttl_ms: u128) -> bool {
    now_ms > token_time(v) && now_ms - token_time(v) > ttl_ms
}

/// Whether a release with `token` clears the lock entry `entry`.
pub open spec fn release_clears(entry: Option<Seq<u8>>, token: Seq<u8>) -> bool {
    match entry {
        Some(e) => valid_utf8(e) && token.len() <= e.len() && e.subrange(0, token.len() as int) == token,
        None => false,
    }
}

/// The lock's settings.
#[derive(Clone, Copy, Debug)]
pub struct LockManager {
    pub lock_ttl_ms: u128,
    pub default_timeout_ms: u64,
    pub lock_size_threshold: usize,
}

/// What an acquire attempt does after reading the lock entry.
#[derive(Clone, Copy, Debug, PartialEq, Eq, Structural)]
pub enum AcquireDecision {
    /// Write our token: the entry was absent, or its owner's token is too old.
    Take,
    /// Leave the entry and back off.
    Wait,
}

/// An exponential back-off: each delay doubles the one before, up to a cap.
#[derive(Clone, Copy, Debug, PartialEq, Eq, Structural)]
pub struct Backoff {
    pub delay_ms: u64,
    pub cap_ms: u64,
}

impl Backoff {
    /// The schedule between acquire attempts: 10 ms, doubling, at most 500 ms.
    pub fn for_acquire() -> (r: Backoff)
        ensures
            r == (Backoff { delay_ms: 10, cap_ms: 500 }),
    {
        Backoff { delay_ms: 10, cap_ms: 500 }
    }

    /// The schedule between polls for an unlock: 5 ms, doubling, at most 200 ms.
    pub fn for_unlock_wait() -> (r: Backoff)
        ensures
            r == (Backoff { delay_ms: 5, cap_ms: 200 }),
    {
        Backoff { delay_ms: 5, cap_ms: 200 }
    }

    /// The delay to sleep now; the next one is twice as long, capped.
    pub fn next_delay(&mut self) -> (r: u64)
        requires
            old(self).cap_ms <= u64::MAX / 2,
        ensures
            r == old(self).delay_ms,
            final(self).cap_ms == old(self).cap_ms,
            final(self).delay_ms == if old(self).delay_ms >= old(self).cap_ms / 2 + old(self).cap_ms % 2 {
                old(self).cap_ms
            } else {
                (2 * old(self).delay_ms) as u64
            },
    {
        let d = self.delay_ms;
        if d >= self.cap_ms / 2 + self.cap_ms % 2 {
            self.delay_ms = self.cap_ms;
        } else {
            self.delay_ms = 2 * d;
        }
        d
    }
}

impl LockManager {
    pub fn new(lock_size_threshold: usize, lock_ttl_ms: u128, default_timeout_ms: u64) -> (r: Self)
        ensures
            r.lock_size_threshold == lock_size_threshold,
            r.lock_ttl_ms == lock_ttl_ms,
            r.default_timeout_ms == default_timeout_ms,
    {
        LockManager { lock_ttl_ms, default_timeout_ms, lock_size_threshold }
    }

    /// The settings the gateway runs with: a value of a chunk or more takes
    /// the lock, which lives `LOCK_TTL_MS`, and acquiring waits at most
    /// `DEFAULT_TIMEOUT_MS`.
    pub fn standard() -> (r: Self)
        ensures
            r.lock_size_threshold == MAX_VALUE_SIZE,
            r.lock_ttl_ms == LOCK_TTL_MS,
            r.default_timeout_ms == DEFAULT_TIMEOUT_MS,
    {
        Self::new(MAX_VALUE_SIZE, LOCK_TTL_MS, DEFAULT_TIMEOUT_MS)
    }

    pub fn into_arc(self) -> (r: Arc<Self>)
        ensures
            *r == self,
    {
        Arc::new(self)
    }

    /// Whether a value of `size` bytes is written under the lock.
    pub fn should_lock_for_size(&self, size: usize) -> (r: bool)
        ensures
            r == (size >= self.lock_size_threshold),
    {
        size >= self.lock_size_threshold
    }

    /// The timeout of an acquire or a wait: the one given, else the default.
    pub fn timeout_or_default(&self, timeout_ms: Option<u64>) -> (r: u64)
        ensures
            r == match timeout_ms {
                Some(t) => t,
                None => self.default_timeout_ms,
            },
    {
        match timeout_ms {
            Some(t) => t,
            None => self.default_timeout_ms,
        }
    }

    /// Whether another attempt starts after `elapsed_ms` of a wait bounded by `timeout_ms`.
    pub fn may_try(elapsed_ms: u64, timeout_ms: u64) -> (r: bool)
        ensures
            r == (elapsed_ms <= timeout_ms),
    {
        elapsed_ms <= timeout_ms
    }

    /// The backing-store key of `key`'s lock entry.
    pub fn lock_key(key: &[u8]) -> (r: Vec<u8>)
        requires
            key@.len() <= MAX_KEY_LEN,
        ensures
            r@ == tuple_tag_key(Prefix::Lock.tag(), key@),
    {
        pack_tag_key(Prefix::Lock.as_u64(), key)
    }

    /// The acquisition time held in a token.
    pub fn token_time_ms(v: u128) -> (r: u128)
        ensures
            r == token_time(v),
            r < 0x1_0000_0000_0000,
    {
        let t = (v >> 80u128) & 0xffff_ffff_ffff;
        assert(t == v >> 80u128 && (v >> 80u128) < 0x1_0000_0000_0000) by (bit_vector)
            requires
                t == (v >> 80u128) & 0xffff_ffff_ffff,
        ;
        t
    }

    /// A fresh lock token: its value, whose high bits hold the current time,
    /// and the text that is stored in the lock entry.
    pub fn new_token() -> (r: (u128, Vec<u8>))
        ensures
            r.1@ == uuid_hyphenated(r.0),
            valid_utf8(r.1@),
    {
        let v = fresh_token_value();
        (v, token_text(v))
    }

    /// Whether a holder that took the lock at `owner_ms` has held it too long at `now_ms`.
    pub fn is_stale(&self, owner_ms: u128, now_ms: u128) -> (r: bool)
        ensures
            r == (now_ms > owner_ms && now_ms - owner_ms > self.lock_ttl_ms),
    {
        now_ms > owner_ms && now_ms - owner_ms > self.lock_ttl_ms
    }

    /// Whether an acquire attempt that read `entry` at `now_ms` takes the
    /// lock: always when the entry is absent; over a token, exactly when the
    /// token's holder has held it longer than the lock's lifetime.
    pub fn decide_acquire(&self, entry: Option<&[u8]>, now_ms: u128) -> (r: AcquireDecision)
        ensures
            entry is None ==> r == AcquireDecision::Take,
            forall|v: u128|
                (entry matches Some(e) && e@ == #[trigger] uuid_hyphenated(v)) ==> (r == AcquireDecision::Take
                    <==> holder_expired(v, now_ms, self.lock_ttl_ms)),
    {
        match entry {
            None => AcquireDecision::Take,
            Some(e) => match parse_token(e) {
                Some(owner) => {
                    let owner_ms = Self::token_time_ms(owner);
                    if self.is_stale(owner_ms, now_ms) {
                        AcquireDecision::Take
                    } else {
                        AcquireDecision::Wait
                    }
                },
                None => AcquireDecision::Wait,
            },
        }
    }

    /// Whether a release with `token` clears the entry `entry`: it must be
    /// present, UTF-8 text, and begin with the token.
    pub fn release_matches(entry: Option<&[u8]>, token: &[u8]) -> (r: bool)
        ensures
            r == release_clears(
                match entry {
                    Some(e) => Some(e@),
                    None => None,
                },
                token@,
            ),
    {
        match entry {
            Some(e) => is_utf8(e) && starts_with(e, token),
            None => false,
        }
    }
}

} // verus!
