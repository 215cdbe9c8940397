//! The string data model: SET options, expiry, and the decisions behind
//! SET, GET, DEL, GETDEL, the atomic counters and APPEND.
use vstd::prelude::*;
use vstd::string::StringSliceAdditionalSpecFns;
use crate::bytes::{
    append_bytes, be_bytes, be_value, copy_bytes, decimal_i64, eq_ignore_case, parse_i64_spec,
    parse_u64_spec, u128_from_be, u128_to_be, upper_seq,
};
use crate::decimal::{format_i64, parse_i64, parse_u64};
use crate::frame::{error, is_bulk, is_error_text, is_simple_text, ok, vec_views, Frame};
use crate::keys::{pack_tag_key, tuple_tag_key, MAX_KEY_LEN};
use crate::lock::LockManager;

verus! {

/// Conditional write of SET.
#[derive(Clone, Copy, Debug, PartialEq, Eq, Structural)]
pub enum SetMethod {
    /// Only set the key if it does not already exist.
    NX,
    /// Only set the key if it already exists.
    XX,
}

/// Expiration option of SET.
#[derive(Clone, Copy, Debug, PartialEq, Eq, Structural)]
pub enum SetTTL {
    /// Expire after this many seconds.
    Ex(u64),
    /// Expire after this many milliseconds.
    Px(u64),
    /// Expire at this Unix time in seconds.
    ExAt(u64),
    /// Expire at this Unix time in milliseconds.
    PxAt(u64),
    /// Keep the key's current expiry.
    KeepTTL,
}

/// The options of one SET.
#[derive(Clone, Copy, Debug, PartialEq, Eq, Structural)]
pub struct SetFlags {
    pub method: Option<SetMethod>,
    pub ttl: Option<SetTTL>,
    pub get: bool,
}

impl SetFlags {
    /// No options: an unconditional write that clears any expiry.
    pub fn plain() -> (r: SetFlags)
        ensures
            r == (SetFlags { method: None, ttl: None, get: false }),
    {
        SetFlags { method: None, ttl: None, get: false }
    }
}

impl Default for SetFlags {
    fn default() -> (r: SetFlags)
        ensures
            r == (SetFlags { method: None, ttl: None, get: false }),
    {
        SetFlags::plain()
    }
}

pub open spec fn word_is(w: Seq<u8>, word: &str) -> bool {
    upper_seq(w) == word.spec_bytes()
}

pub open spec fn is_expiry_word(w: Seq<u8>) -> bool {
    word_is(w, "EX") || word_is(w, "PX") || word_is(w, "EXAT") || word_is(w, "PXAT")
}

/// The expiry option that keyword `w` introduces, with amount `n`.
pub open spec fn expiry_option(w: Seq<u8>, n: u64) -> SetTTL {
    if word_is(w, "EX") {
        SetTTL::Ex(n)
    } else if word_is(w, "PX") {
        SetTTL::Px(n)
    } else if word_is(w, "EXAT") {
        SetTTL::ExAt(n)
    } else {
        SetTTL::PxAt(n)
    }
}

/// The options read from `args[i..]` on top of `acc`: keywords in any case;
/// a later option overrides an earlier one of its kind; an expiry keyword
/// takes the next argument as its amount, and is dropped (amount and all)
/// when that is not a number; unknown words are ignored.
pub open spec fn parse_set_args_from(args: Seq<Seq<u8>>, i: int, acc: SetFlags) -> SetFlags
    decreases args.len() - i,
{
    if i < 0 || i >= args.len() {
        acc
    } else {
        let w = args[i];
        if word_is(w, "NX") {
            parse_set_args_from(args, i + 1, SetFlags { method: Some(SetMethod::NX), ..acc })
        } else if word_is(w, "XX") {
            parse_set_args_from(args, i + 1, SetFlags { method: Some(SetMethod::XX), ..acc })
        } else if word_is(w, "GET") {
            parse_set_args_from(args, i + 1, SetFlags { get: true, ..acc })
        } else if word_is(w, "KEEPTTL") {
            parse_set_args_from(args, i + 1, SetFlags { ttl: Some(SetTTL::KeepTTL), ..acc })
        } else if is_expiry_word(w) {
            if i + 1 >= args.len() {
                acc
            } else {
                match parse_u64_spec(args[i + 1]) {
                    Some(n) => parse_set_args_from(
                        args,
                        i + 2,
                        SetFlags { ttl: Some(expiry_option(w, n)), ..acc },
                    ),
                    None => parse_set_args_from(args, i + 2, acc),
                }
            }
        } else {
            parse_set_args_from(args, i + 1, acc)
        }
    }
}

/// Read the options that follow SET's key and value.
pub fn parse_set_extra_args(extra_args: &Vec<Vec<u8>>) -> (r: SetFlags)
    ensures
        r == parse_set_args_from(
            vec_views(extra_args@),
            0,
            SetFlags { method: None, ttl: None, get: false },
        ),
{
    let ghost args = vec_views(extra_args@);
    let mut acc = SetFlags::plain();
    let mut i: usize = 0;
    while i < extra_args.len()
        invariant
            args == vec_views(extra_args@),
            i <= extra_args@.len(),
            parse_set_args_from(args, i as int, acc) == parse_set_args_from(
                args,
                0,
                SetFlags { method: None, ttl: None, get: false },
            ),
        decreases extra_args@.len() - i,
    {
        let w = extra_args[i].as_slice();
        assert(w@ == args[i as int]);
        if eq_ignore_case(w, "NX") {
            acc = SetFlags { method: Some(SetMethod::NX), ..acc };
            i = i + 1;
        } else if eq_ignore_case(w, "XX") {
            acc = SetFlags { method: Some(SetMethod::XX), ..acc };
            i = i + 1;
        } else if eq_ignore_case(w, "GET") {
            acc = SetFlags { get: true, ..acc };
            i = i + 1;
        } else if eq_ignore_case(w, "KEEPTTL") {
            acc = SetFlags { ttl: Some(SetTTL::KeepTTL), ..acc };
            i = i + 1;
        } else {
            let ex = eq_ignore_case(w, "EX");
            let px = eq_ignore_case(w, "PX");
            let exat = eq_ignore_case(w, "EXAT");
            let pxat = eq_ignore_case(w, "PXAT");
            if ex || px || exat || pxat {
                if i + 1 >= extra_args.len() {
                    return acc;
                }
                let amount = extra_args[i + 1].as_slice();
                assert(amount@ == args[i + 1]);
                match parse_u64(amount) {
                    Some(n) => {
                        let opt = if ex {
                            SetTTL::Ex(n)
                        } else if px {
                            SetTTL::Px(n)
                        } else if exat {
                            SetTTL::ExAt(n)
                        } else {
                            SetTTL::PxAt(n)
                        };
                        acc = SetFlags { ttl: Some(opt), ..acc };
                    },
                    None => {},
                }
                i = i + 2;
            } else {
                i = i + 1;
            }
        }
    }
    acc
}


/// The latest Unix time in milliseconds that the system clock can report.
pub const MAX_CLOCK_MS: u128 = 18_446_744_073_709_551_615_999;

/// Relies on `SystemTime::now` and `Duration::as_millis`: the milliseconds since
/// the Unix epoch, absent when the clock reads earlier; a `Duration` holds at
/// most `u64::MAX` seconds.
#[verifier::external_body]
fn now_unix_ms() -> (r: Option<u128>)
    ensures
        r.is_some() ==> r.unwrap() <= MAX_CLOCK_MS,
{
    std::time::SystemTime::now().duration_since(std::time::UNIX_EPOCH).ok().map(|d| d.as_millis())
}

/// The absolute expiry, in Unix milliseconds, that an option sets when the
/// clock reads `now_ms`; `KeepTTL` gives 0, which means no expiry.
pub open spec fn expiry_ms(t: SetTTL, now_ms: u128) -> nat {
    match t {
        SetTTL::Ex(secs) => (now_ms + secs * 1000) as nat,
        SetTTL::Px(ms) => (now_ms + ms) as nat,
        SetTTL::ExAt(secs) => (secs * 1000) as nat,
        SetTTL::PxAt(ms) => ms as nat,
        SetTTL::KeepTTL => 0,
    }
}

impl SetTTL {
    /// The absolute expiry that this option sets at `now_ms`.
    pub fn expiry_at(&self, now_ms: u128) -> (r: u128)
        requires
            now_ms <= MAX_CLOCK_MS,
        ensures
            r as nat == expiry_ms(*self, now_ms),
    {
        match self {
            SetTTL::Ex(secs) => now_ms + *secs as u128 * 1000,
            SetTTL::Px(ms) => now_ms + *ms as u128,
            SetTTL::ExAt(secs) => *secs as u128 * 1000,
            SetTTL::PxAt(ms) => *ms as u128,
            SetTTL::KeepTTL => 0,
        }
    }

    /// The absolute expiry that this option sets now, by the system clock.
    pub fn unix_epoch_in_ms(&self) -> (r: Result<u128, String>)
        ensures
            r.is_ok() ==> exists|now: u128| now <= MAX_CLOCK_MS && r.unwrap() as nat == expiry_ms(*self, now),
            r.is_err() ==> r->Err_0@ == "SystemTime error: clock is before the Unix epoch"@,
    {
        match now_unix_ms() {
            Some(now) => Ok(self.expiry_at(now)),
            None => Err("SystemTime error: clock is before the Unix epoch".to_owned()),
        }
    }
}

/// Namespaces of the string data model.
#[derive(Clone, Copy, Debug, PartialEq, Eq, Structural)]
pub enum StringPrefix {
    Data,
    Ttl,
}

impl StringPrefix {
    pub open spec fn tag(self) -> u64 {
        match self {
            StringPrefix::Data => 11,
            StringPrefix::Ttl => 12,
        }
    }

    pub fn as_u64(self) -> (r: u64)
        ensures
            r == self.tag(),
    {
        match self {
            StringPrefix::Data => 11,
            StringPrefix::Ttl => 12,
        }
    }

    /// The backing-store key of `key` in this namespace.
    pub fn pack(self, key: &[u8]) -> (r: Vec<u8>)
        requires
            key@.len() <= MAX_KEY_LEN,
        ensures
            r@ == tuple_tag_key(self.tag(), key@),
    {
        pack_tag_key(self.as_u64(), key)
    }
}

/// What becomes of the key's expiry row when a SET goes ahead.
#[derive(Clone, Copy, Debug, PartialEq, Eq, Structural)]
pub enum TtlWrite {
    /// Leave the row as it is.
    Keep,
    /// Remove the row: the new value does not expire.
    Clear,
    /// Write this absolute expiry, in Unix milliseconds.
    Write(u128),
}

/// What one SET does, decided from its options and what the key holds.
pub struct SetPlan {
    /// Whether the new value is written at all.
    pub write: bool,
    /// The reply to the client.
    pub reply: Frame,
    /// Whether the write runs under the key's lock.
    pub lock: bool,
    /// Whether the stored chunks are cleared before the write.
    pub clear_prior: bool,
    /// What happens to the expiry row.
    pub ttl: TtlWrite,
}

/// Whether a SET with `flags` goes ahead on a key whose value is `current`.
pub open spec fn set_proceeds(flags: SetFlags, current: Option<Seq<u8>>) -> bool {
    match flags.method {
        Some(SetMethod::NX) => current is None,
        Some(SetMethod::XX) => current is Some,
        None => true,
    }
}

/// The expiry row's fate after a SET with `flags` at `now_ms`.
pub open spec fn ttl_write_spec(flags: SetFlags, now_ms: u128) -> TtlWrite {
    match flags.ttl {
        None => TtlWrite::Clear,
        Some(SetTTL::KeepTTL) => TtlWrite::Keep,
        Some(t) => TtlWrite::Write(expiry_ms(t, now_ms) as u128),
    }
}

/// A bulk reply of `v`, or the null reply when there is none.
pub open spec fn is_bulk_or_null(f: Frame, v: Option<Seq<u8>>) -> bool {
    match v {
        Some(b) => is_bulk(f, b),
        None => f is Null,
    }
}

/// The reply of SET: with GET, the prior value or null; otherwise `+OK`
/// when it wrote and null when its condition failed.
pub open spec fn set_reply_ok(f: Frame, flags: SetFlags, current: Option<Seq<u8>>) -> bool {
    if flags.get {
        is_bulk_or_null(f, current)
    } else if set_proceeds(flags, current) {
        is_simple_text(f, "OK")
    } else {
        f is Null
    }
}

pub fn bulk_or_null(v: Option<&[u8]>) -> (r: Frame)
    ensures
        is_bulk_or_null(
            r,
            match v {
                Some(b) => Some(b@),
                None => None,
            },
        ),
{
    match v {
        Some(b) => Frame::BulkString(copy_bytes(b)),
        None => Frame::Null,
    }
}

/// What a GET finds under a key.
pub enum GetOutcome {
    /// No value is stored.
    Absent,
    /// A value is stored but its expiry has passed: it and its row are to be removed.
    Expired,
    /// The live value.
    Value(Vec<u8>),
}

/// What a GET finds, as values.
pub enum GetView {
    Absent,
    Expired,
    Value(Seq<u8>),
}

impl GetOutcome {
    pub open spec fn view(&self) -> GetView {
        match self {
            GetOutcome::Absent => GetView::Absent,
            GetOutcome::Expired => GetView::Expired,
            GetOutcome::Value(v) => GetView::Value(v@),
        }
    }
}

/// The GET decision: no chunk means no value; an expired row means the
/// value is to be removed; otherwise the joined chunks are the value.
pub open spec fn get_view(present: bool, stored: Seq<u8>, row: Option<Seq<u8>>, now_ms: u128) -> GetView {
    if !present {
        GetView::Absent
    } else if row_expired(row, now_ms) {
        GetView::Expired
    } else {
        GetView::Value(stored)
    }
}

/// Whether an expiry row read at `now_ms` says the value has expired: a
/// 16-byte row holding a non-zero time no later than now.
pub open spec fn row_expired(row: Option<Seq<u8>>, now_ms: u128) -> bool {
    match row {
        Some(r) => r.len() == 16 && be_value(r) != 0 && be_value(r) <= now_ms,
        None => false,
    }
}

/// The counter's next value: the stored text read as a decimal `i64` (empty
/// counts as 0) plus `delta`, wrapping; `None` when the text is no such integer.
pub open spec fn counter_next(current: Seq<u8>, delta: i64) -> Option<i64> {
    if current.len() == 0 {
        Some(delta)
    } else {
        match parse_i64_spec(current) {
            Some(n) => Some(n.wrapping_add(delta)),
            None => None,
        }
    }
}

/// The string data model's decisions; the backing-store work is done by the caller.
#[derive(Clone, Copy, Debug)]
pub struct StringDataModel {
    pub locks: LockManager,
}

impl StringDataModel {
    pub fn new(locks: LockManager) -> (r: Self)
        ensures
            r.locks == locks,
    {
        StringDataModel { locks }
    }

    /// Decide a SET of a `value_len`-byte value with `flags`, on a key whose
    /// live value is `current`, which has stored chunks when `stored_present`,
    /// holding `stored_len` bytes, at `now_ms`.
    pub fn plan_set(
        &self,
        flags: &SetFlags,
        current: Option<&[u8]>,
        stored_present: bool,
        stored_len: usize,
        value_len: usize,
        now_ms: u128,
    ) -> (r: SetPlan)
        requires
            now_ms <= MAX_CLOCK_MS,
        ensures
            ({
                let cur = match current {
                    Some(b) => Some(b@),
                    None => None,
                };
                &&& r.write == set_proceeds(*flags, cur)
                &&& set_reply_ok(r.reply, *flags, cur)
                &&& r.write ==> r.lock == (stored_len >= self.locks.lock_size_threshold || value_len
                    >= self.locks.lock_size_threshold)
                &&& r.write ==> r.clear_prior == stored_present
                &&& r.write ==> r.ttl == ttl_write_spec(*flags, now_ms)
            }),
    {
        let proceeds = match flags.method {
            Some(SetMethod::NX) => current.is_none(),
            Some(SetMethod::XX) => current.is_some(),
            None => true,
        };
        let reply = if flags.get {
            bulk_or_null(current)
        } else if proceeds {
            ok()
        } else {
            Frame::Null
        };
        let ttl = match flags.ttl {
            None => TtlWrite::Clear,
            Some(SetTTL::KeepTTL) => TtlWrite::Keep,
            Some(t) => TtlWrite::Write(t.expiry_at(now_ms)),
        };
        let lock = self.locks.should_lock_for_size(stored_len) || self.locks.should_lock_for_size(
            value_len,
        );
        SetPlan { write: proceeds, reply, lock, clear_prior: stored_present, ttl }
    }

    /// The bytes of an expiry row: the time as 16 big-endian bytes.
    pub fn ttl_row(expiry_ms: u128) -> (r: Vec<u8>)
        ensures
            r@ == be_bytes(expiry_ms as nat, 16),
    {
        u128_to_be(expiry_ms)
    }

    /// What a GET finds: `present` tells whether the key has any chunk,
    /// `stored` is the value its chunks join to, and `row` its expiry row,
    /// read at `now_ms`.
    pub fn get_outcome(stored: Vec<u8>, present: bool, row: Option<&[u8]>, now_ms: u128) -> (r: GetOutcome)
        ensures
            r.view() == get_view(
                present,
                stored@,
                match row {
                    Some(x) => Some(x@),
                    None => None,
                },
                now_ms,
            ),
    {
        if !present {
            return GetOutcome::Absent;
        }
        match row {
            Some(x) => {
                if x.len() == 16 {
                    let t = u128_from_be(x);
                    if t != 0 && t <= now_ms {
                        return GetOutcome::Expired;
                    }
                }
                GetOutcome::Value(stored)
            },
            None => GetOutcome::Value(stored),
        }
    }

    /// The reply of DEL: how many keys it removed.
    pub fn del_reply(existed: bool) -> (r: Frame)
        ensures
            r == Frame::Integer(if existed { 1 } else { 0 }),
    {
        Frame::Integer(if existed { 1 } else { 0 })
    }

    /// One counter step on the text stored under a key: the new value and
    /// its text, or the error reply for text that is not an integer.
    pub fn atomic_add(current: &[u8], delta: i64) -> (r: Result<(i64, Vec<u8>), Frame>)
        ensures
            match counter_next(current@, delta) {
                Some(n) => r matches Ok(p) && p.0 == n && p.1@ == decimal_i64(n),
                None => r matches Err(e) && is_error_text(e, "ERR value is not an integer or out of range"@),
            },
    {
        let old: i64 = if current.len() == 0 {
            0
        } else {
            match parse_i64(current) {
                Some(n) => n,
                None => {
                    return Err(error("ERR value is not an integer or out of range"));
                },
            }
        };
        let n = old.wrapping_add(delta);
        assert(current@.len() == 0 ==> n == delta) by {
            assert(0i64.wrapping_add(delta) == delta);
        }
        Ok((n, format_i64(n)))
    }

    /// The value that APPEND stores: the current value, if any, then `suffix`.
    pub fn appended(current: Option<&[u8]>, suffix: &[u8]) -> (r: Vec<u8>)
        ensures
            r@ == match current {
                Some(c) => c@ + suffix@,
                None => suffix@,
            },
    {
        let mut r: Vec<u8> = match current {
            Some(c) => copy_bytes(c),
            None => Vec::new(),
        };
        append_bytes(&mut r, suffix);
        proof {
            if current is None {
                assert(r@ =~= suffix@);
            }
        }
        r
    }
}

/// The delta of INCRBY, or of DECRBY negated (wrapping), from its argument;
/// the error reply when it is no integer.
pub fn parse_delta(arg: &[u8], negate: bool) -> (r: Result<i64, Frame>)
    ensures
        match parse_i64_spec(arg@) {
            Some(n) => r == Ok::<i64, Frame>(if negate { 0i64.wrapping_sub(n) } else { n }),
            None => r matches Err(e) && is_error_text(e, "ERR value is not an integer or out of range"@),
        },
{
    match parse_i64(arg) {
        Some(n) => Ok(if negate { 0i64.wrapping_sub(n) } else { n }),
        None => Err(error("ERR value is not an integer or out of range")),
    }
}

} // verus!
