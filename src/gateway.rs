//! Replies built from what the data models found, and the session changes
//! that follow them.
use vstd::prelude::*;
use vstd::string::StringSliceAdditionalSpecFns;
use vstd::utf8::encode_utf8;
use crate::acl::{AuthPrefix, UserInfo};
use crate::bytes::{copy_bytes, text_bytes};
use crate::config::SocketConfig;
use crate::frame::{error, is_bulk, is_error_text, is_simple_text, Frame};
use crate::keys::{tuple_tag_key, unpack_tag_key};
use crate::string::GetOutcome;

verus! {

/// The reply of GET: the live value, else null.
pub fn get_reply(outcome: GetOutcome) -> (r: Frame)
    ensures
        match outcome {
            GetOutcome::Value(v) => is_bulk(r, v@),
            _ => r is Null,
        },
{
    match outcome {
        GetOutcome::Value(v) => Frame::BulkString(v),
        _ => Frame::Null,
    }
}

/// The reply of a counter command: the new value, or the error it met.
pub fn counter_reply(result: Result<(i64, Vec<u8>), Frame>) -> (r: Frame)
    ensures
        match result {
            Ok(p) => r == Frame::Integer(p.0),
            Err(e) => r == e,
        },
{
    match result {
        Ok(p) => Frame::Integer(p.0),
        Err(e) => e,
    }
}

/// The reply of APPEND: the length of the value it stored.
pub fn append_reply(len: usize) -> (r: Frame)
    requires
        len <= i64::MAX,
    ensures
        r == Frame::Integer(len as i64),
{
    Frame::Integer(len as i64)
}

/// After AUTH: a `+OK` reply makes `user` the connection's user.
pub fn record_auth(session: &mut SocketConfig, user: &[u8], reply: &Frame)
    ensures
        is_simple_text(*reply, "OK") ==> (final(session).authenticated_user matches Some(u) && u@ == user@),
        !is_simple_text(*reply, "OK") ==> final(session).authenticated_user == old(session).authenticated_user,
        final(session).should_close == old(session).should_close,
        final(session).selected_db == old(session).selected_db,
        final(session).client_name == old(session).client_name,
{
    let okay = text_bytes("OK");
    let is_ok = match reply {
        Frame::SimpleString(s) => crate::bytes::bytes_equal(s.as_slice(), okay.as_slice()),
        _ => false,
    };
    if is_ok {
        session.authenticated_user = Some(copy_bytes(user));
    }
}

/// The reply of `ACL GETUSER name`: the name and the rules (null when
/// none), or an error when no such user is stored.
pub fn getuser_reply(name: &[u8], user: Option<&UserInfo>) -> (r: Frame)
    ensures
        match user {
            None => is_error_text(r, "ERR no such user"@),
            Some(u) => r matches Frame::Array(items) && items@.len() == 2 && is_bulk(items@[0], name@)
                && match u.rules {
                Some(text) => is_bulk(items@[1], encode_utf8(text@)),
                None => items@[1] is Null,
            },
        },
{
    match user {
        None => error("ERR no such user"),
        Some(u) => {
            let mut items: Vec<Frame> = Vec::new();
            items.push(Frame::BulkString(copy_bytes(name)));
            match &u.rules {
                Some(text) => items.push(Frame::BulkString(copy_bytes(text.as_str().as_bytes()))),
                None => items.push(Frame::Null),
            }
            Frame::Array(items)
        },
    }
}

/// The reply of `ACL LIST`: one bulk string per name, in order.
pub fn list_reply(names: &Vec<Vec<u8>>) -> (r: Frame)
    ensures
        r matches Frame::Array(items) && items@.len() == names@.len() && forall|i: int|
            0 <= i < names@.len() ==> is_bulk(#[trigger] items@[i], names@[i]@),
{
    let mut items: Vec<Frame> = Vec::new();
    let mut i: usize = 0;
    while i < names.len()
        invariant
            i <= names@.len(),
            items@.len() == i,
            forall|j: int| 0 <= j < i ==> is_bulk(#[trigger] items@[j], names@[j]@),
        decreases names@.len() - i,
    {
        items.push(Frame::BulkString(copy_bytes(names[i].as_slice())));
        i = i + 1;
    }
    Frame::Array(items)
}

/// The user names held in the keys of the user namespace, in the order of
/// the keys; a key that does not unpack is given back as it is.
pub fn usernames_of(keys: &Vec<Vec<u8>>) -> (r: Vec<Vec<u8>>)
    ensures
        r@.len() == keys@.len(),
        forall|i: int, name: Seq<u8>|
            0 <= i < keys@.len() && keys@[i]@ == #[trigger] tuple_tag_key(AuthPrefix::User.tag(), name)
                ==> (#[trigger] r@[i])@ == name,
{
    let mut r: Vec<Vec<u8>> = Vec::new();
    let mut i: usize = 0;
    while i < keys.len()
        invariant
            i <= keys@.len(),
            r@.len() == i,
            forall|j: int, name: Seq<u8>|
                0 <= j < i && keys@[j]@ == #[trigger] tuple_tag_key(AuthPrefix::User.tag(), name) ==> (
                #[trigger] r@[j])@ == name,
        decreases keys@.len() - i,
    {
        let k = keys[i].as_slice();
        let name = match unpack_tag_key(k) {
            Some(p) => {
                if p.0 == AuthPrefix::User.as_u64() {
                    p.1
                } else {
                    copy_bytes(k)
                }
            },
            None => copy_bytes(k),
        };
        r.push(name);
        i = i + 1;
    }
    r
}

} // verus!
