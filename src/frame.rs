//! RESP2 frames: building replies, encoding them on the wire, decoding one
//! request from the front of a buffer, and reading a request's command name
//! and arguments.
use vstd::prelude::*;
use vstd::string::StringSliceAdditionalSpecFns;
use vstd::utf8::{decode_utf8, encode_utf8, valid_utf8};
pub use redis_protocol::resp2::types::OwnedFrame as Frame;
use crate::bytes::{append_bytes, decimal, decimal_i64, text_bytes};
use crate::decimal::{format_i64, push_decimal};

verus! {

#[verifier::external_type_specification]
pub struct ExFrame(redis_protocol::resp2::types::OwnedFrame);

pub open spec fn crlf() -> Seq<u8> {
    seq![13u8, 10u8]
}

/// The RESP2 wire form of a frame.
pub open spec fn encoding(f: Frame) -> Seq<u8>
    decreases f,
{
    match f {
        Frame::SimpleString(s) => seq![43u8] + s@ + crlf(),
        Frame::Error(e) => seq![45u8] + encode_utf8(e@) + crlf(),
        Frame::Integer(i) => seq![58u8] + decimal_i64(i) + crlf(),
        Frame::BulkString(b) => seq![36u8] + decimal(b@.len()) + crlf() + b@ + crlf(),
        Frame::Null => seq![36u8, 45u8, 49u8] + crlf(),
        Frame::Array(items) => seq![42u8] + decimal(items@.len()) + crlf() + items_encoding(items@),
    }
}

/// The wire forms of `items`, one after another.
pub open spec fn items_encoding(items: Seq<Frame>) -> Seq<u8>
    decreases items,
{
    if items.len() == 0 {
        Seq::empty()
    } else {
        items_encoding(items.drop_last()) + encoding(items.last())
    }
}

pub open spec fn is_simple_text(f: Frame, text: &str) -> bool {
    f matches Frame::SimpleString(s) && s@ == text.spec_bytes()
}

pub open spec fn is_error_text(f: Frame, text: Seq<char>) -> bool {
    f matches Frame::Error(e) && e@ == text
}

pub open spec fn is_bulk(f: Frame, b: Seq<u8>) -> bool {
    f matches Frame::BulkString(v) && v@ == b
}

/// A simple-string reply with the given text.
pub fn simple(text: &str) -> (r: Frame)
    ensures
        is_simple_text(r, text),
{
    Frame::SimpleString(text_bytes(text))
}

/// The `+OK` reply.
pub fn ok() -> (r: Frame)
    ensures
        is_simple_text(r, "OK"),
{
    simple("OK")
}

/// An error reply with the given text.
pub fn error(text: &str) -> (r: Frame)
    ensures
        is_error_text(r, text@),
{
    Frame::Error(text.to_owned())
}

/// Relies on `String::from_utf8_lossy`: valid UTF-8 is decoded unchanged.
#[verifier::external_body]
pub(crate) fn lossy_text(b: &[u8]) -> (r: String)
    ensures
        valid_utf8(b@) ==> r@ == decode_utf8(b@),
{
    String::from_utf8_lossy(b).into_owned()
}

/// Relies on `std::str::from_utf8`: it succeeds exactly on valid UTF-8.
#[verifier::external_body]
pub(crate) fn is_utf8(b: &[u8]) -> (r: bool)
    ensures
        r == valid_utf8(b@),
{
    std::str::from_utf8(b).is_ok()
}

/// What one decode attempt found at the front of a buffer.
pub enum Decoded {
    /// A complete frame and the number of bytes it took.
    Complete(Frame, usize),
    /// The buffer holds only the beginning of a frame.
    Incomplete,
    /// The buffer does not begin with a RESP2 frame.
    Invalid,
}

/// How the front of `buf` decodes: the byte length of its first complete
/// frame; 0 when it holds only the beginning of one; -1 when it begins none.
pub uninterp spec fn resp2_front_len(buf: Seq<u8>) -> int;

/// The first complete frame at the front of `buf`.
pub uninterp spec fn resp2_front_frame(buf: Seq<u8>) -> Frame;

/// Relies on `redis_protocol::resp2::decode::decode`: the first frame in the
/// buffer and how many bytes it took, no more than the buffer holds.
#[verifier::external_body]
pub(crate) fn decode_front(buf: &[u8]) -> (r: Decoded)
    ensures
        r matches Decoded::Complete(f, used) ==> used <= buf@.len() && used == resp2_front_len(buf@) && f == resp2_front_frame(buf@),
        r is Incomplete ==> resp2_front_len(buf@) == 0,
        r is Invalid ==> resp2_front_len(buf@) == -1,
{
    match redis_protocol::resp2::decode::decode(buf) {
        Ok(Some((frame, used))) => Decoded::Complete(frame, used),
        Ok(None) => Decoded::Incomplete,
        Err(_) => Decoded::Invalid,
    }
}

fn push_crlf(out: &mut Vec<u8>)
    ensures
        final(out)@ == old(out)@ + crlf(),
{
    out.push(13u8);
    out.push(10u8);
    assert(final(out)@ =~= old(out)@ + crlf());
}

proof fn lemma_item_within(items: Seq<Frame>, k: int)
    requires
        0 <= k < items.len(),
    ensures
        encoding(items[k]).len() <= items_encoding(items).len(),
    decreases items.len(),
{
    if k < items.len() - 1 {
        lemma_item_within(items.drop_last(), k);
        assert(items.drop_last()[k] == items[k]);
    }
}

/// Append the wire form of `f` to `out`.
fn push_frame(out: &mut Vec<u8>, f: &Frame)
    ensures
        final(out)@ == old(out)@ + encoding(*f),
    decreases encoding(*f).len(),
{
    let ghost start = out@;
    match f {
        Frame::SimpleString(s) => {
            out.push(43u8);
            append_bytes(out, s.as_slice());
            push_crlf(out);
        },
        Frame::Error(e) => {
            out.push(45u8);
            append_bytes(out, e.as_str().as_bytes());
            push_crlf(out);
        },
        Frame::Integer(i) => {
            out.push(58u8);
            let text = format_i64(*i);
            append_bytes(out, text.as_slice());
            push_crlf(out);
        },
        Frame::BulkString(b) => {
            out.push(36u8);
            push_decimal(out, b.len() as u64);
            push_crlf(out);
            append_bytes(out, b.as_slice());
            push_crlf(out);
        },
        Frame::Null => {
            out.push(36u8);
            out.push(45u8);
            out.push(49u8);
            push_crlf(out);
        },
        Frame::Array(items) => {
            out.push(42u8);
            push_decimal(out, items.len() as u64);
            push_crlf(out);
            let ghost head = out@;
            assert(items_encoding(items@.subrange(0, 0)) =~= Seq::<u8>::empty()) by {
                assert(items@.subrange(0, 0).len() == 0);
            }
            assert(head =~= head + items_encoding(items@.subrange(0, 0)));
            let mut i: usize = 0;
            while i < items.len()
                invariant
                    *f == Frame::Array(*items),
                    i <= items@.len(),
                    out@ == head + items_encoding(items@.subrange(0, i as int)),
                decreases items@.len() - i,
            {
                proof {
                    let s = items@.subrange(0, i + 1);
                    assert(s.drop_last() =~= items@.subrange(0, i as int));
                    assert(s.last() == items@[i as int]);
                    lemma_item_within(items@, i as int);
                }
                push_frame(out, &items[i]);
                i = i + 1;
            }
            assert(items@.subrange(0, items@.len() as int) =~= items@);
        },
    }
    assert(final(out)@ =~= old(out)@ + encoding(*f));
}

/// The RESP2 wire form of a reply.
pub fn to_wire(f: &Frame) -> (r: Vec<u8>)
    ensures
        r@ == encoding(*f),
{
    let mut out: Vec<u8> = Vec::new();
    push_frame(&mut out, f);
    assert(out@ =~= encoding(*f));
    out
}

/// The payloads of a request's argument items, in order; none when an item
/// is not a string.
pub open spec fn arg_payloads(items: Seq<Frame>) -> Option<Seq<Seq<u8>>>
    decreases items.len(),
{
    if items.len() == 0 {
        Some(Seq::empty())
    } else {
        match arg_payloads(items.drop_last()) {
            Some(rest) => match items.last() {
                Frame::BulkString(b) => Some(rest.push(b@)),
                Frame::SimpleString(s) => Some(rest.push(s@)),
                _ => None,
            },
            None => None,
        }
    }
}

pub open spec fn vec_views(v: Seq<Vec<u8>>) -> Seq<Seq<u8>> {
    v.map_values(|x: Vec<u8>| x@)
}

/// A request as the dispatcher sees it.
pub struct Request {
    pub name: Vec<u8>,
    pub args: Vec<Vec<u8>>,
}

/// The command of a request frame: an array whose first item is a bulk string
/// naming it, and string items after it, which are its arguments.
pub open spec fn request_spec(f: Frame) -> Option<(Seq<u8>, Seq<Seq<u8>>)> {
    match f {
        Frame::Array(items) => if items@.len() > 0 {
            match items@[0] {
                Frame::BulkString(name) => match arg_payloads(items@.drop_first()) {
                    Some(args) => Some((name@, args)),
                    None => None,
                },
                _ => None,
            }
        } else {
            None
        },
        _ => None,
    }
}

/// A prefix of the items that has a non-string item spoils the whole.
proof fn lemma_payloads_stay_none(items: Seq<Frame>, k: int)
    requires
        0 <= k <= items.len(),
        arg_payloads(items.subrange(0, k)) is None,
    ensures
        arg_payloads(items) is None,
    decreases items.len() - k,
{
    if k < items.len() {
        let s = items.subrange(0, k + 1);
        assert(s.drop_last() =~= items.subrange(0, k));
        assert(arg_payloads(s) is None);
        lemma_payloads_stay_none(items, k + 1);
    } else {
        assert(items.subrange(0, k) =~= items);
    }
}

/// The command name and arguments of a request, or `-ERR invalid command`.
pub fn request_of(f: &Frame) -> (r: Result<Request, Frame>)
    ensures
        match request_spec(*f) {
            Some((name, args)) => r matches Ok(req) && req.name@ == name && vec_views(req.args@) == args,
            None => r matches Err(e) && is_error_text(e, "ERR invalid command"@),
        },
{
    match f {
        Frame::Array(items) => {
            if items.len() == 0 {
                return Err(error("ERR invalid command"));
            }
            match &items[0] {
                Frame::BulkString(name) => {
                    let mut args: Vec<Vec<u8>> = Vec::new();
                    let mut i: usize = 1;
                    while i < items.len()
                        invariant
                            *f == Frame::Array(*items),
                            items@[0] is BulkString,
                            1 <= i <= items@.len(),
                            arg_payloads(items@.subrange(1, i as int)) == Some(vec_views(args@)),
                        decreases items@.len() - i,
                    {
                        let ghost before = args@;
                        let ghost s = items@.subrange(1, i + 1);
                        proof {
                            assert(s.drop_last() =~= items@.subrange(1, i as int));
                            assert(s.last() == items@[i as int]);
                        }
                        match &items[i] {
                            Frame::BulkString(a) => args.push(a.clone()),
                            Frame::SimpleString(a) => args.push(a.clone()),
                            _ => {
                                proof {
                                    assert(arg_payloads(s) is None);
                                    assert(s =~= items@.drop_first().subrange(0, i as int));
                                    lemma_payloads_stay_none(items@.drop_first(), i as int);
                                }
                                return Err(error("ERR invalid command"));
                            },
                        }
                        proof {
                            assert(vec_views(args@) =~= before.map_values(|x: Vec<u8>| x@).push(args@.last()@));
                            assert(Some(vec_views(args@)) == arg_payloads(s));
                        }
                        i = i + 1;
                    }
                    assert(items@.subrange(1, items@.len() as int) =~= items@.drop_first());
                    Ok(Request { name: name.clone(), args })
                },
                _ => Err(error("ERR invalid command")),
            }
        },
        _ => Err(error("ERR invalid command")),
    }
}

} // verus!
