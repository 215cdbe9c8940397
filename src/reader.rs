//! The connection's read buffer: it grows from `INITIAL_BUF_SIZE` up to
//! `MAX_BUF_SIZE`, hands out every complete frame after a read, and keeps the
//! bytes of an incomplete one for the next read.
use vstd::prelude::*;
use crate::bytes::{append_bytes, copy_bytes};
use crate::frame::{decode_front, error, is_error_text, resp2_front_frame, resp2_front_len, Decoded, Frame};

verus! {

pub const INITIAL_BUF_SIZE: usize = 8 * 1024;

pub const MAX_BUF_SIZE: usize = 512 * 1024 * 1024;

/// Bytes read from a connection and not yet decoded, within a buffer of `capacity` bytes.
pub struct ReadBuffer {
    pending: Vec<u8>,
    capacity: usize,
}

/// What one read produced.
pub struct Absorbed {
    /// The complete frames, in the order they arrived.
    pub frames: Vec<Frame>,
    /// The bytes after them did not begin a RESP2 frame and were dropped.
    pub invalid: bool,
}

/// What decoding `buf` frame after frame from its front gives: the frames,
/// how many bytes they took, and whether the bytes after them begin no frame.
pub open spec fn decode_all(buf: Seq<u8>) -> (Seq<Frame>, nat, bool)
    decreases buf.len(),
{
    let n = resp2_front_len(buf);
    if buf.len() == 0 {
        (Seq::empty(), 0, false)
    } else if n < 0 {
        (Seq::empty(), 0, true)
    } else if n == 0 || n > buf.len() {
        (Seq::empty(), 0, false)
    } else {
        let rest = decode_all(buf.subrange(n, buf.len() as int));
        (seq![resp2_front_frame(buf)] + rest.0, (n + rest.1) as nat, rest.2)
    }
}

/// The size a full buffer grows to.
pub open spec fn grown(capacity: nat) -> nat {
    if 2 * capacity > MAX_BUF_SIZE {
        MAX_BUF_SIZE as nat
    } else {
        2 * capacity
    }
}

impl ReadBuffer {
    pub open spec fn wf(&self) -> bool {
        &&& INITIAL_BUF_SIZE <= self.capacity_view() <= MAX_BUF_SIZE
        &&& self.pending_view().len() <= self.capacity_view()
    }

    pub closed spec fn pending_view(&self) -> Seq<u8> {
        self.pending@
    }

    pub closed spec fn capacity_view(&self) -> nat {
        self.capacity as nat
    }

    pub fn new() -> (r: ReadBuffer)
        ensures
            r.wf(),
            r.pending_view() == Seq::<u8>::empty(),
            r.capacity_view() == INITIAL_BUF_SIZE,
    {
        ReadBuffer { pending: Vec::new(), capacity: INITIAL_BUF_SIZE }
    }

    /// The bytes kept from earlier reads.
    pub fn pending(&self) -> (r: &Vec<u8>)
        ensures
            r@ == self.pending_view(),
    {
        &self.pending
    }

    pub fn capacity(&self) -> (r: usize)
        ensures
            r == self.capacity_view(),
    {
        self.capacity
    }

    /// How many bytes the next read may bring.
    pub fn room(&self) -> (r: usize)
        requires
            self.wf(),
        ensures
            r == self.capacity_view() - self.pending_view().len(),
    {
        self.capacity - self.pending.len()
    }

    /// Before a read: a full buffer grows; `false` when it is full at its
    /// largest, and the connection is to be answered `too_large` and closed.
    pub fn make_room(&mut self) -> (r: bool)
        requires
            old(self).wf(),
        ensures
            final(self).wf(),
            final(self).pending_view() == old(self).pending_view(),
            r == !(old(self).pending_view().len() == old(self).capacity_view() && old(self).capacity_view()
                == MAX_BUF_SIZE),
            r ==> final(self).pending_view().len() < final(self).capacity_view(),
            final(self).capacity_view() == if old(self).pending_view().len() == old(self).capacity_view() && r {
                grown(old(self).capacity_view())
            } else {
                old(self).capacity_view()
            },
    {
        if self.pending.len() == self.capacity {
            if self.capacity == MAX_BUF_SIZE {
                return false;
            }
            self.capacity = if self.capacity > MAX_BUF_SIZE / 2 {
                MAX_BUF_SIZE
            } else {
                2 * self.capacity
            };
        }
        true
    }

    /// After a read of `incoming`: decode the frames at the front of the
    /// buffered bytes, one after another, until what is left is incomplete.
    /// The bytes left over are kept, and when they take more than half the
    /// buffer it grows. Bytes that begin no frame are dropped.
    pub fn absorb(&mut self, incoming: &[u8]) -> (r: Absorbed)
        requires
            old(self).wf(),
            incoming@.len() <= old(self).capacity_view() - old(self).pending_view().len(),
        ensures
            final(self).wf(),
            ({
                let all = old(self).pending_view() + incoming@;
                let d = decode_all(all);
                &&& r.frames@ == d.0
                &&& r.invalid == d.2
                &&& d.1 <= all.len()
                &&& final(self).pending_view() == if d.2 {
                    Seq::<u8>::empty()
                } else {
                    all.subrange(d.1 as int, all.len() as int)
                }
            }),
            final(self).capacity_view() == if final(self).pending_view().len() > old(self).capacity_view() / 2
                && old(self).capacity_view() < MAX_BUF_SIZE {
                grown(old(self).capacity_view())
            } else {
                old(self).capacity_view()
            },
    {
        let mut data = copy_bytes(self.pending.as_slice());
        append_bytes(&mut data, incoming);
        let ghost all = data@;
        let mut frames: Vec<Frame> = Vec::new();
        let mut consumed: usize = 0;
        let mut invalid = false;
        let ghost mut stopped = false;
        assert(all.subrange(0, all.len() as int) =~= all);
        assert(Seq::<Frame>::empty() + decode_all(all).0 =~= decode_all(all).0);
        while consumed < data.len()
            invariant
                data@ == all,
                consumed <= data@.len(),
                !stopped ==> !invalid,
                stopped ==> ({
                    let d = decode_all(all.subrange(consumed as int, all.len() as int));
                    d.0 == Seq::<Frame>::empty() && d.2 == invalid
                }),
                ({
                    let d = decode_all(all.subrange(consumed as int, all.len() as int));
                    &&& decode_all(all).0 == frames@ + d.0
                    &&& decode_all(all).1 == consumed + d.1
                    &&& decode_all(all).2 == d.2
                }),
            ensures
                stopped || consumed == all.len(),
            decreases data@.len() - consumed,
        {
            let ghost tail = all.subrange(consumed as int, all.len() as int);
            let piece = &data[consumed..data.len()];
            assert(piece@ == tail);
            match decode_front(piece) {
                Decoded::Complete(frame, used) => {
                    if used == 0 {
                        proof {
                            stopped = true;
                        }
                        break;
                    }
                    proof {
                        let next = tail.subrange(used as int, tail.len() as int);
                        assert(next =~= all.subrange(consumed + used, all.len() as int));
                        assert(decode_all(tail).0 =~= seq![frame] + decode_all(next).0);
                    }
                    let ghost before = frames@;
                    frames.push(frame);
                    assert(frames@ =~= before + seq![frame]);
                    consumed = consumed + used;
                    proof {
                        let d = decode_all(all.subrange(consumed as int, all.len() as int));
                        assert(before + (seq![frame] + d.0) =~= frames@ + d.0);
                    }
                },
                Decoded::Incomplete => {
                    proof {
                        stopped = true;
                    }
                    break;
                },
                Decoded::Invalid => {
                    invalid = true;
                    proof {
                        stopped = true;
                    }
                    break;
                },
            }
        }
        proof {
            let tail = all.subrange(consumed as int, all.len() as int);
            if !stopped {
                assert(tail.len() == 0);
            }
            assert(decode_all(tail).0 =~= Seq::<Frame>::empty());
            assert(frames@ + decode_all(tail).0 =~= frames@);
            assert(decode_all(tail).2 == invalid);
        }
        let rest: Vec<u8> = if invalid {
            Vec::new()
        } else {
            copy_bytes(&data[consumed..data.len()])
        };
        assert(!invalid ==> rest@ == all.subrange(consumed as int, all.len() as int));
        assert(all.subrange(0, all.len() as int) =~= all);
        if rest.len() > self.capacity / 2 && self.capacity < MAX_BUF_SIZE {
            self.capacity = if self.capacity > MAX_BUF_SIZE / 2 {
                MAX_BUF_SIZE
            } else {
                2 * self.capacity
            };
        }
        self.pending = rest;
        Absorbed { frames, invalid }
    }
}

/// The reply sent before closing a connection whose request outgrew the buffer.
pub fn too_large() -> (r: Frame)
    ensures
        is_error_text(r, "ERR command too large"@),
{
    error("ERR command too large")
}

/// The reply to bytes that begin no RESP2 frame.
pub fn protocol_error() -> (r: Frame)
    ensures
        is_error_text(r, "ERR protocol error"@),
{
    error("ERR protocol error")
}

} // verus!
