//! The chunked value engine: a logical value is split into chunks of at most
//! `MAX_VALUE_SIZE` bytes, stored under consecutive indices of its key's
//! subspace in batches that fit a transaction, and read back in index order.
use vstd::prelude::*;
use crate::bytes::{append_bytes, copy_bytes};
use crate::keys::{pack_index_key, subspace_index_key, MAX_KEY_LEN};

verus! {

/// Largest value the backing store takes under one key.
pub const MAX_VALUE_SIZE: usize = 100_000;

/// Largest number of value bytes written in one transaction.
pub const MAX_TRANSACTION_SIZE: usize = 9_000_000;

/// Attempts made at each batch before its error is reported.
pub const MAX_RETRIES: usize = 3;

/// Most entries that one range read returns.
pub const MAX_SCAN_PAGE: usize = 20;

/// Top-level key namespaces of the chunk engine and the lock manager.
#[derive(Clone, Copy, Debug, PartialEq, Eq, Structural)]
pub enum Prefix {
    Data,
    Lock,
}

impl Prefix {
    pub open spec fn tag(self) -> u64 {
        match self {
            Prefix::Data => 11,
            Prefix::Lock => 13,
        }
    }

    /// The namespace's tag, packed as the first tuple element.
    pub fn as_u64(self) -> (r: u64)
        ensures
            r == self.tag(),
    {
        match self {
            Prefix::Data => 11,
            Prefix::Lock => 13,
        }
    }
}

/// `v` cut into pieces of `size` bytes, the last one possibly shorter.
pub open spec fn chunks_of(v: Seq<u8>, size: nat) -> Seq<Seq<u8>>
    recommends
        size > 0,
    decreases v.len(),
{
    if v.len() == 0 || size == 0 {
        Seq::empty()
    } else if v.len() <= size {
        seq![v]
    } else {
        seq![v.subrange(0, size as int)] + chunks_of(v.subrange(size as int, v.len() as int), size)
    }
}

/// The chunks that hold `v` in the store: its pieces, or a single empty
/// chunk for the empty value, so that an empty value is told from none.
pub open spec fn stored_chunks(v: Seq<u8>) -> Seq<Seq<u8>> {
    if v.len() == 0 {
        seq![Seq::<u8>::empty()]
    } else {
        chunks_of(v, MAX_VALUE_SIZE as nat)
    }
}

/// The pieces of `parts` laid end to end.
pub open spec fn flatten(parts: Seq<Seq<u8>>) -> Seq<u8>
    decreases parts.len(),
{
    if parts.len() == 0 {
        Seq::empty()
    } else {
        parts[0] + flatten(parts.drop_first())
    }
}

pub open spec fn views(v: Seq<Vec<u8>>) -> Seq<Seq<u8>> {
    v.map_values(|x: Vec<u8>| x@)
}

/// Total length of `parts[start..end]`.
pub open spec fn span_len(parts: Seq<Seq<u8>>, start: int, end: int) -> nat
    decreases end - start,
{
    if end <= start {
        0
    } else {
        span_len(parts, start, end - 1) + parts[end - 1].len()
    }
}

pub proof fn lemma_flatten_push(parts: Seq<Seq<u8>>, last: Seq<u8>)
    ensures
        flatten(parts.push(last)) == flatten(parts) + last,
    decreases parts.len(),
{
    if parts.len() == 0 {
        assert(parts.push(last).drop_first() =~= Seq::<Seq<u8>>::empty());
        assert(flatten(Seq::<Seq<u8>>::empty()) == Seq::<u8>::empty());
        assert(flatten(parts.push(last)) =~= last);
    } else {
        assert(parts.push(last).drop_first() =~= parts.drop_first().push(last));
        lemma_flatten_push(parts.drop_first(), last);
        assert(flatten(parts.push(last)) =~= flatten(parts) + last);
    }
}

/// Joining the chunks of a value gives the value back.
pub proof fn lemma_chunks_rejoin(v: Seq<u8>, size: nat)
    requires
        size > 0,
    ensures
        flatten(chunks_of(v, size)) == v,
        forall|i: int| 0 <= i < chunks_of(v, size).len() ==> 0 < (#[trigger] chunks_of(v, size)[i]).len() <= size,
    decreases v.len(),
{
    if v.len() == 0 {
    } else if v.len() <= size {
        assert(seq![v].drop_first() =~= Seq::<Seq<u8>>::empty());
        assert(flatten(Seq::<Seq<u8>>::empty()) == Seq::<u8>::empty());
        assert(flatten(seq![v]) =~= v);
    } else {
        let rest = v.subrange(size as int, v.len() as int);
        lemma_chunks_rejoin(rest, size);
        let c = chunks_of(v, size);
        assert(c.drop_first() =~= chunks_of(rest, size));
        assert(flatten(c) =~= v);
        assert forall|i: int| 0 <= i < c.len() implies 0 < (#[trigger] c[i]).len() <= size by {
            if i > 0 {
                assert(c[i] == chunks_of(rest, size)[i - 1]);
            }
        }
    }
}

/// The engine's storage layout as one type; the functions sit on it.
pub struct DataModel {}

/// The chunks of a value, their keys, and the batches they are written in.
pub struct WritePlan {
    /// Chunk `i` of the value.
    pub chunks: Vec<Vec<u8>>,
    /// Backing-store key of chunk `i`.
    pub keys: Vec<Vec<u8>>,
    /// Half-open index ranges, one per transaction, in order.
    pub batches: Vec<(usize, usize)>,
}

/// `batches` cut `0..n` into consecutive non-empty ranges, in order.
pub open spec fn covers_in_order(batches: Seq<(usize, usize)>, n: nat) -> bool {
    &&& (n == 0 <==> batches.len() == 0)
    &&& batches.len() > 0 ==> batches[0].0 == 0 && batches.last().1 == n
    &&& forall|k: int| 0 <= k < batches.len() ==> (#[trigger] batches[k]).0 < batches[k].1
    &&& forall|k: int| 0 <= k < batches.len() - 1 ==> (#[trigger] batches[k]).1 == batches[k + 1].0
}

/// The batching rule: a batch takes chunks while their total stays within
/// `MAX_TRANSACTION_SIZE` (a single larger chunk goes alone), and is sealed
/// only when the next chunk would not fit.
pub open spec fn greedy_batches(batches: Seq<(usize, usize)>, parts: Seq<Seq<u8>>) -> bool {
    &&& covers_in_order(batches, parts.len())
    &&& forall|k: int|
        0 <= k < batches.len() ==> span_len(parts, (#[trigger] batches[k]).0 as int, batches[k].1 as int)
            <= MAX_TRANSACTION_SIZE || batches[k].1 == batches[k].0 + 1
    &&& forall|k: int|
        0 <= k < batches.len() - 1 ==> span_len(parts, (#[trigger] batches[k]).0 as int, batches[k].1 as int)
            + parts[batches[k].1 as int].len() > MAX_TRANSACTION_SIZE
}

/// The stored chunks of a value join to the value, and there is at least one.
pub proof fn lemma_stored_chunks_rejoin(v: Seq<u8>)
    ensures
        flatten(stored_chunks(v)) == v,
        stored_chunks(v).len() > 0,
{
    if v.len() == 0 {
        assert(seq![Seq::<u8>::empty()].drop_first() =~= Seq::<Seq<u8>>::empty());
        assert(flatten(Seq::<Seq<u8>>::empty()) == Seq::<u8>::empty());
        assert(flatten(seq![Seq::<u8>::empty()]) =~= v);
    } else {
        lemma_chunks_rejoin(v, MAX_VALUE_SIZE as nat);
        let c = chunks_of(v, MAX_VALUE_SIZE as nat);
        if v.len() <= MAX_VALUE_SIZE {
            assert(c.len() == 1);
        } else {
            assert(c.len() > 0);
        }
    }
}

impl DataModel {
    /// Split `data` into chunks of `chunk_size` bytes (`MAX_VALUE_SIZE` when
    /// none is given); only the last chunk may be shorter.
    pub fn split_into_chunks(data: &[u8], chunk_size: Option<usize>) -> (r: Vec<Vec<u8>>)
        requires
            chunk_size != Some(0usize),
        ensures
            views(r@) == chunks_of(
                data@,
                match chunk_size {
                    Some(s) => s as nat,
                    None => MAX_VALUE_SIZE as nat,
                },
            ),
    {
        let size: usize = match chunk_size {
            Some(s) => s,
            None => MAX_VALUE_SIZE,
        };
        let mut r: Vec<Vec<u8>> = Vec::new();
        let mut pos: usize = 0;
        assert(data@.subrange(0, data@.len() as int) =~= data@);
        assert(views(r@) + chunks_of(data@, size as nat) =~= chunks_of(data@, size as nat));
        while pos < data.len()
            invariant
                size > 0,
                pos <= data@.len(),
                chunks_of(data@, size as nat) == views(r@) + chunks_of(
                    data@.subrange(pos as int, data@.len() as int),
                    size as nat,
                ),
            decreases data@.len() - pos,
        {
            let rest = data.len() - pos;
            let end: usize = if rest <= size {
                data.len()
            } else {
                pos + size
            };
            let ghost tail = data@.subrange(pos as int, data@.len() as int);
            let piece = copy_bytes(&data[pos..end]);
            proof {
                assert(piece@ =~= data@.subrange(pos as int, end as int));
                if rest <= size {
                    assert(tail =~= piece@);
                    assert(data@.subrange(end as int, data@.len() as int) =~= Seq::<u8>::empty());
                    assert(chunks_of(tail, size as nat) =~= seq![piece@]);
                } else {
                    assert(tail.subrange(0, size as int) =~= piece@);
                    assert(tail.subrange(size as int, tail.len() as int) =~= data@.subrange(
                        end as int,
                        data@.len() as int,
                    ));
                }
            }
            let ghost before = views(r@);
            r.push(piece);
            pos = end;
            proof {
                assert(views(r@) =~= before.push(piece@));
                assert(chunks_of(tail, size as nat) =~= seq![piece@] + chunks_of(
                    data@.subrange(pos as int, data@.len() as int),
                    size as nat,
                ));
                assert(chunks_of(data@, size as nat) =~= views(r@) + chunks_of(
                    data@.subrange(pos as int, data@.len() as int),
                    size as nat,
                ));
            }
        }
        assert(data@.subrange(pos as int, data@.len() as int) =~= Seq::<u8>::empty());
        assert(views(r@) + Seq::<Seq<u8>>::empty() =~= views(r@));
        r
    }
}


/// What to do with a batch after one attempt to write it.
#[derive(Clone, Copy, Debug, PartialEq, Eq, Structural)]
pub enum BatchStep {
    /// The batch is stored.
    Done,
    /// Try the batch again.
    Retry,
    /// Report the attempt's error.
    GiveUp,
}

/// The exclusive end of a subspace's range: the prefix followed by `0xFF`.
pub open spec fn range_end(prefix: Seq<u8>) -> Seq<u8> {
    prefix.push(0xFFu8)
}

impl DataModel {
    /// Group chunks into transactions by the batching rule.
    #[verifier::rlimit(30)]
    pub fn plan_batches(chunks: &Vec<Vec<u8>>) -> (r: Vec<(usize, usize)>)
        ensures
            greedy_batches(r@, views(chunks@)),
    {
        let ghost parts = views(chunks@);
        let n = chunks.len();
        let mut r: Vec<(usize, usize)> = Vec::new();
        let mut start: usize = 0;
        let mut sum: usize = 0;
        let mut i: usize = 0;
        while i < n
            invariant
                n == chunks@.len(),
                parts == views(chunks@),
                start <= i <= n,
                sum as nat == span_len(parts, start as int, i as int),
                i > start + 1 ==> sum <= MAX_TRANSACTION_SIZE,
                covers_in_order(r@, start as nat),
                forall|k: int|
                    0 <= k < r@.len() ==> span_len(parts, (#[trigger] r@[k]).0 as int, r@[k].1 as int)
                        <= MAX_TRANSACTION_SIZE || r@[k].1 == r@[k].0 + 1,
                forall|k: int|
                    0 <= k < r@.len() ==> span_len(parts, (#[trigger] r@[k]).0 as int, r@[k].1 as int)
                        + parts[r@[k].1 as int].len() > MAX_TRANSACTION_SIZE,
            decreases n - i,
        {
            let len = chunks[i].len();
            assert(parts[i as int] == chunks@[i as int]@);
            if i > start && (sum > MAX_TRANSACTION_SIZE || len > MAX_TRANSACTION_SIZE - sum) {
                let ghost before = r@;
                r.push((start, i));
                proof {
                    assert(span_len(parts, start as int, i as int) + parts[i as int].len() > MAX_TRANSACTION_SIZE);
                    assert(r@.last() == (start, i));
                    assert(r@.drop_last() == before);
                    assert forall|k: int| 0 <= k < r@.len() - 1 implies (#[trigger] r@[k]).1 == r@[k + 1].0 by {
                        if k < before.len() - 1 {
                            assert(r@[k] == before[k] && r@[k + 1] == before[k + 1]);
                        } else {
                            assert(r@[k] == before.last());
                        }
                    }
                }
                start = i;
                sum = 0;
            }
            assert(span_len(parts, start as int, i + 1) == span_len(parts, start as int, i as int)
                + parts[i as int].len());
            sum = sum + len;
            i = i + 1;
        }
        if n > start {
            let ghost before = r@;
            r.push((start, n));
            proof {
                assert forall|k: int| 0 <= k < r@.len() - 1 implies (#[trigger] r@[k]).1 == r@[k + 1].0 by {
                    if k < before.len() - 1 {
                        assert(r@[k] == before[k] && r@[k + 1] == before[k + 1]);
                    } else {
                        assert(r@[k] == before.last());
                    }
                }
            }
        }
        r
    }

    /// The write plan of `value` under the data key `key`: its stored chunks
    /// (one empty chunk for the empty value), the key of each chunk in `key`'s
    /// subspace, and the transactions they go in.
    pub fn plan_write(key: &[u8], value: &[u8]) -> (r: WritePlan)
        requires
            key@.len() <= 2 * MAX_KEY_LEN + 16,
        ensures
            views(r.chunks@) == stored_chunks(value@),
            r.keys@.len() == r.chunks@.len(),
            forall|i: int| 0 <= i < r.keys@.len() ==> (#[trigger] r.keys@[i])@ == subspace_index_key(key@, i as nat),
            greedy_batches(r.batches@, views(r.chunks@)),
    {
        let mut chunks = Self::split_into_chunks(value, None);
        if chunks.len() == 0 {
            chunks.push(Vec::new());
            assert(value@.len() == 0) by {
                if value@.len() > 0 {
                    assert(chunks_of(value@, MAX_VALUE_SIZE as nat).len() > 0);
                }
            }
            assert(views(chunks@) =~= stored_chunks(value@));
        } else {
            assert(value@.len() > 0);
        }
        let mut keys: Vec<Vec<u8>> = Vec::new();
        let mut i: usize = 0;
        while i < chunks.len()
            invariant
                key@.len() <= 2 * MAX_KEY_LEN + 16,
                i <= chunks@.len(),
                keys@.len() == i,
                forall|j: int| 0 <= j < i ==> (#[trigger] keys@[j])@ == subspace_index_key(key@, j as nat),
            decreases chunks@.len() - i,
        {
            keys.push(pack_index_key(key, i));
            i = i + 1;
        }
        let batches = Self::plan_batches(&chunks);
        WritePlan { chunks, keys, batches }
    }

    /// The backing-store key of chunk `index` of the value stored under `key`.
    pub fn chunk_key(key: &[u8], index: usize) -> (r: Vec<u8>)
        requires
            key@.len() <= 2 * MAX_KEY_LEN + 16,
        ensures
            r@ == subspace_index_key(key@, index as nat),
    {
        pack_index_key(key, index)
    }

    /// Decide the next step for a batch: an attempt that succeeded ends it; a
    /// failed one is retried until `MAX_RETRIES` attempts have been made.
    pub fn retry_step(attempts: usize, succeeded: bool) -> (r: BatchStep)
        requires
            1 <= attempts <= MAX_RETRIES,
        ensures
            r == (if succeeded {
                BatchStep::Done
            } else if attempts < MAX_RETRIES {
                BatchStep::Retry
            } else {
                BatchStep::GiveUp
            }),
    {
        if succeeded {
            BatchStep::Done
        } else if attempts < MAX_RETRIES {
            BatchStep::Retry
        } else {
            BatchStep::GiveUp
        }
    }

    /// Join the values that a forward scan of a subspace returned, in the
    /// order it returned them.
    pub fn reconstruct_bloc(values: &Vec<Vec<u8>>) -> (r: Vec<u8>)
        ensures
            r@ == flatten(views(values@)),
    {
        let mut r: Vec<u8> = Vec::new();
        let mut i: usize = 0;
        while i < values.len()
            invariant
                i <= values@.len(),
                r@ == flatten(views(values@).subrange(0, i as int)),
            decreases values@.len() - i,
        {
            proof {
                let s = views(values@).subrange(0, i + 1);
                assert(s =~= views(values@).subrange(0, i as int).push(values@[i as int]@));
                lemma_flatten_push(views(values@).subrange(0, i as int), values@[i as int]@);
            }
            append_bytes(&mut r, values[i].as_slice());
            i = i + 1;
        }
        assert(views(values@).subrange(0, values@.len() as int) =~= views(values@));
        r
    }

    /// The end of the key range that holds `prefix`'s subspace.
    pub fn subspace_end(prefix: &[u8]) -> (r: Vec<u8>)
        ensures
            r@ == range_end(prefix@),
    {
        let mut r = copy_bytes(prefix);
        r.push(0xFFu8);
        r
    }

    /// Where the next page of a scan starts: just past every key that begins
    /// with the last key returned.
    pub fn next_page_start(last_key: &[u8]) -> (r: Vec<u8>)
        ensures
            r@ == range_end(last_key@),
    {
        Self::subspace_end(last_key)
    }
}

} // verus!
