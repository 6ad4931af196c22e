//! A byte buffer that keeps the beginning and the end of a stream of chunks
//! and drops (but counts) the bytes in the middle.

use std::collections::VecDeque;
use vstd::prelude::*;

use crate::chunks::{lemma_flatten_concat, lemma_flatten_first, lemma_flatten_push};

verus! {

broadcast use vstd::seq_lib::group_seq_properties;

/// What a buffer holds, as mathematics: its capacity, the chunks kept at the
/// front of the stream, the chunks kept at its end, and how many bytes were
/// dropped in between.
pub struct BufferView {
    pub max_bytes: nat,
    pub head: Seq<Seq<u8>>,
    pub tail: Seq<Seq<u8>>,
    pub omitted: nat,
}

impl BufferView {
    /// Bytes reserved for the start of the stream.
    pub open spec fn head_budget(self) -> nat {
        self.max_bytes / 2
    }

    /// Bytes reserved for the end of the stream.
    pub open spec fn tail_budget(self) -> nat {
        (self.max_bytes - self.max_bytes / 2) as nat
    }

    /// The bytes kept from the start of the stream.
    pub open spec fn head_content(self) -> Seq<u8> {
        self.head.flatten()
    }

    /// The bytes kept from the end of the stream.
    pub open spec fn tail_content(self) -> Seq<u8> {
        self.tail.flatten()
    }

    /// The retained bytes: the head followed by the tail.
    pub open spec fn retained(self) -> Seq<u8> {
        self.head_content() + self.tail_content()
    }

    /// The retained chunks, in order.
    pub open spec fn chunks(self) -> Seq<Seq<u8>> {
        self.head + self.tail
    }

    /// Each end holds at most its budget, no kept chunk is empty, and the
    /// kept and dropped bytes can be counted in a `usize`.
    pub open spec fn fits(self) -> bool {
        &&& self.head_content().len() <= self.head_budget()
        &&& self.tail_content().len() <= self.tail_budget()
        &&& no_empty_chunks(self.head)
        &&& no_empty_chunks(self.tail)
        &&& self.omitted + self.retained().len() <= usize::MAX
    }

    /// The state of a buffer of capacity `max_bytes` that has seen nothing.
    pub open spec fn empty(max_bytes: nat) -> BufferView {
        BufferView { max_bytes, head: Seq::empty(), tail: Seq::empty(), omitted: 0 }
    }
}

/// Drops `n` bytes from the front of a list of chunks: whole chunks while
/// they fit in what is left to drop, then a prefix of the next chunk.
pub open spec fn trim_front(chunks: Seq<Seq<u8>>, n: nat) -> Seq<Seq<u8>>
    decreases chunks.len(),
{
    if n == 0 || chunks.len() == 0 {
        chunks
    } else if chunks[0].len() <= n {
        trim_front(chunks.drop_first(), (n - chunks[0].len()) as nat)
    } else {
        chunks.update(0, chunks[0].skip(n as int))
    }
}

/// How many bytes the tail must give up to take `incoming` more bytes.
pub open spec fn tail_overflow(v: BufferView, incoming: nat) -> nat {
    if v.tail_content().len() + incoming > v.tail_budget() {
        (v.tail_content().len() + incoming - v.tail_budget()) as nat
    } else {
        0
    }
}

/// How many leading bytes of a chunk still fit in the head.
pub open spec fn head_room(v: BufferView, c: Seq<u8>) -> nat {
    if v.head_content().len() < v.head_budget() {
        let room = (v.head_budget() - v.head_content().len()) as nat;
        if room < c.len() { room } else { c.len() }
    } else {
        0
    }
}

/// The state after one chunk is pushed: the head takes what fits in its
/// budget; the rest goes to the tail, which keeps only the last bytes that fit
/// in its budget, dropping the oldest first; every dropped byte is counted.
pub open spec fn after_push(v: BufferView, c: Seq<u8>) -> BufferView {
    if c.len() == 0 {
        v
    } else if v.max_bytes == 0 {
        BufferView { omitted: v.omitted + c.len(), ..v }
    } else {
        let k = head_room(v, c);
        let head = if k > 0 { v.head.push(c.take(k as int)) } else { v.head };
        let rest = c.skip(k as int);
        if rest.len() == 0 {
            BufferView { head, ..v }
        } else if rest.len() > v.tail_budget() {
            BufferView {
                head,
                tail: seq![rest.skip(rest.len() - v.tail_budget())],
                omitted: (v.omitted + (rest.len() - v.tail_budget()) + v.tail_content().len()) as nat,
                ..v
            }
        } else {
            let overflow = tail_overflow(v, rest.len());
            BufferView {
                head,
                tail: trim_front(v.tail, overflow).push(rest),
                omitted: v.omitted + overflow,
                ..v
            }
        }
    }
}

/// Pushing an empty chunk changes nothing: no chunk is added and no byte is
/// counted.
pub proof fn lemma_push_empty_changes_nothing(v: BufferView)
    ensures
        after_push(v, Seq::empty()) == v,
{
}

/// A buffer of capacity zero that fits keeps no chunk and no byte.
pub proof fn lemma_zero_capacity_holds_no_chunk(v: BufferView)
    requires
        v.fits(),
        v.max_bytes == 0,
    ensures
        v.chunks().len() == 0,
        v.retained().len() == 0,
{
    lemma_chunk_count_at_most_bytes(v.head);
    lemma_chunk_count_at_most_bytes(v.tail);
}

/// The state after each chunk of `chunks` is pushed in turn.
pub open spec fn after_pushes(v: BufferView, chunks: Seq<Seq<u8>>) -> BufferView
    decreases chunks.len(),
{
    if chunks.len() == 0 {
        v
    } else {
        after_push(after_pushes(v, chunks.drop_last()), chunks.last())
    }
}

/// The contents of a deque of byte vectors, each taken as a sequence.
pub open spec fn chunk_seq(d: VecDeque<Vec<u8>>) -> Seq<Seq<u8>> {
    d@.map_values(|c: Vec<u8>| c@)
}

/// Every chunk holds at least one byte.
pub open spec fn no_empty_chunks(chunks: Seq<Seq<u8>>) -> bool {
    forall|i: int| 0 <= i < chunks.len() ==> #[trigger] chunks[i].len() > 0
}

/// Dropping bytes from the front leaves no empty chunk behind.
pub proof fn lemma_trim_front_no_empty(chunks: Seq<Seq<u8>>, n: nat)
    requires
        no_empty_chunks(chunks),
    ensures
        no_empty_chunks(trim_front(chunks, n)),
    decreases chunks.len(),
{
    if n > 0 && chunks.len() > 0 {
        if chunks[0].len() <= n {
            lemma_trim_front_no_empty(chunks.drop_first(), (n - chunks[0].len()) as nat);
        } else {
            let t = trim_front(chunks, n);
            assert forall|i: int| 0 <= i < t.len() implies #[trigger] t[i].len() > 0 by {
                if i > 0 {
                    assert(t[i] == chunks[i]);
                }
            }
        }
    }
}

/// A list of non-empty chunks has no more chunks than bytes.
pub proof fn lemma_chunk_count_at_most_bytes(chunks: Seq<Seq<u8>>)
    requires
        no_empty_chunks(chunks),
    ensures
        chunks.len() <= chunks.flatten().len(),
    decreases chunks.len(),
{
    if chunks.len() > 0 {
        lemma_flatten_first(chunks);
        assert(no_empty_chunks(chunks.drop_first())) by {
            assert forall|i: int| 0 <= i < chunks.drop_first().len() implies #[trigger] chunks.drop_first()[i].len() > 0 by {
                assert(chunks.drop_first()[i] == chunks[i + 1]);
            }
        }
        lemma_chunk_count_at_most_bytes(chunks.drop_first());
    }
}

/// Dropping `n` bytes chunk-wise from the front drops exactly the first `n`
/// bytes of the flattened content.
pub proof fn lemma_trim_front_content(chunks: Seq<Seq<u8>>, n: nat)
    requires
        n <= chunks.flatten().len(),
    ensures
        trim_front(chunks, n).flatten() == chunks.flatten().skip(n as int),
    decreases chunks.len(),
{
    if n == 0 || chunks.len() == 0 {
        assert(chunks.flatten().skip(0) =~= chunks.flatten());
    } else {
        lemma_flatten_first(chunks);
        if chunks[0].len() <= n {
            lemma_trim_front_content(chunks.drop_first(), (n - chunks[0].len()) as nat);
            assert(chunks.flatten().skip(n as int) =~= chunks.drop_first().flatten().skip(
                n - chunks[0].len(),
            ));
        } else {
            let updated = chunks.update(0, chunks[0].skip(n as int));
            lemma_flatten_first(updated);
            assert(updated.drop_first() =~= chunks.drop_first());
            assert(chunks.flatten().skip(n as int) =~= chunks[0].skip(n as int)
                + chunks.drop_first().flatten());
        }
    }
}

/// Every byte pushed is either retained or counted as omitted: one push
/// raises retained plus omitted by exactly the chunk's length.
pub proof fn lemma_after_push_conserves(v: BufferView, c: Seq<u8>)
    ensures
        after_push(v, c).omitted + after_push(v, c).retained().len() == v.omitted
            + v.retained().len() + c.len(),
        after_push(v, c).max_bytes == v.max_bytes,
{
    if c.len() > 0 && v.max_bytes > 0 {
        let k = head_room(v, c);
        let rest = c.skip(k as int);
        let w = after_push(v, c);
        if k > 0 {
            lemma_flatten_push(v.head, c.take(k as int));
        }
        assert(w.head_content().len() == v.head_content().len() + k);
        if rest.len() > v.tail_budget() {
            lemma_flatten_push(Seq::<Seq<u8>>::empty(), rest.skip(rest.len() - v.tail_budget()));
            assert(seq![rest.skip(rest.len() - v.tail_budget())] =~= Seq::<Seq<u8>>::empty().push(
                rest.skip(rest.len() - v.tail_budget()),
            ));
        } else if rest.len() > 0 {
            let overflow = tail_overflow(v, rest.len());
            lemma_trim_front_content(v.tail, overflow);
            lemma_flatten_push(trim_front(v.tail, overflow), rest);
        }
    }
}

/// The chunk list of a deque after `push_back`.
pub proof fn lemma_chunk_seq_push(d: VecDeque<Vec<u8>>, e: VecDeque<Vec<u8>>, c: Vec<u8>)
    requires
        e@ == d@.push(c),
    ensures
        chunk_seq(e) == chunk_seq(d).push(c@),
{
    assert(chunk_seq(e) =~= chunk_seq(d).push(c@));
}

/// The chunk list of a deque after `pop_front`.
pub proof fn lemma_chunk_seq_pop_front(d: VecDeque<Vec<u8>>, e: VecDeque<Vec<u8>>)
    requires
        d@.len() > 0,
        e@ == d@.subrange(1, d@.len() as int),
    ensures
        chunk_seq(e) == chunk_seq(d).drop_first(),
        chunk_seq(d)[0] == d@[0]@,
{
    assert(chunk_seq(e) =~= chunk_seq(d).drop_first());
}

/// The chunk list of a deque after `push_front`.
pub proof fn lemma_chunk_seq_push_front(d: VecDeque<Vec<u8>>, e: VecDeque<Vec<u8>>, c: Vec<u8>)
    requires
        e@ == seq![c] + d@,
    ensures
        chunk_seq(e) == seq![c@] + chunk_seq(d),
{
    assert(chunk_seq(e) =~= seq![c@] + chunk_seq(d));
}

/// The retained bytes with `marker` between head and tail when bytes were
/// omitted there.
pub open spec fn with_marker(v: BufferView, marker: Seq<u8>) -> Seq<u8> {
    if v.omitted > 0 {
        v.head_content() + marker + v.tail_content()
    } else {
        v.retained()
    }
}

/// The contents of a vector of byte vectors, each taken as a sequence.
pub open spec fn vec_chunks(v: Seq<Vec<u8>>) -> Seq<Seq<u8>> {
    v.map_values(|c: Vec<u8>| c@)
}

/// Pushing two lists of chunks in turn is pushing their concatenation.
pub proof fn lemma_after_pushes_concat(v: BufferView, a: Seq<Seq<u8>>, b: Seq<Seq<u8>>)
    ensures
        after_pushes(after_pushes(v, a), b) == after_pushes(v, a + b),
    decreases b.len(),
{
    if b.len() == 0 {
        assert(a + b =~= a);
    } else {
        lemma_after_pushes_concat(v, a, b.drop_last());
        assert((a + b).drop_last() =~= a + b.drop_last());
        assert((a + b).last() == b.last());
    }
}

/// Pushing a list of chunks raises retained plus omitted by the total length
/// of the chunks.
pub proof fn lemma_after_pushes_conserves(v: BufferView, chunks: Seq<Seq<u8>>)
    ensures
        after_pushes(v, chunks).omitted + after_pushes(v, chunks).retained().len() == v.omitted
            + v.retained().len() + chunks.flatten().len(),
        after_pushes(v, chunks).max_bytes == v.max_bytes,
    decreases chunks.len(),
{
    if chunks.len() > 0 {
        lemma_after_pushes_conserves(v, chunks.drop_last());
        lemma_after_push_conserves(after_pushes(v, chunks.drop_last()), chunks.last());
        lemma_flatten_push(chunks.drop_last(), chunks.last());
        assert(chunks.drop_last().push(chunks.last()) =~= chunks);
    }
}

/// Appends the bytes of every chunk, in order.
fn append_chunks(out: &mut Vec<u8>, chunks: &VecDeque<Vec<u8>>)
    ensures
        final(out)@ == old(out)@ + chunk_seq(*chunks).flatten(),
{
    let ghost start = out@;
    let n = chunks.len();
    let mut i: usize = 0;
    while i < n
        invariant
            n == chunks@.len(),
            i <= n,
            out@ == start + chunk_seq(*chunks).take(i as int).flatten(),
        decreases n - i,
    {
        let chunk = &chunks[i];
        out.extend_from_slice(chunk.as_slice());
        proof {
            let cs = chunk_seq(*chunks);
            assert(cs.take(i + 1) =~= cs.take(i as int).push(cs[i as int]));
            lemma_flatten_push(cs.take(i as int), cs[i as int]);
            assert(out@ =~= start + cs.take(i + 1).flatten());
        }
        i += 1;
    }
    proof {
        assert(chunk_seq(*chunks).take(n as int) =~= chunk_seq(*chunks));
    }
}

/// `s` without its first `n` bytes; empty when `s` is shorter than `n`.
pub open spec fn drop_prefix(s: Seq<u8>, n: int) -> Seq<u8> {
    if n <= s.len() {
        s.skip(n)
    } else {
        Seq::empty()
    }
}

/// Appends the bytes of the chunks that come after the first `skip` bytes;
/// returns how much of `skip` the chunks did not cover.
fn append_chunks_after(out: &mut Vec<u8>, chunks: &VecDeque<Vec<u8>>, skip: usize) -> (left: usize)
    ensures
        final(out)@ == old(out)@ + drop_prefix(chunk_seq(*chunks).flatten(), skip as int),
        left == (if skip <= chunk_seq(*chunks).flatten().len() {
            0
        } else {
            skip - chunk_seq(*chunks).flatten().len()
        }),
{
    let ghost start = out@;
    let ghost cs = chunk_seq(*chunks);
    let n = chunks.len();
    let mut i: usize = 0;
    let mut left = skip;
    while i < n
        invariant
            n == chunks@.len(),
            cs == chunk_seq(*chunks),
            i <= n,
            out@ == start + drop_prefix(cs.take(i as int).flatten(), skip as int),
            left == (if skip <= cs.take(i as int).flatten().len() {
                0
            } else {
                skip - cs.take(i as int).flatten().len()
            }),
        decreases n - i,
    {
        let chunk = &chunks[i];
        let len = chunk.len();
        proof {
            assert(cs.take(i + 1) =~= cs.take(i as int).push(cs[i as int]));
            lemma_flatten_push(cs.take(i as int), cs[i as int]);
        }
        let ghost before = cs.take(i as int).flatten();
        if left >= len {
            left = left - len;
            proof {
                assert(drop_prefix(before + cs[i as int], skip as int) =~= drop_prefix(
                    before,
                    skip as int,
                ));
            }
        } else {
            let ghost out_before = out@;
            let mut j = left;
            while j < len
                invariant
                    left <= j <= len,
                    len == chunk@.len(),
                    out@ == out_before + chunk@.subrange(left as int, j as int),
                decreases len - j,
            {
                out.push(chunk[j]);
                proof {
                    assert(chunk@.subrange(left as int, j + 1) =~= chunk@.subrange(
                        left as int,
                        j as int,
                    ).push(chunk@[j as int]));
                }
                j += 1;
            }
            proof {
                assert(chunk@ == cs[i as int]);
                assert(drop_prefix(before + cs[i as int], skip as int) =~= drop_prefix(
                    before,
                    skip as int,
                ) + chunk@.subrange(left as int, len as int));
            }
            left = 0;
        }
        i += 1;
    }
    proof {
        assert(cs.take(n as int) =~= cs);
    }
    left
}

/// Copies every chunk, in order, onto the end of `out`.
fn copy_chunks(out: &mut Vec<Vec<u8>>, chunks: &VecDeque<Vec<u8>>)
    ensures
        vec_chunks(final(out)@) == vec_chunks(old(out)@) + chunk_seq(*chunks),
{
    let ghost start = vec_chunks(out@);
    let n = chunks.len();
    let mut i: usize = 0;
    while i < n
        invariant
            n == chunks@.len(),
            i <= n,
            vec_chunks(out@) == start + chunk_seq(*chunks).take(i as int),
        decreases n - i,
    {
        let copy = chunks[i].clone();
        let ghost prev = out@;
        out.push(copy);
        proof {
            assert(copy@ =~= chunks@[i as int]@);
            assert(vec_chunks(out@) =~= vec_chunks(prev).push(copy@));
            assert(vec_chunks(out@) =~= start + chunk_seq(*chunks).take(i + 1));
        }
        i += 1;
    }
    proof {
        assert(chunk_seq(*chunks).take(n as int) =~= chunk_seq(*chunks));
    }
}

/// Moves every chunk, in order, onto the end of `out`, leaving `chunks` empty.
fn take_chunks(out: &mut Vec<Vec<u8>>, chunks: &mut VecDeque<Vec<u8>>)
    ensures
        vec_chunks(final(out)@) == vec_chunks(old(out)@) + chunk_seq(*old(chunks)),
        final(chunks)@.len() == 0,
{
    let ghost start = vec_chunks(out@);
    let ghost all = chunk_seq(*chunks);
    while chunks.len() > 0
        invariant
            all == chunk_seq(*old(chunks)),
            vec_chunks(out@) + chunk_seq(*chunks) == start + all,
        decreases chunks@.len(),
    {
        let ghost before = *chunks;
        let ghost prev = out@;
        if let Some(chunk) = chunks.pop_front() {
            proof {
                lemma_chunk_seq_pop_front(before, *chunks);
            }
            out.push(chunk);
            proof {
                assert(vec_chunks(out@) =~= vec_chunks(prev).push(chunk@));
                assert(vec_chunks(out@) + chunk_seq(*chunks) =~= vec_chunks(prev) + chunk_seq(
                    before,
                ));
            }
        }
    }
    proof {
        assert(chunk_seq(*chunks) =~= Seq::<Seq<u8>>::empty());
        assert(vec_chunks(out@) + chunk_seq(*chunks) =~= vec_chunks(out@));
    }
}

/// One step of moving chunks into a buffer: the next chunk fits the
/// buffer's counters, and pushing it extends the pushed list by one.
proof fn lemma_move_step(t0: BufferView, done: Seq<Seq<u8>>, pending: Seq<Seq<u8>>)
    requires
        pending.len() > 0,
        t0.omitted + t0.retained().len() + (done + pending).flatten().len() <= usize::MAX,
    ensures
        after_pushes(t0, done).omitted + after_pushes(t0, done).retained().len() + pending[0].len()
            <= usize::MAX,
        after_pushes(t0, done.push(pending[0])) == after_push(after_pushes(t0, done), pending[0]),
{
    lemma_after_pushes_conserves(t0, done);
    lemma_flatten_concat(done, pending);
    lemma_flatten_first(pending);
    assert(done.push(pending[0]).drop_last() =~= done);
}

/// Pushes every chunk of `source`, front first, into `target`, leaving
/// `source` empty.
fn move_chunks(source: &mut VecDeque<Vec<u8>>, target: &mut HeadTailBuffer)
    requires
        old(target).wf(),
        old(target)@.omitted + old(target)@.retained().len() + chunk_seq(
            *old(source),
        ).flatten().len() <= usize::MAX,
    ensures
        final(target).wf(),
        final(target)@ == after_pushes(old(target)@, chunk_seq(*old(source))),
        final(source)@.len() == 0,
{
    let ghost t0 = target@;
    let ghost all = chunk_seq(*source);
    let ghost mut done: Seq<Seq<u8>> = Seq::empty();
    while source.len() > 0
        invariant
            all == chunk_seq(*old(source)),
            t0 == old(target)@,
            done + chunk_seq(*source) == all,
            target.wf(),
            target@ == after_pushes(t0, done),
            t0.omitted + t0.retained().len() + all.flatten().len() <= usize::MAX,
        decreases source@.len(),
    {
        let ghost before = *source;
        if let Some(chunk) = source.pop_front() {
            proof {
                lemma_chunk_seq_pop_front(before, *source);
                lemma_move_step(t0, done, chunk_seq(before));
            }
            target.push_chunk(chunk);
            proof {
                let next = done.push(chunk@);
                assert(next + chunk_seq(*source) =~= done + chunk_seq(before));
                done = next;
            }
        }
    }
    proof {
        assert(chunk_seq(*source) =~= Seq::<Seq<u8>>::empty());
        assert(done =~= all);
    }
}

/// Byte buffer that preserves the beginning and end, dropping the middle.
#[derive(Debug, Clone)]
pub struct HeadTailBuffer {
    max_bytes: usize,
    head: VecDeque<Vec<u8>>,
    tail: VecDeque<Vec<u8>>,
    head_bytes: usize,
    tail_bytes: usize,
    omitted_bytes: usize,
}

impl View for HeadTailBuffer {
    type V = BufferView;

    closed spec fn view(&self) -> BufferView {
        BufferView {
            max_bytes: self.max_bytes as nat,
            head: chunk_seq(self.head),
            tail: chunk_seq(self.tail),
            omitted: self.omitted_bytes as nat,
        }
    }
}

impl HeadTailBuffer {
    /// The buffer's counters agree with its chunks, and neither end holds
    /// more than its budget.
    pub closed spec fn wf(&self) -> bool {
        &&& self.head_bytes as nat == self@.head_content().len()
        &&& self.tail_bytes as nat == self@.tail_content().len()
        &&& self@.fits()
    }

    /// A well-formed buffer fits its budgets: what it keeps and counts is
    /// described by `BufferView::fits`.
    pub proof fn lemma_wf_fits(&self)
        requires
            self.wf(),
        ensures
            self@.fits(),
    {
    }

    /// An empty buffer that keeps at most `max_bytes` bytes: half for the
    /// start of the stream, the rest for its end.
    pub fn new(max_bytes: usize) -> (buffer: Self)
        ensures
            buffer.wf(),
            buffer@.fits(),
            buffer@ == BufferView::empty(max_bytes as nat),
    {
        let buffer = HeadTailBuffer {
            max_bytes,
            head: VecDeque::new(),
            tail: VecDeque::new(),
            head_bytes: 0,
            tail_bytes: 0,
            omitted_bytes: 0,
        };
        assert(chunk_seq(buffer.head) =~= Seq::<Seq<u8>>::empty());
        assert(chunk_seq(buffer.tail) =~= Seq::<Seq<u8>>::empty());
        buffer
    }

    /// Appends a chunk of output: its first bytes go to the head while the
    /// head has room, the rest to the tail, which drops its oldest bytes to
    /// stay within budget. Every byte that is not kept is counted as omitted.
    pub fn push_chunk(&mut self, chunk: Vec<u8>)
        requires
            old(self).wf(),
            chunk@.len() > 0 ==> old(self)@.omitted + old(self)@.retained().len() + chunk@.len()
                <= usize::MAX,
        ensures
            final(self).wf(),
            final(self)@.fits(),
            final(self)@ == after_push(old(self)@, chunk@),
            final(self)@.omitted + final(self)@.retained().len() == old(self)@.omitted
                + old(self)@.retained().len() + chunk@.len(),
    {
        let ghost v0 = self@;
        let ghost c0 = chunk@;
        proof {
            lemma_after_push_conserves(v0, c0);
        }
        if chunk.is_empty() {
            return;
        }
        if self.max_bytes == 0 {
            self.omitted_bytes += chunk.len();
            return;
        }
        let mut chunk = chunk;
        let head_budget = self.max_bytes / 2;
        let tail_budget = self.max_bytes - head_budget;
        let ghost k = head_room(v0, c0);
        if self.head_bytes < head_budget {
            let room = head_budget - self.head_bytes;
            let to_head = if room < chunk.len() {
                room
            } else {
                chunk.len()
            };
            let rest = chunk.split_off(to_head);
            let head_part = chunk;
            chunk = rest;
            let ghost old_head = self.head;
            self.head_bytes += head_part.len();
            self.head.push_back(head_part);
            proof {
                lemma_chunk_seq_push(old_head, self.head, head_part);
                lemma_flatten_push(chunk_seq(old_head), head_part@);
            }
        }
        assert(chunk_seq(self.head) == (if k > 0 {
            v0.head.push(c0.take(k as int))
        } else {
            v0.head
        }));
        assert(chunk@ == c0.skip(k as int));
        if chunk.is_empty() {
            return;
        }
        if tail_budget == 0 {
            self.omitted_bytes += chunk.len();
            return;
        }
        if chunk.len() > tail_budget {
            self.omitted_bytes += chunk.len() - tail_budget;
            let split_at = chunk.len() - tail_budget;
            chunk = chunk.split_off(split_at);
            self.omitted_bytes += self.tail_bytes;
            self.tail.clear();
            self.tail_bytes = 0;
        } else {
            self.trim_tail_for(chunk.len(), tail_budget);
            proof {
                lemma_trim_front_no_empty(v0.tail, tail_overflow(v0, chunk@.len()));
            }
        }
        let ghost old_tail = self.tail;
        proof {
            lemma_flatten_push(chunk_seq(old_tail), chunk@);
        }
        self.tail_bytes += chunk.len();
        self.tail.push_back(chunk);
        proof {
            lemma_chunk_seq_push(old_tail, self.tail, chunk);
            assert(no_empty_chunks(chunk_seq(self.tail))) by {
                assert forall|i: int| 0 <= i < chunk_seq(self.tail).len() implies #[trigger] chunk_seq(self.tail)[i].len() > 0 by {
                    if i < chunk_seq(old_tail).len() {
                        assert(chunk_seq(self.tail)[i] == chunk_seq(old_tail)[i]);
                    }
                }
            }
        }
    }

    /// Drops bytes from the front of the tail until `incoming_bytes` more fit
    /// in `tail_budget`, counting them as omitted.
    fn trim_tail_for(&mut self, incoming_bytes: usize, tail_budget: usize)
        requires
            old(self).tail_bytes as nat == old(self)@.tail_content().len(),
            tail_budget as nat == old(self)@.tail_budget(),
            incoming_bytes <= tail_budget,
            old(self).tail_bytes + incoming_bytes <= usize::MAX,
            old(self).omitted_bytes + old(self).tail_bytes <= usize::MAX,
        ensures
            final(self).max_bytes == old(self).max_bytes,
            final(self).head == old(self).head,
            final(self).head_bytes == old(self).head_bytes,
            chunk_seq(final(self).tail) == trim_front(
                chunk_seq(old(self).tail),
                tail_overflow(old(self)@, incoming_bytes as nat),
            ),
            final(self).tail_bytes == old(self).tail_bytes - tail_overflow(
                old(self)@,
                incoming_bytes as nat,
            ),
            final(self).omitted_bytes == old(self).omitted_bytes + tail_overflow(
                old(self)@,
                incoming_bytes as nat,
            ),
    {
        let ghost t0 = chunk_seq(self.tail);
        let ghost ov0 = tail_overflow(self@, incoming_bytes as nat);
        while self.tail_bytes + incoming_bytes > tail_budget
            invariant
                self.max_bytes == old(self).max_bytes,
                self.head == old(self).head,
                self.head_bytes == old(self).head_bytes,
                tail_budget as nat == old(self)@.tail_budget(),
                incoming_bytes <= tail_budget,
                self.tail_bytes as nat == chunk_seq(self.tail).flatten().len(),
                self.tail_bytes <= old(self).tail_bytes,
                old(self).tail_bytes + incoming_bytes <= usize::MAX,
                self.omitted_bytes + self.tail_bytes == old(self).omitted_bytes
                    + old(self).tail_bytes,
                old(self).omitted_bytes + old(self).tail_bytes <= usize::MAX,
                trim_front(
                    chunk_seq(self.tail),
                    if self.tail_bytes + incoming_bytes > tail_budget {
                        (self.tail_bytes + incoming_bytes - tail_budget) as nat
                    } else {
                        0
                    },
                ) == trim_front(t0, ov0),
            decreases self.tail_bytes, self.tail@.len(),
        {
            let overflow = self.tail_bytes + incoming_bytes - tail_budget;
            let ghost before = self.tail;
            if let Some(front) = self.tail.pop_front() {
                proof {
                    lemma_chunk_seq_pop_front(before, self.tail);
                    lemma_flatten_first(chunk_seq(before));
                }
                if front.len() <= overflow {
                    let removed = front.len();
                    self.tail_bytes -= removed;
                    self.omitted_bytes += removed;
                } else {
                    let mut dropped = front;
                    let kept = dropped.split_off(overflow);
                    let ghost popped = self.tail;
                    self.tail.push_front(kept);
                    self.tail_bytes -= overflow;
                    self.omitted_bytes += overflow;
                    proof {
                        lemma_chunk_seq_push_front(popped, self.tail, kept);
                        assert(chunk_seq(self.tail) =~= chunk_seq(before).update(
                            0,
                            chunk_seq(before)[0].skip(overflow as int),
                        ));
                        lemma_flatten_first(chunk_seq(self.tail));
                    }
                }
            } else {
                proof {
                    assert(chunk_seq(before) =~= Seq::<Seq<u8>>::empty());
                }
            }
        }
        proof {
            lemma_trim_front_content(t0, ov0);
        }
    }

    /// The retained chunks, head first, each copied.
    pub fn snapshot(&self) -> (out: Vec<Vec<u8>>)
        requires
            self.wf(),
        ensures
            vec_chunks(out@) == self@.chunks(),
            vec_chunks(out@).flatten() == self@.retained(),
            no_empty_chunks(vec_chunks(out@)),
    {
        let mut out: Vec<Vec<u8>> = Vec::with_capacity(self.chunk_count());
        copy_chunks(&mut out, &self.head);
        copy_chunks(&mut out, &self.tail);
        proof {
            assert(Seq::<Seq<u8>>::empty() + chunk_seq(self.head) == chunk_seq(self.head));
            self.lemma_chunks_flatten();
        }
        out
    }

    /// How many chunks are retained; never more than the retained bytes.
    fn chunk_count(&self) -> (n: usize)
        requires
            self.wf(),
        ensures
            n == self@.chunks().len(),
    {
        proof {
            lemma_chunk_count_at_most_bytes(self@.head);
            lemma_chunk_count_at_most_bytes(self@.tail);
        }
        self.head.len() + self.tail.len()
    }

    /// The retained chunks hold the retained bytes, and none is empty.
    proof fn lemma_chunks_flatten(&self)
        requires
            self.wf(),
        ensures
            self@.chunks().flatten() == self@.retained(),
            no_empty_chunks(self@.chunks()),
    {
        lemma_flatten_concat(self@.head, self@.tail);
        let cs = self@.chunks();
        assert forall|i: int| 0 <= i < cs.len() implies #[trigger] cs[i].len() > 0 by {
            if i < self@.head.len() {
                assert(cs[i] == self@.head[i]);
            } else {
                assert(cs[i] == self@.tail[i - self@.head.len()]);
            }
        }
    }

    /// The retained bytes: the head followed by the tail.
    pub fn to_bytes(&self) -> (out: Vec<u8>)
        requires
            self.wf(),
        ensures
            out@ == self@.retained(),
    {
        let mut out = Vec::with_capacity(self.retained_bytes());
        self.append_retained_to(&mut out, None);
        out
    }

    /// The retained bytes, with `marker` between head and tail when bytes
    /// were omitted there.
    pub fn to_bytes_with_omission_marker(&self, marker: &[u8]) -> (out: Vec<u8>)
        requires
            self.wf(),
            self@.omitted > 0 ==> self@.retained().len() + marker@.len() <= usize::MAX,
        ensures
            out@ == with_marker(self@, marker@),
            out@ == (if self@.omitted == 0 {
                self@.retained()
            } else {
                self@.retained().take(self@.head_content().len() as int) + marker@
                    + self@.retained().skip(self@.head_content().len() as int)
            }),
    {
        proof {
            let r = self@.retained();
            let h = self@.head_content().len() as int;
            assert(r.take(h) =~= self@.head_content());
            assert(r.skip(h) =~= self@.tail_content());
        }
        let marker_bytes = if self.omitted_bytes > 0 {
            marker.len()
        } else {
            0
        };
        let mut out = Vec::with_capacity(self.retained_bytes() + marker_bytes);
        self.append_retained_to(&mut out, Some(marker));
        out
    }

    fn append_retained_to(&self, out: &mut Vec<u8>, marker: Option<&[u8]>)
        requires
            self.wf(),
        ensures
            final(out)@ == old(out)@ + (match marker {
                Some(m) => with_marker(self@, m@),
                None => self@.retained(),
            }),
    {
        let ghost start = out@;
        append_chunks(out, &self.head);
        if self.omitted_bytes > 0 {
            if let Some(marker) = marker {
                out.extend_from_slice(marker);
            }
        }
        let ghost middle = out@;
        append_chunks(out, &self.tail);
        proof {
            assert(out@ =~= start + (match marker {
                Some(m) => with_marker(self@, m@),
                None => self@.retained(),
            }));
        }
    }

    /// Up to `max_bytes` bytes from the end of the retained content (head
    /// followed by tail), in order, without building the whole content.
    pub fn suffix_bytes(&self, max_bytes: usize) -> (out: Vec<u8>)
        requires
            self.wf(),
        ensures
            out@ == self@.retained().skip(
                self@.retained().len() - (if max_bytes < self@.retained().len() {
                    max_bytes as nat
                } else {
                    self@.retained().len()
                }),
            ),
    {
        let retained = self.retained_bytes();
        let take = if max_bytes < retained {
            max_bytes
        } else {
            retained
        };
        if take == 0 {
            proof {
                assert(self@.retained().skip(self@.retained().len() as int) =~= Seq::<u8>::empty());
            }
            return Vec::new();
        }
        let mut out: Vec<u8> = Vec::new();
        let start = retained - take;
        let rem = append_chunks_after(&mut out, &self.head, start);
        let rem2 = append_chunks_after(&mut out, &self.tail, rem);
        proof {
            let h = self@.head_content();
            let t = self@.tail_content();
            if start <= h.len() {
                assert(drop_prefix(t, 0) =~= t);
            }
            assert(out@ =~= (h + t).skip(start as int));
        }
        out
    }

    /// Takes the retained chunks out, head first, and resets the buffer.
    pub fn drain(&mut self) -> (out: Vec<Vec<u8>>)
        requires
            old(self).wf(),
        ensures
            final(self).wf(),
            final(self)@.fits(),
            final(self)@ == BufferView::empty(old(self)@.max_bytes),
            vec_chunks(out@) == old(self)@.chunks(),
            vec_chunks(out@).flatten() == old(self)@.retained(),
            no_empty_chunks(vec_chunks(out@)),
    {
        proof {
            self.lemma_chunks_flatten();
        }
        let mut out: Vec<Vec<u8>> = Vec::with_capacity(self.chunk_count());
        take_chunks(&mut out, &mut self.head);
        take_chunks(&mut out, &mut self.tail);
        proof {
            assert(Seq::<Seq<u8>>::empty() + chunk_seq(old(self).head) == chunk_seq(
                old(self).head,
            ));
        }
        self.clear();
        out
    }

    /// Pushes the retained chunks, head first, into `target` and resets this
    /// buffer.
    pub fn drain_into(&mut self, target: &mut HeadTailBuffer)
        requires
            old(self).wf(),
            old(target).wf(),
            old(target)@.omitted + old(target)@.retained().len() + old(self)@.retained().len()
                <= usize::MAX,
        ensures
            final(self).wf(),
            final(self)@.fits(),
            final(self)@ == BufferView::empty(old(self)@.max_bytes),
            final(target).wf(),
            final(target)@.fits(),
            final(target)@ == after_pushes(old(target)@, old(self)@.chunks()),
    {
        let ghost t0 = target@;
        let ghost h0 = chunk_seq(self.head);
        let ghost tl0 = chunk_seq(self.tail);
        move_chunks(&mut self.head, target);
        proof {
            lemma_after_pushes_conserves(t0, h0);
        }
        move_chunks(&mut self.tail, target);
        proof {
            lemma_after_pushes_concat(t0, h0, tl0);
        }
        self.clear();
    }

    fn clear(&mut self)
        ensures
            final(self).wf(),
            final(self)@ == BufferView::empty(old(self)@.max_bytes),
    {
        self.head.clear();
        self.tail.clear();
        self.head_bytes = 0;
        self.tail_bytes = 0;
        self.omitted_bytes = 0;
        proof {
            assert(chunk_seq(self.head) =~= Seq::<Seq<u8>>::empty());
            assert(chunk_seq(self.tail) =~= Seq::<Seq<u8>>::empty());
        }
    }

    /// How many bytes are retained.
    pub fn retained_bytes(&self) -> (n: usize)
        requires
            self.wf(),
        ensures
            n == self@.retained().len(),
            n <= self@.max_bytes,
            n - self@.head_content().len() <= self@.tail_budget(),
    {
        self.head_bytes + self.tail_bytes
    }

    /// How many bytes were dropped between head and tail.
    pub fn omitted_bytes(&self) -> (n: usize)
        ensures
            n == self@.omitted,
    {
        self.omitted_bytes
    }

    /// Length in bytes of the retained head (the split point: `to_bytes()` is
    /// the head followed by the tail, with `omitted_bytes` dropped between).
    pub fn head_bytes(&self) -> (n: usize)
        requires
            self.wf(),
        ensures
            n == self@.head_content().len(),
            n <= self@.head_budget(),
            self@.retained().take(n as int) == self@.head_content(),
    {
        proof {
            assert(self@.retained().take(self.head_bytes as int) =~= self@.head_content());
        }
        self.head_bytes
    }
}

} // verus!
