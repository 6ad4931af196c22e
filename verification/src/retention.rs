//! What a head/tail buffer keeps of the stream it was fed, independent of how
//! the stream was cut into chunks.

use vstd::prelude::*;

use crate::buffer::{after_push, after_pushes, head_room, tail_overflow, trim_front, BufferView};
use crate::buffer::{
    lemma_after_push_conserves, lemma_after_pushes_conserves, lemma_trim_front_content,
};
use crate::chunks::{lemma_flatten_push};

verus! {

broadcast use vstd::seq_lib::group_seq_properties;

/// The start of `stream` that a buffer of capacity `max_bytes` keeps: its
/// first `max_bytes / 2` bytes, or all of it if it is shorter.
pub open spec fn kept_head(max_bytes: nat, stream: Seq<u8>) -> Seq<u8> {
    if stream.len() < max_bytes / 2 {
        stream
    } else {
        stream.take((max_bytes / 2) as int)
    }
}

/// How many bytes at the end of `stream` a buffer of capacity `max_bytes`
/// keeps: what follows the kept head, up to the tail budget.
pub open spec fn kept_tail_len(max_bytes: nat, stream: Seq<u8>) -> nat {
    let after_head = (stream.len() - kept_head(max_bytes, stream).len()) as nat;
    let budget = (max_bytes - max_bytes / 2) as nat;
    if after_head < budget {
        after_head
    } else {
        budget
    }
}

/// The end of `stream` that a buffer of capacity `max_bytes` keeps.
pub open spec fn kept_tail(max_bytes: nat, stream: Seq<u8>) -> Seq<u8> {
    stream.skip(stream.len() - kept_tail_len(max_bytes, stream))
}

/// How many bytes of `stream` a buffer of capacity `max_bytes` drops.
pub open spec fn dropped(max_bytes: nat, stream: Seq<u8>) -> nat {
    (stream.len() - kept_head(max_bytes, stream).len() - kept_tail_len(max_bytes, stream)) as nat
}

/// `v` is what a buffer holds after being fed exactly the bytes of `stream`.
pub open spec fn retains_stream(v: BufferView, stream: Seq<u8>) -> bool {
    &&& v.head_content() == kept_head(v.max_bytes, stream)
    &&& v.tail_content() == kept_tail(v.max_bytes, stream)
    &&& v.omitted == dropped(v.max_bytes, stream)
}

/// An empty buffer has been fed the empty stream.
pub proof fn lemma_empty_retains_nothing(max_bytes: nat)
    ensures
        retains_stream(BufferView::empty(max_bytes), Seq::empty()),
{
    let e = Seq::<u8>::empty();
    assert(kept_head(max_bytes, e) =~= e);
    assert(kept_tail(max_bytes, e) =~= e);
}

/// The head after a push is the kept head of the longer stream.
proof fn lemma_push_head(v: BufferView, stream: Seq<u8>, c: Seq<u8>)
    requires
        retains_stream(v, stream),
        c.len() > 0,
        v.max_bytes > 0,
    ensures
        after_push(v, c).head_content() == kept_head(v.max_bytes, stream + c),
        c.skip(head_room(v, c) as int).len() > 0 ==> kept_head(v.max_bytes, stream + c).len()
            == v.max_bytes / 2,
        c.skip(head_room(v, c) as int).len() > 0 ==> c.skip(head_room(v, c) as int).len()
            + v.max_bytes / 2 == c.len() + v.head_content().len(),
        stream.len() >= v.max_bytes / 2 ==> head_room(v, c) == 0,
        stream.len() < v.max_bytes / 2 ==> v.head_content() == stream,
{
    let s2 = stream + c;
    let max = v.max_bytes;
    let hb = max / 2;
    let h = v.head_content();
    let k = head_room(v, c);
    if k > 0 {
        lemma_flatten_push(v.head, c.take(k as int));
    }
    assert(after_push(v, c).head_content() =~= h + c.take(k as int));
    if stream.len() < hb {
        assert(h == stream);
        assert(kept_head(max, s2) =~= stream + c.take(k as int));
    } else {
        assert(kept_head(max, s2) =~= stream.take(hb as int));
        assert(h + c.take(0) =~= h);
    }
}

/// The tail and the omitted count after a push whose remainder fills the
/// whole tail budget.
proof fn lemma_push_tail_replaced(v: BufferView, stream: Seq<u8>, c: Seq<u8>)
    requires
        retains_stream(v, stream),
        c.len() > 0,
        v.max_bytes > 0,
        c.skip(head_room(v, c) as int).len() > v.tail_budget(),
    ensures
        after_push(v, c).tail_content() == kept_tail(v.max_bytes, stream + c),
        after_push(v, c).omitted == dropped(v.max_bytes, stream + c),
{
    let s2 = stream + c;
    let max = v.max_bytes;
    let tb = v.tail_budget();
    let rest = c.skip(head_room(v, c) as int);
    lemma_push_head(v, stream, c);
    let last = rest.skip(rest.len() - tb);
    lemma_flatten_push(Seq::<Seq<u8>>::empty(), last);
    assert(seq![last] =~= Seq::<Seq<u8>>::empty().push(last));
    assert(after_push(v, c).tail_content() =~= last);
    assert(kept_tail_len(max, s2) == tb);
    assert(last =~= s2.skip(s2.len() - tb));
}

/// The tail and the omitted count after a push whose remainder fits in the
/// tail budget.
#[verifier::spinoff_prover]
#[verifier::rlimit(40)]
proof fn lemma_push_tail_trimmed(v: BufferView, stream: Seq<u8>, c: Seq<u8>)
    requires
        retains_stream(v, stream),
        c.len() > 0,
        v.max_bytes > 0,
        0 < c.skip(head_room(v, c) as int).len() <= v.tail_budget(),
    ensures
        after_push(v, c).tail_content() == kept_tail(v.max_bytes, stream + c),
        after_push(v, c).omitted == dropped(v.max_bytes, stream + c),
{
    let s2 = stream + c;
    let max = v.max_bytes;
    let hb = max / 2;
    let t = v.tail_content();
    let rest = c.skip(head_room(v, c) as int);
    lemma_push_head(v, stream, c);
    let ov = tail_overflow(v, rest.len());
    lemma_trim_front_content(v.tail, ov);
    lemma_flatten_push(trim_front(v.tail, ov), rest);
    assert(after_push(v, c).tail_content() =~= t.skip(ov as int) + rest);
    assert(t + rest =~= s2.skip(s2.len() - t.len() - rest.len())) by {
        if stream.len() < hb {
            assert(t =~= Seq::<u8>::empty());
            assert(rest =~= c.skip(c.len() - rest.len()));
        } else {
            assert(rest == c);
        }
    }
    assert((t + rest).skip(ov as int) =~= s2.skip(s2.len() - t.len() - rest.len() + ov));
    assert(t.len() + rest.len() - ov == kept_tail_len(max, s2));
}

/// Pushing a chunk onto a buffer that holds the head and tail of `stream`
/// leaves it holding the head and tail of `stream` followed by the chunk.
pub proof fn lemma_push_extends_stream(v: BufferView, stream: Seq<u8>, c: Seq<u8>)
    requires
        retains_stream(v, stream),
    ensures
        retains_stream(after_push(v, c), stream + c),
{
    let s2 = stream + c;
    let max = v.max_bytes;
    if c.len() == 0 {
        assert(s2 =~= stream);
    } else if max == 0 {
        assert(kept_head(max, s2) =~= Seq::<u8>::empty());
        assert(kept_head(max, stream) =~= Seq::<u8>::empty());
        assert(kept_tail(max, s2) =~= Seq::<u8>::empty());
    } else {
        let rest = c.skip(head_room(v, c) as int);
        lemma_push_head(v, stream, c);
        if rest.len() == 0 {
            assert(kept_tail_len(max, stream) == 0);
            assert(v.tail_content() =~= Seq::<u8>::empty());
            assert(kept_tail(max, s2) =~= Seq::<u8>::empty());
        } else if rest.len() > v.tail_budget() {
            lemma_push_tail_replaced(v, stream, c);
        } else {
            lemma_push_tail_trimmed(v, stream, c);
        }
    }
}

/// A buffer fed a list of chunks from empty holds the head and tail of their
/// concatenation.
pub proof fn lemma_pushes_retain_stream(max_bytes: nat, chunks: Seq<Seq<u8>>)
    ensures
        retains_stream(after_pushes(BufferView::empty(max_bytes), chunks), chunks.flatten()),
    decreases chunks.len(),
{
    if chunks.len() == 0 {
        lemma_empty_retains_nothing(max_bytes);
    } else {
        lemma_pushes_retain_stream(max_bytes, chunks.drop_last());
        lemma_push_extends_stream(
            after_pushes(BufferView::empty(max_bytes), chunks.drop_last()),
            chunks.drop_last().flatten(),
            chunks.last(),
        );
        lemma_flatten_push(chunks.drop_last(), chunks.last());
        assert(chunks.drop_last().push(chunks.last()) =~= chunks);
    }
}

/// What a buffer keeps of its stream depends only on the bytes, not on how
/// they were cut into chunks.
pub proof fn lemma_chunking_does_not_matter(max_bytes: nat, a: Seq<Seq<u8>>, b: Seq<Seq<u8>>)
    requires
        a.flatten() == b.flatten(),
    ensures
        after_pushes(BufferView::empty(max_bytes), a).head_content() == after_pushes(
            BufferView::empty(max_bytes),
            b,
        ).head_content(),
        after_pushes(BufferView::empty(max_bytes), a).tail_content() == after_pushes(
            BufferView::empty(max_bytes),
            b,
        ).tail_content(),
        after_pushes(BufferView::empty(max_bytes), a).omitted == after_pushes(
            BufferView::empty(max_bytes),
            b,
        ).omitted,
{
    lemma_pushes_retain_stream(max_bytes, a);
    lemma_pushes_retain_stream(max_bytes, b);
    lemma_after_pushes_conserves(BufferView::empty(max_bytes), a);
    lemma_after_pushes_conserves(BufferView::empty(max_bytes), b);
}

/// A buffer keeps at most its capacity, and keeps or counts every byte of
/// its stream.
pub proof fn lemma_retained_within_capacity(v: BufferView, stream: Seq<u8>)
    requires
        retains_stream(v, stream),
    ensures
        v.head_content().len() <= v.max_bytes / 2,
        v.tail_content().len() <= v.max_bytes - v.max_bytes / 2,
        v.retained().len() <= v.max_bytes,
        v.retained().len() + v.omitted == stream.len(),
        v.head_content() == stream.take(v.head_content().len() as int),
        v.tail_content() == stream.skip(stream.len() - v.tail_content().len()),
{
    assert(stream.take(stream.len() as int) =~= stream);
}

/// A stream no longer than the capacity is kept whole, in order.
pub proof fn lemma_under_budget_keeps_everything(v: BufferView, stream: Seq<u8>)
    requires
        retains_stream(v, stream),
        stream.len() <= v.max_bytes,
    ensures
        v.retained() == stream,
        v.omitted == 0,
{
    let h = kept_head(v.max_bytes, stream);
    assert(h + stream.skip(h.len() as int) =~= stream);
}

/// A buffer of capacity zero keeps nothing and counts every byte as omitted.
pub proof fn lemma_zero_capacity_keeps_nothing(v: BufferView, stream: Seq<u8>)
    requires
        retains_stream(v, stream),
        v.max_bytes == 0,
    ensures
        v.retained().len() == 0,
        v.omitted == stream.len(),
{
}

/// Bytes are dropped only once both the head and the tail are full.
pub proof fn lemma_drops_only_when_full(v: BufferView, stream: Seq<u8>)
    requires
        retains_stream(v, stream),
        v.omitted > 0,
    ensures
        v.head_content().len() == v.max_bytes / 2,
        v.tail_content().len() == v.max_bytes - v.max_bytes / 2,
        v.retained().len() == v.max_bytes,
{
}

/// Chunks pushed into an empty buffer with room for all their bytes are kept
/// whole, in order: moving a buffer's chunks into such a buffer loses nothing.
pub proof fn lemma_pushes_into_room_keep_everything(max_bytes: nat, chunks: Seq<Seq<u8>>)
    requires
        chunks.flatten().len() <= max_bytes,
    ensures
        after_pushes(BufferView::empty(max_bytes), chunks).retained() == chunks.flatten(),
        after_pushes(BufferView::empty(max_bytes), chunks).omitted == 0,
{
    lemma_pushes_retain_stream(max_bytes, chunks);
    lemma_after_pushes_conserves(BufferView::empty(max_bytes), chunks);
    lemma_under_budget_keeps_everything(
        after_pushes(BufferView::empty(max_bytes), chunks),
        chunks.flatten(),
    );
}

/// Two buffers of the same capacity that hold the head and tail of the same
/// stream keep the same bytes and count the same omitted bytes.
pub proof fn lemma_same_stream_same_bytes(x: BufferView, y: BufferView, stream: Seq<u8>)
    requires
        retains_stream(x, stream),
        retains_stream(y, stream),
        x.max_bytes == y.max_bytes,
    ensures
        x.head_content() == y.head_content(),
        x.tail_content() == y.tail_content(),
        x.omitted == y.omitted,
{
}

/// For a buffer fed from empty, pushing `a` and then `c` keeps the same bytes
/// and counts the same omitted bytes as pushing `a` and `c` joined into one
/// chunk: how a stream is cut changes only the chunk boundaries.
#[verifier::spinoff_prover]
pub proof fn lemma_split_push_keeps_same_bytes(
    max_bytes: nat,
    fed: Seq<Seq<u8>>,
    a: Seq<u8>,
    c: Seq<u8>,
)
    ensures
        after_pushes(BufferView::empty(max_bytes), fed.push(a).push(c)).head_content()
            == after_pushes(BufferView::empty(max_bytes), fed.push(a + c)).head_content(),
        after_pushes(BufferView::empty(max_bytes), fed.push(a).push(c)).tail_content()
            == after_pushes(BufferView::empty(max_bytes), fed.push(a + c)).tail_content(),
        after_pushes(BufferView::empty(max_bytes), fed.push(a).push(c)).omitted
            == after_pushes(BufferView::empty(max_bytes), fed.push(a + c)).omitted,
{
    let split = fed.push(a).push(c);
    let joined = fed.push(a + c);
    lemma_pushes_retain_stream(max_bytes, split);
    lemma_pushes_retain_stream(max_bytes, joined);
    lemma_after_pushes_conserves(BufferView::empty(max_bytes), split);
    lemma_after_pushes_conserves(BufferView::empty(max_bytes), joined);
    assert(split.flatten() == joined.flatten()) by {
        crate::chunks::lemma_flatten_push(fed.push(a), c);
        crate::chunks::lemma_flatten_push(fed, a);
        crate::chunks::lemma_flatten_push(fed, a + c);
        assert(fed.flatten() + a + c =~= fed.flatten() + (a + c));
    }
    lemma_same_stream_same_bytes(
        after_pushes(BufferView::empty(max_bytes), split),
        after_pushes(BufferView::empty(max_bytes), joined),
        split.flatten(),
    );
}

} // verus!
