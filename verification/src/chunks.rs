//! Facts about sequences of byte chunks and the order in which they are read.

use vstd::prelude::*;

verus! {

broadcast use vstd::seq_lib::group_seq_properties;

/// Flattening distributes over appending one chunk.
pub proof fn lemma_flatten_push(chunks: Seq<Seq<u8>>, c: Seq<u8>)
    ensures
        chunks.push(c).flatten() == chunks.flatten() + c,
{
    chunks.lemma_flatten_push(c);
}

/// A non-empty list flattens to its first chunk followed by the rest.
pub proof fn lemma_flatten_first(chunks: Seq<Seq<u8>>)
    requires
        chunks.len() > 0,
    ensures
        chunks.flatten() == chunks[0] + chunks.drop_first().flatten(),
{
}

/// Flattening distributes over concatenation.
pub proof fn lemma_flatten_concat(a: Seq<Seq<u8>>, b: Seq<Seq<u8>>)
    ensures
        (a + b).flatten() == a.flatten() + b.flatten(),
{
    vstd::seq_lib::lemma_flatten_concat(a, b);
}

} // verus!
