use exec_protocol::buffer::HeadTailBuffer;

#[test]
fn retains_all_output_when_under_budget() {
    let mut buffer = HeadTailBuffer::new(16);
    buffer.push_chunk(b"hello".to_vec());
    buffer.push_chunk(b" world".to_vec());

    assert_eq!(buffer.to_bytes(), b"hello world".to_vec());
    assert_eq!(buffer.retained_bytes(), 11);
    assert_eq!(buffer.omitted_bytes(), 0);
}

#[test]
fn preserves_head_and_tail_when_over_budget() {
    let mut buffer = HeadTailBuffer::new(12);
    buffer.push_chunk(b"abcdef".to_vec());
    buffer.push_chunk(b"ghij".to_vec());
    buffer.push_chunk(b"klmnop".to_vec());

    assert_eq!(buffer.to_bytes(), b"abcdefklmnop".to_vec());
    assert_eq!(buffer.retained_bytes(), 12);
    assert_eq!(buffer.omitted_bytes(), 4);
}

#[test]
fn large_chunk_keeps_only_tail_suffix() {
    let mut buffer = HeadTailBuffer::new(10);
    buffer.push_chunk(b"abcde".to_vec());
    buffer.push_chunk(b"0123456789".to_vec());

    assert_eq!(buffer.to_bytes(), b"abcde56789".to_vec());
    assert_eq!(buffer.retained_bytes(), 10);
    assert_eq!(buffer.omitted_bytes(), 5);
}

#[test]
fn omission_marker_is_inserted_between_head_and_tail() {
    let mut buffer = HeadTailBuffer::new(12);
    buffer.push_chunk(b"abcdef".to_vec());
    buffer.push_chunk(b"ghij".to_vec());
    buffer.push_chunk(b"klmnop".to_vec());

    assert_eq!(
        buffer.to_bytes_with_omission_marker(b"\n...[truncated]...\n"),
        b"abcdef\n...[truncated]...\nklmnop".to_vec()
    );
}

#[test]
fn omission_marker_is_not_inserted_without_omitted_bytes() {
    let mut buffer = HeadTailBuffer::new(12);
    buffer.push_chunk(b"abcdef".to_vec());

    assert_eq!(
        buffer.to_bytes_with_omission_marker(b"\n...[truncated]...\n"),
        b"abcdef".to_vec()
    );
}

#[test]
fn suffix_bytes_returns_last_n_across_chunks() {
    let mut buffer = HeadTailBuffer::new(64);
    buffer.push_chunk(b"abc".to_vec());
    buffer.push_chunk(b"defgh".to_vec());
    buffer.push_chunk(b"ij".to_vec());

    assert_eq!(buffer.suffix_bytes(0), Vec::<u8>::new());
    assert_eq!(buffer.suffix_bytes(1), b"j".to_vec());
    assert_eq!(buffer.suffix_bytes(4), b"fghij".to_vec()[1..].to_vec());
    assert_eq!(buffer.suffix_bytes(100), b"abcdefghij".to_vec());
}

#[test]
fn suffix_bytes_spans_head_when_tail_is_short() {
    let mut buffer = HeadTailBuffer::new(12);
    buffer.push_chunk(b"abcdef".to_vec());
    buffer.push_chunk(b"ghij".to_vec());
    buffer.push_chunk(b"klmnop".to_vec());

    // Retained content is "abcdef" ++ "klmnop"; suffix should walk into the head.
    assert_eq!(buffer.suffix_bytes(8), b"efklmnop".to_vec());
}

#[test]
fn zero_budget_omits_everything() {
    let mut buffer = HeadTailBuffer::new(0);
    buffer.push_chunk(b"abcdef".to_vec());

    assert_eq!(buffer.to_bytes(), Vec::<u8>::new());
    assert_eq!(buffer.retained_bytes(), 0);
    assert_eq!(buffer.omitted_bytes(), 6);
}

#[test]
fn drain_returns_chunks_and_resets_state() {
    let mut buffer = HeadTailBuffer::new(8);
    buffer.push_chunk(b"abcd".to_vec());
    buffer.push_chunk(b"efgh".to_vec());

    let drained = buffer.drain();
    let drained_bytes = drained.concat();
    assert_eq!(drained_bytes, b"abcdefgh".to_vec());

    assert_eq!(buffer.retained_bytes(), 0);
    assert_eq!(buffer.omitted_bytes(), 0);
    assert_eq!(buffer.snapshot(), Vec::<Vec<u8>>::new());
}

#[test]
fn drain_into_moves_chunks_without_intermediate_snapshot() {
    let mut source = HeadTailBuffer::new(8);
    let mut target = HeadTailBuffer::new(16);
    source.push_chunk(b"abcd".to_vec());
    source.push_chunk(b"efgh".to_vec());

    source.drain_into(&mut target);

    assert_eq!(target.to_bytes(), b"abcdefgh".to_vec());
    assert_eq!(source.retained_bytes(), 0);
    assert_eq!(source.omitted_bytes(), 0);
    assert_eq!(source.snapshot(), Vec::<Vec<u8>>::new());
}

#[test]
fn empty_chunk_changes_nothing() {
    let mut buffer = HeadTailBuffer::new(4);
    buffer.push_chunk(b"ab".to_vec());
    buffer.push_chunk(Vec::new());
    assert_eq!(buffer.snapshot(), vec![b"ab".to_vec()]);
    assert_eq!(buffer.omitted_bytes(), 0);
}

#[test]
fn head_fills_then_tail_trims_oldest_bytes() {
    // head budget 3, tail budget 3
    let mut buffer = HeadTailBuffer::new(6);
    buffer.push_chunk(b"ab".to_vec());
    buffer.push_chunk(b"cd".to_vec());
    assert_eq!(buffer.snapshot(), vec![b"ab".to_vec(), b"c".to_vec(), b"d".to_vec()]);
    buffer.push_chunk(b"ef".to_vec());
    buffer.push_chunk(b"g".to_vec());
    // tail held "d","ef"; "g" needs one byte: "d" goes
    assert_eq!(buffer.snapshot(), vec![b"ab".to_vec(), b"c".to_vec(), b"ef".to_vec(), b"g".to_vec()]);
    assert_eq!(buffer.omitted_bytes(), 1);
    buffer.push_chunk(b"h".to_vec());
    // "e" is cut from the front of "ef"
    assert_eq!(buffer.snapshot(), vec![b"ab".to_vec(), b"c".to_vec(), b"f".to_vec(), b"g".to_vec(), b"h".to_vec()]);
    assert_eq!(buffer.to_bytes(), b"abcfgh".to_vec());
    assert_eq!(buffer.omitted_bytes(), 2);
    assert_eq!(buffer.head_bytes(), 3);
}

#[test]
fn result_does_not_depend_on_chunking() {
    let stream = b"the quick brown fox jumps over the lazy dog";
    let mut whole = HeadTailBuffer::new(11);
    whole.push_chunk(stream.to_vec());
    let mut bytewise = HeadTailBuffer::new(11);
    for b in stream.iter() {
        bytewise.push_chunk(vec![*b]);
    }
    let mut pieces = HeadTailBuffer::new(11);
    for piece in stream.chunks(4) {
        pieces.push_chunk(piece.to_vec());
    }
    assert_eq!(whole.to_bytes(), b"the qzy dog".to_vec());
    assert_eq!(whole.to_bytes(), bytewise.to_bytes());
    assert_eq!(whole.to_bytes(), pieces.to_bytes());
    assert_eq!(whole.omitted_bytes(), bytewise.omitted_bytes());
    assert_eq!(whole.omitted_bytes(), pieces.omitted_bytes());
    assert_eq!(whole.omitted_bytes(), stream.len() - 11);
}

#[test]
fn retained_plus_omitted_counts_every_byte() {
    let mut buffer = HeadTailBuffer::new(7);
    let mut total = 0;
    for piece in [&b"abc"[..], b"", b"defghij", b"k", b"lmnopqrstu"] {
        buffer.push_chunk(piece.to_vec());
        total += piece.len();
        assert_eq!(buffer.retained_bytes() + buffer.omitted_bytes(), total);
        assert!(buffer.retained_bytes() <= 7);
    }
}

#[test]
fn marker_sits_at_head_boundary() {
    let mut buffer = HeadTailBuffer::new(4);
    buffer.push_chunk(b"abcdefgh".to_vec());
    assert_eq!(buffer.head_bytes(), 2);
    assert_eq!(buffer.to_bytes_with_omission_marker(b"|"), b"ab|gh".to_vec());
    assert_eq!(buffer.suffix_bytes(3), b"bgh".to_vec());
}

#[test]
fn drain_into_pushes_through_target_budget() {
    let mut source = HeadTailBuffer::new(8);
    source.push_chunk(b"abcd".to_vec());
    source.push_chunk(b"efgh".to_vec());
    let mut target = HeadTailBuffer::new(4);
    target.push_chunk(b"xy".to_vec());
    source.drain_into(&mut target);
    assert_eq!(target.to_bytes(), b"xygh".to_vec());
    assert_eq!(target.omitted_bytes(), 6);
    assert_eq!(source.omitted_bytes(), 0);
}

#[test]
fn drain_keeps_capacity() {
    let mut buffer = HeadTailBuffer::new(4);
    buffer.push_chunk(b"abcdef".to_vec());
    assert_eq!(buffer.drain(), vec![b"ab".to_vec(), b"ef".to_vec()]);
    buffer.push_chunk(b"123456".to_vec());
    assert_eq!(buffer.to_bytes(), b"1256".to_vec());
    assert_eq!(buffer.omitted_bytes(), 2);
}

#[test]
fn empty_chunk_leaves_every_reading_unchanged() {
    let mut buffer = HeadTailBuffer::new(6);
    buffer.push_chunk(b"abcdefgh".to_vec());
    let before = (buffer.snapshot(), buffer.omitted_bytes(), buffer.retained_bytes(), buffer.head_bytes());
    buffer.push_chunk(Vec::new());
    assert_eq!(before, (buffer.snapshot(), buffer.omitted_bytes(), buffer.retained_bytes(), buffer.head_bytes()));
}

#[test]
fn zero_capacity_keeps_no_chunk() {
    let mut buffer = HeadTailBuffer::new(0);
    buffer.push_chunk(b"abc".to_vec());
    buffer.push_chunk(b"de".to_vec());
    assert!(buffer.snapshot().is_empty());
    assert_eq!(buffer.retained_bytes(), 0);
    assert_eq!(buffer.omitted_bytes(), 5);
}

#[test]
fn split_and_joined_pushes_keep_the_same_bytes() {
    let mut split = HeadTailBuffer::new(5);
    let mut joined = HeadTailBuffer::new(5);
    split.push_chunk(b"xy".to_vec());
    joined.push_chunk(b"xy".to_vec());
    split.push_chunk(b"abc".to_vec());
    split.push_chunk(b"defg".to_vec());
    joined.push_chunk(b"abcdefg".to_vec());
    assert_eq!(split.to_bytes(), joined.to_bytes());
    assert_eq!(split.omitted_bytes(), joined.omitted_bytes());
    assert_eq!(split.head_bytes(), joined.head_bytes());
    assert_eq!(split.retained_bytes(), joined.retained_bytes());
}
