use chat_relay::frame::{
    encode_frame, frame_header, frame_length, read_frame, FrameDecoder, FramingError,
};

#[test]
fn header_is_big_endian() {
    assert_eq!(frame_header(258), vec![0, 0, 1, 2]);
    assert_eq!(frame_header(0x0102_0304), vec![1, 2, 3, 4]);
    assert_eq!(frame_length(&[0, 0, 1, 0]), 256);
    assert_eq!(frame_length(&[255, 255, 255, 255]), u32::MAX);
}

#[test]
fn frame_is_length_then_payload() {
    assert_eq!(encode_frame(&[7, 8, 9]), vec![0, 0, 0, 3, 7, 8, 9]);
    assert_eq!(encode_frame(&[]), vec![0, 0, 0, 0]);
}

#[test]
fn read_frame_takes_exactly_one_frame() {
    let mut bytes = encode_frame(b"abc");
    bytes.extend_from_slice(&[1, 2]);
    assert_eq!(read_frame(&bytes), Ok((b"abc".to_vec(), 7)));
}

#[test]
fn declared_length_beyond_input_is_a_failure() {
    let bytes = [0, 0, 0, 10, 1, 2, 3, 4, 5];
    assert_eq!(
        read_frame(&bytes),
        Err(FramingError::Truncated { declared: 10, available: 5 })
    );
}

#[test]
fn short_header_is_a_failure() {
    assert_eq!(read_frame(&[0, 0]), Err(FramingError::ShortHeader { available: 2 }));
    assert_eq!(read_frame(&[]), Err(FramingError::ShortHeader { available: 0 }));
}

#[test]
fn decoder_waits_for_the_whole_frame() {
    let mut d = FrameDecoder::new();
    d.push(&[0, 0, 0, 3, 1, 2]);
    assert_eq!(d.next_frame(), None);
    assert!(!d.is_at_boundary());
    assert_eq!(d.pending_len(), 6);
    d.push(&[3]);
    assert_eq!(d.next_frame(), Some(vec![1, 2, 3]));
    assert!(d.is_at_boundary());
}

#[test]
fn two_frames_in_one_stream_stay_apart() {
    let mut stream = encode_frame(b"first");
    stream.extend_from_slice(&encode_frame(b"second frame"));
    let mut d = FrameDecoder::new();
    for b in &stream {
        d.push(&[*b]);
    }
    assert_eq!(d.next_frame(), Some(b"first".to_vec()));
    assert_eq!(d.next_frame(), Some(b"second frame".to_vec()));
    assert_eq!(d.next_frame(), None);
    assert!(d.is_at_boundary());
}

#[test]
fn stream_cut_mid_frame_is_not_at_boundary() {
    let mut d = FrameDecoder::new();
    let frame = encode_frame(b"payload");
    d.push(&frame[..6]);
    assert_eq!(d.next_frame(), None);
    assert!(!d.is_at_boundary());
    assert_eq!(
        d.end_of_stream_error(),
        Some(FramingError::Truncated { declared: 7, available: 2 })
    );
}

#[test]
fn end_of_stream_errors() {
    let mut d = FrameDecoder::new();
    assert_eq!(d.end_of_stream_error(), None);
    d.push(&[0, 0]);
    assert_eq!(d.end_of_stream_error(), Some(FramingError::ShortHeader { available: 2 }));
    d.push(&[0, 1, 5]);
    assert_eq!(d.end_of_stream_error(), None);
    assert_eq!(d.next_frame(), Some(vec![5]));
    assert_eq!(d.end_of_stream_error(), None);
}

#[test]
fn whole_frames_then_a_cut_one() {
    let mut stream = encode_frame(b"one");
    stream.extend_from_slice(&encode_frame(b""));
    stream.extend_from_slice(&encode_frame(b"three"));
    stream.extend_from_slice(&[0, 0, 0, 9, b'p', b'a']);
    let mut d = FrameDecoder::new();
    d.push(&stream);
    assert_eq!(d.next_frame(), Some(b"one".to_vec()));
    assert_eq!(d.next_frame(), Some(Vec::new()));
    assert_eq!(d.next_frame(), Some(b"three".to_vec()));
    assert_eq!(d.next_frame(), None);
    assert_eq!(
        d.end_of_stream_error(),
        Some(FramingError::Truncated { declared: 9, available: 2 })
    );
}
