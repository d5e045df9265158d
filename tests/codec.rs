use chat_relay::codec::{deserialize_message, frame_message, serialize_message, DecodeError};
use chat_relay::frame::encode_frame;
use chat_relay::message::MessageType;

fn round_trip(m: MessageType) {
    let bytes = serialize_message(&m);
    assert_eq!(deserialize_message(&bytes), Ok(m));
}

#[test]
fn text_round_trip() {
    round_trip(MessageType::Text("Hello, world!".to_string()));
    round_trip(MessageType::Text(String::new()));
    round_trip(MessageType::Text("příliš žluťoučký kůň 🐎".to_string()));
}

#[test]
fn image_round_trip() {
    round_trip(MessageType::Image(vec![0x89, b'P', b'N', b'G', 0, 255]));
    round_trip(MessageType::Image(Vec::new()));
}

#[test]
fn file_round_trip() {
    round_trip(MessageType::File("report.csv".to_string(), b"a,b\n1,2\n".to_vec()));
    round_trip(MessageType::File(String::new(), Vec::new()));
}

#[test]
fn text_has_exact_layout() {
    let bytes = serialize_message(&MessageType::Text("hi".to_string()));
    assert_eq!(bytes, vec![0, 0, 0, 0, 2, 0, 0, 0, 0, 0, 0, 0, b'h', b'i']);
}

#[test]
fn file_has_exact_layout() {
    let bytes = serialize_message(&MessageType::File("a".to_string(), vec![7, 8]));
    assert_eq!(
        bytes,
        vec![2, 0, 0, 0, 1, 0, 0, 0, 0, 0, 0, 0, b'a', 2, 0, 0, 0, 0, 0, 0, 0, 7, 8]
    );
}

#[test]
fn layout_matches_bincode() {
    let text = serialize_message(&MessageType::Text("Hello, World!".to_string()));
    assert_eq!(text, bincode::serialize(&(0u32, "Hello, World!")).unwrap());
    let image = serialize_message(&MessageType::Image(vec![1, 2, 3]));
    assert_eq!(image, bincode::serialize(&(1u32, vec![1u8, 2, 3])).unwrap());
    let file = serialize_message(&MessageType::File("f.txt".to_string(), vec![9]));
    assert_eq!(file, bincode::serialize(&(2u32, "f.txt", vec![9u8])).unwrap());
}

#[test]
fn bincode_reads_the_layout_back() {
    let bytes = serialize_message(&MessageType::File("f.txt".to_string(), vec![4, 5]));
    let back: (u32, String, Vec<u8>) = bincode::deserialize(&bytes).unwrap();
    assert_eq!(back, (2, "f.txt".to_string(), vec![4, 5]));
}

#[test]
fn empty_input_is_truncated() {
    assert_eq!(deserialize_message(&[]), Err(DecodeError::Truncated));
    assert_eq!(deserialize_message(&[0, 0, 0]), Err(DecodeError::Truncated));
}

#[test]
fn missing_length_is_truncated() {
    assert_eq!(deserialize_message(&[0, 0, 0, 0, 5, 0]), Err(DecodeError::Truncated));
}

#[test]
fn field_longer_than_input_is_truncated() {
    let bytes = [1, 0, 0, 0, 5, 0, 0, 0, 0, 0, 0, 0, 1, 2, 3];
    assert_eq!(deserialize_message(&bytes), Err(DecodeError::Truncated));
}

#[test]
fn huge_declared_length_is_truncated() {
    let bytes = [0, 0, 0, 0, 255, 255, 255, 255, 255, 255, 255, 255, b'x'];
    assert_eq!(deserialize_message(&bytes), Err(DecodeError::Truncated));
}

#[test]
fn file_without_its_data_is_truncated() {
    let bytes = [2, 0, 0, 0, 1, 0, 0, 0, 0, 0, 0, 0, b'a'];
    assert_eq!(deserialize_message(&bytes), Err(DecodeError::Truncated));
}

#[test]
fn unknown_tag_is_rejected() {
    let bytes = [3, 0, 0, 0, 0, 0, 0, 0, 0, 0, 0, 0];
    assert_eq!(deserialize_message(&bytes), Err(DecodeError::UnknownTag(3)));
}

#[test]
fn invalid_utf8_is_rejected() {
    let bytes = [0, 0, 0, 0, 1, 0, 0, 0, 0, 0, 0, 0, 0xff];
    assert_eq!(deserialize_message(&bytes), Err(DecodeError::InvalidUtf8));
    let name = [2, 0, 0, 0, 2, 0, 0, 0, 0, 0, 0, 0, 0xc3, 0x28, 0, 0, 0, 0, 0, 0, 0, 0];
    assert_eq!(deserialize_message(&name), Err(DecodeError::InvalidUtf8));
}

#[test]
fn trailing_bytes_are_rejected() {
    let mut bytes = serialize_message(&MessageType::Text("hi".to_string()));
    bytes.push(0);
    assert_eq!(deserialize_message(&bytes), Err(DecodeError::TrailingBytes));
}

#[test]
fn frame_message_wraps_the_encoding() {
    let m = MessageType::Text("Hello".to_string());
    let framed = frame_message(&m).unwrap();
    assert_eq!(framed, encode_frame(&serialize_message(&m)));
    assert_eq!(&framed[..4], &[0, 0, 0, 17]);
}
