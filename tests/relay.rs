use chat_relay::codec::{deserialize_message, serialize_message};
use chat_relay::frame::{encode_frame, read_frame};
use chat_relay::message::MessageType;
use chat_relay::registry::{PeerAddr, Registry};
use chat_relay::relay::Relay;

fn addr(port: u16) -> PeerAddr {
    PeerAddr { ip: 0xffff_7f00_0001, port }
}

fn relay_with(ports: &[u16]) -> Relay<u16> {
    let mut relay = Relay::new(b"SECRET_TOKEN".to_vec());
    for p in ports {
        assert!(relay.handshake(addr(*p), b"SECRET_TOKEN", *p).accepted);
    }
    relay
}

#[test]
fn text_reaches_everyone_but_the_sender() {
    let relay = relay_with(&[1, 2, 3]);
    let hi = MessageType::Text("hi".to_string());
    let d = relay.dispatch(&hi, addr(1)).unwrap();
    assert_eq!(d.recipients, vec![addr(2), addr(3)]);
    let (payload, used) = read_frame(&d.frame).unwrap();
    assert_eq!(used, d.frame.len());
    assert_eq!(deserialize_message(&payload), Ok(hi));
}

#[test]
fn refused_connection_is_never_reached() {
    let mut relay = relay_with(&[1, 2]);
    let out = relay.handshake(addr(4), b"wrong", 4);
    assert!(!out.accepted);
    assert_eq!(out.reply, encode_frame(b"FAIL"));
    assert!(!relay.is_admitted(addr(4)));
    assert_eq!(relay.connection_count(), 2);
    let d = relay.dispatch(&MessageType::Text("x".to_string()), addr(2)).unwrap();
    assert_eq!(d.recipients, vec![addr(1)]);
}

#[test]
fn dropped_connection_is_forgotten() {
    let mut relay = relay_with(&[1, 2, 3]);
    assert_eq!(relay.disconnect(addr(2)), Some(2));
    assert_eq!(relay.connection_count(), 2);
    assert!(!relay.is_admitted(addr(2)));
    assert_eq!(relay.disconnect(addr(2)), None);
    let d = relay.dispatch(&MessageType::Image(vec![1]), addr(1)).unwrap();
    assert_eq!(d.recipients, vec![addr(3)]);
    assert_eq!(d.frame, encode_frame(&serialize_message(&MessageType::Image(vec![1]))));
}

#[test]
fn handle_is_found_by_address() {
    let relay = relay_with(&[5, 6]);
    assert_eq!(relay.handle(addr(6)), Some(&6));
    assert_eq!(relay.handle(addr(7)), None);
}

#[test]
fn sender_alone_reaches_nobody() {
    let relay = relay_with(&[1]);
    let d = relay.dispatch(&MessageType::Text("echo?".to_string()), addr(1)).unwrap();
    assert!(d.recipients.is_empty());
}

#[test]
fn registry_keeps_one_entry_per_address() {
    let mut r: Registry<&str> = Registry::new();
    assert_eq!(r.insert(addr(1), "a"), None);
    assert_eq!(r.insert(addr(2), "b"), None);
    assert_eq!(r.insert(addr(1), "c"), Some("a"));
    assert_eq!(r.len(), 2);
    assert_eq!(r.get(addr(1)), Some(&"c"));
    assert_eq!(r.recipients(addr(9)), vec![addr(1), addr(2)]);
    assert_eq!(r.remove(addr(1)), Some("c"));
    assert!(!r.contains(addr(1)));
    assert!(r.contains(addr(2)));
}

#[test]
fn main_test_send_message() {
    let message = MessageType::Text("Hello, World!".to_string());
    let serialized = serialize_message(&message);
    let wire = encode_frame(&serialized);
    let len = u32::from_be_bytes([wire[0], wire[1], wire[2], wire[3]]) as usize;
    let buffer = wire[4..4 + len].to_vec();
    let received_message = deserialize_message(&buffer).unwrap();
    assert_eq!(message, received_message);
}
