use chat_relay::client::{output_for, parse_command, ClientOutput, Command, Folder};
use chat_relay::codec::{deserialize_message, frame_message};
use chat_relay::error::ServerError;
use chat_relay::codec::DecodeError;
use chat_relay::frame::{FrameDecoder, FramingError};
use chat_relay::message::MessageType;
use chat_relay::registry::PeerAddr;
use chat_relay::relay::Relay;

#[test]
fn file_command_is_relayed_byte_for_byte() {
    let a = PeerAddr { ip: 1, port: 1 };
    let b = PeerAddr { ip: 2, port: 2 };
    let c = PeerAddr { ip: 3, port: 3 };
    let mut relay: Relay<u8> = Relay::new(b"SECRET_TOKEN".to_vec());
    for (p, h) in [(a, 0u8), (b, 1), (c, 2)] {
        assert!(relay.handshake(p, b"SECRET_TOKEN", h).accepted);
    }
    let path = match parse_command(".file report.csv") {
        Command::SendFile(p) => p,
        other => panic!("unexpected {other:?}"),
    };
    let contents = b"id,name\n1,\xff\x00binary\n".to_vec();
    let sent = frame_message(&MessageType::File(path.clone(), contents.clone())).unwrap();

    let mut from_a = FrameDecoder::new();
    from_a.push(&sent[..5]);
    assert_eq!(from_a.next_frame(), None);
    from_a.push(&sent[5..]);
    let payload = from_a.next_frame().unwrap();
    let message = deserialize_message(&payload).unwrap();
    let d = relay.dispatch(&message, a).unwrap();
    assert_eq!(d.recipients, vec![b, c]);

    for _ in &d.recipients {
        let mut inbox = FrameDecoder::new();
        inbox.push(&d.frame);
        let got = deserialize_message(&inbox.next_frame().unwrap()).unwrap();
        assert_eq!(
            output_for(got, "unused"),
            ClientOutput::Save { folder: Folder::Files, name: "report.csv".to_string(), data: contents.clone() }
        );
        assert!(inbox.is_at_boundary());
    }
}

#[test]
fn fatal_errors_end_the_connection() {
    assert!(ServerError::Io("reset".to_string()).is_connection_fatal());
    assert!(ServerError::Framing(FramingError::ShortHeader { available: 1 }).is_connection_fatal());
    assert!(ServerError::Auth.is_connection_fatal());
    assert!(!ServerError::Decode(DecodeError::UnknownTag(9)).is_connection_fatal());
    assert!(!ServerError::SendTimeout.is_connection_fatal());
    assert!(!ServerError::Database("locked".to_string()).is_connection_fatal());
    assert!(!ServerError::Other("x".to_string()).is_connection_fatal());
}
