use chat_relay::client::{
    ends_with, is_white_space, output_for, parse_command, receive, starts_with, strip_all, trim,
    ClientOutput, Command, Folder,
};
use chat_relay::codec::{deserialize_message, frame_message};
use chat_relay::frame::FrameDecoder;
use chat_relay::message::MessageType;

#[test]
fn file_command_names_a_path() {
    assert_eq!(parse_command(".file report.csv"), Command::SendFile("report.csv".to_string()));
    assert_eq!(parse_command("  .file   a b.txt \n"), Command::SendFile("a b.txt".to_string()));
    assert_eq!(parse_command(".file.file x"), Command::SendFile("x".to_string()));
    assert_eq!(parse_command(".filex"), Command::SendFile("x".to_string()));
}

#[test]
fn image_command_wants_png() {
    assert_eq!(parse_command(".image cat.png"), Command::SendImage("cat.png".to_string()));
    assert_eq!(parse_command(".image cat.jpg"), Command::NotPng("cat.jpg".to_string()));
    assert_eq!(parse_command(".image"), Command::NotPng(String::new()));
}

#[test]
fn quit_and_text() {
    assert_eq!(parse_command(".quit"), Command::Quit);
    assert_eq!(parse_command(".quit now"), Command::Quit);
    assert_eq!(parse_command("  hello there \r\n"), Command::SendText("hello there".to_string()));
    assert_eq!(parse_command(""), Command::SendText(String::new()));
    assert_eq!(parse_command("file .file"), Command::SendText("file .file".to_string()));
}

#[test]
fn white_space_matches_std() {
    for u in 0u32..=0x10FFFF {
        if let Some(c) = char::from_u32(u) {
            assert_eq!(is_white_space(c), c.is_whitespace(), "{u:#x}");
        }
    }
}

#[test]
fn trim_matches_std() {
    for s in ["", "  ", " a ", "\u{3000}x\u{a0}", "\tab c\n", "é ", " \u{2028}"] {
        assert_eq!(trim(s), s.trim());
    }
}

#[test]
fn prefix_and_suffix_tests() {
    assert!(starts_with("abc", "ab"));
    assert!(!starts_with("a", "ab"));
    assert!(ends_with("x.png", ".png"));
    assert!(!ends_with("x.PNG", ".png"));
    assert_eq!(strip_all("ababc", "ab"), "c");
    assert_eq!(strip_all("abab", "ab"), "");
}

#[test]
fn output_for_each_kind() {
    assert_eq!(
        output_for(MessageType::Text("hi".to_string()), "t"),
        ClientOutput::Show("hi".to_string())
    );
    assert_eq!(
        output_for(MessageType::Image(vec![1, 2]), "2024-01-02 03:04:05"),
        ClientOutput::Save {
            folder: Folder::Images,
            name: "2024-01-02 03:04:05.png".to_string(),
            data: vec![1, 2]
        }
    );
    assert_eq!(
        output_for(MessageType::File("r.csv".to_string(), vec![3]), "t"),
        ClientOutput::Save { folder: Folder::Files, name: "r.csv".to_string(), data: vec![3] }
    );
    assert_eq!(Folder::Images.name(), "images");
    assert_eq!(Folder::Files.name(), "files");
}

#[test]
fn received_image_is_named_after_the_time() {
    match receive(MessageType::Image(vec![9])) {
        ClientOutput::Save { folder, name, data } => {
            assert_eq!(folder, Folder::Images);
            assert_eq!(data, vec![9]);
            assert_eq!(name.len(), "2024-01-02 03:04:05.png".len());
            assert!(name.ends_with(".png"));
            assert_eq!(&name[4..5], "-");
            assert_eq!(&name[7..8], "-");
            assert_eq!(&name[10..11], " ");
            assert_eq!(&name[13..14], ":");
            assert_eq!(&name[16..17], ":");
            assert!(name[..4].chars().all(|c| c.is_ascii_digit()));
        }
        other => panic!("unexpected {other:?}"),
    }
}

#[test]
fn test_handle_message() {
    let framed = frame_message(&MessageType::Text("Hello".to_string())).unwrap();
    let mut d = FrameDecoder::new();
    d.push(&framed);
    let payload = d.next_frame().unwrap();
    let message = deserialize_message(&payload).unwrap();
    assert_eq!(receive(message), ClientOutput::Show("Hello".to_string()));
}
