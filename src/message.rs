//! The messages exchanged between peers.
use vstd::prelude::*;

verus! {

/// A chat message: plain text, a PNG image, or a named file.
#[derive(Debug, PartialEq, Eq)]
pub enum MessageType {
    Text(String),
    Image(Vec<u8>),
    File(String, Vec<u8>),
}

/// The mathematical value of a [`MessageType`].
pub enum MessageView {
    Text(Seq<char>),
    Image(Seq<u8>),
    File(Seq<char>, Seq<u8>),
}

impl View for MessageType {
    type V = MessageView;

    open spec fn view(&self) -> MessageView {
        match self {
            MessageType::Text(s) => MessageView::Text(s@),
            MessageType::Image(b) => MessageView::Image(b@),
            MessageType::File(n, b) => MessageView::File(n@, b@),
        }
    }
}

} // verus!
