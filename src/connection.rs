//! The receive duty of a connection, on either side: what to do next with
//! the bytes that have arrived.
use vstd::prelude::*;

use crate::codec::{
    deserialize_message, lemma_decode_encode, message_fits, spec_decode, spec_encode, DecodeError,
};
use crate::frame::{
    lemma_frames_do_not_interleave, spec_frame, spec_incomplete_error, spec_split_frame,
    FrameDecoder, FramingError,
};
use crate::message::{MessageType, MessageView};

verus! {

/// The next step of a receive loop.
pub enum ReceiveAction {
    /// A whole frame arrived and holds this message: pass it on.
    Deliver(MessageType),
    /// A whole frame arrived that holds no message: report it and go on.
    Report(DecodeError),
    /// The stream has ended, cleanly between frames or, with the error, in
    /// the middle of one: the connection is over.
    Stop(Option<FramingError>),
}

/// What a receive loop does next, given the bytes in `decoder` and whether
/// the stream has ended. `None` means: read more bytes first.
pub fn next_action(decoder: &mut FrameDecoder, ended: bool) -> (r: Option<ReceiveAction>)
    ensures
        match spec_split_frame(old(decoder)@) {
            Some((payload, rest)) => final(decoder)@ == rest && match r {
                Some(ReceiveAction::Deliver(m)) => spec_decode(payload) == Ok::<
                    MessageView,
                    DecodeError,
                >(m@),
                Some(ReceiveAction::Report(e)) => spec_decode(payload) == Err::<
                    MessageView,
                    DecodeError,
                >(e),
                _ => false,
            },
            None => final(decoder)@ == old(decoder)@ && if ended {
                r matches Some(ReceiveAction::Stop(e)) && (e is None <==> old(decoder)@.len()
                    == 0) && (e matches Some(fe) ==> fe == spec_incomplete_error(old(decoder)@))
            } else {
                r is None
            },
        },
{
    match decoder.next_frame() {
        Some(payload) => match deserialize_message(payload.as_slice()) {
            Ok(m) => Some(ReceiveAction::Deliver(m)),
            Err(e) => Some(ReceiveAction::Report(e)),
        },
        None => if ended {
            Some(ReceiveAction::Stop(decoder.end_of_stream_error()))
        } else {
            None
        },
    }
}

/// A message sent as one frame is received as exactly that message, with
/// nothing left over: what the relay writes to each recipient is what the
/// sender sent, byte for byte.
pub proof fn lemma_framed_message_received(m: MessageView)
    requires
        message_fits(m),
        spec_encode(m).len() <= u32::MAX,
    ensures
        spec_split_frame(spec_frame(spec_encode(m))) == Some(
            (spec_encode(m), Seq::<u8>::empty()),
        ),
        spec_decode(spec_encode(m)) == Ok::<MessageView, DecodeError>(m),
{
    lemma_frames_do_not_interleave(spec_encode(m), spec_encode(m));
    lemma_decode_encode(m);
}

/// Two messages written as two frames on one stream are received as the
/// same two messages, in order: two well-formed frames, never a mix of both.
pub proof fn lemma_two_messages_on_one_stream(m1: MessageView, m2: MessageView)
    requires
        message_fits(m1),
        message_fits(m2),
        spec_encode(m1).len() <= u32::MAX,
        spec_encode(m2).len() <= u32::MAX,
    ensures
        spec_split_frame(spec_frame(spec_encode(m1)) + spec_frame(spec_encode(m2))) == Some(
            (spec_encode(m1), spec_frame(spec_encode(m2))),
        ),
        spec_split_frame(spec_frame(spec_encode(m2))) == Some(
            (spec_encode(m2), Seq::<u8>::empty()),
        ),
        spec_decode(spec_encode(m1)) == Ok::<MessageView, DecodeError>(m1),
        spec_decode(spec_encode(m2)) == Ok::<MessageView, DecodeError>(m2),
{
    lemma_frames_do_not_interleave(spec_encode(m1), spec_encode(m2));
    lemma_decode_encode(m1);
    lemma_decode_encode(m2);
}

} // verus!
