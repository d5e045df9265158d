//! Framing: every unit on the wire is its length as a big-endian `u32`
//! followed by exactly that many bytes.
use vstd::prelude::*;
use vstd::slice::*;

verus! {

/// Number of bytes in a frame header.
pub const HEADER_LEN: usize = 4;

/// A frame that cannot be read whole from the bytes at hand.
#[derive(Debug, Clone, Copy, PartialEq, Eq, Structural)]
pub enum FramingError {
    /// Fewer than four bytes: not even the length is there.
    ShortHeader { available: usize },
    /// The length announces more payload than there is.
    Truncated { declared: u32, available: usize },
}

/// The number that four bytes hold, most significant first.
pub open spec fn spec_be_u32(b: Seq<u8>) -> nat {
    (b[0] as nat) * 16777216 + (b[1] as nat) * 65536 + (b[2] as nat) * 256 + (b[3] as nat)
}

/// The four bytes of `n`, most significant first.
pub open spec fn spec_u32_be_bytes(n: u32) -> Seq<u8> {
    seq![(n / 16777216) as u8, ((n / 65536) % 256) as u8, ((n / 256) % 256) as u8, (n % 256) as u8]
}

/// The frame that carries `payload`.
pub open spec fn spec_frame(payload: Seq<u8>) -> Seq<u8> {
    spec_u32_be_bytes(payload.len() as u32) + payload
}

/// The length that the frame at the front of `b` announces.
pub open spec fn spec_declared_len(b: Seq<u8>) -> nat {
    spec_be_u32(b.subrange(0, 4))
}

/// Splits the frame at the front of `b` into its payload and what follows,
/// when the whole frame is there.
pub open spec fn spec_split_frame(b: Seq<u8>) -> Option<(Seq<u8>, Seq<u8>)> {
    if b.len() < 4 || b.len() - 4 < spec_declared_len(b) {
        None
    } else {
        let end = 4 + spec_declared_len(b) as int;
        Some((b.subrange(4, end), b.subrange(end, b.len() as int)))
    }
}

/// Why the bytes `b`, which hold no whole frame, are not one.
pub open spec fn spec_incomplete_error(b: Seq<u8>) -> FramingError {
    if b.len() < 4 {
        FramingError::ShortHeader { available: b.len() as usize }
    } else {
        FramingError::Truncated {
            declared: spec_declared_len(b) as u32,
            available: (b.len() - 4) as usize,
        }
    }
}

/// The header of a frame gives back the length written into it.
pub proof fn lemma_be_u32_round_trip(n: u32)
    ensures
        spec_u32_be_bytes(n).len() == 4,
        spec_be_u32(spec_u32_be_bytes(n)) == n,
{
    let b = spec_u32_be_bytes(n);
    let x = n as int;
    assert(x == (x / 16777216) * 16777216 + ((x / 65536) % 256) * 65536 + ((x / 256) % 256) * 256
        + x % 256) by (nonlinear_arith)
        requires
            0 <= x < 4294967296,
    ;
}

/// A frame followed by any bytes is split back into its payload and those
/// bytes.
pub proof fn lemma_split_frame(payload: Seq<u8>, rest: Seq<u8>)
    requires
        payload.len() <= u32::MAX,
    ensures
        spec_split_frame(spec_frame(payload) + rest) == Some((payload, rest)),
{
    lemma_be_u32_round_trip(payload.len() as u32);
    let all = spec_frame(payload) + rest;
    assert(all.subrange(0, 4) =~= spec_u32_be_bytes(payload.len() as u32));
    assert(all.subrange(4, 4 + payload.len() as int) =~= payload);
    assert(all.subrange(4 + payload.len() as int, all.len() as int) =~= rest);
}

/// Two frames written one after the other are read back as the same two
/// payloads, whole and in order, with nothing left over: the bytes of one
/// never mix with those of the other.
pub proof fn lemma_frames_do_not_interleave(first: Seq<u8>, second: Seq<u8>)
    requires
        first.len() <= u32::MAX,
        second.len() <= u32::MAX,
    ensures
        spec_split_frame(spec_frame(first) + spec_frame(second)) == Some(
            (first, spec_frame(second)),
        ),
        spec_split_frame(spec_frame(second)) == Some((second, Seq::<u8>::empty())),
{
    lemma_split_frame(first, spec_frame(second));
    lemma_split_frame(second, Seq::<u8>::empty());
    assert(spec_frame(second) + Seq::<u8>::empty() =~= spec_frame(second));
}

/// The frames that carry `payloads`, one after another.
pub open spec fn spec_frames(payloads: Seq<Seq<u8>>) -> Seq<u8>
    decreases payloads.len(),
{
    if payloads.len() == 0 {
        Seq::empty()
    } else {
        spec_frame(payloads[0]) + spec_frames(payloads.drop_first())
    }
}

/// Splits whole frames off the front of `b` for as long as there is one:
/// their payloads, and the bytes left that hold no whole frame.
pub open spec fn spec_split_all(b: Seq<u8>) -> (Seq<Seq<u8>>, Seq<u8>)
    decreases b.len(),
{
    if b.len() < 4 || b.len() - 4 < spec_declared_len(b) {
        (Seq::empty(), b)
    } else {
        let end = 4 + spec_declared_len(b) as int;
        let (ps, left) = spec_split_all(b.subrange(end, b.len() as int));
        (seq![b.subrange(4, end)] + ps, left)
    }
}

/// A stream of whole frames cut off inside a further frame is read as
/// exactly the payloads of the whole frames, in order; the bytes of the
/// cut-off frame are left over and never taken for a payload.
pub proof fn lemma_stream_cut_mid_frame(payloads: Seq<Seq<u8>>, partial: Seq<u8>)
    requires
        forall|i: int| 0 <= i < payloads.len() ==> #[trigger] payloads[i].len() <= u32::MAX,
        spec_split_frame(partial) is None,
    ensures
        spec_split_all(spec_frames(payloads) + partial) == (payloads, partial),
    decreases payloads.len(),
{
    if payloads.len() == 0 {
        assert(spec_frames(payloads) + partial =~= partial);
    } else {
        let p = payloads[0];
        let tail = payloads.drop_first();
        assert(forall|i: int| 0 <= i < tail.len() ==> #[trigger] tail[i] == payloads[i + 1]);
        lemma_stream_cut_mid_frame(tail, partial);
        let rest = spec_frames(tail) + partial;
        assert(spec_frames(payloads) + partial =~= spec_frame(p) + rest);
        lemma_split_frame(p, rest);
        assert(seq![p] + tail =~= payloads);
    }
}

/// The length announced by a four-byte header.
pub fn frame_length(header: &[u8]) -> (n: u32)
    requires
        header@.len() == 4,
    ensures
        n == spec_be_u32(header@),
{
    (header[0] as u32) * 16777216 + (header[1] as u32) * 65536 + (header[2] as u32) * 256
        + header[3] as u32
}

/// The four header bytes for a payload of `n` bytes.
pub fn frame_header(n: u32) -> (r: Vec<u8>)
    ensures
        r@ == spec_u32_be_bytes(n),
{
    let mut r: Vec<u8> = Vec::new();
    r.push((n / 16777216) as u8);
    r.push(((n / 65536) % 256) as u8);
    r.push(((n / 256) % 256) as u8);
    r.push((n % 256) as u8);
    assert(r@ =~= spec_u32_be_bytes(n));
    r
}

/// The frame that carries `payload`: its length, then its bytes.
pub fn encode_frame(payload: &[u8]) -> (r: Vec<u8>)
    requires
        payload@.len() <= u32::MAX,
    ensures
        r@ == spec_frame(payload@),
{
    let mut r = frame_header(payload.len() as u32);
    r.extend_from_slice(payload);
    r
}

/// Reads the frame at the front of `buf`: its payload and the number of
/// bytes it takes. A frame that is not all there is an error, never a part
/// of a payload.
pub fn read_frame(buf: &[u8]) -> (r: Result<(Vec<u8>, usize), FramingError>)
    ensures
        match r {
            Ok((payload, used)) => spec_split_frame(buf@) == Some(
                (payload@, buf@.subrange(used as int, buf@.len() as int)),
            ) && used == HEADER_LEN + payload@.len(),
            Err(FramingError::ShortHeader { available }) => buf@.len() < 4 && available
                == buf@.len(),
            Err(FramingError::Truncated { declared, available }) => buf@.len() >= 4 && declared
                == spec_declared_len(buf@) && available == buf@.len() - 4 && declared > available,
        },
        r is Err <==> spec_split_frame(buf@) is None,
{
    let len = buf.len();
    if len < HEADER_LEN {
        return Err(FramingError::ShortHeader { available: len });
    }
    let declared = frame_length(slice_subrange(buf, 0, HEADER_LEN));
    let available = len - HEADER_LEN;
    if declared as usize > available {
        return Err(FramingError::Truncated { declared, available });
    }
    let end = HEADER_LEN + declared as usize;
    let payload = slice_to_vec(slice_subrange(buf, HEADER_LEN, end));
    Ok((payload, end))
}

/// Cuts a byte stream into frames as its bytes arrive in pieces of any size.
pub struct FrameDecoder {
    pending: Vec<u8>,
}

impl View for FrameDecoder {
    /// The bytes received and not yet handed out as frames.
    type V = Seq<u8>;

    closed spec fn view(&self) -> Seq<u8> {
        self.pending@
    }
}

impl FrameDecoder {
    /// A decoder that has received nothing.
    pub fn new() -> (r: FrameDecoder)
        ensures
            r@ == Seq::<u8>::empty(),
    {
        FrameDecoder { pending: Vec::new() }
    }

    /// Takes in the next bytes of the stream.
    pub fn push(&mut self, chunk: &[u8])
        ensures
            final(self)@ == old(self)@ + chunk@,
    {
        self.pending.extend_from_slice(chunk);
    }

    /// Hands out the next whole frame's payload, if all of it has arrived;
    /// otherwise keeps waiting and changes nothing.
    pub fn next_frame(&mut self) -> (r: Option<Vec<u8>>)
        ensures
            match spec_split_frame(old(self)@) {
                Some((payload, rest)) => r matches Some(p) && p@ == payload && final(self)@ == rest,
                None => r is None && final(self)@ == old(self)@,
            },
    {
        match read_frame(self.pending.as_slice()) {
            Err(_) => None,
            Ok((payload, used)) => {
                let rest = slice_to_vec(slice_subrange(self.pending.as_slice(), used, self.pending.len()));
                self.pending = rest;
                Some(payload)
            },
        }
    }

    /// Whether the stream may end here: no part of a frame is waiting. A
    /// stream that ends otherwise was cut in the middle of a frame.
    pub fn is_at_boundary(&self) -> (r: bool)
        ensures
            r == (self@.len() == 0),
    {
        self.pending.len() == 0
    }

    /// Why the stream may not end here, if it may not: the bytes waiting are
    /// the start of a frame whose end has not arrived.
    pub fn end_of_stream_error(&self) -> (r: Option<FramingError>)
        ensures
            r is None <==> self@.len() == 0 || spec_split_frame(self@) is Some,
            r matches Some(FramingError::ShortHeader { available }) ==> self@.len() < 4
                && available == self@.len(),
            r matches Some(FramingError::Truncated { declared, available }) ==> self@.len() >= 4
                && declared == spec_declared_len(self@) && available == self@.len() - 4
                && declared > available,
            r matches Some(e) ==> e == spec_incomplete_error(self@),
    {
        if self.pending.len() == 0 {
            return None;
        }
        match read_frame(self.pending.as_slice()) {
            Ok(_) => None,
            Err(e) => Some(e),
        }
    }

    /// The number of bytes received and not yet handed out.
    pub fn pending_len(&self) -> (r: usize)
        ensures
            r == self@.len(),
    {
        self.pending.len()
    }
}

} // verus!
