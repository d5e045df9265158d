//! The wire codec: a message is a little-endian `u32` variant tag followed by
//! its fields, each string or byte field preceded by its length as a
//! little-endian `u64`.
use vstd::prelude::*;
use vstd::slice::*;
use vstd::utf8::*;

use crate::frame::{encode_frame, spec_frame};
use crate::message::{MessageType, MessageView};

verus! {

broadcast use vstd::utf8::encode_utf8_valid_utf8, vstd::utf8::encode_utf8_decode_utf8;

/// Tag of a `Text` message.
pub const TAG_TEXT: u32 = 0;

/// Tag of an `Image` message.
pub const TAG_IMAGE: u32 = 1;

/// Tag of a `File` message.
pub const TAG_FILE: u32 = 2;

/// Why a byte string is not the encoding of a message.
#[derive(Debug, Clone, Copy, PartialEq, Eq, Structural)]
pub enum DecodeError {
    /// The input ends before a field that it announces.
    Truncated,
    /// The variant tag is none of the three known ones.
    UnknownTag(u32),
    /// A string field is not well-formed UTF-8.
    InvalidUtf8,
    /// Bytes remain after a complete message.
    TrailingBytes,
}

/// The number that four bytes hold, least significant first.
pub open spec fn spec_le_u32(b: Seq<u8>) -> nat {
    (b[0] as nat) + (b[1] as nat) * 256 + (b[2] as nat) * 65536 + (b[3] as nat) * 16777216
}

/// The four bytes of `n`, least significant first.
pub open spec fn spec_u32_le_bytes(n: u32) -> Seq<u8> {
    seq![(n % 256) as u8, ((n / 256) % 256) as u8, ((n / 65536) % 256) as u8, (n / 16777216) as u8]
}

/// The number that eight bytes hold, least significant first.
pub open spec fn spec_le_u64(b: Seq<u8>) -> nat {
    spec_le_u32(b.subrange(0, 4)) + spec_le_u32(b.subrange(4, 8)) * 4294967296
}

/// The eight bytes of `n`, least significant first.
pub open spec fn spec_u64_le_bytes(n: u64) -> Seq<u8> {
    spec_u32_le_bytes((n % 4294967296) as u32) + spec_u32_le_bytes((n / 4294967296) as u32)
}

/// Four bytes written from a number are read back as that number.
pub proof fn lemma_le_u32_round_trip(n: u32)
    ensures
        spec_u32_le_bytes(n).len() == 4,
        spec_le_u32(spec_u32_le_bytes(n)) == n,
{
    let x = n as int;
    assert(x == x % 256 + ((x / 256) % 256) * 256 + ((x / 65536) % 256) * 65536 + (x / 16777216)
        * 16777216) by (nonlinear_arith)
        requires
            0 <= x < 4294967296,
    ;
}

/// Eight bytes written from a number are read back as that number.
pub proof fn lemma_le_u64_round_trip(n: u64)
    ensures
        spec_u64_le_bytes(n).len() == 8,
        spec_le_u64(spec_u64_le_bytes(n)) == n,
{
    let lo = (n % 4294967296) as u32;
    let hi = (n / 4294967296) as u32;
    lemma_le_u32_round_trip(lo);
    lemma_le_u32_round_trip(hi);
    let b = spec_u64_le_bytes(n);
    assert(b.subrange(0, 4) =~= spec_u32_le_bytes(lo));
    assert(b.subrange(4, 8) =~= spec_u32_le_bytes(hi));
}

/// A number read from four bytes is written back as the same four bytes.
pub proof fn lemma_le_u32_bytes_round_trip(b: Seq<u8>)
    requires
        b.len() == 4,
    ensures
        spec_le_u32(b) <= u32::MAX,
        spec_u32_le_bytes(spec_le_u32(b) as u32) == b,
{
    let (b0, b1, b2, b3) = (b[0] as int, b[1] as int, b[2] as int, b[3] as int);
    let x = b0 + b1 * 256 + b2 * 65536 + b3 * 16777216;
    assert(x % 256 == b0 && (x / 256) % 256 == b1 && (x / 65536) % 256 == b2 && x / 16777216 == b3)
        by (nonlinear_arith)
        requires
            x == b0 + b1 * 256 + b2 * 65536 + b3 * 16777216,
            0 <= b0 < 256,
            0 <= b1 < 256,
            0 <= b2 < 256,
            0 <= b3 < 256,
    ;
    assert(spec_u32_le_bytes(x as u32) =~= b);
}

/// A number read from eight bytes is written back as the same eight bytes.
pub proof fn lemma_le_u64_bytes_round_trip(b: Seq<u8>)
    requires
        b.len() == 8,
    ensures
        spec_le_u64(b) <= u64::MAX,
        spec_u64_le_bytes(spec_le_u64(b) as u64) == b,
{
    let lo_b = b.subrange(0, 4);
    let hi_b = b.subrange(4, 8);
    lemma_le_u32_bytes_round_trip(lo_b);
    lemma_le_u32_bytes_round_trip(hi_b);
    let lo = spec_le_u32(lo_b);
    let hi = spec_le_u32(hi_b);
    let x = lo + hi * 4294967296;
    assert(x % 4294967296 == lo && x / 4294967296 == hi) by (nonlinear_arith)
        requires
            x == lo + hi * 4294967296,
            0 <= lo < 4294967296,
            0 <= hi < 4294967296,
    ;
    assert(spec_u64_le_bytes(x as u64) =~= lo_b + hi_b);
    assert(lo_b + hi_b =~= b);
}

/// The four bytes of `n`, least significant first.
fn u32_le_bytes(n: u32) -> (r: Vec<u8>)
    ensures
        r@ == spec_u32_le_bytes(n),
{
    let mut r: Vec<u8> = Vec::new();
    r.push((n % 256) as u8);
    r.push(((n / 256) % 256) as u8);
    r.push(((n / 65536) % 256) as u8);
    r.push((n / 16777216) as u8);
    assert(r@ =~= spec_u32_le_bytes(n));
    r
}

/// The eight bytes of `n`, least significant first.
fn u64_le_bytes(n: u64) -> (r: Vec<u8>)
    ensures
        r@ == spec_u64_le_bytes(n),
{
    let mut r = u32_le_bytes((n % 4294967296) as u32);
    let hi = u32_le_bytes((n / 4294967296) as u32);
    r.extend_from_slice(hi.as_slice());
    r
}

/// The number that four bytes hold, least significant first.
fn le_u32(b: &[u8]) -> (n: u32)
    requires
        b@.len() == 4,
    ensures
        n == spec_le_u32(b@),
{
    b[0] as u32 + (b[1] as u32) * 256 + (b[2] as u32) * 65536 + (b[3] as u32) * 16777216
}

/// The number that eight bytes hold, least significant first.
fn le_u64(b: &[u8]) -> (n: u64)
    requires
        b@.len() == 8,
    ensures
        n == spec_le_u64(b@),
{
    let lo = le_u32(slice_subrange(b, 0, 4));
    let hi = le_u32(slice_subrange(b, 4, 8));
    lo as u64 + (hi as u64) * 4294967296
}

/// A byte field: its length, then its bytes.
pub open spec fn spec_field(b: Seq<u8>) -> Seq<u8> {
    spec_u64_le_bytes(b.len() as u64) + b
}

/// The encoding of a message.
pub open spec fn spec_encode(m: MessageView) -> Seq<u8> {
    match m {
        MessageView::Text(s) => spec_u32_le_bytes(TAG_TEXT) + spec_field(encode_utf8(s)),
        MessageView::Image(b) => spec_u32_le_bytes(TAG_IMAGE) + spec_field(b),
        MessageView::File(n, b) => spec_u32_le_bytes(TAG_FILE) + spec_field(encode_utf8(n))
            + spec_field(b),
    }
}

/// Every length in the message fits the `u64` length prefix.
pub open spec fn message_fits(m: MessageView) -> bool {
    match m {
        MessageView::Text(s) => encode_utf8(s).len() <= u64::MAX,
        MessageView::Image(b) => b.len() <= u64::MAX,
        MessageView::File(n, b) => encode_utf8(n).len() <= u64::MAX && b.len() <= u64::MAX,
    }
}

/// Reads one byte field from the front of `b`: its bytes and what follows.
pub open spec fn spec_read_field(b: Seq<u8>) -> Result<(Seq<u8>, Seq<u8>), DecodeError> {
    if b.len() < 8 {
        Err(DecodeError::Truncated)
    } else {
        let n = spec_le_u64(b.subrange(0, 8));
        if n > b.len() - 8 {
            Err(DecodeError::Truncated)
        } else {
            Ok((b.subrange(8, 8 + n as int), b.subrange(8 + n as int, b.len() as int)))
        }
    }
}

/// Reads one string field from the front of `b`: its characters and what follows.
pub open spec fn spec_read_text(b: Seq<u8>) -> Result<(Seq<char>, Seq<u8>), DecodeError> {
    match spec_read_field(b) {
        Err(e) => Err(e),
        Ok((raw, rest)) => if valid_utf8(raw) {
            Ok((decode_utf8(raw), rest))
        } else {
            Err(DecodeError::InvalidUtf8)
        },
    }
}

/// The message that `b` encodes, or the first reason it encodes none.
pub open spec fn spec_decode(b: Seq<u8>) -> Result<MessageView, DecodeError> {
    if b.len() < 4 {
        Err(DecodeError::Truncated)
    } else {
        let tag = spec_le_u32(b.subrange(0, 4));
        let body = b.subrange(4, b.len() as int);
        if tag == TAG_TEXT {
            match spec_read_text(body) {
                Err(e) => Err(e),
                Ok((s, rest)) => if rest.len() == 0 {
                    Ok(MessageView::Text(s))
                } else {
                    Err(DecodeError::TrailingBytes)
                },
            }
        } else if tag == TAG_IMAGE {
            match spec_read_field(body) {
                Err(e) => Err(e),
                Ok((d, rest)) => if rest.len() == 0 {
                    Ok(MessageView::Image(d))
                } else {
                    Err(DecodeError::TrailingBytes)
                },
            }
        } else if tag == TAG_FILE {
            match spec_read_text(body) {
                Err(e) => Err(e),
                Ok((n, after_name)) => match spec_read_field(after_name) {
                    Err(e) => Err(e),
                    Ok((d, rest)) => if rest.len() == 0 {
                        Ok(MessageView::File(n, d))
                    } else {
                        Err(DecodeError::TrailingBytes)
                    },
                },
            }
        } else {
            Err(DecodeError::UnknownTag(tag as u32))
        }
    }
}

/// The view of a decoding result.
pub open spec fn decoded_view(r: Result<MessageType, DecodeError>) -> Result<
    MessageView,
    DecodeError,
> {
    match r {
        Ok(m) => Ok(m@),
        Err(e) => Err(e),
    }
}

/// A field written in front of any bytes is read back whole, and the bytes
/// after it are left as they were.
pub proof fn lemma_read_field(b: Seq<u8>, rest: Seq<u8>)
    requires
        b.len() <= u64::MAX,
    ensures
        spec_read_field(spec_field(b) + rest) == Ok::<(Seq<u8>, Seq<u8>), DecodeError>((b, rest)),
{
    lemma_le_u64_round_trip(b.len() as u64);
    let all = spec_field(b) + rest;
    assert(all.subrange(0, 8) =~= spec_u64_le_bytes(b.len() as u64));
    assert(all.subrange(8, 8 + b.len() as int) =~= b);
    assert(all.subrange(8 + b.len() as int, all.len() as int) =~= rest);
}

/// A string field written in front of any bytes is read back whole.
pub proof fn lemma_read_text(s: Seq<char>, rest: Seq<u8>)
    requires
        encode_utf8(s).len() <= u64::MAX,
    ensures
        spec_read_text(spec_field(encode_utf8(s)) + rest) == Ok::<(Seq<char>, Seq<u8>), DecodeError>(
            (s, rest),
        ),
{
    lemma_read_field(encode_utf8(s), rest);
}

/// Decoding the encoding of a message gives the message back.
pub proof fn lemma_decode_encode(m: MessageView)
    requires
        message_fits(m),
    ensures
        spec_decode(spec_encode(m)) == Ok::<MessageView, DecodeError>(m),
{
    lemma_le_u32_round_trip(TAG_TEXT);
    lemma_le_u32_round_trip(TAG_IMAGE);
    lemma_le_u32_round_trip(TAG_FILE);
    let e = spec_encode(m);
    let empty = Seq::<u8>::empty();
    match m {
        MessageView::Text(s) => {
            let f = spec_field(encode_utf8(s));
            assert(e.subrange(0, 4) =~= spec_u32_le_bytes(TAG_TEXT));
            assert(e.subrange(4, e.len() as int) =~= f + empty);
            lemma_read_text(s, empty);
        },
        MessageView::Image(b) => {
            assert(e.subrange(0, 4) =~= spec_u32_le_bytes(TAG_IMAGE));
            assert(e.subrange(4, e.len() as int) =~= spec_field(b) + empty);
            lemma_read_field(b, empty);
        },
        MessageView::File(n, b) => {
            let fb = spec_field(b);
            assert(e.subrange(0, 4) =~= spec_u32_le_bytes(TAG_FILE));
            assert(e.subrange(4, e.len() as int) =~= spec_field(encode_utf8(n)) + fb);
            lemma_read_text(n, fb);
            assert(fb =~= fb + empty);
            lemma_read_field(b, empty);
        },
    }
}

/// A field read from the front of `b` is `b` itself up to what follows it.
proof fn lemma_read_field_inverse(b: Seq<u8>)
    requires
        spec_read_field(b) is Ok,
    ensures
        spec_read_field(b) matches Ok((f, rest)) && b == spec_field(f) + rest && f.len()
            <= u64::MAX,
{
    let n = spec_le_u64(b.subrange(0, 8));
    lemma_le_u64_bytes_round_trip(b.subrange(0, 8));
    let f = b.subrange(8, 8 + n as int);
    let rest = b.subrange(8 + n as int, b.len() as int);
    assert(f.len() == n);
    assert(b =~= spec_field(f) + rest);
}

/// A string field read from the front of `b` is `b` itself up to what
/// follows it.
proof fn lemma_read_text_inverse(b: Seq<u8>)
    requires
        spec_read_text(b) is Ok,
    ensures
        spec_read_text(b) matches Ok((s, rest)) && b == spec_field(encode_utf8(s)) + rest
            && encode_utf8(s).len() <= u64::MAX,
{
    lemma_read_field_inverse(b);
    let (raw, rest) = spec_read_field(b)->Ok_0;
    vstd::utf8::decode_utf8_encode_utf8(raw);
}

/// Whatever decodes to a message is exactly the encoding of that message:
/// the decoder accepts no other byte string, and drops no byte.
pub proof fn lemma_encode_decode(b: Seq<u8>)
    requires
        spec_decode(b) is Ok,
    ensures
        spec_decode(b) matches Ok(m) && spec_encode(m) == b && message_fits(m),
{
    let head = b.subrange(0, 4);
    let body = b.subrange(4, b.len() as int);
    lemma_le_u32_bytes_round_trip(head);
    let tag = spec_le_u32(head);
    assert(b =~= head + body);
    if tag == TAG_TEXT as nat {
        lemma_read_text_inverse(body);
        let (s, rest) = spec_read_text(body)->Ok_0;
        assert(body =~= spec_field(encode_utf8(s)) + rest);
        assert(spec_field(encode_utf8(s)) + rest =~= spec_field(encode_utf8(s)));
    } else if tag == TAG_IMAGE as nat {
        lemma_read_field_inverse(body);
        let (d, rest) = spec_read_field(body)->Ok_0;
        assert(spec_field(d) + rest =~= spec_field(d));
    } else {
        lemma_read_text_inverse(body);
        let (n, after) = spec_read_text(body)->Ok_0;
        lemma_read_field_inverse(after);
        let (d, rest) = spec_read_field(after)->Ok_0;
        assert(spec_field(d) + rest =~= spec_field(d));
        assert(head + body =~= spec_u32_le_bytes(TAG_FILE) + spec_field(encode_utf8(n)) + spec_field(d));
    }
}

/// Relies on `String::from_utf8`: it accepts exactly the well-formed UTF-8
/// byte strings, and the string it returns holds the characters they encode.
#[verifier::external_body]
fn string_from_utf8(bytes: Vec<u8>) -> (r: Option<String>)
    ensures
        r is Some <==> valid_utf8(bytes@),
        r matches Some(s) ==> s@ == decode_utf8(bytes@),
{
    String::from_utf8(bytes).ok()
}

/// Appends a byte field to `out`.
fn push_field(out: &mut Vec<u8>, b: &[u8])
    ensures
        final(out)@ == old(out)@ + spec_field(b@),
{
    let n = b.len() as u64;
    let prefix = u64_le_bytes(n);
    out.extend_from_slice(prefix.as_slice());
    out.extend_from_slice(b);
}

/// Encodes a message. Encoding never fails.
pub fn serialize_message(message: &MessageType) -> (r: Vec<u8>)
    ensures
        r@ == spec_encode(message@),
{
    match message {
        MessageType::Text(s) => {
            let mut out = u32_le_bytes(TAG_TEXT);
            push_field(&mut out, s.as_str().as_bytes());
            out
        },
        MessageType::Image(b) => {
            let mut out = u32_le_bytes(TAG_IMAGE);
            push_field(&mut out, b.as_slice());
            out
        },
        MessageType::File(n, b) => {
            let mut out = u32_le_bytes(TAG_FILE);
            push_field(&mut out, n.as_str().as_bytes());
            push_field(&mut out, b.as_slice());
            out
        },
    }
}

/// Locates the byte field that starts at `pos`: the bounds of its bytes.
fn read_field(data: &[u8], pos: usize) -> (r: Result<(usize, usize), DecodeError>)
    requires
        pos <= data@.len(),
    ensures
        match (r, spec_read_field(data@.subrange(pos as int, data@.len() as int))) {
            (Ok((start, end)), Ok((f, rest))) => pos <= start <= end <= data@.len() && f
                == data@.subrange(start as int, end as int) && rest == data@.subrange(
                end as int,
                data@.len() as int,
            ),
            (Err(e1), Err(e2)) => e1 == e2,
            _ => false,
        },
{
    let ghost tail = data@.subrange(pos as int, data@.len() as int);
    let len = data.len();
    if len - pos < 8 {
        return Err(DecodeError::Truncated);
    }
    let n = le_u64(slice_subrange(data, pos, pos + 8));
    assert(data@.subrange(pos as int, pos + 8) =~= tail.subrange(0, 8));
    if n > (len - pos - 8) as u64 {
        return Err(DecodeError::Truncated);
    }
    let start = pos + 8;
    let end = start + n as usize;
    assert(tail.subrange(8, 8 + n) =~= data@.subrange(start as int, end as int));
    assert(tail.subrange(8 + n, tail.len() as int) =~= data@.subrange(end as int, len as int));
    Ok((start, end))
}

/// Reads the string field that starts at `pos`: its text and where it ends.
fn read_text(data: &[u8], pos: usize) -> (r: Result<(String, usize), DecodeError>)
    requires
        pos <= data@.len(),
    ensures
        match (r, spec_read_text(data@.subrange(pos as int, data@.len() as int))) {
            (Ok((s, end)), Ok((t, rest))) => pos <= end <= data@.len() && s@ == t && rest
                == data@.subrange(end as int, data@.len() as int),
            (Err(e1), Err(e2)) => e1 == e2,
            _ => false,
        },
{
    match read_field(data, pos) {
        Err(e) => Err(e),
        Ok((start, end)) => {
            let raw = slice_to_vec(slice_subrange(data, start, end));
            match string_from_utf8(raw) {
                Some(s) => Ok((s, end)),
                None => Err(DecodeError::InvalidUtf8),
            }
        },
    }
}

/// Decodes a message. It fails exactly when `data` is not the encoding of a
/// message, and says why.
#[verifier::rlimit(40)]
pub fn deserialize_message(data: &[u8]) -> (r: Result<MessageType, DecodeError>)
    ensures
        decoded_view(r) == spec_decode(data@),
{
    let len = data.len();
    if len < 4 {
        return Err(DecodeError::Truncated);
    }
    let tag = le_u32(slice_subrange(data, 0, 4));
    assert(data@.subrange(4, len as int) =~= data@.subrange(0, len as int).subrange(4, len as int));
    assert(data@.subrange(0, len as int) =~= data@);
    if tag == TAG_TEXT {
        match read_text(data, 4) {
            Err(e) => Err(e),
            Ok((s, end)) => if end == len {
                Ok(MessageType::Text(s))
            } else {
                Err(DecodeError::TrailingBytes)
            },
        }
    } else if tag == TAG_IMAGE {
        match read_field(data, 4) {
            Err(e) => Err(e),
            Ok((start, end)) => if end == len {
                Ok(MessageType::Image(slice_to_vec(slice_subrange(data, start, end))))
            } else {
                Err(DecodeError::TrailingBytes)
            },
        }
    } else if tag == TAG_FILE {
        match read_text(data, 4) {
            Err(e) => Err(e),
            Ok((name, after)) => {
                assert(data@.subrange(after as int, len as int).subrange(0, len - after)
                    =~= data@.subrange(after as int, len as int));
                match read_field(data, after) {
                    Err(e) => Err(e),
                    Ok((start, end)) => if end == len {
                        Ok(MessageType::File(name, slice_to_vec(slice_subrange(data, start, end))))
                    } else {
                        Err(DecodeError::TrailingBytes)
                    },
                }
            },
        }
    } else {
        Err(DecodeError::UnknownTag(tag))
    }
}

/// The frame that carries a message, if its encoding fits in one.
pub fn frame_message(message: &MessageType) -> (r: Option<Vec<u8>>)
    ensures
        r is Some <==> spec_encode(message@).len() <= u32::MAX,
        r matches Some(f) ==> f@ == spec_frame(spec_encode(message@)),
{
    let encoded = serialize_message(message);
    if encoded.len() as u64 > u32::MAX as u64 {
        None
    } else {
        Some(encode_frame(encoded.as_slice()))
    }
}

} // verus!
