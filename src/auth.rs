//! The handshake: a new connection first sends the shared secret in one
//! frame, and the server answers with a frame that admits or refuses it.
use vstd::prelude::*;

use crate::frame::{encode_frame, spec_frame};

verus! {

/// The secret that clients present unless configured otherwise: the ASCII
/// text `SECRET_TOKEN`.
pub open spec fn spec_default_token() -> Seq<u8> {
    seq![83u8, 69, 67, 82, 69, 84, 95, 84, 79, 75, 69, 78]
}

/// The payload that admits a connection: the ASCII text
/// `Authentication Successful`.
pub open spec fn spec_success_reply() -> Seq<u8> {
    seq![
        65u8, 117, 116, 104, 101, 110, 116, 105, 99, 97, 116, 105, 111, 110, 32,
        83, 117, 99, 99, 101, 115, 115, 102, 117, 108,
    ]
}

/// The payload that refuses a connection: the ASCII text `FAIL`.
pub open spec fn spec_fail_reply() -> Seq<u8> {
    seq![70u8, 65, 73, 76]
}

/// The secret that clients present unless configured otherwise.
pub fn default_token() -> (r: Vec<u8>)
    ensures
        r@ == spec_default_token(),
{
    let r = vec![83u8, 69, 67, 82, 69, 84, 95, 84, 79, 75, 69, 78];
    assert(r@ =~= spec_default_token());
    r
}

/// The payload that admits a connection.
pub fn success_reply() -> (r: Vec<u8>)
    ensures
        r@ == spec_success_reply(),
{
    let r = vec![
        65u8, 117, 116, 104, 101, 110, 116, 105, 99, 97, 116, 105, 111, 110, 32,
        83, 117, 99, 99, 101, 115, 115, 102, 117, 108,
    ];
    assert(r@ =~= spec_success_reply());
    r
}

/// The payload that refuses a connection.
pub fn fail_reply() -> (r: Vec<u8>)
    ensures
        r@ == spec_fail_reply(),
{
    let r = vec![70u8, 65, 73, 76];
    assert(r@ =~= spec_fail_reply());
    r
}

/// Whether two byte strings are the same.
pub fn bytes_equal(a: &[u8], b: &[u8]) -> (r: bool)
    ensures
        r == (a@ == b@),
{
    if a.len() != b.len() {
        return false;
    }
    let mut i: usize = 0;
    while i < a.len()
        invariant
            a@.len() == b@.len(),
            i <= a@.len(),
            a@.subrange(0, i as int) =~= b@.subrange(0, i as int),
        decreases a@.len() - i,
    {
        if a[i] != b[i] {
            assert(a@[i as int] != b@[i as int]);
            return false;
        }
        i = i + 1;
    }
    assert(a@ =~= a@.subrange(0, i as int));
    assert(b@ =~= b@.subrange(0, i as int));
    true
}

/// `needle` occurs somewhere in `hay`.
pub open spec fn spec_contains(hay: Seq<u8>, needle: Seq<u8>) -> bool {
    exists|i: int| 0 <= i <= hay.len() - needle.len() && #[trigger] hay.subrange(i, i + needle.len()) == needle
}

/// Whether `needle` occurs somewhere in `hay`.
pub fn contains_bytes(hay: &[u8], needle: &[u8]) -> (r: bool)
    ensures
        r == spec_contains(hay@, needle@),
{
    if needle.len() > hay.len() {
        return false;
    }
    let last = hay.len() - needle.len();
    let n = needle.len();
    let mut i: usize = 0;
    loop
        invariant
            n == needle@.len(),
            last == hay@.len() - n,
            i <= last,
            forall|j: int| 0 <= j < i ==> #[trigger] hay@.subrange(j, j + n) != needle@,
        decreases last - i,
    {
        let mut k: usize = 0;
        let mut matching = true;
        while matching && k < n
            invariant
                n == needle@.len(),
                i + n <= hay.len(),
                k <= n,
                hay@.subrange(i as int, i + k) =~= needle@.subrange(0, k as int),
                !matching ==> k < n && hay@[i + k] != needle@[k as int],
            decreases n - k + if matching { 1int } else { 0int },
        {
            if hay[i + k] == needle[k] {
                k = k + 1;
            } else {
                matching = false;
            }
        }
        if matching {
            assert(needle@.subrange(0, n as int) =~= needle@);
            return true;
        }
        assert(hay@.subrange(i as int, i + n)[k as int] != needle@[k as int]);
        if i == last {
            return false;
        }
        i = i + 1;
    }
}

/// What the server answers to the secret that a connection presents.
pub struct HandshakeOutcome {
    /// The connection may join the relay.
    pub accepted: bool,
    /// The frame to send back.
    pub reply: Vec<u8>,
}

/// Checks the secret that a connection presents against the one expected,
/// and gives the frame to answer with.
pub fn check_token(expected: &[u8], presented: &[u8]) -> (r: HandshakeOutcome)
    ensures
        r.accepted == (presented@ == expected@),
        r.accepted ==> r.reply@ == spec_frame(spec_success_reply()),
        !r.accepted ==> r.reply@ == spec_frame(spec_fail_reply()),
{
    if bytes_equal(presented, expected) {
        let ok = success_reply();
        HandshakeOutcome { accepted: true, reply: encode_frame(ok.as_slice()) }
    } else {
        let no = fail_reply();
        HandshakeOutcome { accepted: false, reply: encode_frame(no.as_slice()) }
    }
}

/// The frame in which a client presents its secret.
pub fn token_frame(token: &[u8]) -> (r: Vec<u8>)
    requires
        token@.len() <= u32::MAX,
    ensures
        r@ == spec_frame(token@),
{
    encode_frame(token)
}

/// Whether the server's answer admits the client: it holds the success
/// text somewhere.
pub fn is_auth_success(reply: &[u8]) -> (r: bool)
    ensures
        r == spec_contains(reply@, spec_success_reply()),
{
    let marker = success_reply();
    contains_bytes(reply, marker.as_slice())
}

} // verus!
