//! The relay: admits connections that present the shared secret, and sends
//! every message that one of them sends on to all the others.
use vstd::prelude::*;

use crate::auth::{check_token, spec_fail_reply, spec_success_reply, HandshakeOutcome};
use crate::codec::{frame_message, spec_encode};
use crate::frame::spec_frame;
use crate::message::MessageType;
use crate::registry::{
    spec_addrs, spec_fan_out, spec_inserted, spec_removed, PeerAddr, Registry,
};

verus! {

/// How long, in seconds, a send waits for a connection's send path before the
/// message is dropped.
pub const SEND_LOCK_TIMEOUT_SECS: u64 = 5;

/// How many received messages may wait for the dispatcher.
pub const MAILBOX_CAPACITY: usize = 32;

/// What a message from one connection turns into: the frame to write, and
/// the connections to write it to.
pub struct Dispatch {
    pub frame: Vec<u8>,
    pub recipients: Vec<PeerAddr>,
}

/// The server's shared state: the secret it expects and the registry of
/// admitted connections, each with the handle `H` of its send path.
pub struct Relay<H> {
    token: Vec<u8>,
    registry: Registry<H>,
}

impl<H> Relay<H> {
    /// The secret that a connection must present.
    pub closed spec fn token(&self) -> Seq<u8> {
        self.token@
    }

    /// The admitted connections, in the order in which they were admitted.
    pub closed spec fn members(&self) -> Seq<(PeerAddr, H)> {
        self.registry@
    }

    /// No address is admitted twice.
    pub open spec fn wf(&self) -> bool {
        spec_addrs(self.members()).no_duplicates()
    }

    /// `addr` is admitted.
    pub open spec fn admits(&self, addr: PeerAddr) -> bool {
        spec_addrs(self.members()).contains(addr)
    }

    /// A relay with no connection yet, expecting `token`.
    pub fn new(token: Vec<u8>) -> (r: Relay<H>)
        ensures
            r.token() == token@,
            r.members() == Seq::<(PeerAddr, H)>::empty(),
            r.wf(),
    {
        Relay { token, registry: Registry::new() }
    }

    /// Handles the first frame of a new connection, which holds the secret it
    /// presents. If it is the expected one, the connection is admitted with
    /// its send handle and told so; otherwise it is told `FAIL`, the registry
    /// is left as it was, and the caller closes the connection.
    pub fn handshake(&mut self, addr: PeerAddr, presented: &[u8], handle: H) -> (r: HandshakeOutcome)
        requires
            old(self).wf(),
        ensures
            final(self).wf(),
            final(self).token() == old(self).token(),
            r.accepted == (presented@ == old(self).token()),
            r.accepted ==> r.reply@ == spec_frame(spec_success_reply()) && spec_inserted(
                old(self).members(),
                final(self).members(),
                addr,
                handle,
            ),
            !r.accepted ==> r.reply@ == spec_frame(spec_fail_reply()) && final(self).members()
                == old(self).members(),
            !r.accepted && !old(self).admits(addr) ==> !final(self).admits(addr),
    {
        let outcome = check_token(self.token.as_slice(), presented);
        if outcome.accepted {
            self.registry.insert(addr, handle);
        }
        outcome
    }

    /// Forgets a connection that has ended, and returns its send handle.
    pub fn disconnect(&mut self, addr: PeerAddr) -> (r: Option<H>)
        requires
            old(self).wf(),
        ensures
            final(self).wf(),
            final(self).token() == old(self).token(),
            spec_removed(old(self).members(), final(self).members(), addr),
            r is Some <==> old(self).admits(addr),
            r matches Some(h) ==> exists|i: int|
                0 <= i < old(self).members().len() && old(self).members()[i] == (addr, h),
    {
        let ghost before = self.registry@;
        let r = self.registry.remove(addr);
        proof {
            if r is Some {
                let h = r->Some_0;
                let i = choose|i: int| 0 <= i < before.len() && before[i] == (addr, h);
                assert(old(self).members()[i] == (addr, h));
            }
        }
        r
    }

    /// The frame and recipients for a message sent by `sender`: every other
    /// admitted connection. `None` when the message is too large for a frame.
    pub fn dispatch(&self, message: &MessageType, sender: PeerAddr) -> (r: Option<Dispatch>)
        ensures
            r is Some <==> spec_encode(message@).len() <= u32::MAX,
            r matches Some(d) ==> d.frame@ == spec_frame(spec_encode(message@))
                && d.recipients@ == spec_fan_out(self.members(), sender),
    {
        match frame_message(message) {
            Some(frame) => Some(Dispatch { frame, recipients: self.registry.recipients(sender) }),
            None => None,
        }
    }

    /// The send handle of an admitted connection.
    pub fn handle(&self, addr: PeerAddr) -> (r: Option<&H>)
        ensures
            r is Some <==> self.admits(addr),
            r matches Some(h) ==> exists|i: int|
                0 <= i < self.members().len() && self.members()[i] == (addr, *h),
    {
        let r = self.registry.get(addr);
        proof {
            match r {
                Some(h) => {
                    let i = choose|i: int|
                        0 <= i < self.registry@.len() && self.registry@[i] == (addr, *h);
                    assert(self.members()[i] == (addr, *h));
                },
                None => {},
            }
        }
        r
    }

    /// Whether `addr` is admitted.
    pub fn is_admitted(&self, addr: PeerAddr) -> (r: bool)
        ensures
            r == self.admits(addr),
    {
        self.registry.contains(addr)
    }

    /// The number of admitted connections.
    pub fn connection_count(&self) -> (r: usize)
        ensures
            r == self.members().len(),
    {
        self.registry.len()
    }
}

/// A connection that has not been admitted receives no message: admitting
/// other connections and forgetting connections never brings it in, so a
/// connection refused at the handshake is never reached, whoever sends.
pub proof fn lemma_unadmitted_peer_not_reached<H>(
    before: Seq<(PeerAddr, H)>,
    after: Seq<(PeerAddr, H)>,
    peer: PeerAddr,
    other: PeerAddr,
    handle: H,
    sender: PeerAddr,
)
    requires
        !spec_addrs(before).contains(peer),
        other != peer,
        spec_inserted(before, after, other, handle) || spec_removed(before, after, other)
            || after == before,
    ensures
        !spec_addrs(after).contains(peer),
        !spec_fan_out(before, sender).contains(peer),
        !spec_fan_out(after, sender).contains(peer),
{
    let ab = spec_addrs(before);
    let aa = spec_addrs(after);
    if spec_inserted(before, after, other, handle) {
        if ab.contains(other) {
            let i = choose|i: int|
                0 <= i < before.len() && before[i].0 == other && after == before.update(i, (other, handle));
            assert(aa =~= ab);
        } else {
            assert(aa =~= ab.push(other));
        }
    } else if spec_removed(before, after, other) {
        if ab.contains(other) {
            let i = choose|i: int| 0 <= i < before.len() && before[i].0 == other && after == before.remove(i);
            assert(aa =~= ab.remove(i));
            if aa.contains(peer) {
                let j = choose|j: int| 0 <= j < aa.len() && aa[j] == peer;
                if j < i {
                    assert(ab[j] == peer);
                } else {
                    assert(ab[j + 1] == peer);
                }
            }
        }
    }
    if spec_fan_out(before, sender).contains(peer) {
        ab.lemma_filter_contains_rev(crate::registry::not_sender(sender), peer);
    }
    if spec_fan_out(after, sender).contains(peer) {
        aa.lemma_filter_contains_rev(crate::registry::not_sender(sender), peer);
    }
}

} // verus!
