//! The registry of admitted connections: each remote address with the handle
//! through which its outbound frames are sent, at most one entry per address.
use vstd::prelude::*;

verus! {

/// The remote address that identifies a connection: an IP address, an IPv4
/// address being held in its IPv4-mapped IPv6 form, and a port.
#[derive(Debug, Clone, Copy, PartialEq, Eq, Hash, Structural)]
pub struct PeerAddr {
    pub ip: u128,
    pub port: u16,
}

/// The addresses of a list of entries, in order.
pub open spec fn spec_addrs<H>(entries: Seq<(PeerAddr, H)>) -> Seq<PeerAddr> {
    entries.map_values(|e: (PeerAddr, H)| e.0)
}

/// Every address but the sender's.
pub open spec fn not_sender(sender: PeerAddr) -> spec_fn(PeerAddr) -> bool {
    |a: PeerAddr| a != sender
}

/// The addresses that a message from `sender` goes to: every registered
/// address but the sender's, in registration order.
pub open spec fn spec_fan_out<H>(entries: Seq<(PeerAddr, H)>, sender: PeerAddr) -> Seq<PeerAddr> {
    spec_addrs(entries).filter(not_sender(sender))
}

/// `after` is `before` with the entry of `addr` taken out, if it had one.
pub open spec fn spec_removed<H>(
    before: Seq<(PeerAddr, H)>,
    after: Seq<(PeerAddr, H)>,
    addr: PeerAddr,
) -> bool {
    if spec_addrs(before).contains(addr) {
        exists|i: int| 0 <= i < before.len() && before[i].0 == addr && after == before.remove(i)
    } else {
        after == before
    }
}

/// `after` is `before` with `handle` registered for `addr`: in place of the
/// old handle if `addr` had one, else at the end.
pub open spec fn spec_inserted<H>(
    before: Seq<(PeerAddr, H)>,
    after: Seq<(PeerAddr, H)>,
    addr: PeerAddr,
    handle: H,
) -> bool {
    if spec_addrs(before).contains(addr) {
        exists|i: int|
            0 <= i < before.len() && before[i].0 == addr && after == before.update(i, (addr, handle))
    } else {
        after == before.push((addr, handle))
    }
}

/// The shared table of admitted connections.
pub struct Registry<H> {
    entries: Vec<(PeerAddr, H)>,
}

impl<H> View for Registry<H> {
    /// The entries, in the order in which they were registered.
    type V = Seq<(PeerAddr, H)>;

    closed spec fn view(&self) -> Seq<(PeerAddr, H)> {
        self.entries@
    }
}

impl<H> Registry<H> {
    /// The registered addresses, in order.
    pub open spec fn addrs(&self) -> Seq<PeerAddr> {
        spec_addrs(self@)
    }

    /// No address is registered twice.
    pub open spec fn wf(&self) -> bool {
        self.addrs().no_duplicates()
    }

    /// `addr` is registered.
    pub open spec fn has(&self, addr: PeerAddr) -> bool {
        self.addrs().contains(addr)
    }

    /// An empty registry.
    pub fn new() -> (r: Registry<H>)
        ensures
            r@ == Seq::<(PeerAddr, H)>::empty(),
            r.wf(),
    {
        let r = Registry { entries: Vec::new() };
        assert(r.addrs() =~= Seq::<PeerAddr>::empty());
        r
    }

    /// Where the entry of `addr` stands.
    fn position(&self, addr: PeerAddr) -> (r: Option<usize>)
        ensures
            match r {
                Some(i) => i < self@.len() && self@[i as int].0 == addr && self.addrs()[i as int]
                    == addr,
                None => !self.has(addr),
            },
    {
        let mut i: usize = 0;
        while i < self.entries.len()
            invariant
                i <= self@.len(),
                forall|j: int| 0 <= j < i ==> self.addrs()[j] != addr,
            decreases self@.len() - i,
        {
            if self.entries[i].0 == addr {
                return Some(i);
            }
            i = i + 1;
        }
        None
    }

    /// Whether `addr` is registered.
    pub fn contains(&self, addr: PeerAddr) -> (r: bool)
        ensures
            r == self.has(addr),
    {
        match self.position(addr) {
            Some(i) => {
                assert(self.addrs()[i as int] == addr);
                true
            },
            None => false,
        }
    }

    /// The handle registered for `addr`.
    pub fn get(&self, addr: PeerAddr) -> (r: Option<&H>)
        ensures
            r is Some <==> self.has(addr),
            r matches Some(h) ==> exists|i: int|
                0 <= i < self@.len() && self@[i] == (addr, *h),
    {
        match self.position(addr) {
            Some(i) => {
                assert(self.addrs()[i as int] == addr);
                let h = &self.entries[i].1;
                assert(self@[i as int] == (addr, *h));
                Some(h)
            },
            None => None,
        }
    }

    /// The number of registered connections.
    pub fn len(&self) -> (r: usize)
        ensures
            r == self@.len(),
    {
        self.entries.len()
    }

    /// Registers `handle` for `addr`. An address already registered keeps its
    /// place and has its handle replaced; the old one is returned.
    pub fn insert(&mut self, addr: PeerAddr, handle: H) -> (r: Option<H>)
        requires
            old(self).wf(),
        ensures
            final(self).wf(),
            final(self).has(addr),
            spec_inserted(old(self)@, final(self)@, addr, handle),
            match r {
                Some(h) => exists|i: int|
                    0 <= i < old(self)@.len() && old(self)@[i] == (addr, h) && final(self)@
                        == old(self)@.update(i, (addr, handle)),
                None => !old(self).has(addr) && final(self)@ == old(self)@.push((addr, handle)),
            },
    {
        match self.position(addr) {
            Some(i) => {
                let ghost before = self@;
                let (_, previous) = self.entries.remove(i);
                self.entries.insert(i, (addr, handle));
                assert(self@ =~= before.update(i as int, (addr, handle)));
                assert(self.addrs() =~= spec_addrs(before));
                assert(self.addrs()[i as int] == addr);
                Some(previous)
            },
            None => {
                let ghost before = self@;
                self.entries.push((addr, handle));
                assert(self.addrs() =~= spec_addrs(before).push(addr));
                assert(self.addrs()[before.len() as int] == addr);
                None
            },
        }
    }

    /// Takes the entry of `addr` out, if it has one, and returns its handle.
    /// The other entries keep their order.
    pub fn remove(&mut self, addr: PeerAddr) -> (r: Option<H>)
        requires
            old(self).wf(),
        ensures
            final(self).wf(),
            spec_removed(old(self)@, final(self)@, addr),
            r is Some <==> old(self).has(addr),
            r matches Some(h) ==> exists|i: int|
                0 <= i < old(self)@.len() && old(self)@[i] == (addr, h),
    {
        match self.position(addr) {
            Some(i) => {
                let ghost before = self@;
                let (_, h) = self.entries.remove(i);
                assert(self.addrs() =~= spec_addrs(before).remove(i as int));
                assert(spec_addrs(before)[i as int] == addr);
                Some(h)
            },
            None => None,
        }
    }

    /// The addresses that a message from `sender` goes to: every registered
    /// address but the sender's, in registration order.
    pub fn recipients(&self, sender: PeerAddr) -> (r: Vec<PeerAddr>)
        ensures
            r@ == spec_fan_out(self@, sender),
    {
        let mut r: Vec<PeerAddr> = Vec::new();
        let mut i: usize = 0;
        while i < self.entries.len()
            invariant
                i <= self@.len(),
                r@ == self.addrs().take(i as int).filter(not_sender(sender)),
            decreases self@.len() - i,
        {
            let a = self.entries[i].0;
            proof {
                reveal(Seq::filter);
                assert(self.addrs().take(i + 1).drop_last() =~= self.addrs().take(i as int));
                assert(self.addrs().take(i + 1).last() == a);
            }
            if a != sender {
                r.push(a);
            }
            i = i + 1;
        }
        assert(self.addrs().take(i as int) =~= self.addrs());
        r
    }
}

/// A message from `sender` reaches exactly the registered addresses other
/// than the sender's, each once: it is never echoed back to the sender.
pub proof fn lemma_fan_out_reaches_others<H>(entries: Seq<(PeerAddr, H)>, sender: PeerAddr)
    requires
        spec_addrs(entries).no_duplicates(),
    ensures
        forall|a: PeerAddr| #[trigger]
            spec_fan_out(entries, sender).contains(a) <==> spec_addrs(entries).contains(a) && a
                != sender,
        spec_fan_out(entries, sender).no_duplicates(),
{
    let addrs = spec_addrs(entries);
    let f = not_sender(sender);
    assert forall|a: PeerAddr| #[trigger]
        spec_fan_out(entries, sender).contains(a) <==> addrs.contains(a) && a != sender by {
        if addrs.contains(a) && a != sender {
            let j = choose|j: int| 0 <= j < addrs.len() && addrs[j] == a;
            addrs.lemma_filter_contains(f, j);
        }
        if addrs.filter(f).contains(a) {
            addrs.lemma_filter_contains_rev(f, a);
            let j = choose|j: int| 0 <= j < addrs.filter(f).len() && addrs.filter(f)[j] == a;
            addrs.lemma_filter_pred(f, j);
        }
    }
    lemma_filter_no_duplicates(addrs, f);
}

/// Keeping some items of a list without repetitions gives a list without
/// repetitions.
proof fn lemma_filter_no_duplicates(s: Seq<PeerAddr>, f: spec_fn(PeerAddr) -> bool)
    requires
        s.no_duplicates(),
    ensures
        s.filter(f).no_duplicates(),
    decreases s.len(),
{
    reveal(Seq::filter);
    if s.len() > 0 {
        let init = s.drop_last();
        assert(init.no_duplicates());
        lemma_filter_no_duplicates(init, f);
        if f(s.last()) {
            assert(!init.contains(s.last()));
            if init.filter(f).contains(s.last()) {
                init.lemma_filter_contains_rev(f, s.last());
            }
        }
    }
}

/// Once the entry of an address is taken out, no message reaches that
/// address any more, and every other registered address still receives what
/// anyone else sends.
pub proof fn lemma_removed_peer_not_reached<H>(
    before: Seq<(PeerAddr, H)>,
    after: Seq<(PeerAddr, H)>,
    addr: PeerAddr,
    sender: PeerAddr,
)
    requires
        spec_addrs(before).no_duplicates(),
        spec_removed(before, after, addr),
    ensures
        !spec_fan_out(after, sender).contains(addr),
        forall|a: PeerAddr|
            spec_addrs(before).contains(a) && a != addr && a != sender ==> #[trigger] spec_fan_out(
                after,
                sender,
            ).contains(a),
{
    let ab = spec_addrs(before);
    let aa = spec_addrs(after);
    if ab.contains(addr) {
        let i = choose|i: int| 0 <= i < before.len() && before[i].0 == addr && after == before.remove(i);
        assert(aa =~= ab.remove(i));
        assert(ab[i] == addr);
    }
    assert(aa.no_duplicates());
    lemma_fan_out_reaches_others(after, sender);
    assert(!aa.contains(addr));
    assert forall|a: PeerAddr| ab.contains(a) && a != addr && a != sender implies #[trigger] spec_fan_out(
        after,
        sender,
    ).contains(a) by {
        let j = choose|j: int| 0 <= j < ab.len() && ab[j] == a;
        if ab.contains(addr) {
            let i = choose|i: int| 0 <= i < before.len() && before[i].0 == addr && after == before.remove(i);
            assert(ab[i] == addr);
            if j < i {
                assert(aa[j] == a);
            } else {
                assert(aa[j - 1] == a);
            }
        }
    }
}

} // verus!
