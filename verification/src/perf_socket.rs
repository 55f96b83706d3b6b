//! The sockets of an endpoint, and which one a packet leaves through.

use crate::multiaddr::ServerAddr;
use slab::Slab;
use std::collections::HashMap;
use vstd::prelude::*;

verus! {

broadcast use vstd::std_specs::hash::group_hash_axioms;

#[verifier::external_type_specification]
#[verifier::external_body]
#[verifier::reject_recursive_types(T)]
pub struct ExSlab<T>(slab::Slab<T>);

/// The values that a slab holds, by their keys.
pub uninterp spec fn slab_entries(s: Slab<u64>) -> Map<usize, u64>;

/// Calls `slab::Slab::new`: the slab holds nothing.
#[verifier::external_body]
fn slab_new() -> (r: Slab<u64>)
    ensures
        slab_entries(r).dom() == Set::<usize>::empty(),
{
    Slab::new()
}

/// Calls `slab::Slab::insert`: the value is held under a key that was free. A slab
/// panics when its storage outgrows the address space; one with so few values has
/// room on any machine.
#[verifier::external_body]
fn slab_insert(s: &mut Slab<u64>, value: u64) -> (key: usize)
    requires
        slab_entries(*old(s)).dom().finite(),
        slab_entries(*old(s)).len() < 0x0200_0000,
    ensures
        !slab_entries(*old(s)).contains_key(key),
        slab_entries(*final(s)) == slab_entries(*old(s)).insert(key, value),
{
    s.insert(value)
}

/// Calls `slab::Slab::get`: the value under a key, if there is one.
#[verifier::external_body]
fn slab_get(s: &Slab<u64>, key: usize) -> (r: Option<u64>)
    ensures
        r == (if slab_entries(*s).contains_key(key) {
            Some(slab_entries(*s)[key])
        } else {
            None
        }),
{
    s.get(key).copied()
}

/// A number that stands for an address and a port.
pub open spec fn addr_number(a: ServerAddr) -> int {
    (((a.ip.a * 256 + a.ip.b) * 256 + a.ip.c) * 256 + a.ip.d) * 65536 + a.port
}

/// No two addresses have the same number.
pub proof fn law_addr_number_is_unique(a: ServerAddr, b: ServerAddr)
    requires
        addr_number(a) == addr_number(b),
    ensures
        a == b,
{
}

fn addr_key(a: &ServerAddr) -> (r: u64)
    ensures
        r == addr_number(*a),
{
    (((a.ip.a as u64 * 256 + a.ip.b as u64) * 256 + a.ip.c as u64) * 256 + a.ip.d as u64) * 65536
        + a.port as u64
}

/// The sockets of an endpoint. A socket is known by a handle of the owner's choice.
pub struct PerfSocket {
    socks: Slab<u64>,
    addrs: HashMap<u64, usize>,
    local_addr: ServerAddr,
}

/// What there is to know of the sockets of an endpoint.
pub struct PerfSocketView {
    /// The handles of the sockets, by their tokens.
    pub socks: Map<usize, u64>,
    /// The tokens of the sockets, by the numbers of their addresses.
    pub addrs: Map<u64, usize>,
    pub local_addr: ServerAddr,
}

impl View for PerfSocket {
    type V = PerfSocketView;

    closed spec fn view(&self) -> PerfSocketView {
        PerfSocketView {
            socks: slab_entries(self.socks),
            addrs: self.addrs@,
            local_addr: self.local_addr,
        }
    }
}

impl PerfSocketView {
    /// The handle of the socket that packets from an address leave through.
    pub open spec fn route(self, src: ServerAddr) -> Option<u64> {
        let number = addr_number(src) as u64;
        if self.addrs.contains_key(number) && self.socks.contains_key(self.addrs[number]) {
            Some(self.socks[self.addrs[number]])
        } else {
            None
        }
    }
}

/// What came of sending a packet.
#[derive(Clone, Copy, Debug, PartialEq, Eq, Structural)]
pub enum SendOutcome {
    /// It was sent, or there is no socket for it.
    Gone,
    /// The socket takes nothing now.
    WouldBlock,
    /// The socket failed.
    Failed,
}

/// How a batch of packets goes on.
#[derive(Clone, Copy, Debug, PartialEq, Eq, Structural)]
pub enum BatchStep {
    /// So many packets are gone; take the next.
    Next(usize),
    /// So many packets are gone; the others wait.
    Stop(usize),
    /// Report a failure.
    Fail,
}

/// How many packets of a batch are gone, if no socket failed: those in front of the
/// first that had to wait.
pub open spec fn batch_gone(outcomes: Seq<SendOutcome>) -> Option<nat>
    decreases outcomes.len(),
{
    if outcomes.len() == 0 {
        Some(0)
    } else {
        match outcomes[0] {
            SendOutcome::Gone => match batch_gone(outcomes.drop_first()) {
                Some(n) => Some(n + 1),
                None => None,
            },
            SendOutcome::WouldBlock => Some(0),
            SendOutcome::Failed => None,
        }
    }
}

/// How a batch goes on when `gone` packets are gone and this came of the next.
pub open spec fn batch_step(gone: usize, outcome: SendOutcome) -> BatchStep {
    match outcome {
        SendOutcome::Gone => BatchStep::Next((gone + 1) as usize),
        SendOutcome::WouldBlock => BatchStep::Stop(gone),
        SendOutcome::Failed => BatchStep::Fail,
    }
}

/// The count of a batch after its packets were taken one by one.
pub open spec fn batch_run(gone: usize, outcomes: Seq<SendOutcome>) -> Option<nat>
    decreases outcomes.len(),
{
    if outcomes.len() == 0 {
        Some(gone as nat)
    } else {
        match batch_step(gone, outcomes[0]) {
            BatchStep::Next(n) => batch_run(n, outcomes.drop_first()),
            BatchStep::Stop(n) => Some(n as nat),
            BatchStep::Fail => None,
        }
    }
}

/// Taking packets one by one counts those that are gone.
pub proof fn law_batch_counts_what_is_gone(gone: usize, outcomes: Seq<SendOutcome>)
    requires
        gone + outcomes.len() <= usize::MAX,
    ensures
        batch_run(gone, outcomes) == (match batch_gone(outcomes) {
            Some(n) => Some(gone as nat + n),
            None => None,
        }),
    decreases outcomes.len(),
{
    if outcomes.len() > 0 && outcomes[0] is Gone {
        law_batch_counts_what_is_gone((gone + 1) as usize, outcomes.drop_first());
    }
}

impl PerfSocket {
    /// An endpoint with one socket, bound to an address, and the token under which
    /// the socket is to be watched.
    pub fn new(local_addr: ServerAddr, handle: u64) -> (r: (Self, usize))
        ensures
            r.0@ == (PerfSocketView {
                socks: Map::<usize, u64>::empty().insert(r.1, handle),
                addrs: Map::<u64, usize>::empty().insert(addr_number(local_addr) as u64, r.1),
                local_addr,
            }),
            r.0@.route(local_addr) == Some(handle),
    {
        let mut socks = slab_new();
        let mut addrs: HashMap<u64, usize> = HashMap::new();
        let sid = slab_insert(&mut socks, handle);
        addrs.insert(addr_key(&local_addr), sid);
        assert(slab_entries(socks) =~= Map::<usize, u64>::empty().insert(sid, handle));
        (PerfSocket { socks, addrs, local_addr }, sid)
    }

    /// The address that the endpoint is bound to.
    pub fn local_addr(&self) -> (r: ServerAddr)
        ensures
            r == self@.local_addr,
    {
        self.local_addr
    }

    /// The handle of the socket with a token, if there is one.
    pub fn socket_of(&self, token: usize) -> (r: Option<u64>)
        ensures
            r == (if self@.socks.contains_key(token) {
                Some(self@.socks[token])
            } else {
                None
            }),
    {
        slab_get(&self.socks, token)
    }

    /// The handle of the socket that packets from an address leave through, if
    /// there is one.
    pub fn route(&self, src: &ServerAddr) -> (r: Option<u64>)
        ensures
            r == self@.route(*src),
    {
        match self.addrs.get(&addr_key(src)) {
            Some(sid) => slab_get(&self.socks, *sid),
            None => None,
        }
    }
}

/// How a batch goes on when `gone` packets are gone and this came of the next.
pub fn on_packet_sent(gone: usize, outcome: SendOutcome) -> (r: BatchStep)
    requires
        gone < usize::MAX,
    ensures
        r == batch_step(gone, outcome),
{
    match outcome {
        SendOutcome::Gone => BatchStep::Next(gone + 1),
        SendOutcome::WouldBlock => BatchStep::Stop(gone),
        SendOutcome::Failed => BatchStep::Fail,
    }
}

/// Of an endpoint with one socket, packets from the address of that socket leave through it,
/// and packets from other addresses have no socket.
pub proof fn law_packets_leave_from_their_address(
    v: PerfSocketView,
    token: usize,
    handle: u64,
    src: ServerAddr,
)
    requires
        v.socks == Map::<usize, u64>::empty().insert(token, handle),
        v.addrs == Map::<u64, usize>::empty().insert(addr_number(v.local_addr) as u64, token),
    ensures
        src == v.local_addr ==> v.route(src) == Some(handle),
        src != v.local_addr ==> v.route(src) is None,
{
    if addr_number(src) as u64 == addr_number(v.local_addr) as u64 {
        law_addr_number_is_unique(src, v.local_addr);
    }
}

/// A packet goes out through the socket whose token stands for its address, if there are
/// both.
pub proof fn law_routes_follow_the_tokens(v: PerfSocketView, src: ServerAddr, handle: u64)
    ensures
        v.route(src) == Some(handle) <==> exists|token: usize|
            v.addrs.contains_pair(addr_number(src) as u64, token)
                && #[trigger] v.socks.contains_pair(token, handle),
{
    let number = addr_number(src) as u64;
    if v.route(src) == Some(handle) {
        assert(v.socks.contains_pair(v.addrs[number], handle));
    }
}

/// What comes of a packet: one that is gone is counted, one that has to wait ends the batch
/// with the count so far, and a socket that fails ends it without a count.
pub proof fn law_packets_are_counted(gone: usize)
    requires
        gone < usize::MAX,
    ensures
        batch_step(gone, SendOutcome::Gone) matches BatchStep::Next(n) && n == gone + 1,
        batch_step(gone, SendOutcome::WouldBlock) == BatchStep::Stop(gone),
        batch_step(gone, SendOutcome::Failed) == BatchStep::Fail,
{
}

} // verus!
