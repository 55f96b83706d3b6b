//! The connections of a listener that hands out packets to them itself.

use crate::server_stream::StreamView;
use crate::stream_table::StreamTable;
use vstd::prelude::*;

verus! {

/// What to do with a packet.
#[derive(Clone, Copy, Debug, PartialEq, Eq, Structural)]
pub enum PacketRoute {
    /// Hand it to the connection that it names.
    Deliver,
    /// Open a connection for it.
    Accept,
    /// Drop it.
    Ignore,
}

struct Entry {
    id: Vec<u8>,
    streams: StreamTable,
}

/// The open connections of a listener and their streams, by connection id.
pub struct Listener {
    conns: Vec<Entry>,
}

impl View for Listener {
    type V = Map<Seq<u8>, Map<u64, StreamView>>;

    closed spec fn view(&self) -> Map<Seq<u8>, Map<u64, StreamView>> {
        entries_map(self.conns@)
    }
}

closed spec fn entries_map(conns: Seq<Entry>) -> Map<Seq<u8>, Map<u64, StreamView>>
    decreases conns.len(),
{
    if conns.len() == 0 {
        Map::empty()
    } else {
        entries_map(conns.drop_last()).insert(conns.last().id@, conns.last().streams@)
    }
}

spec fn distinct(conns: Seq<Entry>) -> bool {
    forall|i: int, j: int|
        0 <= i < j < conns.len() ==> #[trigger] conns[i].id@ != #[trigger] conns[j].id@
}

/// A packet goes to the connection that it names. One that names no open
/// connection opens one if it is the first packet of a handshake.
pub open spec fn packet_route(known: bool, initial: bool) -> PacketRoute {
    if known {
        PacketRoute::Deliver
    } else if initial {
        PacketRoute::Accept
    } else {
        PacketRoute::Ignore
    }
}

/// A connection gets its packets from when it is accepted until it is forgotten;
/// after that a packet for it counts as one for an unknown connection.
pub proof fn law_connection_gets_its_packets(
    conns: Map<Seq<u8>, Map<u64, StreamView>>,
    id: Seq<u8>,
    other: Seq<u8>,
    initial: bool,
)
    requires
        other != id,
    ensures
        packet_route(conns.insert(id, Map::empty()).contains_key(id), initial)
            == PacketRoute::Deliver,
        packet_route(conns.remove(id).contains_key(id), initial) == (if initial {
            PacketRoute::Accept
        } else {
            PacketRoute::Ignore
        }),
        packet_route(conns.insert(id, Map::empty()).contains_key(other), initial) == packet_route(
            conns.contains_key(other),
            initial,
        ),
        packet_route(conns.remove(id).contains_key(other), initial) == packet_route(
            conns.contains_key(other),
            initial,
        ),
{
}

proof fn lemma_entries(conns: Seq<Entry>)
    requires
        distinct(conns),
    ensures
        forall|i: int|
            0 <= i < conns.len() ==> entries_map(conns).contains_key(#[trigger] conns[i].id@)
                && entries_map(conns)[conns[i].id@] == conns[i].streams@,
        forall|k: Seq<u8>| #[trigger]
            entries_map(conns).contains_key(k) ==> exists|i: int|
                0 <= i < conns.len() && #[trigger] conns[i].id@ == k,
    decreases conns.len(),
{
    if conns.len() > 0 {
        let rest = conns.drop_last();
        assert(distinct(rest)) by {
            assert forall|i: int, j: int| 0 <= i < j < rest.len() implies #[trigger] rest[i].id@
                != #[trigger] rest[j].id@ by {
                assert(conns[i].id@ != conns[j].id@);
            }
        }
        lemma_entries(rest);
        assert forall|i: int| 0 <= i < conns.len() implies entries_map(conns).contains_key(
            #[trigger] conns[i].id@,
        ) && entries_map(conns)[conns[i].id@] == conns[i].streams@ by {
            if i < rest.len() {
                assert(rest[i].id@ == conns[i].id@);
                assert(conns[i].id@ != conns[conns.len() - 1].id@);
            }
        }
        assert forall|k: Seq<u8>| #[trigger] entries_map(conns).contains_key(k) implies exists|
            i: int,
        |
            0 <= i < conns.len() && #[trigger] conns[i].id@ == k by {
            if k == conns.last().id@ {
                assert(conns[conns.len() - 1].id@ == k);
            } else {
                assert(entries_map(rest).contains_key(k));
                let i = choose|i: int| 0 <= i < rest.len() && #[trigger] rest[i].id@ == k;
                assert(conns[i].id@ == k);
            }
        }
    }
}

proof fn lemma_update(conns: Seq<Entry>, i: int, e: Entry)
    requires
        distinct(conns),
        0 <= i < conns.len(),
        e.id == conns[i].id,
    ensures
        distinct(conns.update(i, e)),
        entries_map(conns.update(i, e)) == entries_map(conns).insert(e.id@, e.streams@),
{
    let after = conns.update(i, e);
    assert forall|a: int, b: int| 0 <= a < b < after.len() implies #[trigger] after[a].id@
        != #[trigger] after[b].id@ by {
        assert(conns[a].id@ != conns[b].id@);
    }
    lemma_entries(conns);
    lemma_entries(after);
    let expected = entries_map(conns).insert(e.id@, e.streams@);
    assert forall|k: Seq<u8>| #[trigger] entries_map(after).contains_key(k) implies
        expected.contains_key(k) && entries_map(after)[k] == expected[k] by {
        let a = choose|a: int| 0 <= a < after.len() && #[trigger] after[a].id@ == k;
        assert(conns[a].id@ == k);
        if a < i {
            assert(conns[a].id@ != conns[i].id@);
        } else if i < a {
            assert(conns[i].id@ != conns[a].id@);
        }
    }
    assert forall|k: Seq<u8>| #[trigger] expected.contains_key(k) implies entries_map(
        after,
    ).contains_key(k) by {
        if k == e.id@ {
            assert(after[i].id@ == k);
        } else {
            let a = choose|a: int| 0 <= a < conns.len() && #[trigger] conns[a].id@ == k;
            assert(after[a].id@ == k);
        }
    }
    assert(entries_map(after) =~= expected);
}

/// Whether two rows of bytes are the same.
fn same_bytes(a: &[u8], b: &[u8]) -> (r: bool)
    ensures
        r == (a@ == b@),
{
    if a.len() != b.len() {
        return false;
    }
    for i in 0..a.len()
        invariant
            a@.len() == b@.len(),
            a@.take(i as int) == b@.take(i as int),
    {
        if a[i] != b[i] {
            assert(a@[i as int] != b@[i as int]);
            return false;
        }
        assert(a@.take(i + 1) =~= a@.take(i as int).push(a@[i as int]));
        assert(b@.take(i + 1) =~= b@.take(i as int).push(b@[i as int]));
    }
    assert(a@.take(a@.len() as int) =~= a@);
    assert(b@.take(b@.len() as int) =~= b@);
    true
}

fn copy_bytes(a: &[u8]) -> (r: Vec<u8>)
    ensures
        r@ == a@,
{
    let mut r: Vec<u8> = Vec::new();
    for i in 0..a.len()
        invariant
            r@ == a@.take(i as int),
    {
        r.push(a[i]);
        assert(a@.take(i + 1) =~= a@.take(i as int).push(a@[i as int]));
    }
    assert(a@.take(a@.len() as int) =~= a@);
    r
}

impl Listener {
    pub closed spec fn wf(&self) -> bool {
        &&& distinct(self.conns@)
        &&& forall|i: int| 0 <= i < self.conns@.len() ==> (#[trigger] self.conns@[i]).streams.wf()
    }

    /// Every stream of every connection is in order.
    pub proof fn law_streams_are_in_order(&self, id: Seq<u8>)
        requires
            self.wf(),
            self@.contains_key(id),
        ensures
            forall|stream: u64| #[trigger]
                self@[id].contains_key(stream) ==> self@[id][stream].wf(),
    {
        lemma_entries(self.conns@);
        let i = choose|i: int| 0 <= i < self.conns@.len() && #[trigger] self.conns@[i].id@ == id;
        self.conns@[i].streams.law_streams_are_in_order();
    }

    fn find(&self, id: &[u8]) -> (r: Option<usize>)
        requires
            self.wf(),
        ensures
            match r {
                Some(i) => i < self.conns@.len() && self.conns@[i as int].id@ == id@
                    && self@.contains_key(id@) && self@[id@]
                    == self.conns@[i as int].streams@,
                None => !self@.contains_key(id@),
            },
    {
        proof {
            lemma_entries(self.conns@);
        }
        for i in 0..self.conns.len()
            invariant
                forall|j: int| 0 <= j < i ==> (#[trigger] self.conns@[j]).id@ != id@,
                forall|i: int|
                    0 <= i < self.conns@.len() ==> entries_map(self.conns@).contains_key(
                        #[trigger] self.conns@[i].id@,
                    ) && entries_map(self.conns@)[self.conns@[i].id@]
                        == self.conns@[i].streams@,
        {
            if same_bytes(self.conns[i].id.as_slice(), id) {
                return Some(i);
            }
        }
        None
    }

    /// A listener without connections.
    pub fn new() -> (r: Self)
        ensures
            r.wf(),
            r@ == Map::<Seq<u8>, Map<u64, StreamView>>::empty(),
    {
        Listener { conns: Vec::new() }
    }

    /// What to do with a packet for connection `dcid`.
    pub fn route(&self, dcid: &[u8], initial: bool) -> (r: PacketRoute)
        requires
            self.wf(),
        ensures
            r == packet_route(self@.contains_key(dcid@), initial),
    {
        match self.find(dcid) {
            Some(_) => PacketRoute::Deliver,
            None => if initial {
                PacketRoute::Accept
            } else {
                PacketRoute::Ignore
            },
        }
    }

    /// Adds a connection without streams. It takes the place of one with the same
    /// id.
    pub fn accept(&mut self, scid: &[u8])
        requires
            old(self).wf(),
        ensures
            final(self).wf(),
            final(self)@ == old(self)@.insert(scid@, Map::empty()),
    {
        self.remove(scid);
        let ghost mid = self.conns@;
        proof {
            lemma_entries(mid);
        }
        self.conns.push(Entry { id: copy_bytes(scid), streams: StreamTable::new() });
        proof {
            assert(self.conns@.drop_last() =~= mid);
            assert forall|i: int, j: int| 0 <= i < j < self.conns@.len() implies #[trigger] self.conns@[i].id@
                != #[trigger] self.conns@[j].id@ by {
                assert(mid[i].id@ == self.conns@[i].id@);
                assert(entries_map(mid).contains_key(mid[i].id@));
                if j < mid.len() {
                    assert(mid[j].id@ == self.conns@[j].id@);
                }
            }
            assert(self@ =~= old(self)@.insert(scid@, Map::empty()));
        }
    }

    /// Forgets a connection.
    pub fn remove(&mut self, id: &[u8])
        requires
            old(self).wf(),
        ensures
            final(self).wf(),
            final(self)@ == old(self)@.remove(id@),
    {
        match self.find(id) {
            Some(i) => {
                let ghost before = self.conns@;
                self.conns.remove(i);
                proof {
                    let after = self.conns@;
                    assert forall|a: int, b: int| 0 <= a < b < after.len() implies #[trigger] after[a].id@
                        != #[trigger] after[b].id@ by {
                        let a0 = if a < i {
                            a
                        } else {
                            a + 1
                        };
                        let b0 = if b < i {
                            b
                        } else {
                            b + 1
                        };
                        assert(after[a] == before[a0]);
                        assert(after[b] == before[b0]);
                        assert(before[a0].id@ != before[b0].id@);
                    }
                    assert forall|a: int| 0 <= a < after.len() implies (
                    #[trigger] after[a]).streams.wf() by {
                        assert(after[a] == before[if a < i {
                            a
                        } else {
                            a + 1
                        }]);
                    }
                    lemma_entries(before);
                    lemma_entries(after);
                    assert forall|k: Seq<u8>| #[trigger]
                        entries_map(after).contains_key(k) <==> entries_map(before).contains_key(k)
                            && k != id@ by {
                        if entries_map(after).contains_key(k) {
                            let a = choose|a: int|
                                0 <= a < after.len() && #[trigger] after[a].id@ == k;
                            let a0 = if a < i {
                                a
                            } else {
                                a + 1
                            };
                            assert(before[a0].id@ == k);
                            if a0 < i {
                                assert(before[a0].id@ != before[i as int].id@);
                            } else {
                                assert(before[i as int].id@ != before[a0].id@);
                            }
                        }
                        if entries_map(before).contains_key(k) && k != id@ {
                            let b = choose|b: int|
                                0 <= b < before.len() && #[trigger] before[b].id@ == k;
                            if b < i {
                                assert(after[b].id@ == k);
                            } else {
                                assert(after[b - 1].id@ == k);
                            }
                        }
                    }
                    assert forall|k: Seq<u8>| #[trigger]
                        entries_map(after).contains_key(k) implies entries_map(after)[k]
                        == entries_map(before)[k] by {
                        let a = choose|a: int| 0 <= a < after.len() && #[trigger] after[a].id@ == k;
                        let a0 = if a < i {
                            a
                        } else {
                            a + 1
                        };
                        assert(before[a0] == after[a]);
                        assert(before[a0].id@ == k);
                    }
                    assert(self@ =~= old(self)@.remove(id@));
                }
            },
            None => {
                assert(self@ =~= old(self)@.remove(id@));
            },
        }
    }

    /// The ids of all connections, each once.
    pub fn ids(&self) -> (r: Vec<Vec<u8>>)
        requires
            self.wf(),
        ensures
            forall|i: int| 0 <= i < r@.len() ==> self@.contains_key(#[trigger] r@[i]@),
            forall|k: Seq<u8>| #[trigger]
                self@.contains_key(k) ==> exists|i: int| 0 <= i < r@.len() && #[trigger] r@[i]@ == k,
            forall|i: int, j: int|
                0 <= i < j < r@.len() ==> #[trigger] r@[i]@ != #[trigger] r@[j]@,
    {
        let mut r: Vec<Vec<u8>> = Vec::new();
        for i in 0..self.conns.len()
            invariant
                r@.len() == i,
                forall|j: int| 0 <= j < i ==> #[trigger] r@[j]@ == self.conns@[j].id@,
        {
            r.push(copy_bytes(self.conns[i].id.as_slice()));
        }
        proof {
            lemma_entries(self.conns@);
            assert forall|k: Seq<u8>| #[trigger] self@.contains_key(k) implies exists|i: int|
                0 <= i < r@.len() && #[trigger] r@[i]@ == k by {
                let i = choose|i: int|
                    0 <= i < self.conns@.len() && #[trigger] self.conns@[i].id@ == k;
                assert(r@[i]@ == k);
            }
            assert forall|i: int| 0 <= i < r@.len() implies self@.contains_key(
                #[trigger] r@[i]@,
            ) by {
                assert(self.conns@[i].id@ == r@[i]@);
            }
        }
        r
    }

    /// The streams of a connection, to be read and written.
    pub fn streams(&mut self, id: &[u8]) -> (r: Option<&mut StreamTable>)
        requires
            old(self).wf(),
        ensures
            match r {
                Some(t) => {
                    &&& old(self)@.contains_key(id@)
                    &&& t.wf()
                    &&& t@ == old(self)@[id@]
                    &&& final(t).wf() ==> final(self).wf()
                    &&& final(self)@ == old(self)@.insert(id@, final(t)@)
                },
                None => !old(self)@.contains_key(id@) && final(self).wf() && final(self)@ == old(
                    self,
                )@,
            },
    {
        match self.find(id) {
            Some(i) => {
                let ghost conns = self.conns@;
                proof {
                    assert forall|e: Entry|
                        e.id == conns[i as int].id implies distinct(
                        #[trigger] conns.update(i as int, e),
                    ) && entries_map(conns.update(i as int, e)) == entries_map(conns).insert(
                        id@,
                        e.streams@,
                    ) by {
                        lemma_update(conns, i as int, e);
                    }
                }
                let entry = &mut self.conns[i];
                Some(&mut entry.streams)
            },
            None => None,
        }
    }
}

/// The smallest of the waits that connections ask for, if any asks for one.
pub fn earliest_timeout(timeouts: &Vec<Option<u128>>) -> (r: Option<u128>)
    ensures
        match r {
            Some(m) => timeouts@.contains(Some(m)) && forall|t: u128|
                timeouts@.contains(Some(t)) ==> m <= t,
            None => forall|t: u128| !timeouts@.contains(Some(t)),
        },
{
    let mut r: Option<u128> = None;
    for i in 0..timeouts.len()
        invariant
            match r {
                Some(m) => timeouts@.contains(Some(m)) && forall|j: int|
                    0 <= j < i && timeouts@[j] is Some ==> m <= (#[trigger] timeouts@[j])->0,
                None => forall|j: int| 0 <= j < i ==> (#[trigger] timeouts@[j]) is None,
            },
    {
        if let Some(t) = timeouts[i] {
            assert(timeouts@[i as int] == Some(t));
            match r {
                Some(m) => if t < m {
                    r = Some(t);
                },
                None => {
                    r = Some(t);
                },
            }
        }
    }
    r
}

/// Where a packet goes: to the connection that it names, if that is open; otherwise the
/// first packet of a handshake opens one, and any other is dropped.
pub proof fn law_where_a_packet_goes(initial: bool)
    ensures
        packet_route(true, initial) == PacketRoute::Deliver,
        packet_route(false, true) == PacketRoute::Accept,
        packet_route(false, false) == PacketRoute::Ignore,
{
}

} // verus!
