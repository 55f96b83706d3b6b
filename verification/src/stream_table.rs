//! The streams of one connection, as the listener keeps them.

use crate::server_stream::{after_data, after_sent, ServerStreamState, StreamView};
use crate::wire::{chunk_of, Chunk, ReadEvent, WriteEvent};
use std::collections::HashMap;
use vstd::prelude::*;

verus! {

broadcast use vstd::std_specs::hash::group_hash_axioms;

/// The open streams of a connection by their numbers.
pub struct StreamTable {
    streams: HashMap<u64, ServerStreamState>,
}

impl View for StreamTable {
    type V = Map<u64, StreamView>;

    closed spec fn view(&self) -> Map<u64, StreamView> {
        self.streams@.map_values(|s: ServerStreamState| s@)
    }
}

/// What reading stream `id` makes of a connection's streams, and whether to go on
/// reading it. A stream that cannot be read is done.
pub open spec fn after_read(
    t: Map<u64, StreamView>,
    id: u64,
    event: ReadEvent,
) -> (Map<u64, StreamView>, bool) {
    match event {
        ReadEvent::Data { data, fin } => (
            t.insert(id, after_data(t[id], data@, fin).0),
            after_data(t[id], data@, fin).1,
        ),
        ReadEvent::Blocked => (t, false),
        ReadEvent::Failed => (t.insert(id, StreamView::Done), false),
    }
}

/// What offering a chunk to stream `id` makes of a connection's streams. A stream
/// that cannot be written is done.
pub open spec fn after_write(
    t: Map<u64, StreamView>,
    id: u64,
    event: WriteEvent,
) -> Map<u64, StreamView> {
    match event {
        WriteEvent::Accepted(n) => t.insert(id, after_sent(t[id], n as nat)),
        WriteEvent::Blocked => t,
        WriteEvent::Failed => t.insert(id, StreamView::Done),
    }
}

/// The streams with something left to do.
pub open spec fn unfinished(t: Map<u64, StreamView>) -> Map<u64, StreamView> {
    t.remove_keys(t.dom().filter(|id: u64| t[id] is Done))
}

/// A stream whose first bytes come has an empty request.
pub open spec fn with_stream(t: Map<u64, StreamView>, id: u64) -> Map<u64, StreamView> {
    if t.contains_key(id) {
        t
    } else {
        t.insert(id, StreamView::ReadingHeader(Seq::empty()))
    }
}

/// A write takes no more than was offered.
pub open spec fn fits_offer(s: StreamView, event: WriteEvent) -> bool {
    &&& s is SendingDownload
    &&& event matches WriteEvent::Accepted(n) ==> n <= chunk_of(s->SendingDownload_0).0
}

/// Reading or writing one stream leaves the others as they are.
pub proof fn law_streams_are_independent(
    t: Map<u64, StreamView>,
    id: u64,
    other: u64,
    read: ReadEvent,
    write: WriteEvent,
)
    requires
        other != id,
    ensures
        with_stream(t, id).contains_key(other) == t.contains_key(other),
        with_stream(t, id)[other] == t[other],
        after_read(t, id, read).0.contains_key(other) == t.contains_key(other),
        after_read(t, id, read).0[other] == t[other],
        after_write(t, id, write).contains_key(other) == t.contains_key(other),
        after_write(t, id, write)[other] == t[other],
{
}

/// What is forgotten is what is done.
pub proof fn law_only_done_streams_are_forgotten(t: Map<u64, StreamView>, id: u64)
    ensures
        unfinished(t).contains_key(id) <==> t.contains_key(id) && !(t[id] is Done),
        unfinished(t).contains_key(id) ==> unfinished(t)[id] == t[id],
{
}

impl StreamTable {
    pub closed spec fn wf(&self) -> bool {
        forall|id: u64| #[trigger] self.streams@.contains_key(id) ==> self.streams@[id].wf()
    }

    /// Every stream of a connection is in order: its request is incomplete as long as it
    /// is read, and a download has bytes left.
    pub proof fn law_streams_are_in_order(&self)
        requires
            self.wf(),
        ensures
            forall|id: u64| #[trigger] self@.contains_key(id) ==> self@[id].wf(),
    {
        assert forall|id: u64| #[trigger] self@.contains_key(id) implies self@[id].wf() by {
            assert(self.streams@.contains_key(id));
        }
    }

    /// A connection without streams.
    pub fn new() -> (r: Self)
        ensures
            r.wf(),
            r@ == Map::<u64, StreamView>::empty(),
    {
        let r = StreamTable { streams: HashMap::new() };
        assert(r@ =~= Map::<u64, StreamView>::empty());
        r
    }

    /// Makes sure that stream `id` is there.
    pub fn open(&mut self, id: u64)
        requires
            old(self).wf(),
        ensures
            final(self).wf(),
            final(self)@ == with_stream(old(self)@, id),
    {
        if !self.streams.contains_key(&id) {
            self.streams.insert(id, ServerStreamState::new());
        }
        assert(self@ =~= with_stream(old(self)@, id));
    }

    /// Whether stream `id` is to be read.
    pub fn wants_read(&self, id: u64) -> (r: bool)
        ensures
            r == (self@.contains_key(id) && self@[id].reads()),
    {
        match self.streams.get(&id) {
            Some(s) => s.wants_read(),
            None => false,
        }
    }

    /// Takes in what came of reading stream `id`, and says whether to go on
    /// reading it.
    pub fn on_read(&mut self, id: u64, event: ReadEvent) -> (more: bool)
        requires
            old(self).wf(),
            old(self)@.contains_key(id),
            old(self)@[id].reads(),
        ensures
            final(self).wf(),
            (final(self)@, more) == after_read(old(self)@, id, event),
    {
        match event {
            ReadEvent::Data { data, fin } => {
                let state = self.streams.entry(id).or_insert(ServerStreamState::Done);
                let more = state.on_data(data, fin);
                assert(self@ =~= after_read(old(self)@, id, event).0);
                more
            },
            ReadEvent::Blocked => false,
            ReadEvent::Failed => {
                self.streams.insert(id, ServerStreamState::Done);
                assert(self@ =~= after_read(old(self)@, id, event).0);
                false
            },
        }
    }

    /// The numbers of all streams, each once.
    pub fn ids(&self) -> (r: Vec<u64>)
        ensures
            r@.no_duplicates(),
            r@.to_set() == self@.dom(),
    {
        let mut r: Vec<u64> = Vec::new();
        for id in it: self.streams.keys()
            invariant
                it.seq().unref().to_set() == self.streams@.dom(),
                it.seq().no_duplicates(),
                r@ == it.seq().unref().take(it.index() as int),
                it.index() == it.seq().len() ==> r@.to_set() == self.streams@.dom(),
        {
            r.push(*id);
            assert(it.index() + 1 == it.seq().len() ==> r@ =~= it.seq().unref());
        }
        assert(self@.dom() =~= self.streams@.dom());
        r
    }

    /// What to offer to stream `id` now, if it is a download.
    pub fn next_write(&self, id: u64) -> (r: Option<Chunk>)
        requires
            self.wf(),
        ensures
            if self@.contains_key(id) && self@[id] is SendingDownload {
                r matches Some(c) && (c.len as nat, c.fin) == chunk_of(
                    self@[id]->SendingDownload_0,
                )
            } else {
                r is None
            },
    {
        match self.streams.get(&id) {
            Some(s) => s.next_write(),
            None => None,
        }
    }

    /// Notes what came of offering the next chunk to stream `id`, and says whether
    /// to offer another.
    pub fn on_write(&mut self, id: u64, event: WriteEvent) -> (more: bool)
        requires
            old(self).wf(),
            old(self)@.contains_key(id),
            fits_offer(old(self)@[id], event),
        ensures
            final(self).wf(),
            final(self)@ == after_write(old(self)@, id, event),
            more == (event is Accepted && final(self)@[id] is SendingDownload),
    {
        match event {
            WriteEvent::Accepted(n) => {
                let state = self.streams.entry(id).or_insert(ServerStreamState::Done);
                let more = state.on_written(n);
                assert(self@ =~= after_write(old(self)@, id, event));
                more
            },
            WriteEvent::Blocked => false,
            WriteEvent::Failed => {
                self.streams.insert(id, ServerStreamState::Done);
                assert(self@ =~= after_write(old(self)@, id, event));
                false
            },
        }
    }

    /// Forgets the streams that are done.
    pub fn retain_unfinished(&mut self)
        requires
            old(self).wf(),
        ensures
            final(self).wf(),
            final(self)@ == unfinished(old(self)@),
    {
        let ids = self.ids();
        let ghost start = self@;
        for i in 0..ids.len()
            invariant
                self.wf(),
                ids@.no_duplicates(),
                ids@.to_set() == start.dom(),
                forall|k: u64| #[trigger]
                    self@.contains_key(k) <==> start.contains_key(k) && !(start[k] is Done
                        && exists|j: int| 0 <= j < i && ids@[j] == k),
                forall|k: u64| #[trigger] self@.contains_key(k) ==> self@[k] == start[k],
        {
            let id = ids[i];
            proof {
                assert(ids@.contains(id));
                assert(start.contains_key(id));
                assert(self@.contains_key(id));
            }
            let done = match self.streams.get(&id) {
                Some(s) => s.is_done(),
                None => false,
            };
            let ghost before = self@;
            if done {
                self.streams.remove(&id);
                assert(self@ =~= before.remove(id));
            }
            assert forall|k: u64| #[trigger]
                self@.contains_key(k) <==> start.contains_key(k) && !(start[k] is Done
                    && exists|j: int| 0 <= j < i + 1 && ids@[j] == k) by {
                assert(before.contains_key(k) <==> start.contains_key(k) && !(start[k] is Done
                    && exists|j: int| 0 <= j < i && ids@[j] == k));
                if k == id {
                    assert(ids@[i as int] == k);
                }
            }
        }
        assert forall|k: u64| start.contains_key(k) implies exists|j: int|
            0 <= j < ids@.len() && ids@[j] == k by {
            assert(ids@.to_set().contains(k));
        }
        assert(self@ =~= unfinished(start));
    }
}

/// What happens to a stream: bytes that come are taken in, and a stream that cannot be
/// read is done.
pub proof fn law_reading_a_stream(t: Map<u64, StreamView>, id: u64, data: &[u8], fin: bool)
    requires
        t.contains_key(id),
    ensures
        after_read(t, id, ReadEvent::Data { data, fin }).0[id] == after_data(t[id], data@, fin).0,
        after_read(t, id, ReadEvent::Data { data, fin }).1 == after_data(t[id], data@, fin).1,
        after_read(t, id, ReadEvent::Blocked) == (t, false),
        after_read(t, id, ReadEvent::Failed).0[id] is Done,
        !after_read(t, id, ReadEvent::Failed).1,
        after_read(t, id, ReadEvent::Data { data, fin }).0.dom() == t.dom(),
        after_read(t, id, ReadEvent::Failed).0.dom() == t.dom(),
{
    assert(t.dom().insert(id) =~= t.dom());
}

/// What happens to a download: bytes that were taken are no longer to be sent, with the
/// last of them it is done, and a stream that cannot be written is done.
pub proof fn law_writing_a_stream(t: Map<u64, StreamView>, id: u64, left: nat, n: usize)
    requires
        t.contains_key(id),
        t[id] == StreamView::SendingDownload(left),
        n <= left,
        0 < left,
    ensures
        after_write(t, id, WriteEvent::Accepted(n))[id] == (if n == left {
            StreamView::Done
        } else {
            StreamView::SendingDownload((left - n) as nat)
        }),
        after_write(t, id, WriteEvent::Blocked) == t,
        after_write(t, id, WriteEvent::Failed)[id] is Done,
        after_write(t, id, WriteEvent::Accepted(n)).dom() == t.dom(),
        after_write(t, id, WriteEvent::Failed).dom() == t.dom(),
{
    assert(t.dom().insert(id) =~= t.dom());
}

/// Opening a stream does nothing to one that is open; a new one has an empty request.
pub proof fn law_opening_a_stream(t: Map<u64, StreamView>, id: u64)
    ensures
        with_stream(t, id).contains_key(id),
        t.contains_key(id) ==> with_stream(t, id) == t,
        !t.contains_key(id) ==> with_stream(t, id)[id] == StreamView::ReadingHeader(Seq::empty()),
        with_stream(t, id).dom() == t.dom().insert(id),
{
    assert(t.contains_key(id) ==> t.dom().insert(id) =~= t.dom());
}

} // verus!
