//! The listener's side of a connection whose owner asks it in turn to read its
//! streams and to write them.

use crate::server_stream::StreamView;
use crate::stream_table::{
    after_read, after_write, fits_offer, unfinished, with_stream, StreamTable,
};
use crate::wire::{chunk_of, Chunk, ReadEvent, WriteEvent, CHUNK_LEN};
use vstd::prelude::*;

verus! {

/// A connection as the listener keeps it.
pub struct PerfServerApp {
    pkt_buf: Vec<u8>,
    streams: StreamTable,
    active: bool,
}

/// What there is to know of a connection.
pub struct ServerAppView {
    /// Room for an outgoing packet.
    pub pkt_buf: Seq<u8>,
    pub streams: Map<u64, StreamView>,
    /// The handshake is over.
    pub active: bool,
}

impl View for PerfServerApp {
    type V = ServerAppView;

    closed spec fn view(&self) -> ServerAppView {
        ServerAppView { pkt_buf: self.pkt_buf@, streams: self.streams@, active: self.active }
    }
}

impl PerfServerApp {
    pub closed spec fn wf(&self) -> bool {
        self.streams.wf()
    }

    /// Every stream of the connection is in order.
    pub proof fn law_streams_are_in_order(&self)
        requires
            self.wf(),
        ensures
            forall|id: u64| #[trigger]
                self@.streams.contains_key(id) ==> self@.streams[id].wf(),
    {
        self.streams.law_streams_are_in_order();
    }

    /// A connection whose handshake is not over.
    pub fn new() -> (r: Self)
        ensures
            r.wf(),
            r@ == (ServerAppView {
                pkt_buf: Seq::new(CHUNK_LEN as nat, |i: int| 0u8),
                streams: Map::empty(),
                active: false,
            }),
    {
        let r = PerfServerApp {
            pkt_buf: vec![0u8; CHUNK_LEN],
            streams: StreamTable::new(),
            active: false,
        };
        assert(r@.pkt_buf =~= Seq::new(CHUNK_LEN as nat, |i: int| 0u8));
        r
    }

    /// Notes that the handshake is over.
    pub fn on_conn_established(&mut self)
        requires
            old(self).wf(),
        ensures
            final(self).wf(),
            final(self)@ == (ServerAppView { active: true, ..old(self)@ }),
    {
        self.active = true;
    }

    /// Whether the connection is ready to read and write.
    pub fn should_act(&self) -> (r: bool)
        ensures
            r == self@.active,
    {
        self.active
    }

    /// Room for an outgoing packet.
    pub fn buffer(&mut self) -> (r: &mut [u8])
        ensures
            r@ == old(self)@.pkt_buf,
            final(self)@ == (ServerAppView { pkt_buf: final(r)@, ..old(self)@ }),
            old(self).wf() ==> final(self).wf(),
    {
        self.pkt_buf.as_mut_slice()
    }

    /// Prepares to read stream `id`, which has something to read.
    pub fn on_readable(&mut self, id: u64)
        requires
            old(self).wf(),
        ensures
            final(self).wf(),
            final(self)@ == (ServerAppView {
                streams: with_stream(old(self)@.streams, id),
                ..old(self)@
            }),
    {
        self.streams.open(id);
    }

    /// Whether stream `id` is to be read.
    pub fn wants_read(&self, id: u64) -> (r: bool)
        ensures
            r == (self@.streams.contains_key(id) && self@.streams[id].reads()),
    {
        self.streams.wants_read(id)
    }

    /// Takes in what came of reading stream `id`, and says whether to go on
    /// reading it.
    pub fn process_read(&mut self, id: u64, event: ReadEvent) -> (more: bool)
        requires
            old(self).wf(),
            old(self)@.streams.contains_key(id),
            old(self)@.streams[id].reads(),
        ensures
            final(self).wf(),
            final(self)@ == (ServerAppView {
                streams: after_read(old(self)@.streams, id, event).0,
                ..old(self)@
            }),
            more == after_read(old(self)@.streams, id, event).1,
    {
        self.streams.on_read(id, event)
    }

    /// The numbers of all streams, each once.
    pub fn stream_ids(&self) -> (r: Vec<u64>)
        ensures
            r@.no_duplicates(),
            r@.to_set() == self@.streams.dom(),
    {
        self.streams.ids()
    }

    /// What to offer to stream `id` now, if it is a download.
    pub fn next_write(&self, id: u64) -> (r: Option<Chunk>)
        requires
            self.wf(),
        ensures
            if self@.streams.contains_key(id) && self@.streams[id] is SendingDownload {
                r matches Some(c) && (c.len as nat, c.fin) == chunk_of(
                    self@.streams[id]->SendingDownload_0,
                )
            } else {
                r is None
            },
    {
        self.streams.next_write(id)
    }

    /// Notes what came of offering the next chunk to stream `id`, and says whether
    /// to offer another.
    pub fn process_write(&mut self, id: u64, event: WriteEvent) -> (more: bool)
        requires
            old(self).wf(),
            old(self)@.streams.contains_key(id),
            fits_offer(old(self)@.streams[id], event),
        ensures
            final(self).wf(),
            final(self)@ == (ServerAppView {
                streams: after_write(old(self)@.streams, id, event),
                ..old(self)@
            }),
            more == (event is Accepted && final(self)@.streams[id] is SendingDownload),
    {
        self.streams.on_write(id, event)
    }

    /// Forgets the streams that are done.
    pub fn finish_writes(&mut self)
        requires
            old(self).wf(),
        ensures
            final(self).wf(),
            final(self)@ == (ServerAppView {
                streams: unfinished(old(self)@.streams),
                ..old(self)@
            }),
    {
        self.streams.retain_unfinished();
    }
}

} // verus!
