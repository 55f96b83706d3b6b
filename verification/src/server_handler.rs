//! The listener's side of all connections of an endpoint that calls back when a
//! stream can be read or written.

use crate::server_stream::{after_data, after_sent, StreamView};
use crate::stream_table::{with_stream, StreamTable};
use crate::wire::{be_value, chunk_of, Chunk, ReadEvent, WriteAction, WriteEvent, CHUNK_LEN};
use std::collections::HashMap;
use vstd::prelude::*;

verus! {

broadcast use vstd::std_specs::hash::group_hash_axioms;

/// All connections of an endpoint, by their numbers.
pub struct ServerHandler {
    streams: HashMap<u64, StreamTable>,
    buf: Vec<u8>,
}

/// What there is to know of the connections of an endpoint.
pub struct ServerHandlerView {
    pub streams: Map<u64, Map<u64, StreamView>>,
    /// Room for the bytes of one read.
    pub buf: Seq<u8>,
}

/// What to do after a read.
#[derive(Clone, Copy, Debug, PartialEq, Eq, Structural)]
pub enum ReadAction {
    /// Read again.
    Again,
    /// Ask to be called back when the stream can be written, then read again.
    WantWriteAndAgain,
    /// Leave the stream until it can be read again.
    Stop,
}

impl View for ServerHandler {
    type V = ServerHandlerView;

    closed spec fn view(&self) -> ServerHandlerView {
        ServerHandlerView {
            streams: self.streams@.map_values(|t: StreamTable| t@),
            buf: self.buf@,
        }
    }
}

impl ServerHandlerView {
    pub open spec fn contains(self, conn: u64, id: u64) -> bool {
        self.streams.contains_key(conn) && self.streams[conn].contains_key(id)
    }

    /// The same connections with another state of one stream.
    pub open spec fn with(self, conn: u64, id: u64, s: StreamView) -> ServerHandlerView {
        ServerHandlerView {
            streams: self.streams.insert(conn, self.streams[conn].insert(id, s)),
            ..self
        }
    }
}

/// The streams of a connection; one that nothing is known of has none.
pub open spec fn streams_of(v: ServerHandlerView, conn: u64) -> Map<u64, StreamView> {
    if v.streams.contains_key(conn) {
        v.streams[conn]
    } else {
        Map::empty()
    }
}

/// What to do after bytes that leave a stream in state `s` have been taken in.
pub open spec fn read_action(s: StreamView, more: bool) -> ReadAction {
    if !more {
        ReadAction::Stop
    } else if s is SendingDownload {
        ReadAction::WantWriteAndAgain
    } else {
        ReadAction::Again
    }
}

/// What happens to a stream of one connection leaves the other connections as they
/// are.
pub proof fn law_connections_are_independent(
    v: ServerHandlerView,
    conn: u64,
    other: u64,
    id: u64,
    s: StreamView,
)
    requires
        other != conn,
    ensures
        v.with(conn, id, s).streams.contains_key(other) == v.streams.contains_key(other),
        v.with(conn, id, s).streams[other] == v.streams[other],
{
}

impl ServerHandler {
    pub closed spec fn wf(&self) -> bool {
        forall|c: u64| #[trigger] self.streams@.contains_key(c) ==> self.streams@[c].wf()
    }

    /// Every stream of every connection is in order.
    pub proof fn law_streams_are_in_order(&self)
        requires
            self.wf(),
        ensures
            forall|conn: u64, id: u64| #[trigger]
                self@.contains(conn, id) ==> self@.streams[conn][id].wf(),
    {
        assert forall|conn: u64, id: u64| #[trigger]
            self@.contains(conn, id) implies self@.streams[conn][id].wf() by {
            assert(self.streams@.contains_key(conn));
            self.streams@[conn].law_streams_are_in_order();
        }
    }

    /// An endpoint without connections.
    pub fn new() -> (r: Self)
        ensures
            r.wf(),
            r@ == (ServerHandlerView {
                streams: Map::empty(),
                buf: Seq::new(CHUNK_LEN as nat, |i: int| 0u8),
            }),
    {
        let r = ServerHandler { streams: HashMap::new(), buf: vec![0u8; CHUNK_LEN] };
        assert(r@.buf =~= Seq::new(CHUNK_LEN as nat, |i: int| 0u8));
        assert(r@.streams =~= Map::empty());
        r
    }

    /// Room for the bytes of the next read.
    pub fn buffer(&mut self) -> (r: &mut [u8])
        ensures
            r@ == old(self)@.buf,
            final(self)@ == (ServerHandlerView { buf: final(r)@, ..old(self)@ }),
            old(self).wf() ==> final(self).wf(),
    {
        self.buf.as_mut_slice()
    }

    /// Prepares to read stream `id` of a connection, and says whether there is
    /// anything to prepare: a connection may have lost its number.
    pub fn on_stream_readable(&mut self, conn: Option<u64>, id: u64) -> (r: bool)
        requires
            old(self).wf(),
        ensures
            final(self).wf(),
            match conn {
                Some(c) => r && final(self)@ == (ServerHandlerView {
                    streams: old(self)@.streams.insert(
                        c,
                        with_stream(streams_of(old(self)@, c), id),
                    ),
                    ..old(self)@
                }),
                None => !r && final(self)@ == old(self)@,
            },
    {
        match conn {
            Some(c) => {
                if !self.streams.contains_key(&c) {
                    self.streams.insert(c, StreamTable::new());
                }
                let table = self.streams.entry(c).or_insert(StreamTable::new());
                table.open(id);
                proof {
                    assert(self.streams@.dom() =~= old(self).streams@.dom().insert(c));
                    assert(self@.streams =~= old(self)@.streams.insert(
                        c,
                        with_stream(streams_of(old(self)@, c), id),
                    ));
                }
                true
            },
            None => false,
        }
    }

    /// Whether stream `id` of connection `conn` is to be read.
    pub fn wants_read(&self, conn: u64, id: u64) -> (r: bool)
        ensures
            r == (self@.contains(conn, id) && self@.streams[conn][id].reads()),
    {
        match self.streams.get(&conn) {
            Some(t) => t.wants_read(id),
            None => false,
        }
    }

    /// Takes in what came of reading stream `id` of connection `conn`: the first
    /// `len` bytes of the buffer, or nothing when the stream could not be read.
    pub fn handle_stream_read(&mut self, conn: u64, id: u64, read: Option<(usize, bool)>) -> (r:
        ReadAction)
        requires
            old(self).wf(),
            old(self)@.contains(conn, id),
            old(self)@.streams[conn][id].reads(),
            read matches Some(p) ==> p.0 <= old(self)@.buf.len(),
        ensures
            final(self).wf(),
            match read {
                Some(p) => {
                    let (s, more) = after_data(
                        old(self)@.streams[conn][id],
                        old(self)@.buf.take(p.0 as int),
                        p.1,
                    );
                    final(self)@ == old(self)@.with(conn, id, s) && r == read_action(s, more)
                },
                None => final(self)@ == old(self)@ && r == ReadAction::Stop,
            },
    {
        match read {
            Some((len, fin)) => {
                let data = vstd::slice::slice_subrange(self.buf.as_slice(), 0, len);
                assert(data@ =~= old(self)@.buf.take(len as int));
                let table = self.streams.entry(conn).or_insert(StreamTable::new());
                let more = table.on_read(id, ReadEvent::Data { data, fin });
                let wants_write = match table.next_write(id) {
                    Some(_) => true,
                    None => false,
                };
                proof {
                    let s = after_data(old(self)@.streams[conn][id], data@, fin).0;
                    assert(self@.streams =~= old(self)@.with(conn, id, s).streams);
                }
                if !more {
                    ReadAction::Stop
                } else if wants_write {
                    ReadAction::WantWriteAndAgain
                } else {
                    ReadAction::Again
                }
            },
            None => ReadAction::Stop,
        }
    }

    /// What to offer now to stream `id` of a connection, if it is a download.
    pub fn next_write(&self, conn: Option<u64>, id: u64) -> (r: Option<Chunk>)
        requires
            self.wf(),
        ensures
            match conn {
                Some(c) => if self@.contains(c, id) && self@.streams[c][id] is SendingDownload {
                    r matches Some(k) && (k.len as nat, k.fin) == chunk_of(
                        self@.streams[c][id]->SendingDownload_0,
                    )
                } else {
                    r is None
                },
                None => r is None,
            },
    {
        match conn {
            Some(c) => match self.streams.get(&c) {
                Some(t) => t.next_write(id),
                None => None,
            },
            None => None,
        }
    }

    /// Notes what came of offering the next chunk to stream `id` of connection
    /// `conn`: the number of bytes taken, or nothing when it was refused.
    pub fn handle_stream_write(&mut self, conn: u64, id: u64, written: Option<usize>) -> (r:
        WriteAction)
        requires
            old(self).wf(),
            old(self)@.contains(conn, id),
            old(self)@.streams[conn][id] is SendingDownload,
            written matches Some(n) ==> n <= chunk_of(
                old(self)@.streams[conn][id]->SendingDownload_0,
            ).0,
        ensures
            final(self).wf(),
            match written {
                Some(n) => {
                    let s = after_sent(old(self)@.streams[conn][id], n as nat);
                    &&& final(self)@ == old(self)@.with(conn, id, s)
                    &&& r == (if s is SendingDownload {
                        WriteAction::Again
                    } else {
                        WriteAction::Stop
                    })
                },
                None => final(self)@ == old(self)@ && r == WriteAction::WantWrite,
            },
    {
        match written {
            Some(n) => {
                let table = self.streams.entry(conn).or_insert(StreamTable::new());
                let more = table.on_write(id, WriteEvent::Accepted(n));
                proof {
                    let s = after_sent(old(self)@.streams[conn][id], n as nat);
                    assert(self@.streams =~= old(self)@.with(conn, id, s).streams);
                }
                if more {
                    WriteAction::Again
                } else {
                    WriteAction::Stop
                }
            },
            None => WriteAction::WantWrite,
        }
    }

    /// Forgets the streams of a connection that is closed.
    pub fn on_conn_closed(&mut self, conn: Option<u64>)
        requires
            old(self).wf(),
        ensures
            final(self).wf(),
            final(self)@ == (match conn {
                Some(c) => ServerHandlerView {
                    streams: old(self)@.streams.remove(c),
                    ..old(self)@
                },
                None => old(self)@,
            }),
    {
        if let Some(c) = conn {
            self.streams.remove(&c);
            assert(self@.streams =~= old(self)@.streams.remove(c));
        }
    }
}

/// What happens to a stream changes that stream and no other, of this connection or of
/// another.
pub proof fn law_only_that_stream_changes(
    v: ServerHandlerView,
    conn: u64,
    id: u64,
    other: u64,
    s: StreamView,
)
    requires
        v.contains(conn, id),
        other != id,
    ensures
        v.with(conn, id, s).streams[conn][id] == s,
        v.with(conn, id, s).contains(conn, id),
        v.with(conn, id, s).contains(conn, other) == v.contains(conn, other),
        v.with(conn, id, s).streams[conn][other] == v.streams[conn][other],
        v.with(conn, id, s).streams.dom() == v.streams.dom(),
        v.with(conn, id, s).buf == v.buf,
{
    assert(v.streams.dom().insert(conn) =~= v.streams.dom());
}

/// When to be called back for writing: exactly when a request that asks for bytes is
/// complete.
pub proof fn law_when_to_be_called_back(h: Seq<u8>, data: Seq<u8>, fin: bool)
    requires
        h.len() < 8,
    ensures
        ({
            let (s, more) = after_data(StreamView::ReadingHeader(h), data, fin);
            let bytes = h + data;
            &&& read_action(s, more) == ReadAction::WantWriteAndAgain <==> bytes.len() >= 8
                && be_value(bytes.take(8)) > 0
            &&& read_action(s, more) == ReadAction::Again <==> bytes.len() >= 8 && be_value(
                bytes.take(8),
            ) == 0
            &&& read_action(s, more) == ReadAction::Stop <==> bytes.len() < 8
        }),
        ({
            let (s, more) = after_data(StreamView::DiscardingUpload, data, fin);
            &&& read_action(s, more) == ReadAction::Again <==> !fin
            &&& read_action(s, more) == ReadAction::Stop <==> fin
        }),
{
}

/// A stream is known if its connection is and has it; an unknown connection has none.
pub proof fn law_what_is_known(v: ServerHandlerView, conn: u64, id: u64)
    ensures
        v.contains(conn, id) <==> v.streams.contains_key(conn) && v.streams[conn].contains_key(id),
        v.streams.contains_key(conn) ==> streams_of(v, conn) == v.streams[conn],
        !v.streams.contains_key(conn) ==> streams_of(v, conn).dom() == Set::<u64>::empty(),
{
}

} // verus!
