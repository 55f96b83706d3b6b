//! The listener's side of one stream: read the request, then discard what the
//! dialer uploads or send what it wants to download.

use crate::wire::{
    be_value, chunk_of, decode_request, law_request_is_read_back, next_chunk, request_bytes,
    requested, Chunk, TestType,
};
use vstd::prelude::*;

verus! {

/// How far the listener is with a stream.
pub enum ServerStreamState {
    /// `offset` bytes of the request have come and stand at the front of `buf`.
    ReadingHeader { buf: [u8; 8], offset: usize },
    /// The dialer uploads, and what it sends is dropped.
    DiscardingUpload,
    /// `remaining` bytes are still to be sent.
    SendingDownload { remaining: u64 },
    /// Nothing is left to do.
    Done,
}

/// What matters of a stream: the part of the request that has come, or the
/// number of bytes to be sent.
pub enum StreamView {
    ReadingHeader(Seq<u8>),
    DiscardingUpload,
    SendingDownload(nat),
    Done,
}

impl View for ServerStreamState {
    type V = StreamView;

    open spec fn view(&self) -> StreamView {
        match *self {
            ServerStreamState::ReadingHeader { buf, offset } => StreamView::ReadingHeader(
                buf@.take(offset as int),
            ),
            ServerStreamState::DiscardingUpload => StreamView::DiscardingUpload,
            ServerStreamState::SendingDownload { remaining } => StreamView::SendingDownload(
                remaining as nat,
            ),
            ServerStreamState::Done => StreamView::Done,
        }
    }
}

impl StreamView {
    /// A request is incomplete while it is read, and a download has bytes left.
    pub open spec fn wf(self) -> bool {
        match self {
            StreamView::ReadingHeader(h) => h.len() < 8,
            StreamView::SendingDownload(n) => 0 < n <= u64::MAX,
            _ => true,
        }
    }

    /// The stream is read in this state.
    pub open spec fn reads(self) -> bool {
        self is ReadingHeader || self is DiscardingUpload
    }
}

/// What a complete request makes of a stream: zero announces an upload, any
/// other number asks for that many bytes.
pub open spec fn after_request(n: nat) -> StreamView {
    if n == 0 {
        StreamView::DiscardingUpload
    } else {
        StreamView::SendingDownload(n)
    }
}

/// What bytes make of a stream that is read, and whether to go on reading. Bytes
/// behind the request are dropped.
pub open spec fn after_data(s: StreamView, data: Seq<u8>, fin: bool) -> (StreamView, bool) {
    match s {
        StreamView::ReadingHeader(h) => {
            if h.len() + data.len() >= 8 {
                (after_request(be_value((h + data).take(8))), true)
            } else if fin {
                (StreamView::Done, false)
            } else {
                (StreamView::ReadingHeader(h + data), false)
            }
        },
        StreamView::DiscardingUpload => {
            if fin {
                (StreamView::Done, false)
            } else {
                (s, true)
            }
        },
        _ => (s, false),
    }
}

/// What `n` sent bytes make of a download.
pub open spec fn after_sent(s: StreamView, n: nat) -> StreamView {
    match s {
        StreamView::SendingDownload(left) => if n >= left {
            StreamView::Done
        } else {
            StreamView::SendingDownload((left - n) as nat)
        },
        _ => s,
    }
}

/// What the stream is after the bytes of several reads, none of them the last.
pub open spec fn after_reads(s: StreamView, reads: Seq<Seq<u8>>) -> StreamView
    decreases reads.len(),
{
    if reads.len() == 0 {
        s
    } else {
        after_data(after_reads(s, reads.drop_last()), reads.last(), false).0
    }
}

/// All bytes of several reads.
pub open spec fn all_bytes(reads: Seq<Seq<u8>>) -> Seq<u8>
    decreases reads.len(),
{
    if reads.len() == 0 {
        Seq::empty()
    } else {
        all_bytes(reads.drop_last()) + reads.last()
    }
}

/// What the stream is after several writes, each of which took some bytes.
pub open spec fn after_writes(s: StreamView, writes: Seq<nat>) -> StreamView
    decreases writes.len(),
{
    if writes.len() == 0 {
        s
    } else {
        after_sent(after_writes(s, writes.drop_last()), writes.last())
    }
}

/// The number of bytes that several writes took.
pub open spec fn total(writes: Seq<nat>) -> nat
    decreases writes.len(),
{
    if writes.len() == 0 {
        0
    } else {
        total(writes.drop_last()) + writes.last()
    }
}

/// Every write took no more than was offered to it.
pub open spec fn within_offers(s: StreamView, writes: Seq<nat>) -> bool
    decreases writes.len(),
{
    writes.len() > 0 ==> {
        &&& within_offers(s, writes.drop_last())
        &&& match after_writes(s, writes.drop_last()) {
            StreamView::SendingDownload(left) => writes.last() <= chunk_of(left).0,
            _ => false,
        }
    }
}

/// How the bytes of a request are cut into reads makes no difference, and
/// neither do bytes behind it.
pub proof fn law_reads_are_one_read(reads: Seq<Seq<u8>>)
    ensures
        after_reads(StreamView::ReadingHeader(Seq::empty()), reads) == after_data(
            StreamView::ReadingHeader(Seq::empty()),
            all_bytes(reads),
            false,
        ).0,
    decreases reads.len(),
{
    let start = StreamView::ReadingHeader(Seq::<u8>::empty());
    if reads.len() == 0 {
        assert(Seq::<u8>::empty() + Seq::<u8>::empty() =~= Seq::<u8>::empty());
    } else {
        law_reads_are_one_read(reads.drop_last());
        let before = all_bytes(reads.drop_last());
        let last = reads.last();
        assert(Seq::<u8>::empty() + before =~= before);
        assert(Seq::<u8>::empty() + (before + last) =~= before + last);
        if before.len() >= 8 {
            assert((before + last).take(8) =~= before.take(8));
        }
    }
}

/// The end of the stream may come with any read. A request that is complete by then is
/// served, one that is not is dropped; an upload is over if its end does not come
/// together with the request.
pub proof fn law_last_read_of_a_request(reads: Seq<Seq<u8>>, last: Seq<u8>)
    ensures
        ({
            let bytes = all_bytes(reads) + last;
            let end = after_data(
                after_reads(StreamView::ReadingHeader(Seq::empty()), reads),
                last,
                true,
            ).0;
            if bytes.len() < 8 {
                end is Done
            } else if be_value(bytes.take(8)) > 0 {
                end == StreamView::SendingDownload(be_value(bytes.take(8)))
            } else if all_bytes(reads).len() >= 8 {
                end is Done
            } else {
                end is DiscardingUpload
            }
        }),
{
    law_reads_are_one_read(reads);
    let before = all_bytes(reads);
    assert(Seq::<u8>::empty() + before =~= before);
    if before.len() >= 8 {
        assert((before + last).take(8) =~= before.take(8));
    }
}

/// The listener sends exactly as many bytes as were asked for: as long as it is
/// sending, what was taken and what is left add up to the request, and it is done
/// exactly when everything was taken.
pub proof fn law_download_sends_what_was_asked(n: nat, writes: Seq<nat>)
    requires
        n > 0,
        within_offers(StreamView::SendingDownload(n), writes),
    ensures
        total(writes) <= n,
        after_writes(StreamView::SendingDownload(n), writes) == (if total(writes) == n {
            StreamView::Done
        } else {
            StreamView::SendingDownload((n - total(writes)) as nat)
        }),
    decreases writes.len(),
{
    if writes.len() > 0 {
        law_download_sends_what_was_asked(n, writes.drop_last());
    }
}

/// Each kind of test makes the listener do its part: it discards an upload, it
/// sends the bytes of a download, and it sends one byte to measure latency. A
/// download of nothing looks like an upload.
pub proof fn law_listener_serves_the_test(test: TestType)
    ensures
        after_data(StreamView::ReadingHeader(Seq::empty()), request_bytes(test), false).0 == (
        match test {
            TestType::Upload { .. } => StreamView::DiscardingUpload,
            TestType::Download { bytes } => if bytes == 0 {
                StreamView::DiscardingUpload
            } else {
                StreamView::SendingDownload(bytes as nat)
            },
            TestType::Latency => StreamView::SendingDownload(1),
        }),
{
    law_request_is_read_back(requested(test));
    let r = request_bytes(test);
    assert((Seq::<u8>::empty() + r).take(8) =~= r);
}

impl ServerStreamState {
    pub open spec fn wf(&self) -> bool {
        &&& self@.wf()
        &&& match *self {
            ServerStreamState::ReadingHeader { buf, offset } => offset < 8,
            _ => true,
        }
    }

    /// A stream of which nothing has come.
    pub fn new() -> (r: Self)
        ensures
            r.wf(),
            r@ == StreamView::ReadingHeader(Seq::empty()),
    {
        let r = ServerStreamState::ReadingHeader { buf: [0u8; 8], offset: 0 };
        assert(r@->ReadingHeader_0 =~= Seq::<u8>::empty());
        r
    }

    /// Whether the stream is to be read.
    pub fn wants_read(&self) -> (r: bool)
        ensures
            r == self@.reads(),
    {
        match self {
            ServerStreamState::ReadingHeader { .. } => true,
            ServerStreamState::DiscardingUpload => true,
            _ => false,
        }
    }

    /// Whether nothing is left to do.
    pub fn is_done(&self) -> (r: bool)
        ensures
            r == (self@ is Done),
    {
        match self {
            ServerStreamState::Done => true,
            _ => false,
        }
    }

    /// Takes in bytes that came, and says whether to go on reading.
    pub fn on_data(&mut self, data: &[u8], fin: bool) -> (more: bool)
        requires
            old(self).wf(),
            old(self)@.reads(),
        ensures
            final(self).wf(),
            (final(self)@, more) == after_data(old(self)@, data@, fin),
    {
        let ghost before = self@;
        match self {
            ServerStreamState::ReadingHeader { buf, offset } => {
                let mut header: [u8; 8] = *buf;
                let held = *offset;
                let need = 8 - held;
                let copy_len = if data.len() < need {
                    data.len()
                } else {
                    need
                };
                let mut i: usize = 0;
                proof {
                    assert(header@.take(held as int) =~= before->ReadingHeader_0 + data@.take(0));
                }
                while i < copy_len
                    invariant
                        i <= copy_len,
                        held < 8,
                        copy_len <= data@.len(),
                        held + copy_len <= 8,
                        header@.len() == 8,
                        before is ReadingHeader,
                        before->ReadingHeader_0.len() == held,
                        header@.take(held + i) == before->ReadingHeader_0 + data@.take(i as int),
                    decreases copy_len - i,
                {
                    let ghost prior = header@;
                    header[held + i] = data[i];
                    proof {
                        assert(header@.take(held + i) =~= prior.take(held + i));
                        assert(header@.take(held + i + 1) =~= header@.take(held + i).push(
                            data@[i as int],
                        ));
                        assert(data@.take(i + 1) =~= data@.take(i as int).push(data@[i as int]));
                    }
                    i = i + 1;
                }
                let filled = held + copy_len;
                if filled >= 8 {
                    let n = decode_request(&header);
                    proof {
                        assert(header@.take(8) =~= header@);
                        assert((before->ReadingHeader_0 + data@).take(8) =~= header@);
                    }
                    if n == 0 {
                        *self = ServerStreamState::DiscardingUpload;
                    } else {
                        *self = ServerStreamState::SendingDownload { remaining: n };
                    }
                    true
                } else if fin {
                    *self = ServerStreamState::Done;
                    false
                } else {
                    proof {
                        assert(data@.take(copy_len as int) =~= data@);
                    }
                    *self = ServerStreamState::ReadingHeader { buf: header, offset: filled };
                    false
                }
            },
            _ => {
                if fin {
                    *self = ServerStreamState::Done;
                    false
                } else {
                    true
                }
            },
        }
    }

    /// What to offer to the stream now, if it is a download.
    pub fn next_write(&self) -> (r: Option<Chunk>)
        requires
            self.wf(),
        ensures
            match self@ {
                StreamView::SendingDownload(left) => r matches Some(c) && (c.len as nat, c.fin)
                    == chunk_of(left),
                _ => r is None,
            },
    {
        match self {
            ServerStreamState::SendingDownload { remaining } => Some(next_chunk(*remaining)),
            _ => None,
        }
    }

    /// Notes that the stream took `written` bytes, and says whether to offer more.
    pub fn on_written(&mut self, written: usize) -> (more: bool)
        requires
            old(self).wf(),
            old(self)@ matches StreamView::SendingDownload(left) && written <= chunk_of(left).0,
        ensures
            final(self).wf(),
            final(self)@ == after_sent(old(self)@, written as nat),
            more == (final(self)@ is SendingDownload),
    {
        match self {
            ServerStreamState::SendingDownload { remaining } => {
                let left = *remaining - written as u64;
                if left == 0 {
                    *self = ServerStreamState::Done;
                    false
                } else {
                    *self = ServerStreamState::SendingDownload { remaining: left };
                    true
                }
            },
            _ => false,
        }
    }
}

/// A request is kept until its eight bytes have come, however they come. A zero then
/// announces an upload; any other number asks for that many bytes. What comes behind the
/// request changes nothing.
pub proof fn law_request_is_taken_in(reads: Seq<Seq<u8>>)
    ensures
        ({
            let bytes = all_bytes(reads);
            let s = after_reads(StreamView::ReadingHeader(Seq::empty()), reads);
            &&& bytes.len() < 8 ==> s == StreamView::ReadingHeader(bytes)
            &&& bytes.len() >= 8 && be_value(bytes.take(8)) == 0 ==> s
                == StreamView::DiscardingUpload
            &&& bytes.len() >= 8 && be_value(bytes.take(8)) > 0 ==> s
                == StreamView::SendingDownload(be_value(bytes.take(8)))
        }),
{
    law_reads_are_one_read(reads);
    assert(Seq::<u8>::empty() + all_bytes(reads) =~= all_bytes(reads));
}

/// When to go on reading: as soon as the request is complete, and as long as an upload has
/// not ended. An upload ends with its stream and not before; a download is not read.
pub proof fn law_when_to_go_on_reading(h: Seq<u8>, n: nat, data: Seq<u8>, fin: bool)
    requires
        h.len() < 8,
    ensures
        after_data(StreamView::ReadingHeader(h), data, fin).1 <==> h.len() + data.len() >= 8,
        after_data(StreamView::DiscardingUpload, data, true) == (StreamView::Done, false),
        after_data(StreamView::DiscardingUpload, data, false) == (
            StreamView::DiscardingUpload,
            true,
        ),
        after_data(StreamView::SendingDownload(n), data, fin) == (
            StreamView::SendingDownload(n),
            false,
        ),
        after_data(StreamView::Done, data, fin) == (StreamView::Done, false),
        StreamView::ReadingHeader(h).reads(),
        StreamView::DiscardingUpload.reads(),
        !StreamView::SendingDownload(n).reads(),
        !StreamView::Done.reads(),
{
}

/// The view of a stream shows the bytes of the request that have come, and how many bytes
/// are still to be sent.
pub proof fn law_stream_shows_what_it_holds(buf: [u8; 8], offset: usize, remaining: u64)
    requires
        offset <= 8,
    ensures
        ({
            let v = (ServerStreamState::ReadingHeader { buf, offset })@;
            &&& v is ReadingHeader
            &&& v->ReadingHeader_0.len() == offset
            &&& forall|i: int| 0 <= i < offset ==> v->ReadingHeader_0[i] == buf@[i]
        }),
        ServerStreamState::DiscardingUpload@ == StreamView::DiscardingUpload,
        (ServerStreamState::SendingDownload { remaining })@ == StreamView::SendingDownload(
            remaining as nat,
        ),
        ServerStreamState::Done@ == StreamView::Done,
{
}

} // verus!
