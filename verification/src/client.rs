//! The dialer's side of one test: send the request, then upload bytes or wait for
//! a download, and take the time.

use crate::server_stream::{
    after_data, after_reads, after_writes, all_bytes, law_download_sends_what_was_asked,
    law_last_read_of_a_request, law_listener_serves_the_test, law_reads_are_one_read, total, within_offers, StreamView,
};
use crate::wire::{
    be_bytes, chunk_of, law_request_is_read_back, next_chunk, request_bytes, request_header, requested,
    Chunk, TestType,
};
use vstd::prelude::*;

verus! {

/// How far a test is.
pub enum ClientPhase {
    /// The handshake is not over.
    WaitingForConn,
    /// `offset` bytes of the request are sent.
    SendingHeader { stream_id: u64, header: [u8; 8], offset: usize },
    /// `remaining` bytes of an upload are still to be sent.
    SendingUploadData { stream_id: u64, remaining: u64 },
    /// `received` of the `expected` bytes of a download have come.
    ReceivingDownload { stream_id: u64, expected: u64, received: u64 },
    /// The test is over.
    Done,
}

/// What matters of a phase; the bytes of the request follow from the test.
pub enum PhaseView {
    WaitingForConn,
    SendingHeader { stream_id: u64, sent: nat },
    SendingUploadData { stream_id: u64, remaining: nat },
    ReceivingDownload { stream_id: u64, expected: nat, received: nat },
    Done,
}

/// What was measured. Times are in nanoseconds.
#[derive(Clone, Copy, Debug, PartialEq, Eq, Structural)]
pub enum Measurement {
    /// So many bytes went over in this time.
    Throughput { bytes: u64, nanos: u64 },
    /// An answer took this time.
    RoundTrip { nanos: u64 },
}

/// What a test wants to do with its stream.
pub enum ClientAction {
    /// Nothing now.
    Idle,
    /// Offer the rest of the request.
    SendHeader { data: Vec<u8>, fin: bool },
    /// Offer zero bytes.
    SendZeros(Chunk),
    /// Read.
    Receive,
    /// Everything is sent: take the time and close the connection.
    Finish,
}

/// What to do after a read or a write.
#[derive(Clone, Copy, Debug, PartialEq, Eq, Structural)]
pub enum Flow {
    /// Go on with the stream.
    Again,
    /// Leave the stream for now.
    Pause,
    /// Give the test up.
    Abort,
    /// The test is over: take the time and close the connection.
    Finish,
}

/// What matters of an action.
pub enum ActionView {
    Idle,
    SendHeader { data: Seq<u8>, fin: bool },
    SendZeros { len: nat, fin: bool },
    Receive,
    Finish,
}

impl View for ClientPhase {
    type V = PhaseView;

    open spec fn view(&self) -> PhaseView {
        match *self {
            ClientPhase::WaitingForConn => PhaseView::WaitingForConn,
            ClientPhase::SendingHeader { stream_id, header, offset } => PhaseView::SendingHeader {
                stream_id,
                sent: offset as nat,
            },
            ClientPhase::SendingUploadData {
                stream_id,
                remaining,
            } => PhaseView::SendingUploadData { stream_id, remaining: remaining as nat },
            ClientPhase::ReceivingDownload {
                stream_id,
                expected,
                received,
            } => PhaseView::ReceivingDownload {
                stream_id,
                expected: expected as nat,
                received: received as nat,
            },
            ClientPhase::Done => PhaseView::Done,
        }
    }
}

impl View for ClientAction {
    type V = ActionView;

    open spec fn view(&self) -> ActionView {
        match *self {
            ClientAction::Idle => ActionView::Idle,
            ClientAction::SendHeader { data, fin } => ActionView::SendHeader { data: data@, fin },
            ClientAction::SendZeros(c) => ActionView::SendZeros { len: c.len as nat, fin: c.fin },
            ClientAction::Receive => ActionView::Receive,
            ClientAction::Finish => ActionView::Finish,
        }
    }
}

/// The number of bytes that a test waits for once the request is sent.
pub open spec fn expected_bytes(test: TestType) -> nat {
    match test {
        TestType::Upload { .. } => 0,
        TestType::Download { bytes } => bytes as nat,
        TestType::Latency => 1,
    }
}

impl PhaseView {
    /// What holds of every phase of a test: an upload never waits for a download,
    /// nothing but an upload sends data, and no count runs past its end.
    pub open spec fn wf(self, test: TestType) -> bool {
        match self {
            PhaseView::SendingHeader { sent, .. } => sent < 8,
            PhaseView::SendingUploadData { remaining, .. } => test matches TestType::Upload {
                bytes,
            } && remaining <= bytes,
            PhaseView::ReceivingDownload { expected, received, .. } => {
                &&& !(test is Upload)
                &&& expected == expected_bytes(test)
                &&& received < expected || received == 0
            },
            _ => true,
        }
    }

    /// What the phase wants to do with the stream.
    pub open spec fn action(self, test: TestType) -> ActionView {
        match self {
            PhaseView::WaitingForConn => ActionView::Idle,
            PhaseView::SendingHeader { sent, .. } => ActionView::SendHeader {
                data: request_bytes(test).skip(sent as int),
                fin: !(test is Upload),
            },
            PhaseView::SendingUploadData { remaining, .. } => if remaining == 0 {
                ActionView::Finish
            } else {
                ActionView::SendZeros { len: chunk_of(remaining).0, fin: chunk_of(remaining).1 }
            },
            PhaseView::ReceivingDownload { .. } => ActionView::Receive,
            PhaseView::Done => ActionView::Idle,
        }
    }

    /// The phase after the stream took `n` of the bytes offered.
    pub open spec fn after_accepted(self, test: TestType, n: nat) -> PhaseView {
        match self {
            PhaseView::SendingHeader { stream_id, sent } => if sent + n >= 8 {
                after_header(test, stream_id)
            } else {
                PhaseView::SendingHeader { stream_id, sent: sent + n }
            },
            PhaseView::SendingUploadData { stream_id, remaining } => PhaseView::SendingUploadData {
                stream_id,
                remaining: (remaining - n) as nat,
            },
            _ => self,
        }
    }

    /// The number of bytes offered to the stream.
    pub open spec fn offered(self) -> nat {
        match self {
            PhaseView::SendingHeader { sent, .. } => (8 - sent) as nat,
            PhaseView::SendingUploadData { remaining, .. } => chunk_of(remaining).0,
            _ => 0,
        }
    }

    /// The phase sends something.
    pub open spec fn sends(self) -> bool {
        self is SendingHeader || self is SendingUploadData
    }

    /// The phase after `n` bytes came.
    pub open spec fn after_received(self, n: nat) -> PhaseView {
        match self {
            PhaseView::ReceivingDownload {
                stream_id,
                expected,
                received,
            } => PhaseView::ReceivingDownload { stream_id, expected, received: received + n },
            _ => self,
        }
    }

    /// How many more bytes can be counted.
    pub open spec fn room(self) -> nat {
        match self {
            PhaseView::ReceivingDownload { received, .. } => (u64::MAX - received) as nat,
            _ => 0,
        }
    }

    /// As many bytes have come as were expected.
    pub open spec fn complete(self) -> bool {
        self matches PhaseView::ReceivingDownload { expected, received, .. } && received
            >= expected
    }
}

/// The phase once the request is sent.
pub open spec fn after_header(test: TestType, stream_id: u64) -> PhaseView {
    match test {
        TestType::Upload { bytes } => PhaseView::SendingUploadData {
            stream_id,
            remaining: bytes as nat,
        },
        _ => PhaseView::ReceivingDownload {
            stream_id,
            expected: expected_bytes(test),
            received: 0,
        },
    }
}

/// What a read makes of a phase, and what to do next: the number of bytes and whether
/// they are the last, or nothing when nothing could be read.
pub open spec fn after_read(p: PhaseView, read: Option<(usize, bool)>) -> (PhaseView, Flow) {
    match read {
        Some((len, fin)) => {
            let after = p.after_received(len as nat);
            (
                after,
                if after.complete() || fin {
                    Flow::Finish
                } else {
                    Flow::Again
                },
            )
        },
        None => (p, Flow::Pause),
    }
}

/// What a test that took `nanos` measures.
pub open spec fn measurement(test: TestType, nanos: u64) -> Measurement {
    match test {
        TestType::Upload { bytes } => Measurement::Throughput { bytes, nanos },
        TestType::Download { bytes } => Measurement::Throughput { bytes, nanos },
        TestType::Latency => Measurement::RoundTrip { nanos },
    }
}

/// The time from `start` to `now`; a clock that ran backwards counts as none.
pub open spec fn elapsed(start: u64, now: u64) -> u64 {
    if now >= start {
        (now - start) as u64
    } else {
        0
    }
}

/// The phase after several writes, each of which took some bytes.
pub open spec fn after_all_accepted(p: PhaseView, test: TestType, writes: Seq<nat>) -> PhaseView
    decreases writes.len(),
{
    if writes.len() == 0 {
        p
    } else {
        after_all_accepted(p, test, writes.drop_last()).after_accepted(test, writes.last())
    }
}

/// Every write took no more than was offered to it.
pub open spec fn all_within_offers(p: PhaseView, test: TestType, writes: Seq<nat>) -> bool
    decreases writes.len(),
{
    writes.len() > 0 ==> {
        &&& all_within_offers(p, test, writes.drop_last())
        &&& after_all_accepted(p, test, writes.drop_last()).sends()
        &&& writes.last() <= after_all_accepted(p, test, writes.drop_last()).offered()
    }
}

/// The phase after several reads.
pub open spec fn after_all_received(p: PhaseView, reads: Seq<nat>) -> PhaseView
    decreases reads.len(),
{
    if reads.len() == 0 {
        p
    } else {
        after_all_received(p, reads.drop_last()).after_received(reads.last())
    }
}

/// The bytes offered to the stream.
pub open spec fn offered_bytes(p: PhaseView, test: TestType) -> Seq<u8> {
    match p.action(test) {
        ActionView::SendHeader { data, .. } => data,
        ActionView::SendZeros { len, .. } => Seq::new(len, |i: int| 0u8),
        _ => Seq::empty(),
    }
}

/// The stream is to end with the bytes offered to it.
pub open spec fn ends_stream(p: PhaseView, test: TestType) -> bool {
    match p.action(test) {
        ActionView::SendHeader { fin, .. } => fin,
        ActionView::SendZeros { fin, .. } => fin,
        _ => false,
    }
}

/// The bytes that the stream took in several writes.
pub open spec fn taken_bytes(p: PhaseView, test: TestType, writes: Seq<nat>) -> Seq<u8>
    decreases writes.len(),
{
    if writes.len() == 0 {
        Seq::empty()
    } else {
        taken_bytes(p, test, writes.drop_last()) + offered_bytes(
            after_all_accepted(p, test, writes.drop_last()),
            test,
        ).take(writes.last() as int)
    }
}

/// All that a dialer sends in a test: the request, and the zero bytes of an upload.
pub open spec fn whole_stream(test: TestType) -> Seq<u8> {
    request_bytes(test) + match test {
        TestType::Upload { bytes } => Seq::new(bytes as nat, |i: int| 0u8),
        _ => Seq::empty(),
    }
}

/// How far a test is depends only on how many bytes the stream took, however the
/// writes were cut: first the request goes, then the bytes of an upload.
pub proof fn law_request_goes_first(test: TestType, stream_id: u64, writes: Seq<nat>)
    requires
        all_within_offers(PhaseView::SendingHeader { stream_id, sent: 0 }, test, writes),
    ensures
        total(writes) <= whole_stream(test).len(),
        after_all_accepted(PhaseView::SendingHeader { stream_id, sent: 0 }, test, writes) == (
        if total(writes) < 8 {
            PhaseView::SendingHeader { stream_id, sent: total(writes) }
        } else {
            after_header(test, stream_id).after_accepted(test, (total(writes) - 8) as nat)
        }),
    decreases writes.len(),
{
    law_request_is_read_back(requested(test));
    if writes.len() > 0 {
        law_request_goes_first(test, stream_id, writes.drop_last());
    }
}

/// What travels is the request and then the zero bytes of an upload, without a gap and
/// without a repetition, however the writes were cut.
pub proof fn law_stream_carries_the_test(test: TestType, stream_id: u64, writes: Seq<nat>)
    requires
        all_within_offers(PhaseView::SendingHeader { stream_id, sent: 0 }, test, writes),
    ensures
        taken_bytes(PhaseView::SendingHeader { stream_id, sent: 0 }, test, writes) == whole_stream(
            test,
        ).take(total(writes) as int),
    decreases writes.len(),
{
    let start = PhaseView::SendingHeader { stream_id, sent: 0 };
    let whole = whole_stream(test);
    law_request_is_read_back(requested(test));
    law_request_goes_first(test, stream_id, writes);
    if writes.len() > 0 {
        let before = writes.drop_last();
        law_request_goes_first(test, stream_id, before);
        law_stream_carries_the_test(test, stream_id, before);
        let p = after_all_accepted(start, test, before);
        let (done, n) = (total(before) as int, writes.last() as int);
        assert(offered_bytes(p, test).take(n) =~= whole.subrange(done, done + n));
        assert(whole.take(done) + whole.subrange(done, done + n) =~= whole.take(done + n));
    } else {
        assert(whole.take(0) =~= Seq::<u8>::empty());
    }
}

/// The end of the stream is announced with the last byte and not before. An upload of
/// nothing is the one test whose stream is left open.
pub proof fn law_stream_ends_with_its_last_byte(test: TestType, stream_id: u64, writes: Seq<nat>)
    requires
        all_within_offers(PhaseView::SendingHeader { stream_id, sent: 0 }, test, writes),
        test != (TestType::Upload { bytes: 0 }),
        total(writes) < whole_stream(test).len(),
    ensures
        ({
            let p = after_all_accepted(
                PhaseView::SendingHeader { stream_id, sent: 0 },
                test,
                writes,
            );
            &&& p.sends()
            &&& ends_stream(p, test) <==> total(writes) + p.offered() == whole_stream(test).len()
        }),
{
    law_request_is_read_back(requested(test));
    law_request_goes_first(test, stream_id, writes);
}

/// An upload sends the request and then exactly its bytes: what the stream took
/// and what is left add up to eight more than the upload, however the writes were
/// cut.
pub proof fn law_upload_sends_its_bytes(bytes: u64, stream_id: u64, writes: Seq<nat>)
    requires
        all_within_offers(
            PhaseView::SendingHeader { stream_id, sent: 0 },
            TestType::Upload { bytes },
            writes,
        ),
    ensures
        total(writes) <= 8 + bytes,
        after_all_accepted(
            PhaseView::SendingHeader { stream_id, sent: 0 },
            TestType::Upload { bytes },
            writes,
        ) == (if total(writes) < 8 {
            PhaseView::SendingHeader { stream_id, sent: total(writes) }
        } else {
            PhaseView::SendingUploadData {
                stream_id,
                remaining: (8 + bytes - total(writes)) as nat,
            }
        }),
    decreases writes.len(),
{
    if writes.len() > 0 {
        law_upload_sends_its_bytes(bytes, stream_id, writes.drop_last());
    }
}

/// A download or a latency test is complete exactly when the expected bytes have
/// come, however the reads were cut.
pub proof fn law_download_counts_its_bytes(
    stream_id: u64,
    expected: nat,
    reads: Seq<nat>,
)
    ensures
        after_all_received(
            PhaseView::ReceivingDownload { stream_id, expected, received: 0 },
            reads,
        ) == (PhaseView::ReceivingDownload {
            stream_id,
            expected,
            received: total(reads),
        }),
        after_all_received(
            PhaseView::ReceivingDownload { stream_id, expected, received: 0 },
            reads,
        ).complete() <==> total(reads) >= expected,
    decreases reads.len(),
{
    if reads.len() > 0 {
        law_download_counts_its_bytes(stream_id, expected, reads.drop_last());
    }
}

/// The listener sends just the bytes that the dialer waits for, unless the dialer
/// asks for none: then the listener takes the test for an upload.
pub proof fn law_dialer_and_listener_agree(test: TestType)
    requires
        !(test is Upload),
        requested(test) > 0,
    ensures
        after_data(
            StreamView::ReadingHeader(Seq::empty()),
            request_bytes(test),
            true,
        ).0 == StreamView::SendingDownload(expected_bytes(test)),
{
    law_listener_serves_the_test(test);
    law_request_is_read_back(requested(test));
}

/// A download is complete for the dialer exactly when all bytes that it asked for
/// have come, however writes and reads are cut; by then the listener has sent
/// everything and is done.
pub proof fn law_download_completes_with_the_last_byte(
    test: TestType,
    stream_id: u64,
    request: Seq<Seq<u8>>,
    last: Seq<u8>,
    writes: Seq<nat>,
    reads: Seq<nat>,
)
    requires
        !(test is Upload),
        requested(test) > 0,
        all_bytes(request) + last == whole_stream(test),
        within_offers(StreamView::SendingDownload(expected_bytes(test)), writes),
        total(reads) <= total(writes),
    ensures
        ({
            let dialer = after_all_received(after_header(test, stream_id), reads);
            let listener = after_writes(
                after_data(
                    after_reads(StreamView::ReadingHeader(Seq::empty()), request),
                    last,
                    true,
                ).0,
                writes,
            );
            &&& dialer.complete() <==> total(reads) == requested(test)
            &&& dialer.complete() ==> listener is Done
        }),
{
    law_request_is_read_back(requested(test));
    law_last_read_of_a_request(request, last);
    assert(whole_stream(test).take(8) =~= request_bytes(test));
    law_download_sends_what_was_asked(expected_bytes(test), writes);
    law_download_counts_its_bytes(stream_id, expected_bytes(test), reads);
}

/// An upload is discarded, however reads are cut and however much of it has come,
/// as soon as the request has; the end of the stream ends it.
pub proof fn law_upload_is_discarded(bytes: u64, arrived: int, reads: Seq<Seq<u8>>, last: Seq<u8>)
    requires
        8 <= arrived <= whole_stream(TestType::Upload { bytes }).len(),
        all_bytes(reads) == whole_stream(TestType::Upload { bytes }).take(arrived),
    ensures
        ({
            let listener = after_reads(StreamView::ReadingHeader(Seq::empty()), reads);
            &&& listener is DiscardingUpload
            &&& after_data(listener, last, false) == (listener, true)
            &&& after_data(listener, last, true) == (StreamView::Done, false)
        }),
{
    law_reads_are_one_read(reads);
    law_request_is_read_back(0);
    let come = all_bytes(reads);
    assert((Seq::<u8>::empty() + come).take(8) =~= be_bytes(0, 8));
}

/// Every step keeps a phase in order.
pub proof fn law_phases_stay_in_order(p: PhaseView, test: TestType, n: nat)
    requires
        p.wf(test),
    ensures
        p.sends() && n <= p.offered() ==> p.after_accepted(test, n).wf(test),
        !p.after_received(n).complete() ==> p.after_received(n).wf(test),
{
}

/// The time from `start` to `now`.
pub fn elapsed_nanos(start: u64, now: u64) -> (r: u64)
    ensures
        r == elapsed(start, now),
{
    if now >= start {
        now - start
    } else {
        0
    }
}

/// What a test that took `nanos` measures.
pub fn measure(test: &TestType, nanos: u64) -> (r: Measurement)
    ensures
        r == measurement(*test, nanos),
{
    match test {
        TestType::Upload { bytes } => Measurement::Throughput { bytes: *bytes, nanos },
        TestType::Download { bytes } => Measurement::Throughput { bytes: *bytes, nanos },
        TestType::Latency => Measurement::RoundTrip { nanos },
    }
}

impl ClientPhase {
    pub open spec fn wf(&self, test: TestType) -> bool {
        &&& self@.wf(test)
        &&& match *self {
            ClientPhase::SendingHeader { header, .. } => header@ == request_bytes(test),
            _ => true,
        }
    }

    /// The first phase of a test on a stream.
    pub fn begin(test: &TestType, stream_id: u64) -> (r: Self)
        ensures
            r.wf(*test),
            r@ == (PhaseView::SendingHeader { stream_id, sent: 0 }),
    {
        ClientPhase::SendingHeader { stream_id, header: request_header(test), offset: 0 }
    }

    /// What the phase wants to do with the stream.
    pub fn action(&self, test: &TestType) -> (r: ClientAction)
        requires
            self.wf(*test),
        ensures
            r@ == self@.action(*test),
    {
        match self {
            ClientPhase::WaitingForConn => ClientAction::Idle,
            ClientPhase::SendingHeader { stream_id, header, offset } => {
                let mut data: Vec<u8> = Vec::new();
                let from = *offset;
                let mut i: usize = from;
                proof {
                    law_request_is_read_back(requested(*test));
                }
                while i < 8
                    invariant
                        from <= i <= 8,
                        header@.len() == 8,
                        data@ == header@.subrange(from as int, i as int),
                    decreases 8 - i,
                {
                    data.push(header[i]);
                    i = i + 1;
                    assert(data@ =~= header@.subrange(from as int, i as int));
                }
                let fin = match test {
                    TestType::Upload { .. } => false,
                    _ => true,
                };
                ClientAction::SendHeader { data, fin }
            },
            ClientPhase::SendingUploadData { stream_id, remaining } => if *remaining == 0 {
                ClientAction::Finish
            } else {
                ClientAction::SendZeros(next_chunk(*remaining))
            },
            ClientPhase::ReceivingDownload { .. } => ClientAction::Receive,
            ClientPhase::Done => ClientAction::Idle,
        }
    }

    /// Notes that the stream took `n` of the bytes offered.
    pub fn on_accepted(&mut self, test: &TestType, n: usize)
        requires
            old(self).wf(*test),
            old(self)@.sends(),
            n <= old(self)@.offered(),
        ensures
            final(self).wf(*test),
            final(self)@ == old(self)@.after_accepted(*test, n as nat),
    {
        match self {
            ClientPhase::SendingHeader { stream_id, header, offset } => {
                let id = *stream_id;
                let sent = *offset + n;
                if sent >= 8 {
                    *self = match test {
                        TestType::Upload { bytes } => ClientPhase::SendingUploadData {
                            stream_id: id,
                            remaining: *bytes,
                        },
                        TestType::Download { bytes } => ClientPhase::ReceivingDownload {
                            stream_id: id,
                            expected: *bytes,
                            received: 0,
                        },
                        TestType::Latency => ClientPhase::ReceivingDownload {
                            stream_id: id,
                            expected: 1,
                            received: 0,
                        },
                    };
                } else {
                    *offset = sent;
                }
            },
            ClientPhase::SendingUploadData { stream_id, remaining } => {
                *remaining = *remaining - n as u64;
            },
            _ => {},
        }
    }

    /// How many more bytes can be counted.
    pub fn room(&self) -> (r: u64)
        ensures
            r == self@.room(),
    {
        match self {
            ClientPhase::ReceivingDownload { received, .. } => u64::MAX - *received,
            _ => 0,
        }
    }

    /// Notes that `len` bytes came, and says whether the download is over: all
    /// bytes have come, or no more will.
    pub fn on_received(&mut self, test: &TestType, len: usize, fin: bool) -> (over: bool)
        requires
            old(self).wf(*test),
            old(self)@ is ReceivingDownload,
            len <= old(self)@.room(),
        ensures
            final(self)@ == old(self)@.after_received(len as nat),
            over == (final(self)@.complete() || fin),
            !over ==> final(self).wf(*test),
    {
        match self {
            ClientPhase::ReceivingDownload { stream_id, expected, received } => {
                *received = *received + len as u64;
                *received >= *expected || fin
            },
            _ => false,
        }
    }
}

/// A test measures the time from its start to its end, to the nanosecond and however long
/// it took, and the bytes that it moved. Of a longer test it measures a longer time.
pub proof fn law_time_is_measured(test: TestType, start: u64, now: u64, later: u64)
    requires
        start <= now < later,
    ensures
        ({
            let m = measurement(test, elapsed(start, now));
            match test {
                TestType::Upload { bytes } => m matches Measurement::Throughput {
                    bytes: moved,
                    nanos,
                } && moved == bytes && start + nanos == now,
                TestType::Download { bytes } => m matches Measurement::Throughput {
                    bytes: moved,
                    nanos,
                } && moved == bytes && start + nanos == now,
                TestType::Latency => m matches Measurement::RoundTrip { nanos } && start + nanos
                    == now,
            }
        }),
        match (
            measurement(test, elapsed(start, now)),
            measurement(test, elapsed(start, later)),
        ) {
            (
                Measurement::Throughput { nanos: a, .. },
                Measurement::Throughput { nanos: b, .. },
            ) => a < b,
            (Measurement::RoundTrip { nanos: a }, Measurement::RoundTrip { nanos: b }) => a < b,
            _ => false,
        },
{
}

/// A clock that ran backwards counts as no time.
pub proof fn law_no_time_is_measured(test: TestType, start: u64, now: u64)
    requires
        now <= start,
    ensures
        match measurement(test, elapsed(start, now)) {
            Measurement::Throughput { nanos, .. } => nanos == 0,
            Measurement::RoundTrip { nanos } => nanos == 0,
        },
{
}

/// What is offered in the phases that send: the bytes of the request that are not sent, or
/// as many zero bytes as there are and one write may hold. The stream is to end with the
/// request unless an upload follows, and with the last byte of an upload.
pub proof fn law_what_is_offered(
    test: TestType,
    stream_id: u64,
    sent: nat,
    remaining: nat,
)
    requires
        sent < 8,
        0 < remaining,
    ensures
        ({
            let p = PhaseView::SendingHeader { stream_id, sent };
            &&& p.sends()
            &&& p.offered() == 8 - sent
            &&& p.action(test) matches ActionView::SendHeader { data, fin } && data
                == request_bytes(test).skip(sent as int) && fin == !(test is Upload)
        }),
        ({
            let p = PhaseView::SendingUploadData { stream_id, remaining };
            &&& p.sends()
            &&& p.action(test) matches ActionView::SendZeros { len, fin } && {
                &&& len == p.offered()
                &&& 0 < len <= remaining
                &&& len <= 65535
                &&& len == remaining || len == 65535
                &&& fin <==> len == remaining
            }
        }),
        (PhaseView::SendingUploadData { stream_id, remaining: 0 }).action(test) is Finish,
{
}

/// What is done in the phases that do not send: a download is read, and otherwise nothing
/// is done.
pub proof fn law_what_is_not_offered(
    test: TestType,
    stream_id: u64,
    expected: nat,
    received: nat,
)
    ensures
        ({
            let p = PhaseView::ReceivingDownload { stream_id, expected, received };
            &&& !p.sends()
            &&& p.action(test) is Receive
            &&& p.complete() <==> received >= expected
            &&& received <= u64::MAX ==> p.room() + received == u64::MAX
        }),
        !PhaseView::WaitingForConn.sends() && PhaseView::WaitingForConn.action(test) is Idle,
        !PhaseView::Done.sends() && PhaseView::Done.action(test) is Idle,
        !PhaseView::WaitingForConn.complete() && !PhaseView::Done.complete(),
{
}

/// What becomes of a phase when bytes were taken. Part of the request leaves the rest of
/// it; with the rest, an upload goes on to all its bytes, a download waits for all its
/// bytes and a latency test for one. Bytes of an upload that were taken are no longer to be
/// sent.
pub proof fn law_what_was_taken_is_not_offered_again(
    test: TestType,
    stream_id: u64,
    sent: nat,
    remaining: nat,
    n: nat,
)
    requires
        sent < 8,
    ensures
        ({
            let p = PhaseView::SendingHeader { stream_id, sent };
            &&& sent + n < 8 ==> p.after_accepted(test, n) == (PhaseView::SendingHeader {
                stream_id,
                sent: sent + n,
            })
            &&& sent + n == 8 ==> p.after_accepted(test, n) == (match test {
                TestType::Upload { bytes } => PhaseView::SendingUploadData {
                    stream_id,
                    remaining: bytes as nat,
                },
                TestType::Download { bytes } => PhaseView::ReceivingDownload {
                    stream_id,
                    expected: bytes as nat,
                    received: 0,
                },
                TestType::Latency => PhaseView::ReceivingDownload {
                    stream_id,
                    expected: 1,
                    received: 0,
                },
            })
        }),
        n <= remaining ==> (PhaseView::SendingUploadData { stream_id, remaining }).after_accepted(
            test,
            n,
        ) == (PhaseView::SendingUploadData { stream_id, remaining: (remaining - n) as nat }),
{
}

/// A download goes on until as many bytes have come as were expected, or no more will; a
/// read that gave nothing changes nothing.
pub proof fn law_when_a_download_is_over(
    stream_id: u64,
    expected: nat,
    received: nat,
    len: usize,
    fin: bool,
)
    ensures
        ({
            let p = PhaseView::ReceivingDownload { stream_id, expected, received };
            let (after, flow) = after_read(p, Some((len, fin)));
            &&& after == (PhaseView::ReceivingDownload {
                stream_id,
                expected,
                received: received + len as nat,
            })
            &&& flow == Flow::Finish <==> fin || received + len >= expected
            &&& flow == Flow::Again <==> !fin && received + len < expected
            &&& after_read(p, None) == (p, Flow::Pause)
        }),
{
}

/// The view of a phase shows its stream and its counts.
pub proof fn law_phase_shows_its_counts(
    stream_id: u64,
    header: [u8; 8],
    offset: usize,
    remaining: u64,
    expected: u64,
    received: u64,
)
    ensures
        ClientPhase::WaitingForConn@ == PhaseView::WaitingForConn,
        (ClientPhase::SendingHeader { stream_id, header, offset })@ == (PhaseView::SendingHeader {
            stream_id,
            sent: offset as nat,
        }),
        (ClientPhase::SendingUploadData { stream_id, remaining })@ == (
        PhaseView::SendingUploadData { stream_id, remaining: remaining as nat }),
        (ClientPhase::ReceivingDownload { stream_id, expected, received })@ == (
        PhaseView::ReceivingDownload {
            stream_id,
            expected: expected as nat,
            received: received as nat,
        }),
        ClientPhase::Done@ == PhaseView::Done,
{
}

} // verus!
