//! A test on a connection that calls back when the stream can be read or written.

use crate::client::{
    after_read, elapsed, elapsed_nanos, measure, measurement, ActionView, ClientAction, ClientPhase,
    Flow, Measurement, PhaseView,
};
use crate::wire::{TestType, WriteAction, CHUNK_LEN};
use vstd::prelude::*;

verus! {

/// A test and what came of it.
pub struct ClientHandler {
    test_type: TestType,
    phase: ClientPhase,
    start_time: Option<u64>,
    result: Option<Measurement>,
    done: bool,
    buf: Vec<u8>,
}

/// What there is to know of a test and what came of it.
pub struct ClientHandlerView {
    pub test: TestType,
    pub phase: PhaseView,
    /// When the handshake was over.
    pub start_time: Option<u64>,
    pub result: Option<Measurement>,
    /// Nothing more will come of the test.
    pub done: bool,
    /// Room for the bytes of one read.
    pub buf: Seq<u8>,
}

impl View for ClientHandler {
    type V = ClientHandlerView;

    closed spec fn view(&self) -> ClientHandlerView {
        ClientHandlerView {
            test: self.test_type,
            phase: self.phase@,
            start_time: self.start_time,
            result: self.result,
            done: self.done,
            buf: self.buf@,
        }
    }
}

impl ClientHandlerView {
    /// A stream is in use only once the handshake is over, and there is a result only
    /// once nothing more will come of the test.
    pub open spec fn wf(self) -> bool {
        &&& self.phase.sends() || self.phase is ReceivingDownload ==> self.start_time is Some
        &&& !self.done ==> self.result is None
    }
}

/// The phase is about this stream.
pub open spec fn on_stream(p: PhaseView, id: u64) -> bool {
    match p {
        PhaseView::SendingHeader { stream_id, .. } => stream_id == id,
        PhaseView::SendingUploadData { stream_id, .. } => stream_id == id,
        PhaseView::ReceivingDownload { stream_id, .. } => stream_id == id,
        _ => false,
    }
}

/// What to write to stream `id`.
pub open spec fn write_action_on(p: PhaseView, test: TestType, id: u64) -> ActionView {
    if p.sends() && on_stream(p, id) {
        p.action(test)
    } else {
        ActionView::Idle
    }
}

/// What a write makes of a phase, and what to do next. An upload goes on right
/// behind its request; whatever was not taken is offered when the stream can be
/// written again.
pub open spec fn called_back_write(p: PhaseView, test: TestType, written: Option<usize>) -> (
    PhaseView,
    WriteAction,
) {
    match written {
        Some(n) => {
            let after = p.after_accepted(test, n as nat);
            (
                after,
                if after is SendingUploadData {
                    WriteAction::Again
                } else if after is SendingHeader {
                    WriteAction::WantWrite
                } else {
                    WriteAction::Stop
                },
            )
        },
        None => (p, WriteAction::WantWrite),
    }
}

impl ClientHandler {
    pub closed spec fn wf(&self) -> bool {
        self.phase.wf(self.test_type) && self@.wf()
    }

    /// The phase is in order, a stream is in use only once the handshake is over, and
    /// there is a result only once nothing more will come of the test.
    pub proof fn law_phase_is_in_order(&self)
        requires
            self.wf(),
        ensures
            self@.phase.wf(self@.test),
            self@.wf(),
    {
    }

    /// A test whose handshake is not over.
    pub fn new(test_type: TestType) -> (r: Self)
        ensures
            r.wf(),
            r@ == (ClientHandlerView {
                test: test_type,
                phase: PhaseView::WaitingForConn,
                start_time: None,
                result: None,
                done: false,
                buf: Seq::new(CHUNK_LEN as nat, |i: int| 0u8),
            }),
    {
        let r = ClientHandler {
            test_type,
            phase: ClientPhase::WaitingForConn,
            start_time: None,
            result: None,
            done: false,
            buf: vec![0u8; CHUNK_LEN],
        };
        assert(r@.buf =~= Seq::new(CHUNK_LEN as nat, |i: int| 0u8));
        r
    }

    /// Notes that nothing more will come of the test, and what it measured.
    pub fn mark_done(&mut self, result: Option<Measurement>)
        ensures
            old(self).wf() ==> final(self).wf(),
            final(self)@ == (ClientHandlerView { done: true, result, ..old(self)@ }),
    {
        self.done = true;
        self.result = result;
    }

    /// What the owner of the connection is to know: whether the test is over, and
    /// what it measured.
    pub fn signal(&self) -> (r: (bool, Option<Measurement>))
        ensures
            r == (self@.done, self@.result),
    {
        (self.done, self.result)
    }

    /// Room for the bytes of the next read.
    pub fn buffer(&mut self) -> (r: &mut [u8])
        ensures
            r@ == old(self)@.buf,
            final(self)@ == (ClientHandlerView { buf: final(r)@, ..old(self)@ }),
            old(self).wf() ==> final(self).wf(),
    {
        self.buf.as_mut_slice()
    }

    /// Begins the test at `now`, when the handshake is over, on the stream that
    /// was opened for it. Without a stream nothing comes of the test. Says whether
    /// to ask to be called back when the stream can be written.
    pub fn start_test(&mut self, now: u64, stream: Option<u64>) -> (want_write: bool)
        requires
            old(self).wf(),
        ensures
            final(self).wf(),
            want_write == (stream is Some),
            final(self)@ == (match stream {
                Some(id) => ClientHandlerView {
                    start_time: Some(now),
                    phase: PhaseView::SendingHeader { stream_id: id, sent: 0 },
                    ..old(self)@
                },
                None => ClientHandlerView {
                    start_time: Some(now),
                    done: true,
                    result: None,
                    ..old(self)@
                },
            }),
    {
        self.start_time = Some(now);
        match stream {
            Some(id) => {
                self.phase = ClientPhase::begin(&self.test_type, id);
                true
            },
            None => {
                self.mark_done(None);
                false
            },
        }
    }

    /// What to write to stream `id`.
    pub fn next_write(&self, id: u64) -> (r: ClientAction)
        requires
            self.wf(),
        ensures
            r@ == write_action_on(self@.phase, self@.test, id),
    {
        match self.phase {
            ClientPhase::SendingHeader { stream_id, .. } => if stream_id == id {
                self.phase.action(&self.test_type)
            } else {
                ClientAction::Idle
            },
            ClientPhase::SendingUploadData { stream_id, .. } => if stream_id == id {
                self.phase.action(&self.test_type)
            } else {
                ClientAction::Idle
            },
            _ => ClientAction::Idle,
        }
    }

    /// Notes what came of offering bytes: the number of bytes taken, or nothing
    /// when they were refused.
    pub fn handle_write(&mut self, written: Option<usize>) -> (r: WriteAction)
        requires
            old(self).wf(),
            old(self)@.phase.sends(),
            written matches Some(n) ==> n <= old(self)@.phase.offered(),
        ensures
            final(self).wf(),
            final(self)@ == (ClientHandlerView {
                phase: called_back_write(old(self)@.phase, old(self)@.test, written).0,
                ..old(self)@
            }),
            r == called_back_write(old(self)@.phase, old(self)@.test, written).1,
    {
        match written {
            Some(n) => {
                self.phase.on_accepted(&self.test_type, n);
                match self.phase {
                    ClientPhase::SendingUploadData { .. } => WriteAction::Again,
                    ClientPhase::SendingHeader { .. } => WriteAction::WantWrite,
                    _ => WriteAction::Stop,
                }
            },
            None => WriteAction::WantWrite,
        }
    }

    /// Whether the test waits for bytes on stream `id`.
    pub fn wants_read(&self, id: u64) -> (r: bool)
        ensures
            r == (self@.phase is ReceivingDownload && on_stream(self@.phase, id)),
    {
        match self.phase {
            ClientPhase::ReceivingDownload { stream_id, .. } => stream_id == id,
            _ => false,
        }
    }

    /// How many more bytes can be counted.
    pub fn room(&self) -> (r: u64)
        ensures
            r == self@.phase.room(),
    {
        self.phase.room()
    }

    /// Whether the handshake is over.
    pub fn started(&self) -> (r: bool)
        ensures
            r == (self@.start_time is Some),
    {
        self.start_time.is_some()
    }

    /// Notes what came of reading: the number of bytes and whether they are the
    /// last, or nothing when the stream could not be read.
    pub fn handle_read(&mut self, read: Option<(usize, bool)>) -> (r: Flow)
        requires
            old(self).wf(),
            old(self)@.phase is ReceivingDownload,
            read matches Some(p) ==> p.0 <= old(self)@.phase.room(),
        ensures
            final(self)@ == (ClientHandlerView {
                phase: after_read(old(self)@.phase, read).0,
                ..old(self)@
            }),
            r == after_read(old(self)@.phase, read).1,
            r != Flow::Finish ==> final(self).wf(),
    {
        match read {
            Some((len, fin)) => if self.phase.on_received(&self.test_type, len, fin) {
                Flow::Finish
            } else {
                Flow::Again
            },
            None => Flow::Pause,
        }
    }

    /// Ends the test at `now` and keeps what it measured.
    pub fn finish(&mut self, now: u64)
        requires
            old(self)@.start_time is Some,
        ensures
            final(self).wf(),
            final(self)@ == (ClientHandlerView {
                phase: PhaseView::Done,
                done: true,
                result: Some(
                    measurement(old(self)@.test, elapsed(old(self)@.start_time->0, now)),
                ),
                ..old(self)@
            }),
    {
        let start = match self.start_time {
            Some(t) => t,
            None => now,
        };
        let result = Some(measure(&self.test_type, elapsed_nanos(start, now)));
        self.phase = ClientPhase::Done;
        self.mark_done(result);
    }

    /// Notes that the connection is closed: nothing more will come of the test. One that
    /// was not over by then has no result.
    pub fn on_conn_closed(&mut self)
        requires
            old(self).wf(),
        ensures
            final(self).wf(),
            final(self)@ == (ClientHandlerView { done: true, ..old(self)@ }),
            !old(self)@.done ==> final(self)@.result is None,
    {
        let result = self.result;
        self.mark_done(result);
    }
}

/// What comes of a write. An upload goes on as long as bytes are taken, right behind its
/// request; another test stops once its request is sent. Whatever was not taken is offered
/// when the stream can be written again.
pub proof fn law_writing_when_called_back(
    test: TestType,
    stream_id: u64,
    sent: nat,
    remaining: nat,
    n: usize,
)
    requires
        sent < 8,
        n <= remaining,
    ensures
        ({
            let p = PhaseView::SendingHeader { stream_id, sent };
            let (after, next) = called_back_write(p, test, Some(n));
            &&& sent + n <= 8 ==> after == p.after_accepted(test, n as nat)
            &&& sent + n < 8 ==> next == WriteAction::WantWrite
            &&& sent + n == 8 ==> next == (if test is Upload {
                WriteAction::Again
            } else {
                WriteAction::Stop
            })
            &&& called_back_write(p, test, None) == (p, WriteAction::WantWrite)
        }),
        ({
            let p = PhaseView::SendingUploadData { stream_id, remaining };
            &&& called_back_write(p, test, Some(n)) == (
                PhaseView::SendingUploadData { stream_id, remaining: (remaining - n) as nat },
                WriteAction::Again,
            )
            &&& called_back_write(p, test, None) == (p, WriteAction::WantWrite)
        }),
{
}

/// A test writes what its phase offers on its own stream, and nothing on another.
pub proof fn law_only_the_own_stream_is_used(
    test: TestType,
    id: u64,
    other: u64,
    sent: nat,
    remaining: nat,
    expected: nat,
    received: nat,
)
    requires
        other != id,
    ensures
        ({
            let p = PhaseView::SendingHeader { stream_id: id, sent };
            &&& on_stream(p, id) && !on_stream(p, other)
            &&& write_action_on(p, test, id) == p.action(test)
            &&& write_action_on(p, test, other) is Idle
        }),
        ({
            let p = PhaseView::SendingUploadData { stream_id: id, remaining };
            &&& on_stream(p, id) && !on_stream(p, other)
            &&& write_action_on(p, test, id) == p.action(test)
            &&& write_action_on(p, test, other) is Idle
        }),
        ({
            let p = PhaseView::ReceivingDownload { stream_id: id, expected, received };
            &&& on_stream(p, id) && !on_stream(p, other)
            &&& write_action_on(p, test, id) is Idle
            &&& write_action_on(p, test, other) is Idle
        }),
        write_action_on(PhaseView::WaitingForConn, test, id) is Idle,
        write_action_on(PhaseView::Done, test, id) is Idle,
        !on_stream(PhaseView::WaitingForConn, id) && !on_stream(PhaseView::Done, id),
{
}

} // verus!
