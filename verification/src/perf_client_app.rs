//! A test on a connection whose owner asks it in turn to read and to write.

use crate::client::{
    after_read, elapsed, elapsed_nanos, measure, measurement, ActionView, ClientAction, ClientPhase,
    Flow, Measurement, PhaseView,
};
use crate::wire::{TestType, WriteEvent, CHUNK_LEN};
use vstd::prelude::*;

verus! {

/// A test and its connection.
pub struct PerfClientApp {
    pkt_buf: Vec<u8>,
    test_type: TestType,
    result_pending: bool,
    start_time: Option<u64>,
    phase: ClientPhase,
    active: bool,
}

/// What there is to know of a test and its connection.
pub struct ClientAppView {
    /// Room for an outgoing packet.
    pub pkt_buf: Seq<u8>,
    pub test: TestType,
    /// Nobody has been told the result.
    pub result_pending: bool,
    /// When the handshake was over.
    pub start_time: Option<u64>,
    pub phase: PhaseView,
    /// The handshake is over and the test is not.
    pub active: bool,
}

impl View for PerfClientApp {
    type V = ClientAppView;

    closed spec fn view(&self) -> ClientAppView {
        ClientAppView {
            pkt_buf: self.pkt_buf@,
            test: self.test_type,
            result_pending: self.result_pending,
            start_time: self.start_time,
            phase: self.phase@,
            active: self.active,
        }
    }
}

impl ClientAppView {
    /// The result is given out exactly when the test ends, and a connection is ready only
    /// once the handshake is over.
    pub open spec fn wf(self) -> bool {
        &&& self.result_pending <==> !(self.phase is Done)
        &&& self.active ==> self.start_time is Some
    }
}

/// A test whose handshake is not over. It uses the dialer's first stream.
pub open spec fn fresh_app(test: TestType) -> ClientAppView {
    ClientAppView {
        pkt_buf: Seq::new(CHUNK_LEN as nat, |i: int| 0u8),
        test,
        result_pending: true,
        start_time: None,
        phase: PhaseView::SendingHeader { stream_id: 0, sent: 0 },
        active: false,
    }
}

/// What the test wants to write.
pub open spec fn write_action(p: PhaseView, test: TestType) -> ActionView {
    if p is ReceivingDownload {
        ActionView::Idle
    } else {
        p.action(test)
    }
}

/// What a write makes of a phase, and what to do next. An upload goes on right
/// behind its request; a stream that cannot be written ends the connection.
pub open spec fn driven_write(p: PhaseView, test: TestType, event: WriteEvent) -> (PhaseView, Flow) {
    match event {
        WriteEvent::Accepted(n) => {
            let after = p.after_accepted(test, n as nat);
            (
                after,
                if after is SendingUploadData {
                    Flow::Again
                } else {
                    Flow::Pause
                },
            )
        },
        WriteEvent::Blocked => (p, Flow::Pause),
        WriteEvent::Failed => (p, Flow::Abort),
    }
}

impl PerfClientApp {
    pub closed spec fn wf(&self) -> bool {
        self.phase.wf(self.test_type) && self@.wf()
    }

    /// The phase is in order, the result is given out exactly when the test ends, and the
    /// connection is ready only once the handshake is over.
    pub proof fn law_phase_is_in_order(&self)
        requires
            self.wf(),
        ensures
            self@.phase.wf(self@.test),
            self@.wf(),
    {
    }

    fn fresh(test: TestType) -> (r: Self)
        ensures
            r.wf(),
            r@ == fresh_app(test),
    {
        let r = PerfClientApp {
            pkt_buf: vec![0u8; CHUNK_LEN],
            test_type: test,
            result_pending: true,
            start_time: None,
            phase: ClientPhase::begin(&test, 0),
            active: false,
        };
        assert(r@.pkt_buf =~= fresh_app(test).pkt_buf);
        r
    }

    /// A test that uploads `bytes` bytes.
    pub fn new_upload(bytes: u64) -> (r: Self)
        ensures
            r.wf(),
            r@ == fresh_app(TestType::Upload { bytes }),
    {
        Self::fresh(TestType::Upload { bytes })
    }

    /// A test that downloads `bytes` bytes.
    pub fn new_download(bytes: u64) -> (r: Self)
        ensures
            r.wf(),
            r@ == fresh_app(TestType::Download { bytes }),
    {
        Self::fresh(TestType::Download { bytes })
    }

    /// A test that waits for one byte.
    pub fn new_latency() -> (r: Self)
        ensures
            r.wf(),
            r@ == fresh_app(TestType::Latency),
    {
        Self::fresh(TestType::Latency)
    }

    /// Notes that the handshake was over at `now`.
    pub fn on_conn_established(&mut self, now: u64)
        requires
            old(self).wf(),
        ensures
            final(self).wf(),
            final(self)@ == (ClientAppView {
                start_time: Some(now),
                active: true,
                ..old(self)@
            }),
    {
        self.start_time = Some(now);
        self.active = true;
    }

    /// Whether the connection is ready to read and write.
    pub fn should_act(&self) -> (r: bool)
        ensures
            r == self@.active,
    {
        self.active
    }

    /// Room for an outgoing packet.
    pub fn buffer(&mut self) -> (r: &mut [u8])
        ensures
            r@ == old(self)@.pkt_buf,
            final(self)@ == (ClientAppView { pkt_buf: final(r)@, ..old(self)@ }),
            old(self).wf() ==> final(self).wf(),
    {
        self.pkt_buf.as_mut_slice()
    }

    /// Whether the test waits for bytes: never before the request is sent.
    pub fn wants_read(&self) -> (r: bool)
        ensures
            r == (self@.phase is ReceivingDownload),
    {
        match self.phase {
            ClientPhase::ReceivingDownload { .. } => true,
            _ => false,
        }
    }

    /// How many more bytes can be counted.
    pub fn room(&self) -> (r: u64)
        ensures
            r == self@.phase.room(),
    {
        self.phase.room()
    }

    /// Whether the handshake is over.
    pub fn started(&self) -> (r: bool)
        ensures
            r == (self@.start_time is Some),
    {
        self.start_time.is_some()
    }

    /// Notes what came of reading: the number of bytes and whether they are the
    /// last, or nothing when there was nothing to read.
    pub fn process_read(&mut self, read: Option<(usize, bool)>) -> (r: Flow)
        requires
            old(self).wf(),
            old(self)@.phase is ReceivingDownload,
            read matches Some(p) ==> p.0 <= old(self)@.phase.room(),
        ensures
            final(self)@ == (ClientAppView {
                phase: after_read(old(self)@.phase, read).0,
                ..old(self)@
            }),
            r == after_read(old(self)@.phase, read).1,
            r != Flow::Finish ==> final(self).wf(),
    {
        match read {
            Some((len, fin)) => if self.phase.on_received(&self.test_type, len, fin) {
                Flow::Finish
            } else {
                Flow::Again
            },
            None => Flow::Pause,
        }
    }

    /// What the test wants to write.
    pub fn next_write(&self) -> (r: ClientAction)
        requires
            self.wf(),
        ensures
            r@ == write_action(self@.phase, self@.test),
    {
        match self.phase {
            ClientPhase::ReceivingDownload { .. } => ClientAction::Idle,
            _ => self.phase.action(&self.test_type),
        }
    }

    /// Notes what came of offering bytes.
    pub fn process_write(&mut self, event: WriteEvent) -> (r: Flow)
        requires
            old(self).wf(),
            old(self)@.phase.sends(),
            event matches WriteEvent::Accepted(n) ==> n <= old(self)@.phase.offered(),
        ensures
            final(self).wf(),
            final(self)@ == (ClientAppView {
                phase: driven_write(old(self)@.phase, old(self)@.test, event).0,
                ..old(self)@
            }),
            r == driven_write(old(self)@.phase, old(self)@.test, event).1,
    {
        match event {
            WriteEvent::Accepted(n) => {
                self.phase.on_accepted(&self.test_type, n);
                match self.phase {
                    ClientPhase::SendingUploadData { .. } => Flow::Again,
                    _ => Flow::Pause,
                }
            },
            WriteEvent::Blocked => Flow::Pause,
            WriteEvent::Failed => Flow::Abort,
        }
    }

    /// Ends the test at `now`. What it measured is given out once.
    pub fn complete(&mut self, now: u64) -> (r: Option<Measurement>)
        requires
            old(self)@.start_time is Some,
        ensures
            final(self).wf(),
            final(self)@ == (ClientAppView {
                result_pending: false,
                phase: PhaseView::Done,
                active: false,
                ..old(self)@
            }),
            r == (if old(self)@.result_pending {
                Some(measurement(old(self)@.test, elapsed(old(self)@.start_time->0, now)))
            } else {
                None
            }),
    {
        let start = match self.start_time {
            Some(t) => t,
            None => now,
        };
        let r = if self.result_pending {
            Some(measure(&self.test_type, elapsed_nanos(start, now)))
        } else {
            None
        };
        self.result_pending = false;
        self.phase = ClientPhase::Done;
        self.active = false;
        r
    }
}

/// What comes of a write. An upload goes on as long as bytes are taken, right behind its
/// request; another test pauses once its request is sent. What was not taken is left for
/// later, and a stream that cannot be written ends the connection.
pub proof fn law_writing_when_asked(
    test: TestType,
    stream_id: u64,
    sent: nat,
    remaining: nat,
    n: usize,
)
    requires
        sent < 8,
        n <= remaining,
    ensures
        ({
            let p = PhaseView::SendingHeader { stream_id, sent };
            let (after, flow) = driven_write(p, test, WriteEvent::Accepted(n));
            &&& sent + n <= 8 ==> after == p.after_accepted(test, n as nat)
            &&& sent + n < 8 ==> flow == Flow::Pause
            &&& sent + n == 8 ==> flow == (if test is Upload {
                Flow::Again
            } else {
                Flow::Pause
            })
            &&& driven_write(p, test, WriteEvent::Blocked) == (p, Flow::Pause)
            &&& driven_write(p, test, WriteEvent::Failed) == (p, Flow::Abort)
        }),
        ({
            let p = PhaseView::SendingUploadData { stream_id, remaining };
            &&& driven_write(p, test, WriteEvent::Accepted(n)) == (
                PhaseView::SendingUploadData { stream_id, remaining: (remaining - n) as nat },
                Flow::Again,
            )
            &&& driven_write(p, test, WriteEvent::Blocked) == (p, Flow::Pause)
            &&& driven_write(p, test, WriteEvent::Failed) == (p, Flow::Abort)
        }),
{
}

/// A test that waits for a download writes nothing; in every other phase it writes what the
/// phase offers.
pub proof fn law_nothing_is_written_while_reading(
    test: TestType,
    p: PhaseView,
    stream_id: u64,
    expected: nat,
    received: nat,
)
    ensures
        write_action(
            PhaseView::ReceivingDownload { stream_id, expected, received },
            test,
        ) is Idle,
        !(p is ReceivingDownload) ==> write_action(p, test) == p.action(test),
{
}

/// A test begins with nothing sent, on the dialer's first stream, before the handshake, and
/// owes its result.
pub proof fn law_how_a_test_begins(test: TestType)
    ensures
        fresh_app(test).test == test,
        fresh_app(test).phase == (PhaseView::SendingHeader { stream_id: 0, sent: 0 }),
        fresh_app(test).start_time is None,
        fresh_app(test).result_pending,
        !fresh_app(test).active,
        fresh_app(test).pkt_buf.len() == 65535,
        forall|i: int| 0 <= i < 65535 ==> fresh_app(test).pkt_buf[i] == 0,
{
}

} // verus!
