//! A test on a connection that its owner polls: one phase is looked at each time.

use crate::client::{
    after_read, elapsed, elapsed_nanos, measure, measurement, ClientAction, ClientPhase, Flow,
    Measurement, PhaseView,
};
use crate::wire::{TestType, WriteEvent};
use vstd::prelude::*;

verus! {

/// A test on a polled connection.
pub struct ClientTest {
    test: TestType,
    phase: ClientPhase,
    start_time: u64,
    result: Option<Measurement>,
}

/// What there is to know of a test on a polled connection.
pub struct ClientTestView {
    pub test: TestType,
    pub phase: PhaseView,
    /// When the connection was opened.
    pub start_time: u64,
    pub result: Option<Measurement>,
}

impl View for ClientTest {
    type V = ClientTestView;

    closed spec fn view(&self) -> ClientTestView {
        ClientTestView {
            test: self.test,
            phase: self.phase@,
            start_time: self.start_time,
            result: self.result,
        }
    }
}

impl ClientTestView {
    /// There is a result exactly when the test is over.
    pub open spec fn wf(self) -> bool {
        self.result is Some <==> self.phase is Done
    }
}

/// What a write makes of a phase, and what to do next. A request that was sent is
/// followed up at the next poll, and a failed upload is tried again then.
pub open spec fn polled_write(p: PhaseView, test: TestType, event: WriteEvent) -> (PhaseView, Flow) {
    match event {
        WriteEvent::Accepted(n) => {
            let after = p.after_accepted(test, n as nat);
            let flow = if p is SendingHeader {
                Flow::Pause
            } else if after.action(test) is Finish {
                Flow::Finish
            } else {
                Flow::Again
            };
            (after, flow)
        },
        WriteEvent::Blocked => (p, Flow::Pause),
        WriteEvent::Failed => (
            p,
            if p is SendingHeader {
                Flow::Abort
            } else {
                Flow::Pause
            },
        ),
    }
}

impl ClientTest {
    pub closed spec fn wf(&self) -> bool {
        self.phase.wf(self.test) && self@.wf()
    }

    /// The phase is in order, and there is a result exactly when the test is over.
    pub proof fn law_phase_is_in_order(&self)
        requires
            self.wf(),
        ensures
            self@.phase.wf(self@.test),
            self@.wf(),
    {
    }

    /// A test on a connection that is being opened at `now`.
    pub fn new(test: TestType, now: u64) -> (r: Self)
        ensures
            r.wf(),
            r@ == (ClientTestView {
                test,
                phase: PhaseView::WaitingForConn,
                start_time: now,
                result: None,
            }),
    {
        ClientTest { test, phase: ClientPhase::WaitingForConn, start_time: now, result: None }
    }

    /// What to do with the stream at a poll. Once the handshake is over the test
    /// takes the dialer's first stream, and uses it from the next poll on.
    pub fn on_poll(&mut self, established: bool) -> (r: ClientAction)
        requires
            old(self).wf(),
        ensures
            final(self).wf(),
            r@ == old(self)@.phase.action(old(self)@.test),
            final(self)@ == (if old(self)@.phase is WaitingForConn && established {
                ClientTestView {
                    phase: PhaseView::SendingHeader { stream_id: 0, sent: 0 },
                    ..old(self)@
                }
            } else {
                old(self)@
            }),
    {
        match self.phase {
            ClientPhase::WaitingForConn => {
                if established {
                    self.phase = ClientPhase::begin(&self.test, 0);
                }
                ClientAction::Idle
            },
            _ => self.phase.action(&self.test),
        }
    }

    /// Notes what came of offering bytes.
    pub fn on_write(&mut self, event: WriteEvent) -> (r: Flow)
        requires
            old(self).wf(),
            old(self)@.phase.sends(),
            event matches WriteEvent::Accepted(n) ==> n <= old(self)@.phase.offered(),
        ensures
            final(self).wf(),
            final(self)@ == (ClientTestView {
                phase: polled_write(old(self)@.phase, old(self)@.test, event).0,
                ..old(self)@
            }),
            r == polled_write(old(self)@.phase, old(self)@.test, event).1,
    {
        let header = match self.phase {
            ClientPhase::SendingHeader { .. } => true,
            _ => false,
        };
        match event {
            WriteEvent::Accepted(n) => {
                self.phase.on_accepted(&self.test, n);
                if header {
                    Flow::Pause
                } else {
                    match self.phase.action(&self.test) {
                        ClientAction::Finish => Flow::Finish,
                        _ => Flow::Again,
                    }
                }
            },
            WriteEvent::Blocked => Flow::Pause,
            WriteEvent::Failed => if header {
                Flow::Abort
            } else {
                Flow::Pause
            },
        }
    }

    /// How many more bytes can be counted.
    pub fn room(&self) -> (r: u64)
        ensures
            r == self@.phase.room(),
    {
        self.phase.room()
    }

    /// Notes what came of reading: the number of bytes and whether they are the
    /// last, or nothing when there was nothing to read.
    pub fn on_read(&mut self, read: Option<(usize, bool)>) -> (r: Flow)
        requires
            old(self).wf(),
            old(self)@.phase is ReceivingDownload,
            read matches Some(p) ==> p.0 <= old(self)@.phase.room(),
        ensures
            final(self)@ == (ClientTestView {
                phase: after_read(old(self)@.phase, read).0,
                ..old(self)@
            }),
            r == after_read(old(self)@.phase, read).1,
            r != Flow::Finish ==> final(self).wf(),
    {
        match read {
            Some((len, fin)) => if self.phase.on_received(&self.test, len, fin) {
                Flow::Finish
            } else {
                Flow::Again
            },
            None => Flow::Pause,
        }
    }

    /// Ends the test at `now` and keeps what it measured.
    pub fn finish(&mut self, now: u64)
        ensures
            final(self).wf(),
            final(self)@ == (ClientTestView {
                phase: PhaseView::Done,
                result: Some(
                    measurement(old(self)@.test, elapsed(old(self)@.start_time, now)),
                ),
                ..old(self)@
            }),
    {
        self.result = Some(measure(&self.test, elapsed_nanos(self.start_time, now)));
        self.phase = ClientPhase::Done;
    }

    /// What the test measured, if it got to its end.
    pub fn result(&self) -> (r: Option<Measurement>)
        ensures
            r == self@.result,
    {
        self.result
    }
}

/// What comes of a write at a poll. The request is sent in one piece per poll, and a test
/// whose request cannot be sent is given up. An upload goes on as long as bytes are taken,
/// is over with the last, and is tried again at the next poll otherwise.
pub proof fn law_writing_at_a_poll(
    test: TestType,
    stream_id: u64,
    sent: nat,
    remaining: nat,
    n: usize,
)
    requires
        sent < 8,
        0 < remaining,
        n <= remaining,
    ensures
        ({
            let p = PhaseView::SendingHeader { stream_id, sent };
            &&& sent + n <= 8 ==> polled_write(p, test, WriteEvent::Accepted(n)) == (
                p.after_accepted(test, n as nat),
                Flow::Pause,
            )
            &&& polled_write(p, test, WriteEvent::Blocked) == (p, Flow::Pause)
            &&& polled_write(p, test, WriteEvent::Failed) == (p, Flow::Abort)
        }),
        ({
            let p = PhaseView::SendingUploadData { stream_id, remaining };
            let (after, flow) = polled_write(p, test, WriteEvent::Accepted(n));
            &&& after == (PhaseView::SendingUploadData {
                stream_id,
                remaining: (remaining - n) as nat,
            })
            &&& flow == Flow::Finish <==> n == remaining
            &&& flow == Flow::Again <==> n < remaining
            &&& polled_write(p, test, WriteEvent::Blocked) == (p, Flow::Pause)
            &&& polled_write(p, test, WriteEvent::Failed) == (p, Flow::Pause)
        }),
{
}

} // verus!
