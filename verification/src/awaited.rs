//! A test and its answer on a connection whose steps are waited for one by one.

use crate::client::{elapsed, elapsed_nanos, expected_bytes, measure, measurement, Measurement};
use crate::server_stream::total;
use crate::wire::{
    be_value, decode_request, law_every_header_is_a_request, law_request_is_read_back, request_bytes, request_header, requested,
    TestType,
};
use vstd::prelude::*;

verus! {

/// The most bytes that one step sends or reads.
pub const STEP_LEN: usize = 65536;

/// How many of `remaining` bytes the next step moves.
pub open spec fn step_len(remaining: nat) -> nat {
    if remaining <= STEP_LEN {
        remaining
    } else {
        STEP_LEN as nat
    }
}

/// How far a test is.
#[derive(Clone, Copy, Debug, PartialEq, Eq, Structural)]
pub enum AwaitedPhase {
    Dialing,
    Opening,
    WritingHeader,
    /// Bytes of an upload are still to be sent.
    Sending { remaining: u64 },
    /// The dialer's side of the stream is to be ended.
    Finishing,
    /// Bytes of a download are still to come.
    Reading { remaining: u64 },
    /// The one byte of a latency test is to come.
    ReadingOne,
    /// The test is over: the connection is to be closed.
    Measured,
    /// The connection broke before anything could be measured: it is to be closed.
    Broken,
    /// There was no connection.
    NotConnected,
}

/// What to wait for.
#[derive(Clone, Copy, Debug, PartialEq, Eq)]
pub enum AwaitedAction {
    /// Connect to the listener.
    Dial,
    /// Open a stream.
    OpenStream,
    /// Send the whole request.
    WriteHeader { data: [u8; 8] },
    /// Send so many zero bytes.
    WriteZeros { len: usize },
    /// End the dialer's side of the stream.
    Finish,
    /// Read at most so many bytes.
    Read { len: usize },
    /// Read exactly one byte.
    ReadOne,
    /// Close the connection; the test is over.
    Close,
    /// The test is over.
    Over,
}

/// The phase after a step that succeeded or failed.
pub open spec fn after_step(p: AwaitedPhase, test: TestType, ok: bool) -> AwaitedPhase {
    match p {
        AwaitedPhase::Dialing => if ok {
            AwaitedPhase::Opening
        } else {
            AwaitedPhase::NotConnected
        },
        AwaitedPhase::Opening => if ok {
            AwaitedPhase::WritingHeader
        } else {
            AwaitedPhase::Broken
        },
        AwaitedPhase::WritingHeader => match test {
            TestType::Upload { bytes } => if ok {
                sending(bytes as nat)
            } else {
                AwaitedPhase::Broken
            },
            TestType::Download { .. } => if ok {
                AwaitedPhase::Finishing
            } else {
                AwaitedPhase::Broken
            },
            TestType::Latency => AwaitedPhase::Finishing,
        },
        AwaitedPhase::Sending { remaining } => if ok {
            sending((remaining - step_len(remaining as nat)) as nat)
        } else {
            AwaitedPhase::Finishing
        },
        AwaitedPhase::Finishing => match test {
            TestType::Upload { .. } => AwaitedPhase::Measured,
            TestType::Download { bytes } => reading(bytes as nat),
            TestType::Latency => AwaitedPhase::ReadingOne,
        },
        AwaitedPhase::ReadingOne => AwaitedPhase::Measured,
        _ => p,
    }
}

/// The phase in which so many bytes are still to be sent.
pub open spec fn sending(remaining: nat) -> AwaitedPhase {
    if remaining == 0 {
        AwaitedPhase::Finishing
    } else {
        AwaitedPhase::Sending { remaining: remaining as u64 }
    }
}

/// The phase in which so many bytes are still to come.
pub open spec fn reading(remaining: nat) -> AwaitedPhase {
    if remaining == 0 {
        AwaitedPhase::Measured
    } else {
        AwaitedPhase::Reading { remaining: remaining as u64 }
    }
}

/// The phase after a read: nothing, or no bytes, means that no more will come.
pub open spec fn after_awaited_read(p: AwaitedPhase, read: Option<usize>) -> AwaitedPhase {
    match (p, read) {
        (AwaitedPhase::Reading { remaining }, Some(n)) => if n > 0 {
            reading((remaining - n) as nat)
        } else {
            AwaitedPhase::Measured
        },
        (AwaitedPhase::Reading { .. }, None) => AwaitedPhase::Measured,
        _ => p,
    }
}

/// What is known of a clock reading after a step: a latency test counts from
/// before the connection is made, the others from when it is there.
pub open spec fn start_after_step(p: AwaitedPhase, test: TestType, start: u64, now: u64) -> u64 {
    if p is Dialing && !(test is Latency) {
        now
    } else {
        start
    }
}

/// A test whose steps are waited for.
pub struct AwaitedTest {
    test: TestType,
    phase: AwaitedPhase,
    start_time: u64,
    result: Option<Measurement>,
}

/// What there is to know of a test whose steps are waited for.
pub struct AwaitedView {
    pub test: TestType,
    pub phase: AwaitedPhase,
    pub start_time: u64,
    pub result: Option<Measurement>,
}

impl View for AwaitedTest {
    type V = AwaitedView;

    closed spec fn view(&self) -> AwaitedView {
        AwaitedView {
            test: self.test,
            phase: self.phase,
            start_time: self.start_time,
            result: self.result,
        }
    }
}

impl AwaitedView {
    /// There is a result exactly when the test was measured.
    pub open spec fn wf(self) -> bool {
        self.result is Some <==> self.phase is Measured
    }

    /// What to wait for.
    pub open spec fn action_is(self, a: AwaitedAction) -> bool {
        match self.phase {
            AwaitedPhase::Dialing => a is Dial,
            AwaitedPhase::Opening => a is OpenStream,
            AwaitedPhase::WritingHeader => a matches AwaitedAction::WriteHeader { data }
                && data@ == request_bytes(self.test),
            AwaitedPhase::Sending { remaining } => a matches AwaitedAction::WriteZeros { len }
                && len == step_len(remaining as nat),
            AwaitedPhase::Finishing => a is Finish,
            AwaitedPhase::Reading { remaining } => a matches AwaitedAction::Read { len } && len
                == step_len(remaining as nat),
            AwaitedPhase::ReadingOne => a is ReadOne,
            AwaitedPhase::Measured => a is Close,
            AwaitedPhase::Broken => a is Close,
            AwaitedPhase::NotConnected => a is Over,
        }
    }

    /// The test with another phase; when the test becomes over at `now`, what it
    /// measured is kept.
    pub open spec fn with_phase(self, p: AwaitedPhase, start: u64, now: u64) -> AwaitedView {
        AwaitedView {
            phase: p,
            start_time: start,
            result: if p is Measured && !(self.phase is Measured) {
                Some(measurement(self.test, elapsed(start, now)))
            } else {
                self.result
            },
            ..self
        }
    }
}

impl AwaitedTest {
    pub open spec fn wf(&self) -> bool {
        self@.wf()
    }

    /// A test that begins at `now`.
    pub fn new(test: TestType, now: u64) -> (r: Self)
        ensures
            r.wf(),
            r@ == (AwaitedView {
                test,
                phase: AwaitedPhase::Dialing,
                start_time: now,
                result: None,
            }),
    {
        AwaitedTest { test, phase: AwaitedPhase::Dialing, start_time: now, result: None }
    }

    /// What to wait for.
    pub fn next_action(&self) -> (r: AwaitedAction)
        ensures
            self@.action_is(r),
    {
        match self.phase {
            AwaitedPhase::Dialing => AwaitedAction::Dial,
            AwaitedPhase::Opening => AwaitedAction::OpenStream,
            AwaitedPhase::WritingHeader => AwaitedAction::WriteHeader {
                data: request_header(&self.test),
            },
            AwaitedPhase::Sending { remaining } => AwaitedAction::WriteZeros {
                len: next_step(remaining),
            },
            AwaitedPhase::Finishing => AwaitedAction::Finish,
            AwaitedPhase::Reading { remaining } => AwaitedAction::Read {
                len: next_step(remaining),
            },
            AwaitedPhase::ReadingOne => AwaitedAction::ReadOne,
            AwaitedPhase::Measured => AwaitedAction::Close,
            AwaitedPhase::Broken => AwaitedAction::Close,
            AwaitedPhase::NotConnected => AwaitedAction::Over,
        }
    }

    fn enter(&mut self, phase: AwaitedPhase, now: u64)
        ensures
            final(self)@ == old(self)@.with_phase(phase, old(self)@.start_time, now),
    {
        let over = match phase {
            AwaitedPhase::Measured => true,
            _ => false,
        };
        let was_over = match self.phase {
            AwaitedPhase::Measured => true,
            _ => false,
        };
        if over && !was_over {
            self.result = Some(measure(&self.test, elapsed_nanos(self.start_time, now)));
        }
        self.phase = phase;
    }

    /// Notes at `now` whether a step that is not a read of a download succeeded.
    pub fn on_step(&mut self, ok: bool, now: u64)
        requires
            old(self).wf(),
        ensures
            final(self).wf(),
            final(self)@ == stepped(old(self)@, ok, now),
    {
        let next = match self.phase {
            AwaitedPhase::Dialing => {
                match self.test {
                    TestType::Latency => {},
                    _ => {
                        self.start_time = now;
                    },
                }
                if ok {
                    AwaitedPhase::Opening
                } else {
                    AwaitedPhase::NotConnected
                }
            },
            AwaitedPhase::Opening => if ok {
                AwaitedPhase::WritingHeader
            } else {
                AwaitedPhase::Broken
            },
            AwaitedPhase::WritingHeader => match self.test {
                TestType::Upload { bytes } => if !ok {
                    AwaitedPhase::Broken
                } else if bytes == 0 {
                    AwaitedPhase::Finishing
                } else {
                    AwaitedPhase::Sending { remaining: bytes }
                },
                TestType::Download { .. } => if ok {
                    AwaitedPhase::Finishing
                } else {
                    AwaitedPhase::Broken
                },
                TestType::Latency => AwaitedPhase::Finishing,
            },
            AwaitedPhase::Sending { remaining } => {
                let left = remaining - next_step(remaining) as u64;
                if !ok || left == 0 {
                    AwaitedPhase::Finishing
                } else {
                    AwaitedPhase::Sending { remaining: left }
                }
            },
            AwaitedPhase::Finishing => match self.test {
                TestType::Upload { .. } => AwaitedPhase::Measured,
                TestType::Download { bytes } => if bytes == 0 {
                    AwaitedPhase::Measured
                } else {
                    AwaitedPhase::Reading { remaining: bytes }
                },
                TestType::Latency => AwaitedPhase::ReadingOne,
            },
            AwaitedPhase::ReadingOne => AwaitedPhase::Measured,
            other => other,
        };
        self.enter(next, now);
    }

    /// Notes at `now` what came of reading a download: the number of bytes, or
    /// nothing when no more will come.
    pub fn on_read(&mut self, read: Option<usize>, now: u64)
        requires
            old(self).wf(),
            old(self)@.phase matches AwaitedPhase::Reading { remaining } && (read matches Some(n)
                ==> n <= step_len(remaining as nat)),
        ensures
            final(self).wf(),
            final(self)@ == old(self)@.with_phase(
                after_awaited_read(old(self)@.phase, read),
                old(self)@.start_time,
                now,
            ),
    {
        let next = match self.phase {
            AwaitedPhase::Reading { remaining } => match read {
                Some(n) => {
                    let left = remaining - n as u64;
                    if n == 0 || left == 0 {
                        AwaitedPhase::Measured
                    } else {
                        AwaitedPhase::Reading { remaining: left }
                    }
                },
                None => AwaitedPhase::Measured,
            },
            other => other,
        };
        self.enter(next, now);
    }

    /// What the test measured, if it got that far.
    pub fn result(&self) -> (r: Option<Measurement>)
        ensures
            r == self@.result,
    {
        self.result
    }
}

/// How many of `remaining` bytes the next step moves.
pub fn next_step(remaining: u64) -> (r: usize)
    ensures
        r == step_len(remaining as nat),
{
    if remaining <= STEP_LEN as u64 {
        remaining as usize
    } else {
        STEP_LEN
    }
}

/// What a listener does with a stream.
#[derive(Clone, Copy, Debug, PartialEq, Eq, Structural)]
pub enum Reply {
    /// Read what comes and drop it.
    Discard,
    /// Send so many zero bytes.
    Send { remaining: u64 },
    /// End the listener's side of the stream.
    Finish,
}

/// What a request makes the listener do; without a whole request it only reads.
pub open spec fn reply_to(header: Option<Seq<u8>>) -> Reply {
    match header {
        Some(h) => if be_value(h) == 0 {
            Reply::Discard
        } else {
            Reply::Send { remaining: be_value(h) as u64 }
        },
        None => Reply::Discard,
    }
}

/// The rest of a reply after a step that succeeded or failed. What cannot be sent
/// is left out.
pub open spec fn after_reply_step(r: Reply, ok: bool) -> Reply {
    match r {
        Reply::Send { remaining } => if ok && remaining > step_len(remaining as nat) {
            Reply::Send { remaining: (remaining - step_len(remaining as nat)) as u64 }
        } else {
            Reply::Finish
        },
        _ => r,
    }
}

/// The number of bytes that a reply sends when nothing fails.
pub open spec fn reply_bytes(r: Reply) -> nat
    decreases (if r is Send { r->remaining as int } else { 0 }),
{
    match r {
        Reply::Send { remaining } => if remaining == 0 {
            0
        } else {
            step_len(remaining as nat) + reply_bytes(after_reply_step(r, true))
        },
        _ => 0,
    }
}

/// What a request makes the listener do.
pub fn handle_stream(header: Option<[u8; 8]>) -> (r: Reply)
    ensures
        r == reply_to(
            match header {
                Some(h) => Some(h@),
                None => None,
            },
        ),
{
    match header {
        Some(h) => {
            let requested_bytes = decode_request(&h);
            if requested_bytes == 0 {
                Reply::Discard
            } else {
                Reply::Send { remaining: requested_bytes }
            }
        },
        None => Reply::Discard,
    }
}

/// The rest of a reply after a step that succeeded or failed.
pub fn send_zeros_step(r: Reply, ok: bool) -> (next: Reply)
    ensures
        next == after_reply_step(r, ok),
{
    match r {
        Reply::Send { remaining } => {
            let left = remaining - next_step(remaining) as u64;
            if ok && left > 0 {
                Reply::Send { remaining: left }
            } else {
                Reply::Finish
            }
        },
        other => other,
    }
}

/// When nothing fails a reply sends exactly the bytes that are left to send.
pub proof fn law_reply_sends_all(remaining: u64)
    ensures
        reply_bytes(Reply::Send { remaining }) == remaining,
    decreases remaining,
{
    if remaining > STEP_LEN {
        law_reply_sends_all((remaining - STEP_LEN) as u64);
    } else if remaining > 0 {
        assert(after_reply_step(Reply::Send { remaining }, true) == Reply::Finish);
        assert(reply_bytes(Reply::Finish) == 0);
    }
}

/// The listener's reply to a test sends the bytes that the test waits for.
pub proof fn law_reply_fits_the_test(test: TestType)
    ensures
        reply_bytes(reply_to(Some(request_bytes(test)))) == expected_bytes(test),
{
    law_request_is_read_back(requested(test));
    if requested(test) > 0 {
        law_reply_sends_all(requested(test));
    }
}

/// The phase after several reads of a download.
pub open spec fn after_awaited_reads(p: AwaitedPhase, reads: Seq<nat>) -> AwaitedPhase
    decreases reads.len(),
{
    if reads.len() == 0 {
        p
    } else {
        after_awaited_read(after_awaited_reads(p, reads.drop_last()), Some(reads.last() as usize))
    }
}

/// Every read was wanted, and gave some bytes but no more than were asked for.
pub open spec fn reads_fit(p: AwaitedPhase, reads: Seq<nat>) -> bool
    decreases reads.len(),
{
    reads.len() > 0 ==> {
        &&& reads_fit(p, reads.drop_last())
        &&& after_awaited_reads(p, reads.drop_last()) matches AwaitedPhase::Reading { remaining }
            && 0 < reads.last() <= step_len(remaining as nat)
    }
}

/// A download is measured exactly when all its bytes have come, however the reads were
/// cut, unless the stream ends or fails before.
pub proof fn law_awaited_download_counts_its_bytes(bytes: u64, reads: Seq<nat>)
    requires
        reads_fit(reading(bytes as nat), reads),
    ensures
        total(reads) <= bytes,
        after_awaited_reads(reading(bytes as nat), reads) == (if total(reads) == bytes {
            AwaitedPhase::Measured
        } else {
            AwaitedPhase::Reading { remaining: (bytes - total(reads)) as u64 }
        }),
        after_awaited_reads(reading(bytes as nat), reads) is Measured <==> total(reads) == bytes,
    decreases reads.len(),
{
    if reads.len() > 0 {
        law_awaited_download_counts_its_bytes(bytes, reads.drop_last());
    }
}

/// The bytes of an upload that are sent when nothing fails.
pub open spec fn upload_bytes(p: AwaitedPhase) -> nat
    decreases (if p is Sending { p->Sending_remaining as int } else { 0 }),
{
    match p {
        AwaitedPhase::Sending { remaining } => if remaining == 0 {
            0
        } else {
            step_len(remaining as nat) + upload_bytes(
                sending((remaining - step_len(remaining as nat)) as nat),
            )
        },
        _ => 0,
    }
}

/// An upload sends exactly its bytes when nothing fails.
pub proof fn law_upload_sends_all(bytes: u64)
    ensures
        upload_bytes(sending(bytes as nat)) == bytes,
    decreases bytes,
{
    if bytes > STEP_LEN {
        law_upload_sends_all((bytes - STEP_LEN) as u64);
    } else if bytes > 0 {
        assert(upload_bytes(AwaitedPhase::Finishing) == 0);
    }
}

/// A test after a step at `now` that succeeded or failed.
pub open spec fn stepped(v: AwaitedView, ok: bool, now: u64) -> AwaitedView {
    v.with_phase(
        after_step(v.phase, v.test, ok),
        start_after_step(v.phase, v.test, v.start_time, now),
        now,
    )
}

/// A test that begins at `now`, after steps at these times that all succeeded.
pub open spec fn after_good_steps(test: TestType, now: u64, times: Seq<u64>) -> AwaitedView
    decreases times.len(),
{
    if times.len() == 0 {
        AwaitedView { test, phase: AwaitedPhase::Dialing, start_time: now, result: None }
    } else {
        stepped(after_good_steps(test, now, times.drop_last()), true, times.last())
    }
}

/// How many zero bytes an action sends.
pub open spec fn zeros_of(a: AwaitedAction) -> nat {
    match a {
        AwaitedAction::WriteZeros { len } => len as nat,
        _ => 0,
    }
}

/// How many zero bytes several actions send.
pub open spec fn all_zeros_of(actions: Seq<AwaitedAction>) -> nat
    decreases actions.len(),
{
    if actions.len() == 0 {
        0
    } else {
        all_zeros_of(actions.drop_last()) + zeros_of(actions.last())
    }
}

/// An upload whose steps all succeed: it connects, opens a stream and sends the request,
/// then sends its bytes in steps of 65536, the last of which sends the rest, then ends its
/// side of the stream, and is measured from when it was connected.
pub proof fn law_course_of_an_upload(bytes: u64, now: u64, times: Seq<u64>)
    ensures
        ({
            let v = after_good_steps(TestType::Upload { bytes }, now, times);
            let k = times.len() as int;
            let steps = (bytes + 65535) / 65536;
            &&& v.test == (TestType::Upload { bytes })
            &&& k == 0 ==> v.phase == AwaitedPhase::Dialing
            &&& k == 1 ==> v.phase == AwaitedPhase::Opening
            &&& k == 2 ==> v.phase == AwaitedPhase::WritingHeader
            &&& 3 <= k < 3 + steps ==> v.phase == (AwaitedPhase::Sending {
                remaining: (bytes - (k - 3) * 65536) as u64,
            })
            &&& k == 3 + steps ==> v.phase == AwaitedPhase::Finishing
            &&& k > 3 + steps ==> v.phase == AwaitedPhase::Measured
            &&& k > 0 ==> v.start_time == times[0]
            &&& k <= 3 + steps ==> v.result is None
            &&& k > 3 + steps && times[0] <= times[3 + steps] ==> v.result == Some(
                Measurement::Throughput { bytes, nanos: (times[3 + steps] - times[0]) as u64 },
            )
        }),
    decreases times.len(),
{
    if times.len() > 0 {
        law_course_of_an_upload(bytes, now, times.drop_last());
    }
}

/// What an upload whose steps all succeed asks for, step by step.
pub proof fn law_actions_of_an_upload(bytes: u64, now: u64, times: Seq<u64>, a: AwaitedAction)
    requires
        after_good_steps(TestType::Upload { bytes }, now, times).action_is(a),
    ensures
        ({
            let k = times.len() as int;
            let steps = (bytes + 65535) / 65536;
            &&& a is Dial <==> k == 0
            &&& a is OpenStream <==> k == 1
            &&& a is WriteHeader <==> k == 2
            &&& a is WriteZeros <==> 3 <= k < 3 + steps
            &&& a matches AwaitedAction::WriteZeros { len } ==> len == (if k == 2 + steps {
                bytes - (steps - 1) * 65536
            } else {
                65536
            })
            &&& a is Finish <==> k == 3 + steps
            &&& a is Close <==> k > 3 + steps
            &&& a matches AwaitedAction::WriteHeader { data } ==> data@ == request_bytes(
                TestType::Upload { bytes },
            )
        }),
{
    law_course_of_an_upload(bytes, now, times);
}

/// An upload whose steps all succeed sends exactly its bytes: the zero bytes of all actions
/// add up to them by the time that its side of the stream is ended.
pub proof fn law_upload_sends_exactly_its_bytes(
    bytes: u64,
    now: u64,
    times: Seq<u64>,
    actions: Seq<AwaitedAction>,
)
    requires
        times.len() == actions.len(),
        forall|i: int|
            0 <= i < actions.len() ==> after_good_steps(
                TestType::Upload { bytes },
                now,
                times.take(i),
            ).action_is(#[trigger] actions[i]),
    ensures
        all_zeros_of(actions) <= bytes,
        actions.len() > 0 && actions.last() is Finish ==> all_zeros_of(actions) == bytes,
        actions.len() > 0 && actions.last() is Close ==> all_zeros_of(actions) == bytes,
{
    lemma_zeros_so_far(bytes, now, times, actions);
    if actions.len() > 0 {
        let k = actions.len() - 1;
        law_actions_of_an_upload(bytes, now, times.take(k), actions[k]);
    }
}

proof fn lemma_zeros_so_far(
    bytes: u64,
    now: u64,
    times: Seq<u64>,
    actions: Seq<AwaitedAction>,
)
    requires
        times.len() == actions.len(),
        forall|i: int|
            0 <= i < actions.len() ==> after_good_steps(
                TestType::Upload { bytes },
                now,
                times.take(i),
            ).action_is(#[trigger] actions[i]),
    ensures
        ({
            let sent = (actions.len() - 3) * 65536;
            all_zeros_of(actions) == (if sent <= 0 {
                0
            } else if sent < bytes {
                sent
            } else {
                bytes as int
            })
        }),
    decreases actions.len(),
{
    if actions.len() > 0 {
        let k = actions.len() - 1;
        let (t, a) = (times.drop_last(), actions.drop_last());
        assert forall|i: int| 0 <= i < a.len() implies after_good_steps(
            TestType::Upload { bytes },
            now,
            t.take(i),
        ).action_is(#[trigger] a[i]) by {
            assert(a[i] == actions[i]);
            assert(t.take(i) =~= times.take(i));
        }
        lemma_zeros_so_far(bytes, now, t, a);
        law_actions_of_an_upload(bytes, now, times.take(k), actions[k]);
    }
}

/// A download whose steps all succeed connects, opens a stream, sends the request and ends
/// its side of the stream; then it reads, if it asked for anything. It counts from when it
/// was connected.
pub proof fn law_course_of_a_download(bytes: u64, now: u64, times: Seq<u64>)
    requires
        times.len() <= 4,
    ensures
        ({
            let v = after_good_steps(TestType::Download { bytes }, now, times);
            let k = times.len();
            &&& v.test == (TestType::Download { bytes })
            &&& k == 0 ==> v.phase == AwaitedPhase::Dialing
            &&& k == 1 ==> v.phase == AwaitedPhase::Opening
            &&& k == 2 ==> v.phase == AwaitedPhase::WritingHeader
            &&& k == 3 ==> v.phase == AwaitedPhase::Finishing
            &&& k == 4 && bytes > 0 ==> v.phase == (AwaitedPhase::Reading { remaining: bytes })
            &&& k == 4 && bytes == 0 ==> v.phase == AwaitedPhase::Measured
            &&& k > 0 ==> v.start_time == times[0]
            &&& k < 4 ==> v.result is None
            &&& bytes > 0 ==> v.result is None
        }),
    decreases times.len(),
{
    if times.len() > 0 {
        law_course_of_a_download(bytes, now, times.drop_last());
    }
}

/// A latency test is measured from before it connects until its one byte has come.
pub proof fn law_course_of_a_latency_test(now: u64, times: Seq<u64>)
    ensures
        ({
            let v = after_good_steps(TestType::Latency, now, times);
            let k = times.len();
            &&& v.test == TestType::Latency
            &&& k == 0 ==> v.phase == AwaitedPhase::Dialing
            &&& k == 1 ==> v.phase == AwaitedPhase::Opening
            &&& k == 2 ==> v.phase == AwaitedPhase::WritingHeader
            &&& k == 3 ==> v.phase == AwaitedPhase::Finishing
            &&& k == 4 ==> v.phase == AwaitedPhase::ReadingOne
            &&& k >= 5 ==> v.phase == AwaitedPhase::Measured
            &&& v.start_time == now
            &&& k < 5 ==> v.result is None
            &&& k >= 5 && now <= times[4] ==> v.result == Some(
                Measurement::RoundTrip { nanos: (times[4] - now) as u64 },
            )
        }),
    decreases times.len(),
{
    if times.len() > 0 {
        law_course_of_a_latency_test(now, times.drop_last());
    }
}

/// What a step that fails does: without a connection or a stream nothing is measured, nor
/// without a request, but for a latency test, which goes on. An upload that cannot be sent
/// is ended and measured.
pub proof fn law_steps_that_fail(test: TestType, remaining: u64)
    requires
        remaining > 0,
    ensures
        after_step(AwaitedPhase::Dialing, test, false) == AwaitedPhase::NotConnected,
        after_step(AwaitedPhase::Opening, test, false) == AwaitedPhase::Broken,
        after_step(AwaitedPhase::WritingHeader, test, false) == (if test is Latency {
            AwaitedPhase::Finishing
        } else {
            AwaitedPhase::Broken
        }),
        after_step(AwaitedPhase::Sending { remaining }, test, false) == AwaitedPhase::Finishing,
        after_step(AwaitedPhase::Finishing, test, false) == after_step(
            AwaitedPhase::Finishing,
            test,
            true,
        ),
        after_step(AwaitedPhase::ReadingOne, test, false) == AwaitedPhase::Measured,
{
}

/// A test that is over stays as it is.
pub proof fn law_what_is_over_stays(v: AwaitedView, ok: bool, now: u64)
    requires
        v.phase is Measured || v.phase is Broken || v.phase is NotConnected,
    ensures
        stepped(v, ok, now) == v,
{
}

/// What a read of a download does: what came is no longer expected, and when all has come,
/// or no more will, the download is measured at that moment.
pub proof fn law_reading_a_download(v: AwaitedView, remaining: u64, n: usize, now: u64)
    requires
        v.phase == (AwaitedPhase::Reading { remaining }),
        v.result is None,
        0 < n <= remaining,
        v.start_time <= now,
        v.test is Download,
    ensures
        after_awaited_read(v.phase, Some(n)) == (if n == remaining {
            AwaitedPhase::Measured
        } else {
            AwaitedPhase::Reading { remaining: (remaining - n) as u64 }
        }),
        after_awaited_read(v.phase, Some(0)) == AwaitedPhase::Measured,
        after_awaited_read(v.phase, None) == AwaitedPhase::Measured,
        v.with_phase(AwaitedPhase::Measured, v.start_time, now).result == Some(
            Measurement::Throughput {
                bytes: v.test->Download_bytes,
                nanos: (now - v.start_time) as u64,
            },
        ),
        v.with_phase(AwaitedPhase::Reading { remaining }, v.start_time, now) == v,
{
}

/// A step moves as many bytes as there are, up to 65536, of an upload and of a download.
pub proof fn law_step_is_as_long_as_may_be(
    v: AwaitedView,
    remaining: u64,
    len: nat,
    a: AwaitedAction,
)
    requires
        v.action_is(a),
    ensures
        step_len(remaining as nat) <= remaining,
        step_len(remaining as nat) <= 65536,
        len <= remaining && len <= 65536 ==> len <= step_len(remaining as nat),
        v.phase == (AwaitedPhase::Reading { remaining }) && remaining > 0 ==> (a matches
            AwaitedAction::Read { len: n } && 0 < n <= remaining && n <= 65536 && (n == remaining
            || n == 65536)),
        v.phase == (AwaitedPhase::Sending { remaining }) && remaining > 0 ==> (a matches
            AwaitedAction::WriteZeros { len: n } && 0 < n <= remaining && n <= 65536 && (n
            == remaining || n == 65536)),
{
}

/// What is waited for in the phases without a length: each phase has its action, the
/// request is that of the test, and a connection that is there is closed.
pub proof fn law_what_is_waited_for(v: AwaitedView, a: AwaitedAction)
    requires
        v.action_is(a),
    ensures
        a is Dial <==> v.phase is Dialing,
        a is OpenStream <==> v.phase is Opening,
        a is WriteHeader <==> v.phase is WritingHeader,
        a matches AwaitedAction::WriteHeader { data } ==> data@ == request_bytes(v.test),
        a is WriteZeros <==> v.phase is Sending,
        a is Finish <==> v.phase is Finishing,
        a is Read <==> v.phase is Reading,
        a is ReadOne <==> v.phase is ReadingOne,
        a is Close <==> v.phase is Measured || v.phase is Broken,
        a is Over <==> v.phase is NotConnected,
{
}

/// What a listener does with a request: nothing but read without a whole one or if it asks
/// for nothing, and otherwise it sends what was asked for.
pub proof fn law_reply_to_a_request(h: Seq<u8>)
    requires
        h.len() == 8,
    ensures
        reply_to(None) == Reply::Discard,
        be_value(h) == 0 ==> reply_to(Some(h)) == Reply::Discard,
        be_value(h) > 0 ==> (reply_to(Some(h)) matches Reply::Send { remaining } && remaining
            == be_value(h)),
{
    law_every_header_is_a_request(h);
}

/// The steps of a reply: each sends as much as one step may, until nothing is left; what
/// cannot be sent is left out; then the listener's side of the stream is ended.
pub proof fn law_steps_of_a_reply(remaining: u64)
    requires
        remaining > 0,
    ensures
        after_reply_step(Reply::Send { remaining }, true) == (if remaining <= 65536 {
            Reply::Finish
        } else {
            Reply::Send { remaining: (remaining - 65536) as u64 }
        }),
        after_reply_step(Reply::Send { remaining }, false) == Reply::Finish,
        after_reply_step(Reply::Finish, true) == Reply::Finish,
        after_reply_step(Reply::Discard, true) == Reply::Discard,
{
}

} // verus!
