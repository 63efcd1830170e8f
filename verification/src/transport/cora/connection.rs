//! One CORA connection, to the dock's primary port or to the child deck port, without its socket:
//! what the peer's frames do to it, which requests are in flight, which input reports are queued.

use std::collections::{HashMap, VecDeque};

use vstd::prelude::*;

use super::flags;
use super::frame::{encode_frame, next_frame, Frame, FrameView};
use super::frame;
use super::op;
use crate::error::StreamDeckError;

verus! {

/// Report id of the dock's "Device 2" info.
pub const DEVICE2_REPORT: u8 = 0x1c;

/// Report id of the deck's input reports.
pub const INPUT_REPORT: u8 = 0x01;

/// What a received frame is.
#[derive(Debug, Clone, Copy, PartialEq, Eq, Structural)]
pub enum Route {
    /// A keepalive of the connection with this number.
    Keepalive(u8),
    /// The answer to a request for the report with this id.
    Response(u8),
    /// An input report of the deck.
    Input,
    /// The answer to a request for report [`INPUT_REPORT`] where one is in flight, and otherwise
    /// an input report of the deck.
    InputResponse,
    /// Nothing that could be passed on.
    Unknown,
}

/// What a frame is.
///
/// A keepalive starts with `[1, 10]` and holds its connection number in byte 5. Device 2 info
/// starts with `[1, 11]` and answers the query for it. Any other payload that starts with 1 is an
/// input report, unless it is a raw HID report sent for a `GET_REPORT`: that may answer a request
/// for the report. The rest answers the request for the report id in byte 0 (raw HID reports) or in
/// byte 1 (reports of the dock).
pub open spec fn route(frame: FrameView) -> Route {
    let payload = frame.payload;
    let verbatim = frame.flags & flags::VERBATIM != 0;
    if payload.len() > 4 && payload[0] == 1 && payload[1] == 10 {
        Route::Keepalive(
            if payload.len() > 5 {
                payload[5]
            } else {
                0
            },
        )
    } else if payload.len() > 1 && payload[0] == 1 && payload[1] == 11 {
        Route::Response(DEVICE2_REPORT)
    } else if payload.len() > 0 && payload[0] == INPUT_REPORT {
        if verbatim && frame.op == op::GET_REPORT {
            Route::InputResponse
        } else {
            Route::Input
        }
    } else if verbatim {
        if payload.len() > 0 {
            Route::Response(payload[0])
        } else {
            Route::Unknown
        }
    } else {
        if payload.len() > 1 {
            Route::Response(payload[1])
        } else {
            Route::Unknown
        }
    }
}

/// Whether a frame answers a request for the report with id `key`, when there is one.
pub open spec fn answers(frame: FrameView, key: u8) -> bool {
    ||| route(frame) == Route::Response(key)
    ||| route(frame) == Route::InputResponse && key == INPUT_REPORT
}

/// Tells what a frame is.
fn classify(frame: &Frame) -> (res: Route)
    ensures
        res == route(frame@),
{
    let payload = frame.payload.as_slice();
    let len: usize = payload.len();
    let verbatim = frame.flags & flags::VERBATIM != 0;
    if len > 4 && payload[0] == 1 && payload[1] == 10 {
        let connection_no: u8 = if len > 5 {
            payload[5]
        } else {
            0
        };
        Route::Keepalive(connection_no)
    } else if len > 1 && payload[0] == 1 && payload[1] == 11 {
        Route::Response(DEVICE2_REPORT)
    } else if len > 0 && payload[0] == INPUT_REPORT {
        if verbatim && frame.op == op::GET_REPORT {
            Route::InputResponse
        } else {
            Route::Input
        }
    } else if verbatim {
        if len > 0 {
            Route::Response(payload[0])
        } else {
            Route::Unknown
        }
    } else {
        if len > 1 {
            Route::Response(payload[1])
        } else {
            Route::Unknown
        }
    }
}

/// The payload that acknowledges a keepalive: `[3, 26, connection_no]`, padded with zeros to 32
/// bytes.
pub open spec fn ack_payload(connection_no: u8) -> Seq<u8> {
    seq![3u8, 26u8, connection_no] + Seq::new(29, |i: int| 0u8)
}

/// What is left to do for a dispatched frame.
#[derive(Debug)]
pub enum Action<S> {
    /// Send `frame`, the acknowledgement of a keepalive. Where the keepalive brought the
    /// connection up, wake those who wait for that first.
    Acknowledge { frame: Vec<u8>, newly_connected: bool },
    /// Hand `payload` to the requester behind `reply`.
    Deliver { reply: S, payload: Vec<u8> },
    /// Wake a reader: an input report was queued.
    NotifyInput,
    /// Nothing.
    Ignore,
}

/// What an [`Action`] says.
#[verifier::ext_equal]
pub enum ActionView<S> {
    Acknowledge { frame: Seq<u8>, newly_connected: bool },
    Deliver { reply: S, payload: Seq<u8> },
    NotifyInput,
    Ignore,
}

impl<S> View for Action<S> {
    type V = ActionView<S>;

    open spec fn view(&self) -> ActionView<S> {
        match *self {
            Action::Acknowledge { frame, newly_connected } => ActionView::Acknowledge {
                frame: frame@,
                newly_connected,
            },
            Action::Deliver { reply, payload } => ActionView::Deliver { reply, payload: payload@ },
            Action::NotifyInput => ActionView::NotifyInput,
            Action::Ignore => ActionView::Ignore,
        }
    }
}

/// What the actions of a list say.
pub open spec fn action_views<S>(actions: Seq<Action<S>>) -> Seq<ActionView<S>> {
    actions.map_values(|a: Action<S>| a@)
}

/// The state of one connection. `S` stands for a waiting requester: the handle through which its
/// answer is handed over.
#[verifier::reject_recursive_types(S)]
pub struct Connection<S> {
    /// Whether the first keepalive has been received, and the connection not been lost since.
    connected: bool,
    /// Received input reports (full HID report, report id byte included), oldest first.
    input: VecDeque<Vec<u8>>,
    /// Requests in flight, by the report id that their answer is matched by.
    pending: HashMap<u8, S>,
    /// Message id counter of requests.
    next_id: u32,
}

/// What a [`Connection`] is made of.
#[verifier::ext_equal]
#[verifier::reject_recursive_types(S)]
pub struct ConnectionView<S> {
    pub connected: bool,
    pub input: Seq<Seq<u8>>,
    pub pending: Map<u8, S>,
    pub next_id: u32,
}

impl<S> View for Connection<S> {
    type V = ConnectionView<S>;

    closed spec fn view(&self) -> ConnectionView<S> {
        ConnectionView {
            connected: self.connected,
            input: self.input@.map_values(|report: Vec<u8>| report@),
            pending: self.pending@,
            next_id: self.next_id,
        }
    }
}

impl<S> ConnectionView<S> {
    /// A connection on which nothing has happened yet.
    pub open spec fn fresh() -> Self {
        ConnectionView { connected: false, input: seq![], pending: Map::empty(), next_id: 1 }
    }

    /// Hands an answer to the request in flight for `key`, which is then no longer in flight. An
    /// answer that nobody asked for is dropped.
    pub open spec fn resolve_pending(self, key: u8, payload: Seq<u8>) -> (Self, ActionView<S>) {
        if self.pending.contains_key(key) {
            (
                ConnectionView { pending: self.pending.remove(key), ..self },
                ActionView::Deliver { reply: self.pending[key], payload },
            )
        } else {
            (self, ActionView::Ignore)
        }
    }

    /// Queues an input report.
    pub open spec fn queue_input(self, payload: Seq<u8>) -> (Self, ActionView<S>) {
        (ConnectionView { input: self.input.push(payload), ..self }, ActionView::NotifyInput)
    }

    /// Whether the connection takes a frame for an input report, as its requests in flight stand.
    pub open spec fn takes_for_input(self, frame: FrameView) -> bool {
        match route(frame) {
            Route::Input => true,
            Route::InputResponse => !self.pending.contains_key(INPUT_REPORT),
            _ => false,
        }
    }

    /// What a frame does to the connection, and what is left to do for it.
    pub open spec fn dispatch(self, frame: FrameView) -> (Self, ActionView<S>) {
        match route(frame) {
            Route::Keepalive(connection_no) => (
                ConnectionView { connected: true, ..self },
                ActionView::Acknowledge {
                    frame: (FrameView {
                        flags: flags::ACK_NAK,
                        op: frame.op,
                        message_id: frame.message_id,
                        payload: ack_payload(connection_no),
                    }).bytes(),
                    newly_connected: !self.connected,
                },
            ),
            Route::Response(key) => self.resolve_pending(key, frame.payload),
            Route::Input => self.queue_input(frame.payload),
            Route::InputResponse => if self.pending.contains_key(INPUT_REPORT) {
                self.resolve_pending(INPUT_REPORT, frame.payload)
            } else {
                self.queue_input(frame.payload)
            },
            Route::Unknown => (self, ActionView::Ignore),
        }
    }

    /// What several frames, one after the other, do to the connection, and what is left to do for
    /// each of them.
    pub open spec fn dispatch_all(self, frames: Seq<FrameView>) -> (Self, Seq<ActionView<S>>)
        decreases frames.len(),
    {
        if frames.len() == 0 {
            (self, seq![])
        } else {
            let (before, actions) = self.dispatch_all(frames.drop_last());
            let (after, action) = before.dispatch(frames.last());
            (after, actions.push(action))
        }
    }

    /// What a read of `chunk` does to the connection, when `buf` was left over from the reads
    /// before: the connection after it, what is then left over, and what is left to do.
    pub open spec fn receive(self, buf: Seq<u8>, chunk: Seq<u8>) -> (Self, Seq<u8>, Seq<
        ActionView<S>,
    >) {
        let cut = frame::reframe(buf + chunk);
        let (after, actions) = self.dispatch_all(cut.frames);
        (after, cut.rest, actions)
    }

    /// The connection with one more request in flight.
    pub open spec fn requested(self, key: u8, reply: S) -> Self {
        ConnectionView {
            pending: self.pending.insert(key, reply),
            next_id: ((self.next_id + 1) % 0x1_0000_0000) as u32,
            ..self
        }
    }

    /// The connection without the request for `key`.
    pub open spec fn abandoned(self, key: u8) -> Self {
        ConnectionView { pending: self.pending.remove(key), ..self }
    }

    /// The connection once it is lost: down, and without requests in flight. Input reports that
    /// were received stay queued.
    pub open spec fn lost(self) -> Self {
        ConnectionView { connected: false, pending: Map::empty(), ..self }
    }
}

/// What the socket gave to the reader.
#[derive(Debug)]
pub enum ReaderEvent<'a> {
    /// The reader was told to stop.
    Stopped,
    /// A read returned these bytes; none when the peer closed the connection.
    Read(&'a [u8]),
    /// A read failed.
    Failed,
}

impl<'a> ReaderEvent<'a> {
    /// The bytes that were received.
    pub open spec fn bytes(self) -> Seq<u8> {
        match self {
            ReaderEvent::Read(chunk) => chunk@,
            _ => seq![],
        }
    }
}

/// What the reader does next.
#[derive(Debug)]
pub enum ReaderStep<S> {
    /// Carry out these actions, then read again.
    Continue(Vec<Action<S>>),
    /// Wake everybody who waits on the connection, and end.
    Finish,
}

/// How a request ended.
#[derive(Debug)]
pub enum ReportOutcome {
    /// The request could not be sent.
    NotSent(StreamDeckError),
    /// The answer arrived.
    Received(Vec<u8>),
    /// No answer arrived in time, or the requester's handle was dropped.
    Unanswered,
}

impl<S> Connection<S> {
    /// A connection on which nothing has happened yet.
    pub fn new() -> (res: Self)
        ensures
            res@ == ConnectionView::<S>::fresh(),
    {
        let res = Connection {
            connected: false,
            input: VecDeque::new(),
            pending: HashMap::new(),
            next_id: 1,
        };
        assert(res@ =~= ConnectionView::<S>::fresh());
        res
    }

    /// Whether this connection is currently up (keepalive seen, not yet lost).
    pub fn is_connected(&self) -> (res: bool)
        ensures
            res == self@.connected,
    {
        self.connected
    }

    /// The outcome of having waited for the peer's first keepalive.
    pub fn wait_connected(&self) -> (res: Result<(), StreamDeckError>)
        ensures
            match res {
                Ok(()) => self@.connected,
                Err(e) => !self@.connected && e is Timeout,
            },
    {
        if self.connected {
            Ok(())
        } else {
            Err(StreamDeckError::Timeout)
        }
    }

    /// Hands `payload` to the request in flight for `key`, if there is one.
    pub fn resolve_pending(&mut self, key: u8, payload: Vec<u8>) -> (action: Action<S>)
        ensures
            (final(self)@, action@) == old(self)@.resolve_pending(key, payload@),
    {
        broadcast use vstd::std_specs::hash::group_hash_axioms;

        match self.pending.remove(&key) {
            Some(reply) => {
                assert(self@ =~= old(self)@.resolve_pending(key, payload@).0);
                Action::Deliver { reply, payload }
            },
            None => {
                assert(old(self).pending@.remove(key) =~= old(self).pending@);
                Action::Ignore
            },
        }
    }

    /// Queues an input report.
    fn queue_input(&mut self, payload: Vec<u8>) -> (action: Action<S>)
        ensures
            (final(self)@, action@) == old(self)@.queue_input(payload@),
    {
        self.input.push_back(payload);
        assert(self@.input =~= old(self)@.input.push(payload@));
        Action::NotifyInput
    }

    /// Routes a frame: keepalive, answer to a request, or input report.
    pub fn dispatch(&mut self, frame: Frame) -> (action: Action<S>)
        ensures
            (final(self)@, action@) == old(self)@.dispatch(frame@),
    {
        broadcast use vstd::std_specs::hash::group_hash_axioms;

        match classify(&frame) {
            Route::Keepalive(connection_no) => {
                let newly_connected = !self.connected;
                self.connected = true;
                let mut ack: Vec<u8> = vec![0u8; 32];
                ack[0] = 3;
                ack[1] = 26;
                ack[2] = connection_no;
                assert(ack@ =~= ack_payload(connection_no));
                Action::Acknowledge {
                    frame: encode_frame(flags::ACK_NAK, frame.op, frame.message_id, ack.as_slice()),
                    newly_connected,
                }
            },
            Route::Response(key) => self.resolve_pending(key, frame.payload),
            Route::Input => self.queue_input(frame.payload),
            Route::InputResponse => if self.pending.contains_key(&INPUT_REPORT) {
                self.resolve_pending(INPUT_REPORT, frame.payload)
            } else {
                self.queue_input(frame.payload)
            },
            Route::Unknown => Action::Ignore,
        }
    }

    /// Consumes whole frames from `buf`, leaving any partial trailing frame in place.
    pub fn process_buffer(&mut self, buf: &mut Vec<u8>) -> (actions: Vec<Action<S>>)
        ensures
            final(buf)@ == frame::reframe(old(buf)@).rest,
            (final(self)@, action_views(actions@)) == old(self)@.dispatch_all(
                frame::reframe(old(buf)@).frames,
            ),
    {
        let ghost all = frame::reframe(buf@);
        let ghost mut done: int = 0;
        let mut actions: Vec<Action<S>> = Vec::new();
        assert(all.frames.take(0) =~= seq![]);
        assert(all.frames.skip(0) =~= all.frames);
        assert(action_views(actions@) =~= seq![]);
        loop
            invariant
                all == frame::reframe(old(buf)@),
                0 <= done <= all.frames.len(),
                frame::reframe(buf@) == (frame::Reframed {
                    frames: all.frames.skip(done),
                    rest: all.rest,
                }),
                (self@, action_views(actions@)) == old(self)@.dispatch_all(all.frames.take(done)),
            decreases buf@.len(),
        {
            match next_frame(buf) {
                Some(next) => {
                    let ghost before = action_views(actions@);
                    let action = self.dispatch(next);
                    actions.push(action);
                    proof {
                        assert(action_views(actions@) =~= before.push(action@));
                        assert(all.frames.take(done + 1).drop_last() =~= all.frames.take(done));
                        assert(all.frames.skip(done).skip(1) =~= all.frames.skip(done + 1));
                        done = done + 1;
                    }
                },
                None => {
                    assert(all.frames.skip(done).len() == 0);
                    assert(all.frames.take(done) =~= all.frames);
                    return actions;
                },
            }
        }
    }

    /// One round of the background reader. Received bytes are cut into frames, which are
    /// dispatched; `buf` keeps what is left over between reads. Where the reader was stopped, the
    /// peer closed or a read failed, the connection is lost: it is down, and the handles of all
    /// requests in flight are dropped.
    pub fn reader_step(&mut self, buf: &mut Vec<u8>, event: ReaderEvent<'_>) -> (step: ReaderStep<S>)
        ensures
            if event.bytes().len() > 0 {
                &&& step matches ReaderStep::Continue(actions)
                &&& (final(self)@, final(buf)@, action_views(actions@)) == old(self)@.receive(
                    old(buf)@,
                    event.bytes(),
                )
            } else {
                &&& step is Finish
                &&& final(self)@ == old(self)@.lost()
                &&& final(buf)@ == old(buf)@
            },
    {
        if let ReaderEvent::Read(chunk) = event {
            if chunk.len() > 0 {
                buf.extend_from_slice(chunk);
                assert(buf@ =~= old(buf)@ + chunk@);
                return ReaderStep::Continue(self.process_buffer(buf));
            }
        }
        self.connected = false;
        self.pending.clear();
        ReaderStep::Finish
    }

    /// Puts a `GET_REPORT` in flight and returns its frame, to be sent. `key` is the report id by
    /// which the answer is matched, `reply` the handle through which it is handed over. A request
    /// that was in flight under the same key is forgotten.
    pub fn start_get_report(&mut self, frame_flags: u16, request: &[u8], key: u8, reply: S) -> (frame:
        Vec<u8>)
        ensures
            final(self)@ == old(self)@.requested(key, reply),
            frame@ == (FrameView {
                flags: frame_flags,
                op: op::GET_REPORT,
                message_id: old(self)@.next_id % 0x100_0000,
                payload: request@,
            }).bytes(),
            frame@[4] + 0x100 * frame@[5] == frame_flags,
            frame@[6] == 2,
            frame@.skip(16) == request@,
    {
        broadcast use vstd::std_specs::hash::group_hash_axioms;

        self.pending.insert(key, reply);
        let id: u32 = self.next_id;
        self.next_id = id.wrapping_add(1);
        assert(id & 0x00ff_ffff == id % 0x100_0000) by (bit_vector);
        encode_frame(frame_flags, op::GET_REPORT, id & 0x00ff_ffff, request)
    }

    /// Ends a `GET_REPORT`: the answer, or why there is none. A request without an answer is no
    /// longer in flight.
    pub fn finish_get_report(&mut self, key: u8, outcome: ReportOutcome) -> (res: Result<
        Vec<u8>,
        StreamDeckError,
    >)
        ensures
            match outcome {
                ReportOutcome::Received(payload) => {
                    &&& res == Ok::<Vec<u8>, StreamDeckError>(payload)
                    &&& final(self)@ == old(self)@
                },
                ReportOutcome::NotSent(e) => {
                    &&& res == Err::<Vec<u8>, StreamDeckError>(e)
                    &&& final(self)@ == old(self)@.abandoned(key)
                },
                ReportOutcome::Unanswered => {
                    &&& res matches Err(e)
                    &&& if old(self)@.connected {
                        e is Timeout
                    } else {
                        e is Disconnected
                    }
                    &&& final(self)@ == old(self)@.abandoned(key)
                },
            },
    {
        broadcast use vstd::std_specs::hash::group_hash_axioms;

        match outcome {
            ReportOutcome::Received(payload) => Ok(payload),
            ReportOutcome::NotSent(e) => {
                self.pending.remove(&key);
                Err(e)
            },
            ReportOutcome::Unanswered => {
                self.pending.remove(&key);
                if self.connected {
                    Err(StreamDeckError::Timeout)
                } else {
                    Err(StreamDeckError::Disconnected)
                }
            },
        }
    }

    /// Takes the oldest queued input report.
    pub fn next_report(&mut self) -> (report: Option<Vec<u8>>)
        ensures
            match report {
                Some(bytes) => {
                    &&& old(self)@.input.len() > 0
                    &&& bytes@ == old(self)@.input[0]
                    &&& final(self)@ == (ConnectionView {
                        input: old(self)@.input.skip(1),
                        ..old(self)@
                    })
                },
                None => old(self)@.input.len() == 0 && final(self)@ == old(self)@,
            },
    {
        let report = self.input.pop_front();
        assert(report is Some ==> self@.input =~= old(self)@.input.skip(1));
        report
    }

    /// Whether waiting for an input report makes sense: none is queued, and one may still come.
    pub fn awaits_report(&self) -> (res: bool)
        ensures
            res == (self@.input.len() == 0 && self@.connected),
    {
        self.input.len() == 0 && self.connected
    }
}

/// Dispatching two runs of frames one after the other is dispatching them all.
proof fn lemma_dispatch_all_concat<S>(c: ConnectionView<S>, first: Seq<FrameView>, second: Seq<
    FrameView,
>)
    ensures
        c.dispatch_all(first + second) == (
            c.dispatch_all(first).0.dispatch_all(second).0,
            c.dispatch_all(first).1 + c.dispatch_all(first).0.dispatch_all(second).1,
        ),
    decreases second.len(),
{
    if second.len() == 0 {
        assert(first + second =~= first);
        assert(c.dispatch_all(first).1 + Seq::<ActionView<S>>::empty() =~= c.dispatch_all(first).1);
    } else {
        lemma_dispatch_all_concat(c, first, second.drop_last());
        assert((first + second).drop_last() =~= first + second.drop_last());
        let mid = c.dispatch_all(first).0;
        let action = mid.dispatch_all(second.drop_last()).0.dispatch(second.last()).1;
        assert((c.dispatch_all(first).1 + mid.dispatch_all(second.drop_last()).1).push(action)
            =~= c.dispatch_all(first).1 + mid.dispatch_all(second).1);
    }
}

/// How the stream is split into reads does not matter to the connection: two reads leave it, the
/// bytes left over and the work to do as one read of all the bytes would have.
pub proof fn split_reads_do_the_same<S>(
    c: ConnectionView<S>,
    buf: Seq<u8>,
    first: Seq<u8>,
    second: Seq<u8>,
)
    ensures
        ({
            let (c1, buf1, actions1) = c.receive(buf, first);
            let (c2, buf2, actions2) = c1.receive(buf1, second);
            c.receive(buf, first + second) == (c2, buf2, actions1 + actions2)
        }),
{
    frame::split_reads_give_the_same_frames(buf + first, second);
    assert(buf + (first + second) =~= buf + first + second);
    let cut1 = frame::reframe(buf + first);
    lemma_dispatch_all_concat(c, cut1.frames, frame::reframe(cut1.rest + second).frames);
}

/// What several reads, one after the other, do to a connection: the connection after them, what
/// is then left over, and what is left to do.
pub open spec fn receive_all<S>(c: ConnectionView<S>, buf: Seq<u8>, chunks: Seq<Seq<u8>>) -> (
    ConnectionView<S>,
    Seq<u8>,
    Seq<ActionView<S>>,
)
    decreases chunks.len(),
{
    if chunks.len() == 0 {
        (c, buf, seq![])
    } else {
        let (c1, buf1, actions1) = c.receive(buf, chunks[0]);
        let (c2, buf2, actions2) = receive_all(c1, buf1, chunks.skip(1));
        (c2, buf2, actions1 + actions2)
    }
}

/// All the bytes of some reads.
pub open spec fn joined(chunks: Seq<Seq<u8>>) -> Seq<u8>
    decreases chunks.len(),
{
    if chunks.len() == 0 {
        seq![]
    } else {
        chunks[0] + joined(chunks.skip(1))
    }
}

/// However many reads a stream takes, they do what one read of all its bytes would have done, when
/// no whole frame was left over from the reads before.
pub proof fn any_number_of_reads_does_the_same<S>(
    c: ConnectionView<S>,
    buf: Seq<u8>,
    chunks: Seq<Seq<u8>>,
)
    requires
        frame::reframe(buf) == (frame::Reframed { frames: seq![], rest: buf }),
    ensures
        receive_all(c, buf, chunks) == c.receive(buf, joined(chunks)),
    decreases chunks.len(),
{
    if chunks.len() > 0 {
        let (c1, buf1, _) = c.receive(buf, chunks[0]);
        frame::rest_is_incomplete(buf + chunks[0]);
        any_number_of_reads_does_the_same(c1, buf1, chunks.skip(1));
        split_reads_do_the_same(c, buf, chunks[0], joined(chunks.skip(1)));
    } else {
        assert(buf + joined(chunks) =~= buf);
    }
}

/// Frames that the peer encoded are dispatched as the peer meant them, all of them and in order,
/// in however many reads they arrive.
pub proof fn sent_frames_are_dispatched<S>(
    c: ConnectionView<S>,
    frames: Seq<FrameView>,
    chunks: Seq<Seq<u8>>,
)
    requires
        forall|i: int|
            0 <= i < frames.len() ==> (#[trigger] frames[i]).payload.len() <= frame::MAX_PAYLOAD,
        joined(chunks) == frame::wire(frames),
    ensures
        receive_all(c, seq![], chunks) == (
            c.dispatch_all(frames).0,
            Seq::<u8>::empty(),
            c.dispatch_all(frames).1,
        ),
{
    any_number_of_reads_does_the_same(c, seq![], chunks);
    frame::coalesced_frames_are_all_read(frames, seq![]);
    assert(Seq::<u8>::empty() + joined(chunks) =~= frame::wire(frames) + Seq::<u8>::empty());
    assert(frames + Seq::<FrameView>::empty() =~= frames);
}

/// Every frame is dispatched, in order, each on the connection as the frames before it left it.
pub proof fn every_frame_is_dispatched<S>(c: ConnectionView<S>, frames: Seq<FrameView>, i: int)
    requires
        0 <= i < frames.len(),
    ensures
        c.dispatch_all(frames).1.len() == frames.len(),
        c.dispatch_all(frames).1[i] == c.dispatch_all(frames.take(i)).0.dispatch(frames[i]).1,
    decreases frames.len(),
{
    let earlier = frames.drop_last();
    lemma_one_action_per_frame(c, earlier);
    if i < earlier.len() {
        every_frame_is_dispatched(c, earlier, i);
        assert(earlier.take(i) =~= frames.take(i));
    } else {
        assert(frames.take(i) =~= earlier);
    }
}

/// There is one action for each frame.
proof fn lemma_one_action_per_frame<S>(c: ConnectionView<S>, frames: Seq<FrameView>)
    ensures
        c.dispatch_all(frames).1.len() == frames.len(),
    decreases frames.len(),
{
    if frames.len() > 0 {
        lemma_one_action_per_frame(c, frames.drop_last());
    }
}

/// A keepalive, the first as any later one, is answered with an acknowledgement that echoes its
/// connection number, operation and message id. It brings the connection up, and leaves queued
/// reports and requests in flight as they are.
pub proof fn every_keepalive_is_acknowledged<S>(
    c: ConnectionView<S>,
    keepalive: FrameView,
    connection_no: u8,
)
    requires
        route(keepalive) == Route::Keepalive(connection_no),
    ensures
        ({
            let (after, action) = c.dispatch(keepalive);
            &&& after == ConnectionView { connected: true, ..c }
            &&& action matches ActionView::Acknowledge { frame, newly_connected }
            &&& newly_connected == !c.connected
            &&& frame::reframe(frame) == (frame::Reframed {
                frames: seq![
                    FrameView {
                        flags: flags::ACK_NAK,
                        op: keepalive.op,
                        message_id: keepalive.message_id,
                        payload: ack_payload(connection_no),
                    },
                ],
                rest: seq![],
            })
        }),
{
    let ack = FrameView {
        flags: flags::ACK_NAK,
        op: keepalive.op,
        message_id: keepalive.message_id,
        payload: ack_payload(connection_no),
    };
    frame::encoded_frame_is_read_back(ack, seq![]);
    assert(ack.bytes() + Seq::<u8>::empty() =~= ack.bytes());
    assert(seq![ack] + Seq::<FrameView>::empty() =~= seq![ack]);
}

/// No frame takes the connection down.
pub proof fn frames_keep_the_connection_up<S>(c: ConnectionView<S>, frames: Seq<FrameView>)
    requires
        c.connected,
    ensures
        c.dispatch_all(frames).0.connected,
    decreases frames.len(),
{
    if frames.len() > 0 {
        frames_keep_the_connection_up(c, frames.drop_last());
    }
}

/// The input reports among some frames that arrive on a connection, in order.
pub open spec fn input_reports<S>(c: ConnectionView<S>, frames: Seq<FrameView>) -> Seq<Seq<u8>>
    decreases frames.len(),
{
    if frames.len() == 0 {
        seq![]
    } else {
        let earlier = input_reports(c, frames.drop_last());
        if c.dispatch_all(frames.drop_last()).0.takes_for_input(frames.last()) {
            earlier.push(frames.last().payload)
        } else {
            earlier
        }
    }
}

/// Input reports are queued behind those already queued, all of them and in the order of arrival.
pub proof fn input_reports_are_queued_in_order<S>(c: ConnectionView<S>, frames: Seq<FrameView>)
    ensures
        c.dispatch_all(frames).0.input == c.input + input_reports(c, frames),
    decreases frames.len(),
{
    if frames.len() == 0 {
        assert(c.input + input_reports(c, frames) =~= c.input);
    } else {
        input_reports_are_queued_in_order(c, frames.drop_last());
        let earlier = input_reports(c, frames.drop_last());
        assert((c.input + earlier).push(frames.last().payload) =~= c.input + earlier.push(
            frames.last().payload,
        ));
    }
}

/// The payloads of those among some frames that start with the id of input reports, and are neither
/// keepalives nor Device 2 info.
pub open spec fn reports_with_input_id(frames: Seq<FrameView>) -> Seq<Seq<u8>>
    decreases frames.len(),
{
    if frames.len() == 0 {
        seq![]
    } else {
        let earlier = reports_with_input_id(frames.drop_last());
        if route(frames.last()) is Input || route(frames.last()) is InputResponse {
            earlier.push(frames.last().payload)
        } else {
            earlier
        }
    }
}

/// While no request for the report with their id is in flight, all reports with the id of input
/// reports are input reports.
pub proof fn unrequested_reports_are_input<S>(c: ConnectionView<S>, frames: Seq<FrameView>)
    requires
        !c.pending.contains_key(INPUT_REPORT),
    ensures
        input_reports(c, frames) == reports_with_input_id(frames),
        !c.dispatch_all(frames).0.pending.contains_key(INPUT_REPORT),
    decreases frames.len(),
{
    if frames.len() > 0 {
        unrequested_reports_are_input(c, frames.drop_last());
    }
}

/// An answer reaches the request that it belongs to, and no other: it goes to the latest requester
/// under its key, the request is then no longer in flight, and no report is queued for it. A second
/// answer reaches nobody: it is dropped, or taken for the input report that it looks like.
pub proof fn an_answer_reaches_its_requester_once<S>(
    c: ConnectionView<S>,
    key: u8,
    reply: S,
    answer: FrameView,
    another: FrameView,
)
    requires
        answers(answer, key),
        answers(another, key),
    ensures
        ({
            let (answered, action) = c.requested(key, reply).dispatch(answer);
            &&& action == (ActionView::Deliver { reply, payload: answer.payload })
            &&& answered.pending == c.pending.remove(key)
            &&& answered.input == c.input
            &&& answered.connected == c.connected
            &&& answered.dispatch(another) == if route(another) is InputResponse {
                answered.queue_input(another.payload)
            } else {
                (answered, ActionView::<S>::Ignore)
            }
        }),
{
    let (answered, _) = c.requested(key, reply).dispatch(answer);
    assert(answered.pending =~= c.pending.remove(key));
}

/// A request stays in flight, with the handle that it was made with, while no frame answers it.
pub proof fn a_request_stays_in_flight_until_answered<S>(
    c: ConnectionView<S>,
    frames: Seq<FrameView>,
    key: u8,
)
    requires
        c.pending.contains_key(key),
        forall|i: int| 0 <= i < frames.len() ==> !answers(#[trigger] frames[i], key),
    ensures
        c.dispatch_all(frames).0.pending.contains_key(key),
        c.dispatch_all(frames).0.pending[key] == c.pending[key],
    decreases frames.len(),
{
    if frames.len() > 0 {
        let earlier = frames.drop_last();
        assert forall|i: int| 0 <= i < earlier.len() implies !answers(
            #[trigger] earlier[i],
            key,
        ) by {
            assert(earlier[i] == frames[i]);
        }
        a_request_stays_in_flight_until_answered(c, earlier, key);
        assert(frames.last() == frames[frames.len() - 1]);
    }
}

/// An answer that nobody waits for, such as the Device 2 info that the dock sends by itself when a
/// deck is plugged in, changes nothing.
pub proof fn an_unsolicited_answer_is_dropped<S>(c: ConnectionView<S>, answer: FrameView, key: u8)
    requires
        route(answer) == Route::Response(key),
        !c.pending.contains_key(key),
    ensures
        c.dispatch(answer) == (c, ActionView::<S>::Ignore),
{
}

/// After the connection is lost no answer reaches anybody: no request is in flight, and none of
/// the frames that were still to come would find one.
pub proof fn nothing_is_answered_after_the_loss<S>(c: ConnectionView<S>, frames: Seq<FrameView>)
    ensures
        c.lost().dispatch_all(frames).0.pending == Map::<u8, S>::empty(),
        forall|i: int|
            0 <= i < frames.len() ==> !((#[trigger] c.lost().dispatch_all(frames).1[i]) is Deliver),
    decreases frames.len(),
{
    lemma_one_action_per_frame(c.lost(), frames);
    if frames.len() > 0 {
        nothing_is_answered_after_the_loss(c, frames.drop_last());
        lemma_one_action_per_frame(c.lost(), frames.drop_last());
    }
}

/// The message ids of two requests in a row differ.
pub proof fn consecutive_requests_differ_in_message_id<S>(c: ConnectionView<S>, key: u8, reply: S)
    ensures
        c.next_id % 0x100_0000 != c.requested(key, reply).next_id % 0x100_0000,
{
}

/// A connection comes up by a keepalive only.
pub proof fn only_a_keepalive_brings_the_connection_up<S>(
    c: ConnectionView<S>,
    frames: Seq<FrameView>,
)
    requires
        !c.connected,
        forall|i: int| 0 <= i < frames.len() ==> !(route(#[trigger] frames[i]) is Keepalive),
    ensures
        !c.dispatch_all(frames).0.connected,
    decreases frames.len(),
{
    if frames.len() > 0 {
        let earlier = frames.drop_last();
        assert forall|i: int| 0 <= i < earlier.len() implies !(route(
            #[trigger] earlier[i],
        ) is Keepalive) by {
            assert(earlier[i] == frames[i]);
        }
        only_a_keepalive_brings_the_connection_up(c, earlier);
        assert(frames.last() == frames[frames.len() - 1]);
    }
}

/// A Device 2 info report, whatever the header of its frame, answers the query for it.
pub proof fn device2_info_answers_its_query<S>(c: ConnectionView<S>, frame: FrameView)
    requires
        frame.payload.len() > 1,
        frame.payload[0] == 1,
        frame.payload[1] == 11,
    ensures
        answers(frame, DEVICE2_REPORT),
        c.dispatch(frame) == c.resolve_pending(DEVICE2_REPORT, frame.payload),
{
}

/// A raw report that the deck sends for a `GET_REPORT` answers the request in flight for its report
/// id, whatever the id, and is not queued for input. Only what starts like a keepalive or like
/// Device 2 info is taken for that instead. The operation of the frame matters to the id of input
/// reports alone.
pub proof fn a_feature_report_answers_its_request<S>(c: ConnectionView<S>, frame: FrameView)
    requires
        frame.flags & flags::VERBATIM != 0,
        frame.payload.len() > 0,
        frame.payload[0] == INPUT_REPORT ==> frame.op == op::GET_REPORT,
        !(route(frame) is Keepalive),
        !(frame.payload.len() > 1 && frame.payload[0] == 1 && frame.payload[1] == 11),
        c.pending.contains_key(frame.payload[0]),
    ensures
        answers(frame, frame.payload[0]),
        c.dispatch(frame) == c.resolve_pending(frame.payload[0], frame.payload),
        c.dispatch(frame).1 == (ActionView::Deliver {
            reply: c.pending[frame.payload[0]],
            payload: frame.payload,
        }),
        c.dispatch(frame).0.input == c.input,
{
}

/// A payload of at least five bytes that starts with 1 and 10 is a keepalive, whatever the header of
/// its frame. It brings the connection up and changes nothing else. It is acknowledged by a frame
/// with flags 0x0200 and the keepalive's operation and message id, whose 32 bytes of payload are 3,
/// 26, byte 5 of the keepalive or 0 where there is none, and zeros.
pub proof fn a_keepalive_is_told_by_its_bytes<S>(c: ConnectionView<S>, frame: FrameView, ack: Seq<u8>)
    requires
        frame.payload.len() > 4,
        frame.payload[0] == 1,
        frame.payload[1] == 10,
        ack.len() == 32,
        ack[0] == 3,
        ack[1] == 26,
        ack[2] == if frame.payload.len() > 5 {
            frame.payload[5]
        } else {
            0
        },
        forall|i: int| 3 <= i < 32 ==> #[trigger] ack[i] == 0,
    ensures
        ({
            let (after, action) = c.dispatch(frame);
            &&& after.connected
            &&& after.input == c.input
            &&& after.pending == c.pending
            &&& after.next_id == c.next_id
            &&& action == ActionView::<S>::Acknowledge {
                frame: (FrameView {
                    flags: 0x0200,
                    op: frame.op,
                    message_id: frame.message_id,
                    payload: ack,
                }).bytes(),
                newly_connected: !c.connected,
            }
        }),
{
    assert(ack =~= ack_payload(ack[2]));
}

/// A payload that starts with 1 and 11, whatever the header of its frame, goes to the request in
/// flight for report 0x1c, and to nobody where there is none.
pub proof fn device2_info_is_told_by_its_bytes<S>(c: ConnectionView<S>, frame: FrameView)
    requires
        frame.payload.len() > 1,
        frame.payload[0] == 1,
        frame.payload[1] == 11,
    ensures
        c.pending.contains_key(0x1c) ==> c.dispatch(frame) == (
            ConnectionView { pending: c.pending.remove(0x1c), ..c },
            ActionView::Deliver { reply: c.pending[0x1c], payload: frame.payload },
        ),
        !c.pending.contains_key(0x1c) ==> c.dispatch(frame) == (c, ActionView::<S>::Ignore),
{
}

/// A payload that starts with 1 and is neither a keepalive nor Device 2 info is queued as an input
/// report, behind all others and as it is, unless it is a raw report sent for a `GET_REPORT` (flag
/// 0x8000, operation 2). Which requests are in flight does not matter to it.
pub proof fn an_input_report_is_told_by_its_bytes<S>(c: ConnectionView<S>, frame: FrameView)
    requires
        frame.payload.len() > 0,
        frame.payload[0] == 1,
        !(frame.payload.len() > 4 && frame.payload[1] == 10),
        !(frame.payload.len() > 1 && frame.payload[1] == 11),
        frame.flags & 0x8000 == 0 || frame.op != 2,
    ensures
        c.dispatch(frame) == (
            ConnectionView { input: c.input.push(frame.payload), ..c },
            ActionView::<S>::NotifyInput,
        ),
{
}

/// A raw report sent for a `GET_REPORT` that starts with 1, and is neither a keepalive nor Device 2
/// info, goes to the request in flight for report 1; where there is none it is an input report.
pub proof fn a_raw_report_with_the_input_id_is_told_by_its_bytes<S>(
    c: ConnectionView<S>,
    frame: FrameView,
)
    requires
        frame.payload.len() > 0,
        frame.payload[0] == 1,
        !(frame.payload.len() > 4 && frame.payload[1] == 10),
        !(frame.payload.len() > 1 && frame.payload[1] == 11),
        frame.flags & 0x8000 != 0,
        frame.op == 2,
    ensures
        c.pending.contains_key(1) ==> c.dispatch(frame) == (
            ConnectionView { pending: c.pending.remove(1), ..c },
            ActionView::Deliver { reply: c.pending[1], payload: frame.payload },
        ),
        !c.pending.contains_key(1) ==> c.dispatch(frame) == (
            ConnectionView { input: c.input.push(frame.payload), ..c },
            ActionView::<S>::NotifyInput,
        ),
{
}

/// Any other payload goes, as it is, to the request in flight for its report id, and to nobody
/// where there is none. The id is byte 0 in a raw report (flag 0x8000) and byte 1 in a report of
/// the dock.
pub proof fn an_answer_is_told_by_its_bytes<S>(c: ConnectionView<S>, frame: FrameView, key: u8)
    requires
        frame.payload.len() > 0,
        frame.payload[0] != 1,
        if frame.flags & 0x8000 != 0 {
            key == frame.payload[0]
        } else {
            frame.payload.len() > 1 && key == frame.payload[1]
        },
    ensures
        c.pending.contains_key(key) ==> c.dispatch(frame) == (
            ConnectionView { pending: c.pending.remove(key), ..c },
            ActionView::Deliver { reply: c.pending[key], payload: frame.payload },
        ),
        !c.pending.contains_key(key) ==> c.dispatch(frame) == (c, ActionView::<S>::Ignore),
{
}

/// A frame without a payload changes nothing, and neither does one of the dock whose payload is too
/// short for a report id.
pub proof fn a_frame_without_report_id_changes_nothing<S>(c: ConnectionView<S>, frame: FrameView)
    requires
        frame.payload.len() == 0 || (frame.payload.len() == 1 && frame.payload[0] != 1
            && frame.flags & 0x8000 == 0),
    ensures
        c.dispatch(frame) == (c, ActionView::<S>::Ignore),
{
}

/// Frames take effect one after the other: no frame, no effect; and what comes of a frame is its
/// effect on the connection as the frames before it left it.
pub proof fn frames_take_effect_in_turn<S>(
    c: ConnectionView<S>,
    frames: Seq<FrameView>,
    frame: FrameView,
)
    ensures
        c.dispatch_all(seq![]) == (c, Seq::<ActionView<S>>::empty()),
        c.dispatch_all(frames.push(frame)).0 == c.dispatch_all(frames).0.dispatch(frame).0,
        c.dispatch_all(frames.push(frame)).1 == c.dispatch_all(frames).1.push(
            c.dispatch_all(frames).0.dispatch(frame).1,
        ),
{
    assert(frames.push(frame).drop_last() =~= frames);
}

/// A read does what the frames do that are whole with it, and leaves over what they leave.
pub proof fn a_read_does_what_its_frames_do<S>(c: ConnectionView<S>, buf: Seq<u8>, chunk: Seq<u8>)
    ensures
        c.receive(buf, chunk).0 == c.dispatch_all(frame::reframe(buf + chunk).frames).0,
        c.receive(buf, chunk).1 == frame::reframe(buf + chunk).rest,
        c.receive(buf, chunk).2 == c.dispatch_all(frame::reframe(buf + chunk).frames).1,
{
}

/// A request is in flight once it is made, and is the latest under its key; all others stay in
/// flight, and so does what is queued. The message id counter goes up by one and starts over at 0.
pub proof fn a_request_is_put_in_flight<S>(c: ConnectionView<S>, key: u8, reply: S, other: u8)
    ensures
        c.requested(key, reply).pending.contains_key(key),
        c.requested(key, reply).pending[key] == reply,
        other != key ==> {
            &&& c.requested(key, reply).pending.contains_key(other) == c.pending.contains_key(other)
            &&& c.pending.contains_key(other) ==> c.requested(key, reply).pending[other]
                == c.pending[other]
        },
        c.requested(key, reply).input == c.input,
        c.requested(key, reply).connected == c.connected,
        c.requested(key, reply).next_id == if c.next_id == 0xffff_ffff {
            0
        } else {
            c.next_id + 1
        },
{
}

/// A request that is given up is no longer in flight; all others stay, and so does the rest of the
/// connection.
pub proof fn a_request_is_given_up<S>(c: ConnectionView<S>, key: u8, other: u8)
    ensures
        !c.abandoned(key).pending.contains_key(key),
        other != key ==> {
            &&& c.abandoned(key).pending.contains_key(other) == c.pending.contains_key(other)
            &&& c.pending.contains_key(other) ==> c.abandoned(key).pending[other]
                == c.pending[other]
        },
        c.abandoned(key).input == c.input,
        c.abandoned(key).connected == c.connected,
        c.abandoned(key).next_id == c.next_id,
{
}

/// An answer that is handed over goes to the requester under its key alone and as it is; where
/// there is none, nothing happens. What is queued stays.
pub proof fn an_answer_is_handed_over<S>(c: ConnectionView<S>, key: u8, payload: Seq<u8>, other: u8)
    ensures
        ({
            let (after, action) = c.resolve_pending(key, payload);
            &&& !after.pending.contains_key(key)
            &&& other != key ==> {
                &&& after.pending.contains_key(other) == c.pending.contains_key(other)
                &&& c.pending.contains_key(other) ==> after.pending[other] == c.pending[other]
            }
            &&& after.input == c.input
            &&& after.connected == c.connected
            &&& after.next_id == c.next_id
            &&& c.pending.contains_key(key) ==> action == (ActionView::Deliver {
                reply: c.pending[key],
                payload,
            })
            &&& !c.pending.contains_key(key) ==> action == ActionView::<S>::Ignore
        }),
{
}

/// A connection begins down, with nothing queued, nothing in flight and message id 1. Lost, it is
/// down with nothing in flight, and keeps what is queued and its message id.
pub proof fn a_connection_begins_and_ends_down<S>(c: ConnectionView<S>, key: u8)
    ensures
        !ConnectionView::<S>::fresh().connected,
        ConnectionView::<S>::fresh().input.len() == 0,
        !ConnectionView::<S>::fresh().pending.contains_key(key),
        ConnectionView::<S>::fresh().next_id == 1,
        !c.lost().connected,
        !c.lost().pending.contains_key(key),
        c.lost().input == c.input,
        c.lost().next_id == c.next_id,
{
}

/// A read brings the bytes that it returned; a stop or a failure brings none.
pub proof fn only_a_read_brings_bytes(event: ReaderEvent<'_>)
    ensures
        event matches ReaderEvent::Read(chunk) ==> event.bytes() == chunk@,
        !(event is Read) ==> event.bytes().len() == 0,
{
}

/// An action says what it holds, and so does a list of them, one by one.
pub proof fn actions_say_what_they_hold<S>(actions: Seq<Action<S>>, i: int)
    requires
        0 <= i < actions.len(),
    ensures
        action_views(actions).len() == actions.len(),
        action_views(actions)[i] == actions[i]@,
        actions[i] matches Action::Acknowledge { frame, newly_connected } ==> actions[i]@ == (
        ActionView::<S>::Acknowledge { frame: frame@, newly_connected }),
        actions[i] matches Action::Deliver { reply, payload } ==> actions[i]@ == (
        ActionView::Deliver { reply, payload: payload@ }),
        actions[i] is NotifyInput ==> actions[i]@ is NotifyInput,
        actions[i] is Ignore ==> actions[i]@ is Ignore,
{
}

/// Dispatching a payload that starts with 1, and is neither a keepalive nor Device 2 info nor a raw
/// report sent for a `GET_REPORT`, queues it as it is behind all other reports.
pub proof fn dispatching_queues_an_input_report<S>(
    c: &mut Connection<S>,
    frame: Frame,
    action: Action<S>,
)
    requires
        call_ensures(Connection::<S>::dispatch, (c, frame), action),
        frame.payload@.len() > 0,
        frame.payload@[0] == 1,
        !(frame.payload@.len() > 4 && frame.payload@[1] == 10),
        !(frame.payload@.len() > 1 && frame.payload@[1] == 11),
        frame.flags & 0x8000 == 0 || frame.op != 2,
    ensures
        action is NotifyInput,
        final(c)@ == (ConnectionView { input: old(c)@.input.push(frame.payload@), ..old(c)@ }),
{
    an_input_report_is_told_by_its_bytes(old(c)@, frame@);
}

/// Dispatching an answer hands it over as it is to the request in flight for its report id, which
/// then is no longer in flight: byte 0 of a raw report (flag 0x8000), byte 1 of one of the dock.
pub proof fn dispatching_delivers_an_answer<S>(
    c: &mut Connection<S>,
    frame: Frame,
    action: Action<S>,
    key: u8,
)
    requires
        call_ensures(Connection::<S>::dispatch, (c, frame), action),
        frame.payload@.len() > 0,
        frame.payload@[0] != 1,
        if frame.flags & 0x8000 != 0 {
            key == frame.payload@[0]
        } else {
            frame.payload@.len() > 1 && key == frame.payload@[1]
        },
    ensures
        final(c)@ == (ConnectionView { pending: old(c)@.pending.remove(key), ..old(c)@ }),
        if old(c)@.pending.contains_key(key) {
            action matches Action::Deliver { reply, payload } && reply == old(c)@.pending[key]
                && payload@ == frame.payload@
        } else {
            action is Ignore
        },
{
    an_answer_is_told_by_its_bytes(old(c)@, frame@, key);
    if !old(c)@.pending.contains_key(key) {
        assert(old(c)@.pending.remove(key) =~= old(c)@.pending);
    }
}

/// Dispatching a keepalive brings the connection up, changes nothing else, and asks for the
/// acknowledgement: 48 bytes with flags 0x0200, the keepalive's operation and message id, and the
/// payload 3, 26, connection number.
pub proof fn dispatching_acknowledges_a_keepalive<S>(
    c: &mut Connection<S>,
    frame: Frame,
    action: Action<S>,
)
    requires
        call_ensures(Connection::<S>::dispatch, (c, frame), action),
        frame.payload@.len() > 5,
        frame.payload@[0] == 1,
        frame.payload@[1] == 10,
    ensures
        final(c)@ == (ConnectionView { connected: true, ..old(c)@ }),
        action matches Action::Acknowledge { frame: ack, newly_connected } && {
            &&& newly_connected == !old(c)@.connected
            &&& ack@.len() == 48
            &&& frame::magic_at(ack@, 0)
            &&& ack@[4] + 0x100 * ack@[5] == 0x0200
            &&& ack@[6] == frame.op
            &&& ack@[8] + 0x100 * ack@[9] + 0x1_0000 * ack@[10] + 0x100_0000 * ack@[11]
                == frame.message_id
            &&& frame::length_field(ack@) == 32
            &&& ack@[16] == 3
            &&& ack@[17] == 26
            &&& ack@[18] == frame.payload@[5]
            &&& forall|i: int| 19 <= i < 48 ==> #[trigger] ack@[i] == 0
        },
{
    let payload = ack_payload(frame.payload@[5]);
    let view = FrameView {
        flags: 0x0200,
        op: frame.op,
        message_id: frame.message_id,
        payload,
    };
    a_keepalive_is_told_by_its_bytes(old(c)@, frame@, payload);
    frame::an_encoded_frame_has_the_wire_layout(view);
    assert forall|i: int| 16 <= i < 48 implies #[trigger] view.bytes()[i] == payload[i - 16] by {
        assert(view.bytes().skip(16)[i - 16] == view.bytes()[i]);
    }
}

/// Processing a buffer dispatches its whole frames in order and keeps what is not whole.
pub proof fn processing_dispatches_every_whole_frame<S>(
    c: &mut Connection<S>,
    buf: &mut Vec<u8>,
    actions: Vec<Action<S>>,
    i: int,
)
    requires
        call_ensures(Connection::<S>::process_buffer, (c, buf), actions),
        0 <= i < frame::reframe(old(buf)@).frames.len(),
    ensures
        ({
            let frames = frame::reframe(old(buf)@).frames;
            &&& final(buf)@ == frame::reframe(old(buf)@).rest
            &&& final(c)@ == old(c)@.dispatch_all(frames).0
            &&& actions@.len() == frames.len()
            &&& actions@[i]@ == old(c)@.dispatch_all(frames.take(i)).0.dispatch(frames[i]).1
        }),
{
    every_frame_is_dispatched(old(c)@, frame::reframe(old(buf)@).frames, i);
}

/// The reader goes on for as long as reads bring bytes, which it takes behind those left over. It
/// ends when one brings none, fails, or it is told to stop: the connection is then down and without
/// requests in flight, and keeps its queued reports.
pub proof fn the_reader_goes_on_while_bytes_come<S>(
    c: &mut Connection<S>,
    buf: &mut Vec<u8>,
    event: ReaderEvent<'_>,
    step: ReaderStep<S>,
)
    requires
        call_ensures(Connection::<S>::reader_step, (c, buf, event), step),
    ensures
        step is Continue <==> (event matches ReaderEvent::Read(chunk) && chunk@.len() > 0),
        step matches ReaderStep::Continue(actions) ==> (event matches ReaderEvent::Read(chunk) && {
            let cut = frame::reframe(old(buf)@ + chunk@);
            &&& final(buf)@ == cut.rest
            &&& final(c)@ == old(c)@.dispatch_all(cut.frames).0
            &&& action_views(actions@) == old(c)@.dispatch_all(cut.frames).1
        }),
        step is Finish ==> {
            &&& !final(c)@.connected
            &&& final(c)@.pending == Map::<u8, S>::empty()
            &&& final(c)@.input == old(c)@.input
            &&& final(c)@.next_id == old(c)@.next_id
        },
{
}

/// The frame of a request is a `GET_REPORT` with the flags and the payload asked for, and the low 24
/// bits of the counter for its message id.
pub proof fn a_request_is_framed_as_asked<S>(
    c: &mut Connection<S>,
    frame_flags: u16,
    request: &[u8],
    key: u8,
    reply: S,
    frame: Vec<u8>,
)
    requires
        call_ensures(
            Connection::<S>::start_get_report,
            (c, frame_flags, request, key, reply),
            frame,
        ),
    ensures
        frame::magic_at(frame@, 0),
        frame@[4] + 0x100 * frame@[5] == frame_flags,
        frame@[6] == 2,
        frame@[8] + 0x100 * frame@[9] + 0x1_0000 * frame@[10] == old(c)@.next_id % 0x100_0000,
        frame@[11] == 0,
        frame::length_field(frame@) == request@.len() % 0x1_0000_0000,
        frame@.skip(16) == request@,
        final(c)@.pending == old(c)@.pending.insert(key, reply),
        final(c)@.input == old(c)@.input,
        final(c)@.connected == old(c)@.connected,
{
    frame::an_encoded_frame_has_the_wire_layout(
        FrameView {
            flags: frame_flags,
            op: 2,
            message_id: old(c)@.next_id % 0x100_0000,
            payload: request@,
        },
    );
}

/// A request ends with its answer as it is, with the error of sending it, or unanswered: as timed
/// out while the connection is up, and as disconnected when it is not. Without an answer it is no
/// longer in flight.
pub proof fn a_request_ends_with_its_outcome<S>(
    c: &mut Connection<S>,
    key: u8,
    outcome: ReportOutcome,
    res: Result<Vec<u8>, StreamDeckError>,
)
    requires
        call_ensures(Connection::<S>::finish_get_report, (c, key, outcome), res),
    ensures
        outcome matches ReportOutcome::Received(payload) ==> {
            &&& res matches Ok(answer)
            &&& answer@ == payload@
            &&& final(c)@ == old(c)@
        },
        outcome matches ReportOutcome::NotSent(e) ==> res == Err::<Vec<u8>, StreamDeckError>(e),
        outcome is Unanswered ==> {
            &&& res matches Err(e)
            &&& old(c)@.connected ==> e is Timeout
            &&& !old(c)@.connected ==> e is Disconnected
        },
        !(outcome is Received) ==> final(c)@ == (ConnectionView {
            pending: old(c)@.pending.remove(key),
            ..old(c)@
        }),
{
}

/// Taking a report takes the oldest, as it is, and leaves the others; there is none to take only
/// where none is queued.
pub proof fn the_oldest_report_is_taken<S>(c: &mut Connection<S>, report: Option<Vec<u8>>)
    requires
        call_ensures(Connection::<S>::next_report, (c,), report),
    ensures
        report is Some <==> old(c)@.input.len() > 0,
        report matches Some(bytes) ==> seq![bytes@] + final(c)@.input == old(c)@.input,
        report is None ==> final(c)@.input == old(c)@.input,
        final(c)@.connected == old(c)@.connected,
        final(c)@.pending == old(c)@.pending,
        final(c)@.next_id == old(c)@.next_id,
{
    if let Some(bytes) = report {
        assert(seq![bytes@] + final(c)@.input =~= old(c)@.input);
    }
}

/// Handing an answer over reaches the requester under its key with the payload as it is.
pub proof fn a_payload_is_handed_to_its_requester<S>(
    c: &mut Connection<S>,
    key: u8,
    payload: Vec<u8>,
    action: Action<S>,
)
    requires
        call_ensures(Connection::<S>::resolve_pending, (c, key, payload), action),
    ensures
        if old(c)@.pending.contains_key(key) {
            action matches Action::Deliver { reply, payload: handed } && reply
                == old(c)@.pending[key] && handed@ == payload@
        } else {
            action is Ignore
        },
        !final(c)@.pending.contains_key(key),
        final(c)@.input == old(c)@.input,
        final(c)@.connected == old(c)@.connected,
{
}

/// Whether a connection is up, whether having waited for that was worth it, and whether waiting for
/// a report makes sense, is told by its state.
pub proof fn a_connection_tells_its_state<S>(
    c: Connection<S>,
    up: bool,
    waited: Result<(), StreamDeckError>,
    awaits: bool,
)
    requires
        call_ensures(Connection::<S>::is_connected, (&c,), up),
        call_ensures(Connection::<S>::wait_connected, (&c,), waited),
        call_ensures(Connection::<S>::awaits_report, (&c,), awaits),
    ensures
        up == c@.connected,
        up ==> waited is Ok,
        !up ==> (waited matches Err(e) && e is Timeout),
        awaits <==> up && c@.input.len() == 0,
{
}

} // verus!
