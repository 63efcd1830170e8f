//! Finding the deck behind a Network Dock, and driving it.

use core::time::Duration;

use vstd::prelude::*;

use super::connection;
use super::connection::{Connection, ConnectionView, ReportOutcome, DEVICE2_REPORT};
use super::device2;
use super::device2::{parse_device2_info, Device2Info};
use super::flags;
use super::frame;
use super::frame::{encode_frame, FrameView};
use super::op;
use crate::error::StreamDeckError;
use crate::info::{Kind, ELGATO_VENDOR_ID};

verus! {

/// `report` cut off or padded with zeros to `length` bytes.
pub open spec fn fitted(report: Seq<u8>, length: int) -> Seq<u8> {
    Seq::new(
        length as nat,
        |i: int|
            if i < report.len() {
                report[i]
            } else {
                0
            },
    )
}

/// Cuts off or pads `report` with zeros to `length` bytes, like a HID read into a buffer of that
/// size.
fn fit(report: &mut Vec<u8>, length: usize)
    ensures
        final(report)@ == fitted(old(report)@, length as int),
{
    report.resize(length, 0);
    proof {
        let before = old(report)@;
        assert forall|i: int| 0 <= i < before.len() && i < length implies report@[i] == before[i] by {
            if length > before.len() {
                assert(report@.subrange(0, before.len() as int)[i] == before[i]);
            }
        }
    }
    assert(report@ =~= fitted(old(report)@, length as int));
}

/// What there is to read on a connection.
#[verifier::ext_equal]
pub enum Available {
    /// An input report.
    Report(Seq<u8>),
    /// Nothing yet.
    NoData,
    /// Nothing, and nothing will come: the connection is lost.
    Lost,
}

/// What there is to read on a connection: the oldest queued report, in `length` bytes. That the
/// connection is lost shows only when no report is queued.
pub open spec fn available<S>(c: ConnectionView<S>, length: int) -> Available {
    if c.input.len() > 0 {
        Available::Report(fitted(c.input[0], length))
    } else if c.connected {
        Available::NoData
    } else {
        Available::Lost
    }
}

/// Whether `res` is what a read of `length` bytes that waits no longer comes to: the report, all
/// zeros where there is no data, or that the connection is lost.
pub open spec fn is_read(
    found: Available,
    length: int,
    res: Result<Vec<u8>, StreamDeckError>,
) -> bool {
    match found {
        Available::Report(bytes) => res matches Ok(report) && report@ == bytes,
        Available::NoData => res matches Ok(report) && report@ == Seq::new(
            length as nat,
            |i: int| 0u8,
        ),
        Available::Lost => res matches Err(e) && e is Disconnected,
    }
}

/// The connection after what there is to read was read.
pub open spec fn after_read<S>(c: ConnectionView<S>) -> ConnectionView<S> {
    if c.input.len() > 0 {
        ConnectionView { input: c.input.skip(1), ..c }
    } else {
        c
    }
}

/// The connection after `n` reads.
pub open spec fn after_reads<S>(c: ConnectionView<S>, n: nat) -> ConnectionView<S>
    decreases n,
{
    if n == 0 {
        c
    } else {
        after_read(after_reads(c, (n - 1) as nat))
    }
}

/// Several reads take the queued reports one by one, oldest first.
proof fn lemma_after_reads<S>(c: ConnectionView<S>, n: nat)
    ensures
        after_reads(c, n) == (ConnectionView {
            input: if n <= c.input.len() {
                c.input.skip(n as int)
            } else {
                seq![]
            },
            ..c
        }),
    decreases n,
{
    if n == 0 {
        assert(c.input.skip(0) =~= c.input);
    } else {
        lemma_after_reads(c, (n - 1) as nat);
        if n <= c.input.len() {
            assert(c.input.skip(n - 1).skip(1) =~= c.input.skip(n as int));
        } else if n - 1 == c.input.len() {
            assert(c.input.skip(n - 1) =~= seq![]);
        }
    }
}

/// The reports of some frames are read in the order in which the frames arrived, each once, behind
/// those that were queued before.
pub proof fn reports_are_read_in_order_of_arrival<S>(
    c: ConnectionView<S>,
    frames: Seq<FrameView>,
    n: nat,
    length: int,
)
    requires
        n < c.input.len() + connection::input_reports(c, frames).len(),
    ensures
        available(after_reads(c.dispatch_all(frames).0, n), length) == Available::Report(
            fitted((c.input + connection::input_reports(c, frames))[n as int], length),
        ),
{
    connection::input_reports_are_queued_in_order(c, frames);
    lemma_after_reads(c.dispatch_all(frames).0, n);
}

/// When the connection is lost, the reports that had arrived can still be read; the loss shows
/// after the last of them, and from then on.
pub proof fn queued_reports_outlive_the_connection<S>(c: ConnectionView<S>, n: nat, length: int)
    ensures
        available(after_reads(c.lost(), n), length) == if n < c.input.len() {
            Available::Report(fitted(c.input[n as int], length))
        } else {
            Available::Lost
        },
{
    lemma_after_reads(c.lost(), n);
}

/// What a read of an input report comes to.
#[derive(Debug)]
pub enum ReadStep {
    /// The read is over.
    Done(Result<Vec<u8>, StreamDeckError>),
    /// Wait up to this long while [`CoraTransport::awaits_report`] holds, then end the read with
    /// [`CoraTransport::read_after_wait`].
    Wait(Duration),
}

/// A Stream Deck behind a Network Dock: the connection to the deck, which carries all HID traffic,
/// and what the dock said of the deck.
///
/// `S` is the handle of a waiting requester, see [`Connection`].
#[verifier::reject_recursive_types(S)]
pub struct CoraTransport<S> {
    /// The attached deck; all reports flow here.
    pub child: Connection<S>,
    /// The Device 2 info from discovery.
    pub info: Device2Info,
}

/// The search for the deck behind a Network Dock. Each state names what is to be done next.
#[verifier::reject_recursive_types(S)]
pub enum Discovery<S> {
    /// Connect to the address at index `candidate` out of `candidates`, and wait for the first
    /// keepalive. [`Discovery::dialed`] takes the outcome.
    Dial { candidates: usize, candidate: usize },
    /// Ask the dock, connected at the address at index `candidate`, for its Device 2 info with
    /// [`Connection::start_get_report`] and the parts of [`device2_query`].
    /// [`Discovery::answered`] takes the outcome.
    Query { candidate: usize },
    /// Connect to the deck: the IP address at index `candidate`, the port of the transport's info.
    /// The transport's connection is the one to use there.
    Attached { candidate: usize, transport: CoraTransport<S> },
    /// There is no deck to be had.
    Failed { error: StreamDeckError },
}

/// The query for the dock's Device 2 info: the flags and the payload of the request.
pub fn device2_query() -> (query: (u16, [u8; 2]))
    ensures
        query.0 == flags::NONE,
        query.1@ == seq![0x03u8, DEVICE2_REPORT],
        query.0 == 0,
        query.1@ == seq![0x03u8, 0x1c],
{
    let request: [u8; 2] = [0x03, DEVICE2_REPORT];
    assert(request@ =~= seq![0x03u8, DEVICE2_REPORT]);
    (flags::NONE, request)
}

/// Where the search stands after the address at index `candidate` out of `candidates` was tried:
/// an address that can be connected to is the dock; otherwise the next one is tried; after the
/// last one the search fails with its error.
pub open spec fn after_dial<S>(
    candidates: usize,
    candidate: usize,
    outcome: Result<(), StreamDeckError>,
) -> Discovery<S> {
    match outcome {
        Ok(()) => Discovery::Query { candidate },
        Err(error) => if candidate + 1 < candidates {
            Discovery::Dial { candidates, candidate: (candidate + 1) as usize }
        } else {
            Discovery::Failed { error }
        },
    }
}

impl<S> Discovery<S> {
    /// A search that tries an address tries one that there is.
    pub open spec fn wf(self) -> bool {
        self matches Discovery::Dial { candidates, candidate } ==> candidate < candidates
    }

    /// Takes the outcome of connecting to a candidate address. The first that can be connected to
    /// is the dock; where none can, the search fails with the error of the last.
    pub fn dialed(self, outcome: Result<(), StreamDeckError>) -> (next: Self)
        requires
            self is Dial,
            self.wf(),
        ensures
            next.wf(),
            self matches Discovery::Dial { candidates, candidate } ==> next == after_dial::<S>(
                candidates,
                candidate,
                outcome,
            ),
    {
        match self {
            Discovery::Dial { candidates, candidate } => match outcome {
                Ok(()) => Discovery::Query { candidate },
                Err(error) => if candidate + 1 < candidates {
                    Discovery::Dial { candidates, candidate: candidate + 1 }
                } else {
                    Discovery::Failed { error }
                },
            },
            other => other,
        }
    }

    /// Takes the outcome of the Device 2 query. Where the report describes an attached deck, that
    /// deck is the one to connect to, over a connection on which nothing has happened yet.
    pub fn answered(self, reply: Result<Vec<u8>, StreamDeckError>) -> (next: Self)
        requires
            self is Query,
        ensures
            next.wf(),
            match reply {
                Err(e) => next == (Discovery::<S>::Failed { error: e }),
                Ok(payload) => match device2::device2_info(payload@) {
                    Err(e) => next == (Discovery::<S>::Failed { error: e }),
                    Ok(None) => {
                        &&& next matches Discovery::Failed { error }
                        &&& error matches StreamDeckError::Protocol(message)
                        &&& message@ == "no stream deck attached to network dock"@
                    },
                    Ok(Some(deck)) => {
                        &&& next matches Discovery::Attached { candidate, transport }
                        &&& self == (Discovery::<S>::Query { candidate })
                        &&& transport.child@ == ConnectionView::<S>::fresh()
                        &&& transport.info@ == deck
                    },
                },
            },
    {
        match (self, reply) {
            (Discovery::Query { candidate }, Ok(payload)) => match parse_device2_info(
                payload.as_slice(),
            ) {
                Ok(Some(info)) => Discovery::Attached {
                    candidate,
                    transport: CoraTransport { child: Connection::new(), info },
                },
                Ok(None) => Discovery::Failed {
                    error: StreamDeckError::Protocol("no stream deck attached to network dock"),
                },
                Err(error) => Discovery::Failed { error },
            },
            (Discovery::Query { .. }, Err(error)) => Discovery::Failed { error },
            (other, _) => other,
        }
    }
}

/// Where the search stands once addresses have been tried from index `candidate` on, when
/// `outcomes[i]` is what connecting to the address at index `i` comes to.
pub open spec fn after_dialing<S>(
    candidate: int,
    outcomes: Seq<Result<(), StreamDeckError>>,
) -> Discovery<S>
    decreases outcomes.len() - candidate,
{
    match after_dial::<S>(outcomes.len() as usize, candidate as usize, outcomes[candidate]) {
        Discovery::Dial { .. } if candidate + 1 < outcomes.len() => after_dialing(
            candidate + 1,
            outcomes,
        ),
        other => other,
    }
}

/// The first address that can be connected to is taken for the dock, and those behind it are not
/// tried. Where none can be connected to, the error is that of the last.
pub proof fn the_first_reachable_address_is_used<S>(
    candidate: int,
    outcomes: Seq<Result<(), StreamDeckError>>,
    reachable: int,
)
    requires
        0 <= candidate <= reachable <= outcomes.len(),
        candidate < outcomes.len() <= usize::MAX,
        forall|i: int| candidate <= i < reachable ==> (#[trigger] outcomes[i]) is Err,
        reachable < outcomes.len() ==> outcomes[reachable] is Ok,
    ensures
        after_dialing::<S>(candidate, outcomes) == if reachable < outcomes.len() {
            Discovery::<S>::Query { candidate: reachable as usize }
        } else {
            Discovery::<S>::Failed { error: outcomes.last()->Err_0 }
        },
    decreases outcomes.len() - candidate,
{
    if candidate < reachable && candidate + 1 < outcomes.len() {
        the_first_reachable_address_is_used::<S>(candidate + 1, outcomes, reachable);
    }
}

impl<S> CoraTransport<S> {
    /// Starts to look for a dock among `candidates` addresses, and for the deck attached to it.
    pub fn connect(candidates: usize) -> (search: Discovery<S>)
        ensures
            search.wf(),
            if candidates > 0 {
                search == (Discovery::<S>::Dial { candidates, candidate: 0 })
            } else {
                &&& search matches Discovery::Failed { error }
                &&& error matches StreamDeckError::InvalidInput(message)
                &&& message@ == "address resolved to no candidates"@
            },
    {
        if candidates > 0 {
            Discovery::Dial { candidates, candidate: 0 }
        } else {
            Discovery::Failed {
                error: StreamDeckError::InvalidInput("address resolved to no candidates"),
            }
        }
    }

    /// Whether the deck connection is currently considered up (keepalive seen, not lost).
    pub fn is_connected(&self) -> (res: bool)
        ensures
            res == self.child@.connected,
    {
        self.child.is_connected()
    }

    /// The attached deck's USB vendor and product id, as reported by the dock's Device 2 info.
    pub fn device_vid_pid(&self) -> (res: Result<(u16, u16), StreamDeckError>)
        ensures
            res == Ok::<(u16, u16), StreamDeckError>((self.info.vendor_id, self.info.product_id)),
    {
        Ok((self.info.vendor_id, self.info.product_id))
    }

    /// Resolves the attached deck's [`Kind`] from its vendor and product id (see
    /// [`device_vid_pid`](CoraTransport::device_vid_pid)).
    pub fn detect_kind(&self) -> (res: Result<Kind, StreamDeckError>)
        ensures
            match res {
                Ok(kind) => {
                    &&& self.info.vendor_id == ELGATO_VENDOR_ID
                    &&& kind.spec_product_id() == self.info.product_id
                },
                Err(e) => {
                    &&& e is UnrecognizedPID
                    &&& self.info.vendor_id != ELGATO_VENDOR_ID || forall|other: Kind|
                        #[trigger] other.spec_product_id() != self.info.product_id
                },
            },
    {
        match Kind::from_vid_pid(self.info.vendor_id, self.info.product_id) {
            Some(kind) => Ok(kind),
            None => Err(StreamDeckError::UnrecognizedPID),
        }
    }

    /// Whether waiting for an input report makes sense: none is queued, and one may still come.
    pub fn awaits_report(&self) -> (res: bool)
        ensures
            res == (self.child@.input.len() == 0 && self.child@.connected),
    {
        self.child.awaits_report()
    }

    /// Reads an input report of `length` bytes: the oldest that is queued, cut off or padded with
    /// zeros. Where none is queued, the read fails when the connection is lost, asks for a wait
    /// when there is a timeout, and otherwise gives all zeros, which means "no data".
    pub fn read_report(&mut self, length: usize, timeout: Option<Duration>) -> (step: ReadStep)
        ensures
            final(self).info == old(self).info,
            final(self).child@ == after_read(old(self).child@),
            ({
                let found = available(old(self).child@, length as int);
                match timeout {
                    Some(wait) if found is NoData => step == ReadStep::Wait(wait),
                    _ => step matches ReadStep::Done(res) && is_read(found, length as int, res),
                }
            }),
    {
        if let Some(wait) = timeout {
            if self.child.awaits_report() {
                return ReadStep::Wait(wait);
            }
        }
        ReadStep::Done(self.read_after_wait(length))
    }

    /// Ends a read of an input report of `length` bytes without a further wait: the oldest report
    /// that is queued, cut off or padded with zeros. Where none is queued, the read fails when the
    /// connection is lost, and otherwise gives all zeros, which means "no data".
    pub fn read_after_wait(&mut self, length: usize) -> (res: Result<Vec<u8>, StreamDeckError>)
        ensures
            final(self).info == old(self).info,
            final(self).child@ == after_read(old(self).child@),
            is_read(available(old(self).child@, length as int), length as int, res),
    {
        let queued = self.child.next_report();
        match queued {
            Some(mut report) => {
                fit(&mut report, length);
                Ok(report)
            },
            None => if self.child.is_connected() {
                let report: Vec<u8> = vec![0u8; length];
                assert(report@ =~= Seq::new(length as nat, |i: int| 0u8));
                Ok(report)
            } else {
                Err(StreamDeckError::Disconnected)
            },
        }
    }

    /// Writes an output report: the frame to send to the deck, and the number of bytes that are
    /// written once it is sent.
    pub fn write_report(&self, payload: &[u8]) -> (res: (Vec<u8>, usize))
        ensures
            res.0@ == (FrameView {
                flags: flags::VERBATIM,
                op: op::WRITE,
                message_id: 0,
                payload: payload@,
            }).bytes(),
            res.1 == payload@.len(),
            res.0@[4] + 0x100 * res.0@[5] == 0x8000,
            res.0@[6] == 0,
            res.0@.skip(16) == payload@,
    {
        (encode_frame(flags::VERBATIM, op::WRITE, 0, payload), payload.len())
    }

    /// Sends a feature report, whose first byte is the report id: the frame to send to the deck.
    pub fn send_feature_report(&self, payload: &[u8]) -> (frame: Vec<u8>)
        ensures
            frame@ == (FrameView {
                flags: flags::VERBATIM,
                op: op::SEND_REPORT,
                message_id: 0,
                payload: payload@,
            }).bytes(),
            frame@[4] + 0x100 * frame@[5] == 0x8000,
            frame@[6] == 1,
            frame@.skip(16) == payload@,
    {
        encode_frame(flags::VERBATIM, op::SEND_REPORT, 0, payload)
    }

    /// Starts to read a feature report: the frame to send to the deck. The answer is handed over
    /// through `reply`.
    pub fn start_get_feature_report(&mut self, report_id: u8, reply: S) -> (frame: Vec<u8>)
        ensures
            final(self).info == old(self).info,
            final(self).child@ == old(self).child@.requested(report_id, reply),
            frame@ == (FrameView {
                flags: flags::VERBATIM,
                op: op::GET_REPORT,
                message_id: old(self).child@.next_id % 0x100_0000,
                payload: seq![report_id],
            }).bytes(),
            frame@[4] + 0x100 * frame@[5] == 0x8000,
            frame@[6] == 2,
            frame@.skip(16) == seq![report_id],
    {
        let request: [u8; 1] = [report_id];
        assert(request@ =~= seq![report_id]);
        self.child.start_get_report(flags::VERBATIM, &request, report_id, reply)
    }

    /// Ends the reading of a feature report: the report, whose first byte is the report id, cut
    /// off or padded with zeros to `length + 1` bytes, or why there is none.
    pub fn finish_get_feature_report(&mut self, report_id: u8, length: usize, outcome: ReportOutcome) -> (
    res: Result<Vec<u8>, StreamDeckError>)
        requires
            length < usize::MAX,
        ensures
            final(self).info == old(self).info,
            match outcome {
                ReportOutcome::Received(payload) => {
                    &&& res matches Ok(report)
                    &&& report@ == fitted(payload@, length + 1)
                    &&& final(self).child@ == old(self).child@
                },
                ReportOutcome::NotSent(e) => {
                    &&& res == Err::<Vec<u8>, StreamDeckError>(e)
                    &&& final(self).child@ == old(self).child@.abandoned(report_id)
                },
                ReportOutcome::Unanswered => {
                    &&& res matches Err(e)
                    &&& if old(self).child@.connected {
                        e is Timeout
                    } else {
                        e is Disconnected
                    }
                    &&& final(self).child@ == old(self).child@.abandoned(report_id)
                },
            },
    {
        match self.child.finish_get_report(report_id, outcome) {
            Ok(mut report) => {
                fit(&mut report, length + 1);
                Ok(report)
            },
            Err(e) => Err(e),
        }
    }

    /// Device manufacturer string.
    pub fn manufacturer(&self) -> (res: Result<String, StreamDeckError>)
        ensures
            res matches Ok(text) && text@ == "Elgato"@,
    {
        Ok("Elgato".to_string())
    }

    /// Device product string.
    pub fn product(&self) -> (res: Result<String, StreamDeckError>)
        ensures
            res matches Ok(text) && text@ == "Stream Deck (Network Dock)"@,
    {
        Ok("Stream Deck (Network Dock)".to_string())
    }

    /// The deck's serial number. It is known from discovery, whatever the kind of deck.
    pub fn serial_number(&self, _kind: Kind) -> (res: Result<String, StreamDeckError>)
        ensures
            res matches Ok(text) && text@ == self.info.serial_number@,
    {
        Ok(self.info.serial_number.clone())
    }
}

/// A report is fitted to a length by cutting it off or by padding it with zeros: up to the shorter
/// of the two lengths every byte is the report's own. A report of just that length stays as it is.
pub proof fn a_report_is_fitted_byte_for_byte(report: Seq<u8>, length: int)
    requires
        0 <= length,
    ensures
        fitted(report, length).len() == length,
        length <= report.len() ==> fitted(report, length) == report.take(length),
        length >= report.len() ==> fitted(report, length).take(report.len() as int) == report,
        forall|i: int| report.len() <= i < length ==> #[trigger] fitted(report, length)[i] == 0,
        length == report.len() ==> fitted(report, length) == report,
{
    let whole = fitted(report, length);
    if length <= report.len() {
        assert(whole =~= report.take(length));
    }
    if length >= report.len() {
        assert(whole.take(report.len() as int) =~= report);
    }
    if length == report.len() {
        assert(whole =~= report);
    }
}

/// Where reports are queued, a read never waits: it takes the oldest, whether the connection is up
/// or not, and gives its bytes, cut off or padded with zeros to the length asked for. The others
/// stay queued, and nothing else changes.
pub proof fn a_read_gives_the_oldest_report<S>(
    c: ConnectionView<S>,
    length: int,
    res: Result<Vec<u8>, StreamDeckError>,
)
    requires
        c.input.len() > 0,
        0 <= length,
        is_read(available(c, length), length, res),
    ensures
        available(c, length) is Report,
        res matches Ok(report) && {
            &&& report@.len() == length
            &&& length <= c.input[0].len() ==> report@ == c.input[0].take(length)
            &&& length >= c.input[0].len() ==> report@.take(c.input[0].len() as int) == c.input[0]
            &&& forall|i: int| c.input[0].len() <= i < length ==> #[trigger] report@[i] == 0
        },
        after_read(c).input.len() == c.input.len() - 1,
        forall|i: int|
            0 <= i < c.input.len() - 1 ==> #[trigger] after_read(c).input[i] == c.input[i + 1],
        after_read(c).connected == c.connected,
        after_read(c).pending == c.pending,
        after_read(c).next_id == c.next_id,
{
    a_report_is_fitted_byte_for_byte(c.input[0], length);
}

/// Where no report is queued, a read changes nothing. It gives as many zeros as it was asked for
/// bytes while the connection is up, which is the one case in which waiting makes sense, and fails
/// as disconnected when it is not.
pub proof fn a_read_without_report_gives_zeros_or_the_loss<S>(
    c: ConnectionView<S>,
    length: int,
    res: Result<Vec<u8>, StreamDeckError>,
)
    requires
        c.input.len() == 0,
        0 <= length,
        is_read(available(c, length), length, res),
    ensures
        after_read(c) == c,
        available(c, length) is NoData <==> c.connected,
        c.connected ==> (res matches Ok(report) && {
            &&& report@.len() == length
            &&& forall|i: int| 0 <= i < length ==> #[trigger] report@[i] == 0
        }),
        !c.connected ==> (res matches Err(e) && e is Disconnected),
{
}

/// An address that can be connected to is the dock. One that cannot is followed by the very next
/// one, out of as many as before, and the last one's error ends the search.
pub proof fn every_address_gets_its_turn<S>(
    candidates: usize,
    candidate: usize,
    outcome: Result<(), StreamDeckError>,
)
    requires
        candidate < candidates,
    ensures
        outcome is Ok ==> after_dial::<S>(candidates, candidate, outcome) == (Discovery::<
            S,
        >::Query { candidate }),
        outcome matches Err(e) ==> {
            &&& candidate < candidates - 1 ==> (after_dial::<S>(candidates, candidate, outcome)
                matches Discovery::Dial { candidates: among, candidate: next } && among
                == candidates && next == candidate + 1)
            &&& candidate == candidates - 1 ==> after_dial::<S>(candidates, candidate, outcome) == (
            Discovery::<S>::Failed { error: e })
        },
{
}

/// A read of an input report waits only where it has a timeout, no report is queued and the
/// connection is up, and then for just that long. Otherwise it ends as one that waits no longer.
pub proof fn a_read_waits_only_for_what_may_come<S>(
    t: &mut CoraTransport<S>,
    length: usize,
    timeout: Option<Duration>,
    step: ReadStep,
)
    requires
        call_ensures(CoraTransport::<S>::read_report, (t, length, timeout), step),
    ensures
        step is Wait <==> timeout is Some && old(t).child@.input.len() == 0
            && old(t).child@.connected,
        step matches ReadStep::Wait(time) ==> timeout == Some(time),
        final(t).info == old(t).info,
        final(t).child@.connected == old(t).child@.connected,
        old(t).child@.input.len() > 0 ==> (step matches ReadStep::Done(Ok(report)) && {
            let oldest = old(t).child@.input[0];
            &&& report@.len() == length
            &&& length <= oldest.len() ==> report@ == oldest.take(length as int)
            &&& length >= oldest.len() ==> report@.take(oldest.len() as int) == oldest
            &&& forall|i: int| oldest.len() <= i < length ==> #[trigger] report@[i] == 0
            &&& seq![oldest] + final(t).child@.input == old(t).child@.input
        }),
        old(t).child@.input.len() == 0 && !old(t).child@.connected ==> (
        step matches ReadStep::Done(Err(e)) && e is Disconnected),
        old(t).child@.input.len() == 0 && old(t).child@.connected && timeout is None ==> (
        step matches ReadStep::Done(Ok(report)) && report@.len() == length && forall|i: int|
            0 <= i < length ==> #[trigger] report@[i] == 0),
{
    let c = old(t).child@;
    if c.input.len() > 0 {
        a_report_is_fitted_byte_for_byte(c.input[0], length as int);
        assert(seq![c.input[0]] + c.input.skip(1) =~= c.input);
    }
}

/// A read that has waited ends: with the oldest report where one has come, as disconnected where
/// the connection was lost, and with zeros otherwise.
pub proof fn a_read_ends_after_its_wait<S>(
    t: &mut CoraTransport<S>,
    length: usize,
    res: Result<Vec<u8>, StreamDeckError>,
)
    requires
        call_ensures(CoraTransport::<S>::read_after_wait, (t, length), res),
    ensures
        final(t).info == old(t).info,
        res is Err <==> old(t).child@.input.len() == 0 && !old(t).child@.connected,
        res matches Err(e) ==> e is Disconnected,
        res matches Ok(report) ==> report@.len() == length,
        old(t).child@.input.len() > 0 ==> {
            let oldest = old(t).child@.input[0];
            &&& length <= oldest.len() ==> res->Ok_0@ == oldest.take(length as int)
            &&& length >= oldest.len() ==> res->Ok_0@.take(oldest.len() as int) == oldest
            &&& forall|i: int| oldest.len() <= i < length ==> #[trigger] res->Ok_0@[i] == 0
            &&& seq![oldest] + final(t).child@.input == old(t).child@.input
        },
        old(t).child@.input.len() == 0 && old(t).child@.connected ==> forall|i: int|
            0 <= i < length ==> #[trigger] res->Ok_0@[i] == 0,
{
    let c = old(t).child@;
    if c.input.len() > 0 {
        a_report_is_fitted_byte_for_byte(c.input[0], length as int);
        assert(seq![c.input[0]] + c.input.skip(1) =~= c.input);
    }
}

/// An output report and a sent feature report reach the deck as raw reports (flags 0x8000) with
/// message id 0 and every byte as it is, the one with operation 0, the other with operation 1.
pub proof fn reports_are_tunnelled_byte_for_byte<S>(
    t: CoraTransport<S>,
    payload: &[u8],
    written: (Vec<u8>, usize),
    sent: Vec<u8>,
)
    requires
        call_ensures(CoraTransport::<S>::write_report, (&t, payload), written),
        call_ensures(CoraTransport::<S>::send_feature_report, (&t, payload), sent),
    ensures
        written.1 == payload@.len(),
        written.0@.take(12) == seq![0x43u8, 0x93, 0x8a, 0x41, 0x00, 0x80, 0x00, 0, 0, 0, 0, 0],
        sent@.take(12) == seq![0x43u8, 0x93, 0x8a, 0x41, 0x00, 0x80, 0x01, 0, 0, 0, 0, 0],
        frame::length_field(written.0@) == payload@.len() % 0x1_0000_0000,
        frame::length_field(sent@) == payload@.len() % 0x1_0000_0000,
        written.0@.skip(16) == payload@,
        sent@.skip(16) == payload@,
{
    frame::an_encoded_frame_has_the_wire_layout(
        FrameView { flags: 0x8000, op: 0, message_id: 0, payload: payload@ },
    );
    frame::an_encoded_frame_has_the_wire_layout(
        FrameView { flags: 0x8000, op: 1, message_id: 0, payload: payload@ },
    );
    assert(written.0@.take(12) =~= seq![
        0x43u8,
        0x93,
        0x8a,
        0x41,
        0x00,
        0x80,
        0x00,
        0,
        0,
        0,
        0,
        0,
    ]);
    assert(sent@.take(12) =~= seq![0x43u8, 0x93, 0x8a, 0x41, 0x00, 0x80, 0x01, 0, 0, 0, 0, 0]);
}

/// A feature report is asked for with a raw request (flags 0x8000, operation 2) of one byte, its
/// id, and the request is in flight under that id.
pub proof fn a_feature_report_is_asked_for_by_its_id<S>(
    t: &mut CoraTransport<S>,
    report_id: u8,
    reply: S,
    sent: Vec<u8>,
)
    requires
        call_ensures(CoraTransport::<S>::start_get_feature_report, (t, report_id, reply), sent),
    ensures
        sent@.len() == 17,
        frame::magic_at(sent@, 0),
        sent@[4] + 0x100 * sent@[5] == 0x8000,
        sent@[6] == 2,
        sent@[8] + 0x100 * sent@[9] + 0x1_0000 * sent@[10] == old(t).child@.next_id % 0x100_0000,
        frame::length_field(sent@) == 1,
        sent@[16] == report_id,
        final(t).info == old(t).info,
        final(t).child@.pending == old(t).child@.pending.insert(report_id, reply),
        final(t).child@.input == old(t).child@.input,
{
    let view = FrameView {
        flags: 0x8000,
        op: 2,
        message_id: old(t).child@.next_id % 0x100_0000,
        payload: seq![report_id],
    };
    frame::an_encoded_frame_has_the_wire_layout(view);
    assert(view.bytes().skip(16)[0] == view.bytes()[16]);
}

/// A feature report that was answered has `length + 1` bytes: those of the answer, cut off or padded
/// with zeros. One that was not ends with the error of sending it, as timed out, or as
/// disconnected.
pub proof fn a_feature_report_is_its_answer<S>(
    t: &mut CoraTransport<S>,
    report_id: u8,
    length: usize,
    outcome: ReportOutcome,
    res: Result<Vec<u8>, StreamDeckError>,
)
    requires
        call_ensures(
            CoraTransport::<S>::finish_get_feature_report,
            (t, report_id, length, outcome),
            res,
        ),
    ensures
        outcome matches ReportOutcome::Received(payload) ==> {
            &&& res matches Ok(report)
            &&& report@.len() == length + 1
            &&& length < payload@.len() ==> report@ == payload@.take(length + 1)
            &&& length + 1 >= payload@.len() ==> report@.take(payload@.len() as int) == payload@
            &&& forall|i: int| payload@.len() <= i <= length ==> #[trigger] report@[i] == 0
        },
        outcome matches ReportOutcome::NotSent(e) ==> res == Err::<Vec<u8>, StreamDeckError>(e),
        outcome is Unanswered ==> {
            &&& res matches Err(e)
            &&& old(t).child@.connected ==> e is Timeout
            &&& !old(t).child@.connected ==> e is Disconnected
        },
        !(outcome is Received) ==> !final(t).child@.pending.contains_key(report_id),
        final(t).child@.input == old(t).child@.input,
        final(t).child@.connected == old(t).child@.connected,
{
    if let ReportOutcome::Received(payload) = outcome {
        a_report_is_fitted_byte_for_byte(payload@, length + 1);
    }
}

/// A search among any addresses begins with the first, and among none fails at once.
pub proof fn a_search_begins_with_the_first_address<S>(candidates: usize, search: Discovery<S>)
    requires
        call_ensures(CoraTransport::<S>::connect, (candidates,), search),
    ensures
        candidates > 0 ==> search == (Discovery::<S>::Dial { candidates, candidate: 0 }),
        candidates == 0 ==> (search matches Discovery::Failed { error }
            && error matches StreamDeckError::InvalidInput(message) && message@
            == "address resolved to no candidates"@),
{
}

/// A search goes on from an address that was tried: to the dock that answered there, to the very
/// next address, or, behind the last, to the end with its error.
pub proof fn a_search_goes_on_from_address_to_address<S>(
    candidates: usize,
    candidate: usize,
    outcome: Result<(), StreamDeckError>,
    next: Discovery<S>,
)
    requires
        candidate < candidates,
        call_ensures(
            Discovery::<S>::dialed,
            (Discovery::<S>::Dial { candidates, candidate }, outcome),
            next,
        ),
    ensures
        outcome is Ok ==> next == (Discovery::<S>::Query { candidate }),
        outcome matches Err(e) ==> {
            &&& candidate < candidates - 1 ==> (next matches Discovery::Dial {
                candidates: among,
                candidate: following,
            } && among == candidates && following == candidate + 1)
            &&& candidate == candidates - 1 ==> next == (Discovery::<S>::Failed { error: e })
        },
{
    every_address_gets_its_turn::<S>(candidates, candidate, outcome);
}

/// A search that asked the dock leads to the deck that the report describes, at the address of the
/// dock and over a connection on which nothing has happened; or it fails with what is wrong: the
/// error of the query, a report that is too short, or no deck.
pub proof fn a_search_leads_to_the_described_deck<S>(
    candidate: usize,
    reply: Result<Vec<u8>, StreamDeckError>,
    next: Discovery<S>,
)
    requires
        call_ensures(Discovery::<S>::answered, (Discovery::<S>::Query { candidate }, reply), next),
    ensures
        reply matches Err(e) ==> next == (Discovery::<S>::Failed { error: e }),
        reply matches Ok(p) ==> {
            &&& p@.len() < 128 ==> (next matches Discovery::Failed { error }
                && error matches StreamDeckError::Protocol(message) && message@
                == "device2 info response too short"@)
            &&& p@.len() >= 128 && p@[4] != 2 ==> (next matches Discovery::Failed { error }
                && error matches StreamDeckError::Protocol(message) && message@
                == "no stream deck attached to network dock"@)
            &&& next matches Discovery::Attached { candidate: at, transport } ==> {
                &&& at == candidate
                &&& p@.len() >= 128
                &&& p@[4] == 2
                &&& transport.info.vendor_id == p@[26] + 0x100 * p@[27]
                &&& transport.info.product_id == p@[28] + 0x100 * p@[29]
                &&& transport.info.tcp_port == p@[126] + 0x100 * p@[127]
                &&& !transport.child@.connected
                &&& transport.child@.input.len() == 0
            }
            &&& p@.len() >= 128 && p@[4] == 2 && vstd::utf8::valid_utf8(device2::serial_bytes(p@))
                ==> next is Attached
        },
{
    if let Ok(p) = reply {
        device2::a_report_without_a_deck_describes_none(p@);
        if p@.len() >= 128 && p@[4] == 2 {
            device2::the_serial_number_ends_at_its_nul(p@);
            device2::a_deck_is_described_at_fixed_offsets(
                p@,
                device2::serial_bytes(p@).len() as int,
            );
        }
    }
}

/// The dock is asked for its Device 2 info without flags, by the bytes 0x03 and 0x1c.
pub proof fn the_dock_is_asked_for_report_0x1c(query: (u16, [u8; 2]))
    requires
        call_ensures(device2_query, (), query),
    ensures
        query.0 == 0,
        query.1@ == seq![0x03u8, 0x1c],
{
}

/// A transport goes by what the dock said of the deck: its ids, the kind that has them, its serial
/// number whatever kind it is taken for, and the names of the maker and the dock.
pub proof fn a_transport_goes_by_its_description<S>(
    t: CoraTransport<S>,
    taken_for: Kind,
    ids: Result<(u16, u16), StreamDeckError>,
    detected: Result<Kind, StreamDeckError>,
    serial: Result<String, StreamDeckError>,
    maker: Result<String, StreamDeckError>,
    name: Result<String, StreamDeckError>,
    kind: Kind,
)
    requires
        call_ensures(CoraTransport::<S>::device_vid_pid, (&t,), ids),
        call_ensures(CoraTransport::<S>::detect_kind, (&t,), detected),
        call_ensures(CoraTransport::<S>::serial_number, (&t, taken_for), serial),
        call_ensures(CoraTransport::<S>::manufacturer, (&t,), maker),
        call_ensures(CoraTransport::<S>::product, (&t,), name),
    ensures
        ids matches Ok(pair) && pair.0 == t.info.vendor_id && pair.1 == t.info.product_id,
        detected == Ok::<Kind, StreamDeckError>(kind) <==> t.info.vendor_id == 0x0fd9
            && t.info.product_id == kind.spec_product_id(),
        detected matches Err(e) ==> e is UnrecognizedPID,
        serial matches Ok(text) && text@ == t.info.serial_number@,
        maker matches Ok(text) && text@ == "Elgato"@,
        name matches Ok(text) && text@ == "Stream Deck (Network Dock)"@,
{
    if let Ok(found) = detected {
        crate::info::product_ids_are_distinct(found, kind);
    }
}

} // verus!
