use std::time::Duration;

use elgato_streamdeck::info::Kind;
use elgato_streamdeck::transport::cora::connection::{Action, Connection, ReaderEvent, ReaderStep, ReportOutcome, DEVICE2_REPORT};
use elgato_streamdeck::transport::cora::flags;
use elgato_streamdeck::transport::cora::frame::{encode_frame, next_frame, Frame};
use elgato_streamdeck::transport::cora::op;
use elgato_streamdeck::transport::cora::session::{device2_query, Discovery, ReadStep};
use elgato_streamdeck::transport::cora::TIMEOUT_MILLIS;
use elgato_streamdeck::transport::{decode_firmware_version, CoraTransport, DEFAULT_TCP_PORT};
use elgato_streamdeck::StreamDeckError;

fn keepalive_frame(connection_no: u8) -> Vec<u8> {
    encode_frame(flags::NONE, 0x00, 0, &[1, 10, 0, 0, 0, connection_no])
}

fn device2_payload(connected: bool, vid: u16, pid: u16, serial: &[u8], tcp_port: u16) -> Vec<u8> {
    let mut p = vec![0u8; 512];
    p[0] = 0x01;
    p[1] = 0x0b;
    p[4] = if connected { 0x02 } else { 0x00 };
    p[26..28].copy_from_slice(&vid.to_le_bytes());
    p[28..30].copy_from_slice(&pid.to_le_bytes());
    p[94..94 + serial.len()].copy_from_slice(serial);
    p[126..128].copy_from_slice(&tcp_port.to_le_bytes());
    p
}

/// The one frame that some sent bytes hold.
fn sent(mut bytes: Vec<u8>) -> Frame {
    let frame = next_frame(&mut bytes).unwrap();
    assert!(bytes.is_empty());
    frame
}

/// Feeds bytes to a connection and returns what is to be done.
fn read<S>(connection: &mut Connection<S>, buf: &mut Vec<u8>, bytes: &[u8]) -> Vec<Action<S>> {
    match connection.reader_step(buf, ReaderEvent::Read(bytes)) {
        ReaderStep::Continue(actions) => actions,
        ReaderStep::Finish => panic!("the reader ended"),
    }
}

/// Discovers a deck at a dock that describes it with `device2`.
fn discover(device2: &[u8]) -> Discovery<u32> {
    let mut primary: Connection<u32> = Connection::new();
    let mut buf = Vec::new();
    let search: Discovery<u32> = CoraTransport::connect(1);
    assert!(matches!(search, Discovery::Dial { candidates: 1, candidate: 0 }));

    assert!(matches!(primary.wait_connected(), Err(StreamDeckError::Timeout)));
    let mut actions = read(&mut primary, &mut buf, &keepalive_frame(1));
    assert_eq!(actions.len(), 1);
    match actions.pop() {
        Some(Action::Acknowledge { frame, newly_connected }) => {
            assert!(newly_connected);
            let ack = sent(frame);
            assert_eq!(ack.flags, flags::ACK_NAK);
            assert_eq!(ack.payload.len(), 32);
            assert_eq!(&ack.payload[0..3], &[3, 26, 1]);
        }
        other => panic!("got {other:?}"),
    }
    assert!(primary.wait_connected().is_ok());

    let search = search.dialed(Ok(()));
    assert!(matches!(search, Discovery::Query { candidate: 0 }));
    let (query_flags, request) = device2_query();
    let query = sent(primary.start_get_report(query_flags, &request, DEVICE2_REPORT, 42));
    assert_eq!(query.flags, flags::NONE);
    assert_eq!(query.op, op::GET_REPORT);
    assert_eq!(query.payload, [0x03, 0x1c]);
    let mut actions = read(&mut primary, &mut buf, &encode_frame(flags::NONE, op::GET_REPORT, 0, device2));
    let reply = match actions.pop() {
        Some(Action::Deliver { reply: 42, payload }) => ReportOutcome::Received(payload),
        other => panic!("got {other:?}"),
    };
    search.answered(primary.finish_get_report(DEVICE2_REPORT, reply))
}

fn attached(serial: &[u8]) -> CoraTransport<u32> {
    match discover(&device2_payload(true, 0x0fd9, 0x0084, serial, 20001)) {
        Discovery::Attached { candidate: 0, transport } => transport,
        _ => panic!("no deck"),
    }
}

/// A deck that was discovered and has sent its first keepalive.
fn connected(serial: &[u8]) -> CoraTransport<u32> {
    let mut transport = attached(serial);
    let mut buf = Vec::new();
    read(&mut transport.child, &mut buf, &keepalive_frame(7));
    transport
}

fn done(step: ReadStep) -> Result<Vec<u8>, StreamDeckError> {
    match step {
        ReadStep::Done(result) => result,
        ReadStep::Wait(time) => panic!("asked to wait {time:?}"),
    }
}

#[test]
fn discovery_and_child_input() {
    let mut transport = attached(b"A00WA5321KAGU2");
    assert_eq!(transport.info.tcp_port, 20001);
    assert!(!transport.is_connected());
    let mut buf = Vec::new();
    let mut actions = read(&mut transport.child, &mut buf, &keepalive_frame(7));
    match actions.pop() {
        Some(Action::Acknowledge { frame, .. }) => assert_eq!(&frame[16..19], &[3, 26, 7]),
        other => panic!("got {other:?}"),
    }
    assert!(transport.is_connected());
    assert_eq!(transport.device_vid_pid().unwrap(), (0x0fd9, 0x0084));
    assert_eq!(transport.detect_kind().unwrap(), Kind::Plus);

    // With a timeout and nothing queued the caller has to wait.
    let second = Duration::from_secs(2);
    assert!(matches!(transport.read_report(6, Some(second)), ReadStep::Wait(time) if time == second));
    assert!(transport.awaits_report());

    // An input report, split mid-magic.
    let input = encode_frame(flags::NONE, 0x00, 0, &[0x01, 0x00, 0x00, 0x00, 0xAA, 0xBB]);
    assert!(read(&mut transport.child, &mut buf, &input[..3]).is_empty());
    let actions = read(&mut transport.child, &mut buf, &input[3..]);
    assert!(matches!(actions[..], [Action::NotifyInput]));
    assert!(!transport.awaits_report());
    let data = done(transport.read_report(6, Some(second))).unwrap();
    assert_eq!(data, vec![0x01, 0x00, 0x00, 0x00, 0xAA, 0xBB]);

    // No input pending: without a timeout the read ends at once, as "no data".
    assert_eq!(done(transport.read_report(6, None)).unwrap(), vec![0u8; 6]);

    let (frame, written) = transport.write_report(&[0x02, 0x0c]);
    assert_eq!(written, 2);
    let frame = sent(frame);
    assert_eq!(frame.flags, flags::VERBATIM);
    assert_eq!(frame.op, op::WRITE);
    assert_eq!(frame.message_id, 0);
    assert_eq!(frame.payload, [0x02, 0x0c]);
}

#[test]
fn serial_from_discovery_and_firmware_from_the_deck() {
    let mut transport = connected(b"AB12CD34");
    let mut buf = Vec::new();
    assert_eq!(transport.serial_number(Kind::Plus).unwrap(), "AB12CD34");
    assert_eq!(transport.manufacturer().unwrap(), "Elgato");
    assert_eq!(transport.product().unwrap(), "Stream Deck (Network Dock)");

    let request = sent(transport.start_get_feature_report(0x05, 3));
    assert_eq!(request.flags, flags::VERBATIM);
    assert_eq!(request.op, op::GET_REPORT);
    assert_eq!(request.message_id, 1);
    assert_eq!(request.payload, [0x05]);

    let mut response = vec![0u8; 32];
    response[0] = 0x05;
    response[6..14].copy_from_slice(b"1.00.001");
    let bytes = encode_frame(flags::VERBATIM, op::GET_REPORT, 0, &response);
    let mut actions = read(&mut transport.child, &mut buf, &bytes);
    let payload = match actions.pop() {
        Some(Action::Deliver { reply: 3, payload }) => payload,
        other => panic!("got {other:?}"),
    };
    let reply = transport.finish_get_feature_report(0x05, 32, ReportOutcome::Received(payload));
    assert_eq!(reply.as_ref().unwrap().len(), 33);
    assert_eq!(decode_firmware_version(Kind::Plus, reply).unwrap(), "1.00.001");

    // The second answer finds nobody.
    assert!(matches!(read(&mut transport.child, &mut buf, &bytes)[..], [Action::Ignore]));
}

#[test]
fn a_read_waits_at_most_once() {
    let mut transport = connected(b"AB12CD34");
    let mut buf = Vec::new();
    let second = Duration::from_secs(1);

    // Nothing came during the wait.
    assert!(matches!(transport.read_report(4, Some(second)), ReadStep::Wait(time) if time == second));
    assert_eq!(transport.read_after_wait(4).unwrap(), [0; 4]);

    // Two reports came; the read takes the first.
    assert!(matches!(transport.read_report(4, Some(second)), ReadStep::Wait(_)));
    read(&mut transport.child, &mut buf, &encode_frame(flags::NONE, 0, 0, &[1, 0, 5]));
    read(&mut transport.child, &mut buf, &encode_frame(flags::NONE, 0, 0, &[1, 0, 6]));
    assert_eq!(transport.read_after_wait(4).unwrap(), [1, 0, 5, 0]);
    assert_eq!(done(transport.read_report(4, Some(second))).unwrap(), [1, 0, 6, 0]);

    // The connection was lost.
    assert!(matches!(transport.read_report(4, Some(second)), ReadStep::Wait(_)));
    assert!(matches!(transport.child.reader_step(&mut buf, ReaderEvent::Failed), ReaderStep::Finish));
    assert!(matches!(transport.read_after_wait(4), Err(StreamDeckError::Disconnected)));
}

#[test]
fn a_feature_report_with_the_id_of_input_reports_is_read() {
    let mut transport = connected(b"AB12CD34");
    let mut buf = Vec::new();
    let answer = encode_frame(flags::VERBATIM, op::GET_REPORT, 0, &[0x01, 0x00, 0x07]);

    // Input reports that come before the answer are queued, whether tunnelled or not.
    let request = sent(transport.start_get_feature_report(0x01, 3));
    assert_eq!((request.flags, request.op), (flags::VERBATIM, op::GET_REPORT));
    assert_eq!(request.payload, [0x01]);
    for (frame_flags, frame_op) in [(flags::NONE, op::WRITE), (flags::VERBATIM, op::WRITE), (flags::NONE, op::GET_REPORT)] {
        let input = encode_frame(frame_flags, frame_op, 0, &[0x01, 0x00, 0x05]);
        assert!(matches!(read(&mut transport.child, &mut buf, &input)[..], [Action::NotifyInput]));
        assert_eq!(done(transport.read_report(3, None)).unwrap(), [0x01, 0x00, 0x05]);
    }

    // A keepalive and Device 2 info stay what they are.
    let keepalive = encode_frame(flags::VERBATIM, op::GET_REPORT, 0, &[1, 10, 0, 0, 0, 7]);
    assert!(matches!(read(&mut transport.child, &mut buf, &keepalive)[..], [Action::Acknowledge { .. }]));
    let info = encode_frame(flags::VERBATIM, op::GET_REPORT, 0, &[1, 11, 0]);
    assert!(matches!(read(&mut transport.child, &mut buf, &info)[..], [Action::Ignore]));

    // The answer reaches the requester, and is not queued.
    let mut actions = read(&mut transport.child, &mut buf, &answer);
    let payload = match actions.pop() {
        Some(Action::Deliver { reply: 3, payload }) => payload,
        other => panic!("got {other:?}"),
    };
    let report = transport.finish_get_feature_report(0x01, 2, ReportOutcome::Received(payload));
    assert_eq!(report.unwrap(), [0x01, 0x00, 0x07]);
    assert!(transport.awaits_report());

    // Without a request in flight for it, the report is an input report.
    assert!(matches!(read(&mut transport.child, &mut buf, &answer)[..], [Action::NotifyInput]));
    assert_eq!(done(transport.read_report(3, None)).unwrap(), [0x01, 0x00, 0x07]);
}

#[test]
fn sent_feature_reports_are_tunnelled() {
    let transport = connected(b"AB12CD34");
    let frame = sent(transport.send_feature_report(&[0x03, 0x08, 50]));
    assert_eq!((frame.flags, frame.op, frame.message_id), (flags::VERBATIM, op::SEND_REPORT, 0));
    assert_eq!(frame.payload, [0x03, 0x08, 50]);
}

#[test]
fn reads_fail_after_the_connection_is_lost() {
    for event in [ReaderEvent::Read(&[]), ReaderEvent::Failed, ReaderEvent::Stopped] {
        let mut transport = connected(b"AB12CD34");
        let mut buf = Vec::new();
        read(&mut transport.child, &mut buf, &encode_frame(flags::NONE, 0, 0, &[1, 0, 5]));
        transport.start_get_feature_report(0x05, 3);
        assert!(matches!(transport.child.reader_step(&mut buf, event), ReaderStep::Finish));
        assert!(!transport.is_connected());

        // What had arrived is still read, then the loss shows, with and without a timeout.
        let timeout = Some(Duration::from_secs(10));
        assert_eq!(done(transport.read_report(3, timeout)).unwrap(), [1, 0, 5]);
        assert!(matches!(done(transport.read_report(6, timeout)), Err(StreamDeckError::Disconnected)));
        assert!(matches!(done(transport.read_report(6, None)), Err(StreamDeckError::Disconnected)));
        assert!(!transport.awaits_report());

        // The request in flight is gone.
        let result = transport.finish_get_feature_report(0x05, 32, ReportOutcome::Unanswered);
        assert!(matches!(result, Err(StreamDeckError::Disconnected)));
        let late = encode_frame(flags::VERBATIM, op::GET_REPORT, 0, &[0x05, 1]);
        assert!(matches!(read(&mut transport.child, &mut buf, &late)[..], [Action::Ignore]));
    }
}

#[test]
fn coalesced_frames_are_all_dispatched() {
    let mut transport = attached(b"AB12CD34");
    let mut buf = Vec::new();
    let mut batch = keepalive_frame(1);
    batch.extend_from_slice(&encode_frame(flags::NONE, 0x00, 0, &[0x01, 0x00, 0x00, 0x00, 0xAA]));
    batch.extend_from_slice(&encode_frame(flags::NONE, 0x00, 0, &[0x01, 0x00, 0x00, 0x00, 0xBB]));
    let actions = read(&mut transport.child, &mut buf, &batch);
    assert!(matches!(actions[..], [Action::Acknowledge { .. }, Action::NotifyInput, Action::NotifyInput]));
    assert_eq!(done(transport.read_report(5, None)).unwrap(), vec![0x01, 0x00, 0x00, 0x00, 0xAA]);
    assert_eq!(done(transport.read_report(5, None)).unwrap(), vec![0x01, 0x00, 0x00, 0x00, 0xBB]);
}

#[test]
fn every_keepalive_is_acked() {
    let mut transport = attached(b"AB12CD34");
    let mut buf = Vec::new();
    for round in 0..3u8 {
        let bytes = encode_frame(flags::NONE, 0x05, 100 + round as u32, &[1, 10, 0, 0, 0, 7 + round]);
        let mut actions = read(&mut transport.child, &mut buf, &bytes);
        match actions.pop() {
            Some(Action::Acknowledge { frame, newly_connected }) => {
                assert_eq!(newly_connected, round == 0);
                let ack = sent(frame);
                assert_eq!((ack.flags, ack.op, ack.message_id), (flags::ACK_NAK, 0x05, 100 + round as u32));
                let mut expected = vec![3, 26, 7 + round];
                expected.resize(32, 0);
                assert_eq!(ack.payload, expected);
            }
            other => panic!("got {other:?}"),
        }
    }
    read(&mut transport.child, &mut buf, &encode_frame(flags::NONE, 0x00, 0, &[0x01, 0x00, 0x00, 0x00, 0xCC]));
    assert_eq!(done(transport.read_report(5, None)).unwrap(), vec![0x01, 0x00, 0x00, 0x00, 0xCC]);
    assert!(transport.is_connected());
}

#[test]
fn short_keepalives() {
    let mut connection: Connection<u32> = Connection::new();
    let mut buf = Vec::new();
    // Without a byte for it, the connection number is 0.
    let mut actions = read(&mut connection, &mut buf, &encode_frame(flags::NONE, 0, 0, &[1, 10, 9, 9, 9]));
    match actions.pop() {
        Some(Action::Acknowledge { frame, .. }) => assert_eq!(&frame[16..20], &[3, 26, 0, 0]),
        other => panic!("got {other:?}"),
    }
    // Four bytes are no keepalive but an input report.
    let actions = read(&mut connection, &mut buf, &encode_frame(flags::NONE, 0, 0, &[1, 10, 9, 9]));
    assert!(matches!(actions[..], [Action::NotifyInput]));
    assert_eq!(connection.next_report().unwrap(), [1, 10, 9, 9]);
}

#[test]
fn discovery_fails_without_a_deck() {
    match discover(&device2_payload(false, 0, 0, b"", 0)) {
        Discovery::Failed { error: StreamDeckError::Protocol(message) } => {
            assert_eq!(message, "no stream deck attached to network dock")
        }
        _ => panic!("a deck out of nowhere"),
    }
    match discover(&[1, 11, 0]) {
        Discovery::Failed { error: StreamDeckError::Protocol(message) } => {
            assert_eq!(message, "device2 info response too short")
        }
        _ => panic!("a deck out of nowhere"),
    }
    let garbled = device2_payload(true, 0x0fd9, 0x0084, &[0xff], 1);
    assert!(matches!(discover(&garbled), Discovery::Failed { error: StreamDeckError::Utf8Error(_) }));
}

#[test]
fn discovery_tries_addresses_in_turn() {
    let search: Discovery<u32> = CoraTransport::connect(3);
    let search = search.dialed(Err(StreamDeckError::Timeout));
    assert!(matches!(search, Discovery::Dial { candidates: 3, candidate: 1 }));
    let search = search.dialed(Ok(()));
    assert!(matches!(search, Discovery::Query { candidate: 1 }));
    let search = search.answered(Err(StreamDeckError::Disconnected));
    assert!(matches!(search, Discovery::Failed { error: StreamDeckError::Disconnected }));

    let search: Discovery<u32> = CoraTransport::connect(2);
    let search = search.dialed(Err(StreamDeckError::Disconnected));
    let search = search.dialed(Err(StreamDeckError::Timeout));
    assert!(matches!(search, Discovery::Failed { error: StreamDeckError::Timeout }));

    let search: Discovery<u32> = CoraTransport::connect(0);
    match search {
        Discovery::Failed { error: StreamDeckError::InvalidInput(message) } => {
            assert_eq!(message, "address resolved to no candidates")
        }
        _ => panic!("there is nothing to try"),
    }
}

#[test]
fn unknown_decks_are_not_recognized() {
    let mut transport = attached(b"AB12CD34");
    transport.info.product_id = 0xffff;
    assert!(matches!(transport.detect_kind(), Err(StreamDeckError::UnrecognizedPID)));
    transport.info.product_id = 0x0084;
    transport.info.vendor_id = 0x1234;
    assert!(matches!(transport.detect_kind(), Err(StreamDeckError::UnrecognizedPID)));
}

#[test]
fn reports_are_cut_off_or_padded() {
    let mut transport = connected(b"AB12CD34");
    let mut buf = Vec::new();
    let report = encode_frame(flags::NONE, 0, 0, &[1, 2, 3, 4]);
    read(&mut transport.child, &mut buf, &report);
    read(&mut transport.child, &mut buf, &report);
    read(&mut transport.child, &mut buf, &report);
    assert_eq!(done(transport.read_report(2, None)).unwrap(), [1, 2]);
    assert_eq!(done(transport.read_report(6, None)).unwrap(), [1, 2, 3, 4, 0, 0]);
    assert!(done(transport.read_report(0, None)).unwrap().is_empty());
    assert!(done(transport.read_report(0, None)).unwrap().is_empty());

    let outcome = ReportOutcome::Received(vec![6, 1, 2, 3]);
    assert_eq!(transport.finish_get_feature_report(6, 1, outcome).unwrap(), [6, 1]);
}

#[test]
fn requests_end_as_they_must() {
    let mut connection: Connection<u32> = Connection::new();
    let mut buf = Vec::new();
    read(&mut connection, &mut buf, &keepalive_frame(1));
    let answer = encode_frame(flags::NONE, op::GET_REPORT, 0, &[0, 9, 5]);

    // An answer of the dock is matched by its second byte.
    assert_eq!(sent(connection.start_get_report(flags::NONE, &[3, 9], 9, 1)).message_id, 1);
    assert!(matches!(read(&mut connection, &mut buf, &answer)[..], [Action::Deliver { reply: 1, .. }]));

    // A request that timed out gets no late answer.
    assert_eq!(sent(connection.start_get_report(flags::NONE, &[3, 9], 9, 2)).message_id, 2);
    assert!(matches!(connection.finish_get_report(9, ReportOutcome::Unanswered), Err(StreamDeckError::Timeout)));
    assert!(matches!(read(&mut connection, &mut buf, &answer)[..], [Action::Ignore]));

    // Neither does one that was not sent.
    connection.start_get_report(flags::NONE, &[3, 9], 9, 3);
    let outcome = ReportOutcome::NotSent(StreamDeckError::PoisonError);
    assert!(matches!(connection.finish_get_report(9, outcome), Err(StreamDeckError::PoisonError)));
    assert!(matches!(read(&mut connection, &mut buf, &answer)[..], [Action::Ignore]));

    // The latest request under a key gets the answer.
    connection.start_get_report(flags::NONE, &[3, 9], 9, 4);
    connection.start_get_report(flags::NONE, &[3, 9], 9, 5);
    assert!(matches!(read(&mut connection, &mut buf, &answer)[..], [Action::Deliver { reply: 5, .. }]));

    // Frames that belong nowhere are ignored.
    for payload in [&[][..], &[5][..]] {
        let bytes = encode_frame(flags::NONE, 0, 0, payload);
        assert!(matches!(read(&mut connection, &mut buf, &bytes)[..], [Action::Ignore]));
    }
}

#[test]
fn protocol_constants() {
    assert_eq!(DEFAULT_TCP_PORT, 5343);
    assert_eq!(TIMEOUT_MILLIS, 5000);
    assert_eq!((flags::REQ_ACK, flags::RESULT), (0x4000, 0x0100));
}

#[test]
fn an_unsolicited_report_changes_nothing() {
    let mut connection: Connection<u32> = Connection::new();
    let mut buf = Vec::new();
    // A deck is plugged in: the dock says so by itself, and nobody asked.
    let hotplug = encode_frame(flags::NONE, 0, 0, &device2_payload(true, 0x0fd9, 0x0084, b"AB12CD34", 1));
    assert!(matches!(read(&mut connection, &mut buf, &hotplug)[..], [Action::Ignore]));
    assert!(connection.next_report().is_none());
    // Only a keepalive brings the connection up.
    assert!(matches!(connection.wait_connected(), Err(StreamDeckError::Timeout)));
    read(&mut connection, &mut buf, &keepalive_frame(1));
    assert!(connection.is_connected());
    assert!(matches!(connection.resolve_pending(DEVICE2_REPORT, vec![1]), Action::Ignore));
}

#[test]
fn any_split_of_a_stream_does_the_same() {
    let mut stream = keepalive_frame(4);
    stream.extend_from_slice(&encode_frame(flags::NONE, 0, 0, &[1, 0, 7]));
    stream.extend_from_slice(&encode_frame(flags::VERBATIM, op::GET_REPORT, 0, &[5, 6]));
    for size in 1..=stream.len() {
        let mut connection: Connection<u32> = Connection::new();
        connection.start_get_report(flags::VERBATIM, &[5], 5, 11);
        let mut buf = Vec::new();
        let mut actions = Vec::new();
        for chunk in stream.chunks(size) {
            actions.append(&mut read(&mut connection, &mut buf, chunk));
        }
        assert!(matches!(
            actions[..],
            [Action::Acknowledge { newly_connected: true, .. }, Action::NotifyInput, Action::Deliver { reply: 11, .. }]
        ));
        assert!(buf.is_empty());
        assert_eq!(connection.next_report().unwrap(), [1, 0, 7]);
    }
}
