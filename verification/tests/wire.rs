use elgato_streamdeck::info::Kind;
use elgato_streamdeck::transport::cora::device2::parse_device2_info;
use elgato_streamdeck::transport::cora::flags;
use elgato_streamdeck::transport::cora::frame::{encode_frame, find_subslice, next_frame, HEADER_LEN, MAGIC, MAX_PAYLOAD};
use elgato_streamdeck::transport::cora::op;
use elgato_streamdeck::StreamDeckError;

/// Builds a 512-byte Device 2 info payload like a real dock's.
fn device2_payload(connected: bool, vid: u16, pid: u16, serial: &[u8], tcp_port: u16) -> Vec<u8> {
    let mut p = vec![0u8; 512];
    p[0] = 0x01;
    p[1] = 0x0b;
    p[4] = if connected { 0x02 } else { 0x00 };
    p[26..28].copy_from_slice(&vid.to_le_bytes());
    p[28..30].copy_from_slice(&pid.to_le_bytes());
    p[94..94 + serial.len()].copy_from_slice(serial);
    p[126..128].copy_from_slice(&tcp_port.to_le_bytes());
    p
}

#[test]
fn encode_frame_has_exact_layout() {
    let frame = encode_frame(flags::VERBATIM, op::WRITE, 0x0102_0304, &[0xAA, 0xBB]);
    assert_eq!(&frame[0..4], &MAGIC);
    assert_eq!(&frame[4..6], &0x8000u16.to_le_bytes()); // VERBATIM, LE
    assert_eq!(frame[6], 0x00); // WRITE
    assert_eq!(frame[7], 0x00); // unused
    assert_eq!(&frame[8..12], &0x0102_0304u32.to_le_bytes()); // message id, LE
    assert_eq!(&frame[12..16], &2u32.to_le_bytes()); // payload length, LE
    assert_eq!(&frame[16..18], &[0xAA, 0xBB]);
}

#[test]
fn find_subslice_locates_magic() {
    assert_eq!(find_subslice(&[0, 1, 0x43, 0x93, 0x8a, 0x41, 9], &MAGIC), Some(2));
    assert_eq!(find_subslice(&[0, 1, 2, 3], &MAGIC), None);
}

#[test]
fn find_subslice_edges() {
    assert_eq!(find_subslice(&[1, 2, 3], &[]), None);
    assert_eq!(find_subslice(&[], &[]), None);
    assert_eq!(find_subslice(&[1, 2], &[1, 2, 3]), None);
    assert_eq!(find_subslice(&[1, 1, 2, 1, 2], &[1, 2]), Some(1));
    assert_eq!(find_subslice(&[1, 2, 3], &[3]), Some(2));
    assert_eq!(find_subslice(&[7, 8], &[7, 8]), Some(0));
}

#[test]
fn parse_device2_info_extracts_fields() {
    let payload = device2_payload(true, 0x0fd9, 0x0084, b"A00WA5321KAGU2", 20001);
    let info = parse_device2_info(&payload).unwrap().unwrap();
    assert_eq!(info.vendor_id, 0x0fd9);
    assert_eq!(info.product_id, 0x0084);
    assert_eq!(info.serial_number, "A00WA5321KAGU2");
    assert_eq!(info.tcp_port, 20001);
    assert_eq!(Kind::from_vid_pid(info.vendor_id, info.product_id), Some(Kind::Plus));
}

#[test]
fn parse_device2_info_no_deck_attached() {
    let payload = device2_payload(false, 0, 0, b"", 0);
    assert!(parse_device2_info(&payload).unwrap().is_none());
    assert!(parse_device2_info(&[0u8; 16]).is_err());
}

#[test]
fn parse_device2_info_reads_the_described_bytes_only() {
    // Everything but the status, the ids, the port and the serial up to its nul is noise.
    let noisy = |serial: &[u8], length: usize| {
        let mut p = vec![0xEE; length];
        let plain = device2_payload(true, 0x0fd9, 0x0084, serial, 20001);
        for range in [4..5, 26..30, 94..95 + serial.len(), 126..128] {
            p[range.clone()].copy_from_slice(&plain[range]);
        }
        p
    };
    for length in [128, 129, 512] {
        let info = parse_device2_info(&noisy(b"A00WA5321KAGU2", length)).unwrap().unwrap();
        assert_eq!((info.vendor_id, info.product_id, info.tcp_port), (0x0fd9, 0x0084, 20001));
        assert_eq!(info.serial_number, "A00WA5321KAGU2");
        match parse_device2_info(&noisy(b"AB\xff", length)) {
            Err(StreamDeckError::Utf8Error(e)) => assert_eq!(e, std::str::from_utf8(b"AB\xff").unwrap_err()),
            other => panic!("got {other:?}"),
        }
    }
}

#[test]
fn parse_device2_info_length_limit() {
    let mut payload = device2_payload(true, 0x0fd9, 0x006c, b"XL", 9);
    payload.truncate(128);
    let info = parse_device2_info(&payload).unwrap().unwrap();
    assert_eq!((info.product_id, info.tcp_port), (0x006c, 9));
    payload.truncate(127);
    match parse_device2_info(&payload) {
        Err(StreamDeckError::Protocol(message)) => assert_eq!(message, "device2 info response too short"),
        other => panic!("got {other:?}"),
    }
}

#[test]
fn parse_device2_info_serial_edges() {
    // The serial field is 31 bytes long: a serial that fills it has no nul behind it.
    let full = [b'S'; 31];
    let info = parse_device2_info(&device2_payload(true, 1, 2, &full, 3)).unwrap().unwrap();
    assert_eq!(info.serial_number.len(), 31);
    // What follows the first nul does not belong to the serial.
    let info = parse_device2_info(&device2_payload(true, 1, 2, b"AB\0CD", 3)).unwrap().unwrap();
    assert_eq!(info.serial_number, "AB");
    // Text that is not UTF-8 is refused.
    let result = parse_device2_info(&device2_payload(true, 1, 2, &[0xff, 0xfe], 3));
    assert!(matches!(result, Err(StreamDeckError::Utf8Error(_))));
    // ... unless no deck is attached.
    let result = parse_device2_info(&device2_payload(false, 1, 2, &[0xff, 0xfe], 3));
    assert!(matches!(result, Ok(None)));
}

#[test]
fn known_devices_are_recognized() {
    assert_eq!(Kind::from_vid_pid(0x0fd9, 0x0060), Some(Kind::Original));
    assert_eq!(Kind::from_vid_pid(0x0fd9, 0x0063), Some(Kind::Mini));
    assert_eq!(Kind::from_vid_pid(0x0fd9, 0x0084), Some(Kind::Plus));
    assert_eq!(Kind::from_vid_pid(0x0fd9, 0xffff), None);
    assert_eq!(Kind::from_vid_pid(0x1234, 0x0084), None);
}

#[test]
fn encoded_frames_are_read_back_in_order() {
    let mut stream = encode_frame(flags::ACK_NAK, op::GET_REPORT, 0xfffe_fdfc, &[1, 2, 3]);
    stream.extend_from_slice(&encode_frame(flags::NONE, op::SEND_REPORT, 7, &[]));
    stream.extend_from_slice(&[0x43, 0x93, 0x8a]);
    let first = next_frame(&mut stream).unwrap();
    assert_eq!((first.flags, first.op, first.message_id), (0x0200, 0x02, 0xfffe_fdfc));
    assert_eq!(first.payload, [1, 2, 3]);
    let second = next_frame(&mut stream).unwrap();
    assert_eq!((second.flags, second.op, second.message_id), (0, 1, 7));
    assert!(second.payload.is_empty());
    assert!(next_frame(&mut stream).is_none());
    assert_eq!(stream, [0x43, 0x93, 0x8a]);
}

#[test]
fn reading_does_not_depend_on_the_split() {
    let mut stream = vec![9, 9, 0x43, 0x93, 9];
    stream.extend_from_slice(&encode_frame(flags::VERBATIM, op::WRITE, 1, &[5, 6]));
    stream.extend_from_slice(&[0x43]);
    for at in 0..=stream.len() {
        let mut buf = stream[..at].to_vec();
        let mut frames = Vec::new();
        while let Some(frame) = next_frame(&mut buf) {
            frames.push(frame.payload);
        }
        buf.extend_from_slice(&stream[at..]);
        while let Some(frame) = next_frame(&mut buf) {
            frames.push(frame.payload);
        }
        assert_eq!(frames, vec![vec![5u8, 6]], "split at {at}");
        assert_eq!(buf, [0x43], "split at {at}");
    }
}

#[test]
fn junk_is_dropped_but_for_a_possible_magic() {
    let mut buf = vec![1, 2, 3, 4, 5, 6];
    assert!(next_frame(&mut buf).is_none());
    assert_eq!(buf, [4, 5, 6]);
    let mut short = vec![1, 2, 3];
    assert!(next_frame(&mut short).is_none());
    assert_eq!(short, [1, 2, 3]);
}

#[test]
fn an_absurd_length_is_skipped() {
    let mut stream = encode_frame(flags::NONE, op::WRITE, 0, &[]);
    stream[12..16].copy_from_slice(&(MAX_PAYLOAD as u32 + 1).to_le_bytes());
    stream.extend_from_slice(&encode_frame(flags::NONE, op::WRITE, 3, &[8]));
    let frame = next_frame(&mut stream).unwrap();
    assert_eq!(frame.message_id, 3);
    assert_eq!(frame.payload, [8]);
    assert!(stream.is_empty());
}

#[test]
fn the_longest_payload_is_read() {
    let payload = vec![0x5au8; MAX_PAYLOAD];
    let mut stream = encode_frame(flags::NONE, op::WRITE, 0, &payload);
    assert_eq!(stream.len(), HEADER_LEN + (1 << 20));
    let last = stream.pop().unwrap();
    assert!(next_frame(&mut stream).is_none());
    assert_eq!(stream.len(), HEADER_LEN + MAX_PAYLOAD - 1);
    stream.push(last);
    assert_eq!(next_frame(&mut stream).unwrap().payload, payload);
    assert!(stream.is_empty());
}
