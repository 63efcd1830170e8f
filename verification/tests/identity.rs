use std::time::Duration;

use elgato_streamdeck::info::Kind;
use elgato_streamdeck::transport::{decode_firmware_version, decode_serial_number, firmware_report, name_or_unknown, serial_report, Transport};
use elgato_streamdeck::util::extract_str;
use elgato_streamdeck::StreamDeckError;

/// A device whose feature reports hold their id, then the id again and again up to `prefix` bytes,
/// then `text`, then nuls.
struct Device {
    prefix: usize,
    text: &'static [u8],
}

impl Transport for Device {
    fn read_report(&self, length: usize, _timeout: Option<Duration>) -> Result<Vec<u8>, StreamDeckError> {
        Ok(vec![0; length])
    }

    fn write_report(&self, payload: &[u8]) -> Result<usize, StreamDeckError> {
        Ok(payload.len())
    }

    fn get_feature_report(&self, report_id: u8, length: usize) -> Result<Vec<u8>, StreamDeckError> {
        let mut report = vec![report_id; self.prefix];
        report.extend_from_slice(self.text);
        report.resize(length + 1, 0);
        Ok(report)
    }

    fn send_feature_report(&self, _payload: &[u8]) -> Result<(), StreamDeckError> {
        Ok(())
    }

    fn manufacturer(&self) -> Result<String, StreamDeckError> {
        Ok(name_or_unknown(None))
    }

    fn product(&self) -> Result<String, StreamDeckError> {
        Ok(name_or_unknown(Some("Deck".to_string())))
    }
}

/// A device that does not answer.
struct Mute;

impl Transport for Mute {
    fn read_report(&self, _length: usize, _timeout: Option<Duration>) -> Result<Vec<u8>, StreamDeckError> {
        Err(StreamDeckError::Timeout)
    }

    fn write_report(&self, _payload: &[u8]) -> Result<usize, StreamDeckError> {
        Err(StreamDeckError::Timeout)
    }

    fn get_feature_report(&self, _report_id: u8, _length: usize) -> Result<Vec<u8>, StreamDeckError> {
        Err(StreamDeckError::HidError(hidapi::HidError::InitializationError))
    }

    fn send_feature_report(&self, _payload: &[u8]) -> Result<(), StreamDeckError> {
        Err(StreamDeckError::Timeout)
    }

    fn manufacturer(&self) -> Result<String, StreamDeckError> {
        Err(StreamDeckError::Timeout)
    }

    fn product(&self) -> Result<String, StreamDeckError> {
        Err(StreamDeckError::Timeout)
    }
}

#[test]
fn identity_reports_depend_on_the_kind() {
    let fields = |field: elgato_streamdeck::transport::TextField| (field.report_id, field.length, field.offset);
    assert_eq!(fields(serial_report(Kind::Original)), (0x03, 17, 5));
    assert_eq!(fields(serial_report(Kind::Mini)), (0x03, 17, 5));
    assert_eq!(fields(serial_report(Kind::MiniMk2)), (0x03, 32, 5));
    assert_eq!(fields(serial_report(Kind::MiniDiscord)), (0x03, 32, 5));
    assert_eq!(fields(serial_report(Kind::MiniMk2Module)), (0x03, 32, 5));
    assert_eq!(fields(serial_report(Kind::Plus)), (0x06, 32, 2));
    assert_eq!(fields(firmware_report(Kind::Original)), (0x04, 17, 5));
    assert_eq!(fields(firmware_report(Kind::Mini)), (0x04, 17, 5));
    assert_eq!(fields(firmware_report(Kind::MiniMk2)), (0x04, 17, 5));
    assert_eq!(fields(firmware_report(Kind::MiniDiscord)), (0x04, 17, 5));
    assert_eq!(fields(firmware_report(Kind::MiniMk2Module)), (0xA1, 17, 5));
    assert_eq!(fields(firmware_report(Kind::Plus)), (0x05, 32, 6));
}

#[test]
fn serial_number_is_read_from_the_report() {
    let deck = Device { prefix: 2, text: b"AB\x0112" };
    assert_eq!(deck.serial_number(Kind::Xl).unwrap(), "AB12");
    let mini = Device { prefix: 5, text: b"MINI" };
    assert_eq!(mini.serial_number(Kind::Mini).unwrap(), "MINI");
    // The text begins at the offset, wherever that is in what the device sent.
    assert_eq!(mini.serial_number(Kind::Xl).unwrap(), "\u{6}\u{6}\u{6}MINI");
    assert!(matches!(Mute.serial_number(Kind::Xl), Err(StreamDeckError::HidError(_))));
}

#[test]
fn firmware_version_is_read_from_the_report() {
    let plus = Device { prefix: 6, text: b"1.00.001" };
    assert_eq!(plus.firmware_version(Kind::Plus).unwrap(), "1.00.001");
    let module = Device { prefix: 5, text: b"2\x01.0" };
    // Control character 1 is left out of serial numbers only.
    assert_eq!(module.firmware_version(Kind::MiniMk2Module).unwrap(), "2\u{1}.0");
    assert!(matches!(Mute.firmware_version(Kind::Plus), Err(StreamDeckError::HidError(_))));
}

#[test]
fn identity_text_must_be_utf8() {
    let broken = Device { prefix: 6, text: &[0xc3] };
    assert!(matches!(broken.firmware_version(Kind::Plus), Err(StreamDeckError::Utf8Error(_))));
    assert!(matches!(decode_serial_number(Kind::Plus, Ok(vec![6, 32, 0xff])), Err(StreamDeckError::Utf8Error(_))));
    // A report that ends where the text begins holds none.
    assert_eq!(decode_serial_number(Kind::Plus, Ok(vec![6, 32])).unwrap(), "");
    assert_eq!(decode_firmware_version(Kind::Plus, Ok(vec![5; 6])).unwrap(), "");
}

#[test]
fn the_utf8_error_is_that_of_the_text() {
    for bytes in [&[0x80][..], b"ab\xff", b"a\0\xc3", &[0xe2, 0x82]] {
        let expected = std::str::from_utf8(bytes).unwrap_err();
        match extract_str(bytes) {
            Err(StreamDeckError::Utf8Error(e)) => assert_eq!(e, expected),
            other => panic!("got {other:?}"),
        }
        let mut report = vec![6, 32];
        report.extend_from_slice(bytes);
        match decode_serial_number(Kind::Plus, Ok(report)) {
            Err(StreamDeckError::Utf8Error(e)) => assert_eq!(e, expected),
            other => panic!("got {other:?}"),
        }
    }
}

#[test]
fn extract_str_leaves_nuls_out() {
    assert_eq!(extract_str(b"a\0b\0\0").unwrap(), "ab");
    assert_eq!(extract_str("gr\u{fc}n\0".as_bytes()).unwrap(), "gr\u{fc}n");
    assert_eq!(extract_str(b"").unwrap(), "");
    assert!(matches!(extract_str(&[0x80]), Err(StreamDeckError::Utf8Error(_))));
}

#[test]
fn nameless_devices_are_unknown() {
    let device = Device { prefix: 0, text: b"" };
    assert_eq!(device.manufacturer().unwrap(), "Unknown");
    assert_eq!(device.product().unwrap(), "Deck");
}
