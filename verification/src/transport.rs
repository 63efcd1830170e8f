//! Transport abstraction for Stream Deck devices.
//!
//! A [`Transport`] moves raw report bytes to and from a device; it performs no per-device
//! encoding. What the identity reports of each [`Kind`] look like stands here too.

use core::time::Duration;

use vstd::prelude::*;

use crate::error::StreamDeckError;
use crate::info::Kind;
use crate::util;

pub mod cora;

pub use cora::{CoraTransport, DEFAULT_TCP_PORT};

verus! {

/// A text field of a feature report.
#[derive(Debug, Clone, Copy, PartialEq, Eq, Structural)]
pub struct TextField {
    /// Id of the report.
    pub report_id: u8,
    /// Length of the report, without the id byte in front of it.
    pub length: usize,
    /// Where the text begins in the report with the id byte in front of it.
    pub offset: usize,
}

impl TextField {
    /// Whether the text begins within the report.
    pub open spec fn wf(self) -> bool {
        self.offset <= self.length < usize::MAX
    }
}

/// Where a device of this kind reports its serial number.
pub open spec fn serial_field(kind: Kind) -> TextField {
    match kind {
        Kind::Original | Kind::Mini => TextField { report_id: 0x03, length: 17, offset: 5 },
        Kind::MiniMk2 | Kind::MiniDiscord | Kind::MiniMk2Module => TextField {
            report_id: 0x03,
            length: 32,
            offset: 5,
        },
        _ => TextField { report_id: 0x06, length: 32, offset: 2 },
    }
}

/// Where a device of this kind reports its firmware version.
pub open spec fn firmware_field(kind: Kind) -> TextField {
    match kind {
        Kind::Original | Kind::Mini | Kind::MiniMk2 | Kind::MiniDiscord => TextField {
            report_id: 0x04,
            length: 17,
            offset: 5,
        },
        Kind::MiniMk2Module => TextField { report_id: 0xA1, length: 17, offset: 5 },
        _ => TextField { report_id: 0x05, length: 32, offset: 6 },
    }
}

/// Looks up where a device of this kind reports its serial number.
pub fn serial_report(kind: Kind) -> (field: TextField)
    ensures
        field == serial_field(kind),
        field.wf(),
{
    match kind {
        Kind::Original | Kind::Mini => TextField { report_id: 0x03, length: 17, offset: 5 },
        Kind::MiniMk2 | Kind::MiniDiscord | Kind::MiniMk2Module => TextField {
            report_id: 0x03,
            length: 32,
            offset: 5,
        },
        _ => TextField { report_id: 0x06, length: 32, offset: 2 },
    }
}

/// Looks up where a device of this kind reports its firmware version.
pub fn firmware_report(kind: Kind) -> (field: TextField)
    ensures
        field == firmware_field(kind),
        field.wf(),
{
    match kind {
        Kind::Original | Kind::Mini | Kind::MiniMk2 | Kind::MiniDiscord => TextField {
            report_id: 0x04,
            length: 17,
            offset: 5,
        },
        Kind::MiniMk2Module => TextField { report_id: 0xA1, length: 17, offset: 5 },
        _ => TextField { report_id: 0x05, length: 32, offset: 6 },
    }
}

/// Whether `res` is the firmware version that a device of this kind reports, given the reply to
/// the request for the report that holds it.
pub open spec fn is_firmware_version(
    kind: Kind,
    reply: Result<Vec<u8>, StreamDeckError>,
    res: Result<String, StreamDeckError>,
) -> bool {
    match reply {
        Err(e) => res == Err::<String, StreamDeckError>(e),
        Ok(bytes) => {
            let text = bytes@.skip(firmware_field(kind).offset as int);
            match res {
                Ok(version) => vstd::utf8::valid_utf8(text) && version@ == util::text_of(text),
                Err(e) => {
                    &&& !vstd::utf8::valid_utf8(text)
                    &&& e == StreamDeckError::Utf8Error(util::utf8_error(text))
                },
            }
        },
    }
}

/// Whether `res` is the serial number that a device of this kind reports, given the reply to the
/// request for the report that holds it.
pub open spec fn is_serial_number(
    kind: Kind,
    reply: Result<Vec<u8>, StreamDeckError>,
    res: Result<String, StreamDeckError>,
) -> bool {
    match reply {
        Err(e) => res == Err::<String, StreamDeckError>(e),
        Ok(bytes) => {
            let text = bytes@.skip(serial_field(kind).offset as int);
            match res {
                Ok(serial) => {
                    &&& vstd::utf8::valid_utf8(text)
                    &&& serial@ == util::without(util::text_of(text), '\u{1}')
                },
                Err(e) => {
                    &&& !vstd::utf8::valid_utf8(text)
                    &&& e == StreamDeckError::Utf8Error(util::utf8_error(text))
                },
            }
        },
    }
}

/// Reads the serial number out of the reply to the request for the report that holds it. Besides
/// nuls, characters with code 1 are left out.
pub fn decode_serial_number(kind: Kind, reply: Result<Vec<u8>, StreamDeckError>) -> (res: Result<
    String,
    StreamDeckError,
>)
    requires
        reply matches Ok(bytes) ==> serial_field(kind).offset <= bytes@.len(),
    ensures
        is_serial_number(kind, reply, res),
{
    match reply {
        Ok(bytes) => {
            let offset: usize = serial_report(kind).offset;
            let text = vstd::slice::slice_subrange(bytes.as_slice(), offset, bytes.len());
            assert(text@ =~= bytes@.skip(offset as int));
            match util::extract_str(text) {
                Ok(serial) => Ok(util::remove_char(serial.as_str(), '\u{1}')),
                Err(e) => Err(e),
            }
        },
        Err(e) => Err(e),
    }
}

/// Reads the firmware version out of the reply to the request for the report that holds it.
pub fn decode_firmware_version(kind: Kind, reply: Result<Vec<u8>, StreamDeckError>) -> (res: Result<
    String,
    StreamDeckError,
>)
    requires
        reply matches Ok(bytes) ==> firmware_field(kind).offset <= bytes@.len(),
    ensures
        is_firmware_version(kind, reply, res),
{
    match reply {
        Ok(bytes) => {
            let offset: usize = firmware_report(kind).offset;
            let text = vstd::slice::slice_subrange(bytes.as_slice(), offset, bytes.len());
            assert(text@ =~= bytes@.skip(offset as int));
            util::extract_str(text)
        },
        Err(e) => Err(e),
    }
}

/// The name that a device goes by when it reports none.
pub fn name_or_unknown(name: Option<String>) -> (res: String)
    ensures
        match name {
            Some(text) => res == text,
            None => res@ == "Unknown"@,
        },
{
    match name {
        Some(text) => text,
        None => "Unknown".to_string(),
    }
}

/// A raw byte sink/source for Stream Deck HID reports.
///
/// A transport only moves raw report bytes to and from the device; it performs no per-device
/// encoding. Implement this to add a new way of reaching a Stream Deck (e.g. over TCP).
///
/// `Send` is required so that whatever drives a deck through a transport can be moved across
/// threads.
pub trait Transport: Send {
    /// Reads a single input report of `length` bytes. Waits for one up to `timeout`; without a
    /// timeout it does not wait. Where no report comes, all bytes are zero.
    fn read_report(&self, length: usize, timeout: Option<Duration>) -> (res: Result<
        Vec<u8>,
        StreamDeckError,
    >)
        ensures
            res matches Ok(report) ==> report@.len() == length,
    ;

    /// Writes an output report (HID interrupt OUT, or a CORA `WRITE`).
    fn write_report(&self, payload: &[u8]) -> Result<usize, StreamDeckError>;

    /// Reads a feature report with the given report id. Returns the report bytes with the id byte
    /// prepended, i.e. `length + 1` bytes.
    fn get_feature_report(&self, report_id: u8, length: usize) -> (res: Result<
        Vec<u8>,
        StreamDeckError,
    >)
        requires
            length < usize::MAX,
        ensures
            res matches Ok(report) ==> report@.len() == length + 1,
    ;

    /// Sends a feature report. `payload[0]` is the report id.
    fn send_feature_report(&self, payload: &[u8]) -> Result<(), StreamDeckError>;

    /// Device manufacturer string.
    fn manufacturer(&self) -> Result<String, StreamDeckError>;

    /// Device product string.
    fn product(&self) -> Result<String, StreamDeckError>;

    /// Reads the device's serial number.
    ///
    /// The default implementation reads it via the USB feature reports, with the report id and
    /// string offset selected per [`Kind`]. Transports whose identity protocol differs (such as
    /// CORA) override this.
    fn serial_number(&self, kind: Kind) -> (res: Result<String, StreamDeckError>)
        default_ensures
            exists|reply: Result<Vec<u8>, StreamDeckError>|
                {
                    &&& #[trigger] call_ensures(
                        Self::get_feature_report,
                        (self, serial_field(kind).report_id, serial_field(kind).length),
                        reply,
                    )
                    &&& is_serial_number(kind, reply, res)
                },
    {
        let field = serial_report(kind);
        let reply = self.get_feature_report(field.report_id, field.length);
        decode_serial_number(kind, reply)
    }

    /// Reads the device's firmware version.
    ///
    /// The default implementation reads it via the USB feature reports, with the report id and
    /// string offset selected per [`Kind`]. Transports whose identity protocol differs (such as
    /// CORA) override this.
    fn firmware_version(&self, kind: Kind) -> (res: Result<String, StreamDeckError>)
        default_ensures
            exists|reply: Result<Vec<u8>, StreamDeckError>|
                {
                    &&& #[trigger] call_ensures(
                        Self::get_feature_report,
                        (self, firmware_field(kind).report_id, firmware_field(kind).length),
                        reply,
                    )
                    &&& is_firmware_version(kind, reply, res)
                },
    {
        let field = firmware_report(kind);
        let reply = self.get_feature_report(field.report_id, field.length);
        decode_firmware_version(kind, reply)
    }
}

/// A firmware version that the device reports in ASCII, padded with nuls, is read as it is.
pub proof fn an_ascii_firmware_version_is_read_as_it_is(
    kind: Kind,
    report: Vec<u8>,
    version: Seq<u8>,
    padding: nat,
    res: Result<String, StreamDeckError>,
)
    requires
        forall|i: int| 0 <= i < version.len() ==> 0 < #[trigger] version[i] < 128,
        report@.skip(firmware_field(kind).offset as int) == version + Seq::new(
            padding,
            |i: int| 0u8,
        ),
        is_firmware_version(kind, Ok(report), res),
    ensures
        res matches Ok(text) && text@ == util::ascii_text(version),
{
    util::padded_ascii_is_its_own_text(version, padding);
}

/// A serial number that the device reports in ASCII, padded with nuls and without control
/// character 1, is read as it is.
pub proof fn an_ascii_serial_number_is_read_as_it_is(
    kind: Kind,
    report: Vec<u8>,
    serial: Seq<u8>,
    padding: nat,
    res: Result<String, StreamDeckError>,
)
    requires
        forall|i: int| 0 <= i < serial.len() ==> 1 < #[trigger] serial[i] < 128,
        report@.skip(serial_field(kind).offset as int) == serial + Seq::new(
            padding,
            |i: int| 0u8,
        ),
        is_serial_number(kind, Ok(report), res),
    ensures
        res matches Ok(text) && text@ == util::ascii_text(serial),
{
    util::padded_ascii_is_its_own_text(serial, padding);
    util::lemma_without_absent(util::ascii_text(serial), '\u{1}');
}

/// The serial number is asked for as report 0x03 of 17 bytes on the first decks, as report 0x03 of
/// 32 bytes on the later 6-key decks, and as report 0x06 of 32 bytes on all others. On the first
/// two groups it is the text from byte 5 on, and on the others from byte 2 on, nuls and characters
/// with code 1 left out. A request that fails is what is wrong.
pub proof fn the_serial_number_is_read_where_the_kind_has_it(
    kind: Kind,
    report: Vec<u8>,
    error: StreamDeckError,
    res: Result<String, StreamDeckError>,
)
    ensures
        ({
            let first = kind == Kind::Original || kind == Kind::Mini;
            let small = kind == Kind::MiniMk2 || kind == Kind::MiniDiscord || kind
                == Kind::MiniMk2Module;
            let text = report@.skip(
                if first || small {
                    5
                } else {
                    2
                },
            );
            &&& serial_field(kind).report_id == if first || small {
                0x03
            } else {
                0x06int
            }
            &&& serial_field(kind).length == if first {
                17
            } else {
                32int
            }
            &&& serial_field(kind).offset == if first || small {
                5
            } else {
                2int
            }
            &&& is_serial_number(kind, Ok(report), res) <==> match res {
                Ok(serial) => {
                    &&& vstd::utf8::valid_utf8(text)
                    &&& serial@ == util::without(
                        util::without(vstd::utf8::decode_utf8(text), '\0'),
                        '\u{1}',
                    )
                },
                Err(e) => {
                    &&& !vstd::utf8::valid_utf8(text)
                    &&& e == StreamDeckError::Utf8Error(util::utf8_error(text))
                },
            }
            &&& is_serial_number(kind, Err(error), res) <==> res == Err::<String, StreamDeckError>(
                error,
            )
        }),
{
}

/// The firmware version is asked for as report 0x04 of 17 bytes on the first decks and the later
/// 6-key decks, as report 0xA1 of 17 bytes on the 6-key module, and as report 0x05 of 32 bytes on
/// all others. On the decks named it is the text from byte 5 on, and on the others from byte 6 on,
/// nuls left out. A request that fails is what is wrong.
pub proof fn the_firmware_version_is_read_where_the_kind_has_it(
    kind: Kind,
    report: Vec<u8>,
    error: StreamDeckError,
    res: Result<String, StreamDeckError>,
)
    ensures
        ({
            let small = kind == Kind::Original || kind == Kind::Mini || kind == Kind::MiniMk2 || kind
                == Kind::MiniDiscord;
            let module = kind == Kind::MiniMk2Module;
            let text = report@.skip(
                if small || module {
                    5
                } else {
                    6
                },
            );
            &&& firmware_field(kind).report_id == if small {
                0x04
            } else if module {
                0xA1
            } else {
                0x05int
            }
            &&& firmware_field(kind).length == if small || module {
                17
            } else {
                32int
            }
            &&& firmware_field(kind).offset == if small || module {
                5
            } else {
                6int
            }
            &&& is_firmware_version(kind, Ok(report), res) <==> match res {
                Ok(version) => {
                    &&& vstd::utf8::valid_utf8(text)
                    &&& version@ == util::without(vstd::utf8::decode_utf8(text), '\0')
                },
                Err(e) => {
                    &&& !vstd::utf8::valid_utf8(text)
                    &&& e == StreamDeckError::Utf8Error(util::utf8_error(text))
                },
            }
            &&& is_firmware_version(kind, Err(error), res) <==> res == Err::<
                String,
                StreamDeckError,
            >(error)
        }),
{
}

/// The table of the serial number's reports, by the numbers.
pub proof fn the_serial_report_of_each_kind(kind: Kind, field: TextField)
    requires
        call_ensures(serial_report, (kind,), field),
    ensures
        if kind == Kind::Original || kind == Kind::Mini {
            field.report_id == 0x03 && field.length == 17 && field.offset == 5
        } else if kind == Kind::MiniMk2 || kind == Kind::MiniDiscord || kind == Kind::MiniMk2Module {
            field.report_id == 0x03 && field.length == 32 && field.offset == 5
        } else {
            field.report_id == 0x06 && field.length == 32 && field.offset == 2
        },
{
}

/// The table of the firmware version's reports, by the numbers.
pub proof fn the_firmware_report_of_each_kind(kind: Kind, field: TextField)
    requires
        call_ensures(firmware_report, (kind,), field),
    ensures
        if kind == Kind::Original || kind == Kind::Mini || kind == Kind::MiniMk2 || kind
            == Kind::MiniDiscord {
            field.report_id == 0x04 && field.length == 17 && field.offset == 5
        } else if kind == Kind::MiniMk2Module {
            field.report_id == 0xA1 && field.length == 17 && field.offset == 5
        } else {
            field.report_id == 0x05 && field.length == 32 && field.offset == 6
        },
{
}

/// Decoding reads the serial number and the firmware version where the kind has them, and hands a
/// failed request on.
pub proof fn decoding_reads_where_the_kind_has_it(
    kind: Kind,
    reply: Result<Vec<u8>, StreamDeckError>,
    serial: Result<String, StreamDeckError>,
    version: Result<String, StreamDeckError>,
)
    requires
        call_ensures(decode_serial_number, (kind, reply), serial),
        call_ensures(decode_firmware_version, (kind, reply), version),
    ensures
        is_serial_number(kind, reply, serial),
        is_firmware_version(kind, reply, version),
        reply matches Err(e) ==> {
            &&& serial == Err::<String, StreamDeckError>(e)
            &&& version == Err::<String, StreamDeckError>(e)
        },
{
}

/// A device that reports a name goes by it, and one that reports none is unknown.
pub proof fn a_device_goes_by_its_name(name: Option<String>, res: String)
    requires
        call_ensures(name_or_unknown, (name,), res),
    ensures
        name matches Some(text) ==> res@ == text@,
        name is None ==> res@ == "Unknown"@,
{
}

} // verus!
