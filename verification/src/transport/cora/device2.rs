//! The dock's "Device 2" info report: the deck that is attached to it.

use vstd::prelude::*;

use super::frame;
use crate::error::StreamDeckError;
use crate::util;
use crate::util::extract_str;

verus! {

/// The attached deck as described by the dock's "Device 2" info report (`GET_REPORT 0x1c`).
#[derive(Debug, Clone)]
pub struct Device2Info {
    /// The deck's USB vendor id.
    pub vendor_id: u16,
    /// The deck's USB product id.
    pub product_id: u16,
    /// The deck's serial number.
    pub serial_number: String,
    /// TCP port on the dock's address where the deck itself is served.
    pub tcp_port: u16,
}

/// What a [`Device2Info`] says.
#[verifier::ext_equal]
pub struct Device2View {
    pub vendor_id: u16,
    pub product_id: u16,
    pub serial_number: Seq<char>,
    pub tcp_port: u16,
}

impl View for Device2Info {
    type V = Device2View;

    open spec fn view(&self) -> Device2View {
        Device2View {
            vendor_id: self.vendor_id,
            product_id: self.product_id,
            serial_number: self.serial_number@,
            tcp_port: self.tcp_port,
        }
    }
}

/// The shortest Device 2 info report that holds every field.
pub const DEVICE2_MIN_LEN: usize = 128;

/// The bytes in front of the first nul, or all of them.
pub open spec fn until_nul(bytes: Seq<u8>) -> Seq<u8>
    decreases bytes.len(),
{
    if bytes.len() == 0 || bytes[0] == 0 {
        seq![]
    } else {
        seq![bytes[0]] + until_nul(bytes.skip(1))
    }
}

/// Whether a report says that a deck is attached.
pub open spec fn deck_attached(payload: Seq<u8>) -> bool {
    payload[4] == 2
}

/// The bytes of the deck's serial number: a nul-padded string in bytes `[94..125]`.
pub open spec fn serial_bytes(payload: Seq<u8>) -> Seq<u8> {
    until_nul(payload.subrange(94, 125))
}

/// The deck that a report describes.
pub open spec fn described_deck(payload: Seq<u8>) -> Device2View {
    Device2View {
        vendor_id: frame::u16_at(payload, 26),
        product_id: frame::u16_at(payload, 28),
        serial_number: util::text_of(serial_bytes(payload)),
        tcp_port: frame::u16_at(payload, 126),
    }
}

/// What a report says: the deck that it describes, none when no deck is attached, or what is wrong
/// with it.
pub open spec fn device2_info(payload: Seq<u8>) -> Result<Option<Device2View>, StreamDeckError> {
    if payload.len() < DEVICE2_MIN_LEN {
        Err(StreamDeckError::Protocol("device2 info response too short"))
    } else if !deck_attached(payload) {
        Ok(None)
    } else if !vstd::utf8::valid_utf8(serial_bytes(payload)) {
        Err(StreamDeckError::Utf8Error(util::utf8_error(serial_bytes(payload))))
    } else {
        Ok(Some(described_deck(payload)))
    }
}

/// Where the bytes in front of the first nul are those in front of index `n`.
proof fn lemma_until_nul(bytes: Seq<u8>, n: int)
    requires
        0 <= n <= bytes.len(),
        forall|i: int| 0 <= i < n ==> bytes[i] != 0,
        n < bytes.len() ==> bytes[n] == 0,
    ensures
        until_nul(bytes) == bytes.take(n),
    decreases n,
{
    if n == 0 {
        assert(bytes.take(0) =~= seq![]);
    } else {
        lemma_until_nul(bytes.skip(1), n - 1);
        assert(seq![bytes[0]] + bytes.skip(1).take(n - 1) =~= bytes.take(n));
    }
}

/// Parses a Device 2 info payload (`[0x01, 0x0b, ...]`). Returns `Ok(None)` when the report is
/// well-formed but no deck is attached to the dock (status byte is not 2).
pub fn parse_device2_info(payload: &[u8]) -> (res: Result<Option<Device2Info>, StreamDeckError>)
    ensures
        device2_info(payload@) == match res {
            Ok(Some(info)) => Ok::<Option<Device2View>, StreamDeckError>(Some(info@)),
            Ok(None) => Ok(None),
            Err(e) => Err(e),
        },
{
    if payload.len() < DEVICE2_MIN_LEN {
        return Err(StreamDeckError::Protocol("device2 info response too short"));
    }
    if payload[4] != 2 {
        return Ok(None);
    }
    let vendor_id: u16 = frame::read_u16(payload, 26);
    let product_id: u16 = frame::read_u16(payload, 28);
    let mut end: usize = 94;
    while end < 125 && payload[end] != 0
        invariant
            94 <= end <= 125 <= payload@.len(),
            forall|i: int| 94 <= i < end ==> payload@[i] != 0,
        decreases 125 - end,
    {
        end += 1;
    }
    proof {
        lemma_until_nul(payload@.subrange(94, 125), end - 94);
        assert(payload@.subrange(94, 125).take(end - 94) =~= payload@.subrange(94, end as int));
    }
    let serial_number = match extract_str(vstd::slice::slice_subrange(payload, 94, end)) {
        Ok(text) => text,
        Err(e) => {
            return Err(e);
        },
    };
    let tcp_port: u16 = frame::read_u16(payload, 126);
    Ok(Some(Device2Info { vendor_id, product_id, serial_number, tcp_port }))
}

/// The bytes in front of the first nul hold none, and are followed by one or by nothing.
proof fn lemma_until_nul_ends_at_nul(bytes: Seq<u8>)
    ensures
        until_nul(bytes).len() <= bytes.len(),
        forall|i: int| 0 <= i < until_nul(bytes).len() ==> #[trigger] bytes[i] != 0,
        until_nul(bytes).len() < bytes.len() ==> bytes[until_nul(bytes).len() as int] == 0,
    decreases bytes.len(),
{
    if bytes.len() > 0 && bytes[0] != 0 {
        let rest = bytes.skip(1);
        lemma_until_nul_ends_at_nul(rest);
        assert forall|i: int| 0 <= i < until_nul(bytes).len() implies #[trigger] bytes[i] != 0 by {
            if i > 0 {
                assert(rest[i - 1] == bytes[i]);
            }
        }
    }
}

/// What a report says depends on the status byte, the ids, the port, and the serial number up to
/// its first nul. Nothing else matters: not the first bytes, not what follows the nul, not byte
/// 125, not what comes behind the port, not the length.
pub proof fn only_the_described_bytes_matter(p: Seq<u8>, q: Seq<u8>)
    requires
        p.len() >= DEVICE2_MIN_LEN,
        q.len() >= DEVICE2_MIN_LEN,
        p[4] == q[4],
        forall|i: int| 26 <= i < 30 ==> #[trigger] p[i] == q[i],
        forall|i: int|
            94 <= i < 125 && i <= 94 + serial_bytes(p).len() ==> #[trigger] p[i] == q[i],
        forall|i: int| 126 <= i < 128 ==> #[trigger] p[i] == q[i],
    ensures
        device2_info(p) == device2_info(q),
{
    let n = serial_bytes(p).len() as int;
    let field_p = p.subrange(94, 125);
    let field_q = q.subrange(94, 125);
    lemma_until_nul_ends_at_nul(field_p);
    assert forall|i: int| 0 <= i < 31 && i <= n implies field_p[i] == field_q[i] by {
        assert(field_p[i] == p[94 + i]);
    }
    lemma_until_nul(field_p, n);
    lemma_until_nul(field_q, n);
    assert(field_p.take(n) =~= field_q.take(n));
}

/// A serial number that the dock reports in ASCII, padded with nuls, is read as it is.
pub proof fn an_ascii_serial_is_read_as_it_is(payload: Seq<u8>, serial: Seq<u8>)
    requires
        payload.len() >= DEVICE2_MIN_LEN,
        serial.len() <= 31,
        forall|i: int| 0 <= i < serial.len() ==> 0 < #[trigger] serial[i] < 128,
        payload.subrange(94, 94int + serial.len()) == serial,
        serial.len() < 31 ==> payload[94int + serial.len()] == 0,
    ensures
        vstd::utf8::valid_utf8(serial_bytes(payload)),
        described_deck(payload).serial_number == util::ascii_text(serial),
{
    let field = payload.subrange(94, 125);
    assert forall|i: int| 0 <= i < serial.len() implies field[i] != 0 by {
        assert(payload.subrange(94, 94int + serial.len())[i] == serial[i]);
    }
    lemma_until_nul(field, serial.len() as int);
    assert(field.take(serial.len() as int) =~= serial);
    util::padded_ascii_is_its_own_text(serial, 0);
    assert(serial + Seq::new(0, |i: int| 0u8) =~= serial);
}

/// The serial number stands from byte 94 on, ends in front of its first nul, and is at most 31 bytes
/// long.
pub proof fn the_serial_number_ends_at_its_nul(payload: Seq<u8>)
    requires
        payload.len() >= 128,
    ensures
        ({
            let n = serial_bytes(payload).len();
            &&& n <= 31
            &&& serial_bytes(payload) == payload.subrange(94, 94int + n)
            &&& forall|i: int| 94 <= i < 94 + n ==> #[trigger] payload[i] != 0
            &&& n < 31 ==> payload[94int + n] == 0
        }),
{
    let field = payload.subrange(94, 125);
    let n = serial_bytes(payload).len() as int;
    lemma_until_nul_ends_at_nul(field);
    lemma_until_nul(field, n);
    assert(field.take(n) =~= payload.subrange(94, 94 + n));
    assert forall|i: int| 94 <= i < 94 + n implies #[trigger] payload[i] != 0 by {
        assert(field[i - 94] == payload[i]);
    }
}

/// A report of an attached deck (byte 4 is 2) gives the vendor id in bytes 26 and 27, the product
/// id in 28 and 29 and the port in 126 and 127, low byte first and each number whole, and the text
/// of the `n` bytes in front of the first nul from byte 94 on. Where those are not UTF-8, they are
/// what is wrong with the report.
pub proof fn a_deck_is_described_at_fixed_offsets(payload: Seq<u8>, n: int)
    requires
        payload.len() >= 128,
        payload[4] == 2,
        0 <= n <= 31,
        forall|i: int| 94 <= i < 94 + n ==> #[trigger] payload[i] != 0,
        n < 31 ==> payload[94 + n] == 0,
    ensures
        ({
            let serial = payload.subrange(94, 94 + n);
            if vstd::utf8::valid_utf8(serial) {
                &&& device2_info(payload) matches Ok(Some(deck))
                &&& deck.vendor_id == payload[26] + 0x100 * payload[27]
                &&& deck.product_id == payload[28] + 0x100 * payload[29]
                &&& deck.tcp_port == payload[126] + 0x100 * payload[127]
                &&& deck.serial_number == util::without(vstd::utf8::decode_utf8(serial), '\0')
            } else {
                device2_info(payload) == Err::<Option<Device2View>, StreamDeckError>(
                    StreamDeckError::Utf8Error(util::utf8_error(serial)),
                )
            }
        }),
{
    let field = payload.subrange(94, 125);
    assert forall|i: int| 0 <= i < n implies field[i] != 0 by {
        assert(field[i] == payload[94 + i]);
    }
    lemma_until_nul(field, n);
    assert(field.take(n) =~= payload.subrange(94, 94 + n));
}

/// A report of less than 128 bytes is too short, whatever it holds. One whose byte 4 is not 2 says
/// that no deck is attached.
pub proof fn a_report_without_a_deck_describes_none(payload: Seq<u8>)
    ensures
        payload.len() < 128 ==> (device2_info(payload) matches Err(StreamDeckError::Protocol(m))
            && m@ == "device2 info response too short"@),
        payload.len() >= 128 && payload[4] != 2 ==> device2_info(payload) == Ok::<
            Option<Device2View>,
            StreamDeckError,
        >(None),
{
}

/// A description says what it holds.
pub proof fn a_description_says_what_it_holds(info: Device2Info)
    ensures
        info@.vendor_id == info.vendor_id,
        info@.product_id == info.product_id,
        info@.serial_number == info.serial_number@,
        info@.tcp_port == info.tcp_port,
{
}

/// Parsing a report gives the deck that it describes with the numbers that stand at their offsets,
/// low byte first, and the text of the serial number; none where byte 4 is not 2; and an error where
/// the report is too short or the serial number is not UTF-8.
pub proof fn parsing_reads_the_fixed_offsets(
    payload: &[u8],
    res: Result<Option<Device2Info>, StreamDeckError>,
)
    requires
        call_ensures(parse_device2_info, (payload,), res),
    ensures
        ({
            let p = payload@;
            let n = serial_bytes(p).len() as int;
            let serial = p.subrange(94, 94 + n);
            if p.len() < 128 {
                res matches Err(StreamDeckError::Protocol(message)) && message@
                    == "device2 info response too short"@
            } else if p[4] != 2 {
                res matches Ok(None)
            } else if vstd::utf8::valid_utf8(serial) {
                &&& res matches Ok(Some(info))
                &&& info.vendor_id == p[26] + 0x100 * p[27]
                &&& info.product_id == p[28] + 0x100 * p[29]
                &&& info.tcp_port == p[126] + 0x100 * p[127]
                &&& info.serial_number@ == util::without(vstd::utf8::decode_utf8(serial), '\0')
            } else {
                res matches Err(StreamDeckError::Utf8Error(e)) && e == util::utf8_error(serial)
            }
        }),
{
    a_report_without_a_deck_describes_none(payload@);
    if payload@.len() >= 128 && payload@[4] == 2 {
        the_serial_number_ends_at_its_nul(payload@);
        a_deck_is_described_at_fixed_offsets(payload@, serial_bytes(payload@).len() as int);
    }
}

} // verus!
