//! The CORA wire format: encoding frames, and cutting a received byte stream back into frames.
//!
//! ```text
//! frame = 16-byte header + payload
//!   [0..4]   magic  = 43 93 8a 41
//!   [4..6]   flags  u16 LE
//!   [6]      hid op u8
//!   [7]      unused
//!   [8..12]  message id u32 LE
//!   [12..16] payload length u32 LE
//!   [16..]   payload
//! ```

use vstd::prelude::*;

verus! {

/// The bytes that every frame starts with.
pub const MAGIC: [u8; 4] = [0x43, 0x93, 0x8a, 0x41];

/// Length of a frame header.
pub const HEADER_LEN: usize = 16;

/// Cap on a frame's advertised payload length: a longer one is taken for corruption.
pub const MAX_PAYLOAD: usize = 0x10_0000;

/// The little-endian bytes of a 16-bit number.
pub open spec fn le16(x: u16) -> Seq<u8> {
    seq![(x % 0x100) as u8, (x / 0x100) as u8]
}

/// The little-endian bytes of a 32-bit number.
pub open spec fn le32(x: u32) -> Seq<u8> {
    seq![
        (x % 0x100) as u8,
        (x / 0x100 % 0x100) as u8,
        (x / 0x1_0000 % 0x100) as u8,
        (x / 0x100_0000) as u8,
    ]
}

/// The number whose little-endian bytes stand in `bytes` at `at`, two of them.
pub open spec fn u16_at(bytes: Seq<u8>, at: int) -> u16 {
    (bytes[at] + 0x100 * bytes[at + 1]) as u16
}

/// The number whose little-endian bytes stand in `bytes` at `at`, four of them.
pub open spec fn u32_at(bytes: Seq<u8>, at: int) -> u32 {
    (bytes[at] + 0x100 * bytes[at + 1] + 0x1_0000 * bytes[at + 2] + 0x100_0000 * bytes[at
        + 3]) as u32
}

/// A received frame.
#[derive(Debug)]
pub struct Frame {
    /// Flag bits, see [`flags`](super::flags).
    pub flags: u16,
    /// HID operation, see [`op`](super::op).
    pub op: u8,
    /// Message id chosen by the sender.
    pub message_id: u32,
    /// Payload, without the header.
    pub payload: Vec<u8>,
}

/// What a frame says.
#[verifier::ext_equal]
pub struct FrameView {
    pub flags: u16,
    pub op: u8,
    pub message_id: u32,
    pub payload: Seq<u8>,
}

impl View for Frame {
    type V = FrameView;

    open spec fn view(&self) -> FrameView {
        FrameView {
            flags: self.flags,
            op: self.op,
            message_id: self.message_id,
            payload: self.payload@,
        }
    }
}

impl FrameView {
    /// The frame on the wire. A payload too long for the 32-bit length field has its length cut
    /// to the low 32 bits there.
    pub open spec fn bytes(self) -> Seq<u8> {
        MAGIC@ + le16(self.flags) + seq![self.op, 0] + le32(self.message_id) + le32(
            (self.payload.len() % 0x1_0000_0000) as u32,
        ) + self.payload
    }
}

/// Encodes a CORA frame: 16-byte header followed by `payload`.
pub fn encode_frame(frame_flags: u16, frame_op: u8, message_id: u32, payload: &[u8]) -> (frame: Vec<
    u8,
>)
    ensures
        frame@ == (FrameView {
            flags: frame_flags,
            op: frame_op,
            message_id,
            payload: payload@,
        }).bytes(),
        frame@.len() == 16 + payload@.len(),
        frame@.subrange(0, 4) == seq![0x43u8, 0x93, 0x8a, 0x41],
        frame@[4] + 0x100 * frame@[5] == frame_flags,
        frame@[6] == frame_op,
        frame@[7] == 0,
        frame@[8] + 0x100 * frame@[9] + 0x1_0000 * frame@[10] + 0x100_0000 * frame@[11]
            == message_id,
        frame@[12] + 0x100 * frame@[13] + 0x1_0000 * frame@[14] + 0x100_0000 * frame@[15]
            == payload@.len() % 0x1_0000_0000,
        frame@.skip(16) == payload@,
{
    let len: u32 = (payload.len() as u64 % 0x1_0000_0000) as u32;
    let mut buf: Vec<u8> = Vec::with_capacity(HEADER_LEN);
    buf.extend_from_slice(&MAGIC);
    push_le16(&mut buf, frame_flags);
    buf.push(frame_op);
    buf.push(0);  // byte 7 is unused
    push_le32(&mut buf, message_id);
    push_le32(&mut buf, len);
    buf.extend_from_slice(payload);
    proof {
        let view = FrameView { flags: frame_flags, op: frame_op, message_id, payload: payload@ };
        assert(buf@ == view.bytes());
        an_encoded_frame_has_the_wire_layout(view);
        assert(buf@.subrange(0, 4) =~= seq![0x43u8, 0x93, 0x8a, 0x41]);
    }
    buf
}

/// Appends a 16-bit number in little-endian order.
fn push_le16(buf: &mut Vec<u8>, x: u16)
    ensures
        final(buf)@ == old(buf)@ + le16(x),
{
    buf.push((x % 0x100) as u8);
    buf.push((x / 0x100) as u8);
}

/// Appends a 32-bit number in little-endian order.
fn push_le32(buf: &mut Vec<u8>, x: u32)
    ensures
        final(buf)@ == old(buf)@ + le32(x),
{
    buf.push((x % 0x100) as u8);
    buf.push((x / 0x100 % 0x100) as u8);
    buf.push((x / 0x1_0000 % 0x100) as u8);
    buf.push((x / 0x100_0000) as u8);
}

/// Reads a 16-bit number in little-endian order.
pub(crate) fn read_u16(bytes: &[u8], at: usize) -> (x: u16)
    requires
        at + 2 <= bytes@.len(),
    ensures
        x == u16_at(bytes@, at as int),
{
    bytes[at] as u16 + 0x100 * (bytes[at + 1] as u16)
}

/// Reads a 32-bit number in little-endian order.
fn read_u32(bytes: &[u8], at: usize) -> (x: u32)
    requires
        at + 4 <= bytes@.len(),
    ensures
        x == u32_at(bytes@, at as int),
{
    bytes[at] as u32 + 0x100 * (bytes[at + 1] as u32) + 0x1_0000 * (bytes[at + 2] as u32)
        + 0x100_0000 * (bytes[at + 3] as u32)
}

/// Whether `needle` stands in `haystack` at index `at`.
pub open spec fn occurs_at(haystack: Seq<u8>, needle: Seq<u8>, at: int) -> bool {
    &&& 0 <= at
    &&& at + needle.len() <= haystack.len()
    &&& haystack.subrange(at, at + needle.len()) == needle
}

/// Whether `needle` stands in `haystack` at an index below `end`.
pub open spec fn occurs_before(haystack: Seq<u8>, needle: Seq<u8>, end: int) -> bool {
    exists|j: int| j < end && #[trigger] occurs_at(haystack, needle, j)
}

/// Whether `needle` stands in `haystack` at index `at`.
fn is_at(haystack: &[u8], needle: &[u8], at: usize) -> (res: bool)
    requires
        at + needle@.len() <= haystack@.len(),
    ensures
        res == occurs_at(haystack@, needle@, at as int),
{
    let total: usize = haystack.len();
    let mut i: usize = 0;
    while i < needle.len()
        invariant
            i <= needle@.len(),
            total == haystack@.len(),
            at + needle@.len() <= haystack@.len(),
            forall|k: int| 0 <= k < i ==> haystack@[at + k] == needle@[k],
        decreases needle@.len() - i,
    {
        if haystack[at + i] != needle[i] {
            assert(haystack@.subrange(at as int, at + needle@.len())[i as int] != needle@[i as int]);
            return false;
        }
        i += 1;
    }
    assert(haystack@.subrange(at as int, at + needle@.len()) =~= needle@);
    true
}

/// Returns the index of the first occurrence of `needle` in `haystack`. An empty needle is never
/// found.
pub fn find_subslice(haystack: &[u8], needle: &[u8]) -> (res: Option<usize>)
    ensures
        match res {
            Some(index) => {
                &&& needle@.len() > 0
                &&& occurs_at(haystack@, needle@, index as int)
                &&& forall|j: int| 0 <= j < index ==> !occurs_at(haystack@, needle@, j)
            },
            None => needle@.len() == 0 || forall|j: int| !occurs_at(haystack@, needle@, j),
        },
        res matches Some(index) ==> !occurs_before(haystack@, needle@, index as int),
        res is None && needle@.len() > 0 ==> !occurs_before(
            haystack@,
            needle@,
            haystack@.len() as int,
        ),
{
    if needle.len() == 0 || haystack.len() < needle.len() {
        return None;
    }
    let total: usize = haystack.len();
    let last: usize = total - needle.len();
    let mut at: usize = 0;
    while at <= last
        invariant
            needle@.len() > 0,
            total == haystack@.len(),
            last + needle@.len() == total,
            at <= last + 1,
            forall|j: int| 0 <= j < at ==> !occurs_at(haystack@, needle@, j),
        decreases last + 1 - at,
    {
        if is_at(haystack, needle, at) {
            return Some(at);
        }
        at += 1;
    }
    None
}

/// A byte stream cut into frames.
#[verifier::ext_equal]
pub struct Reframed {
    /// The whole frames, in the order in which they stand in the stream.
    pub frames: Seq<FrameView>,
    /// The bytes at the end of the stream that are still to be completed.
    pub rest: Seq<u8>,
}

/// The payload length that a header advertises.
pub open spec fn advertised_len(buf: Seq<u8>) -> int {
    u32_at(buf, 12) as int
}

/// The frame that `buf` starts with.
pub open spec fn first_frame(buf: Seq<u8>) -> FrameView {
    FrameView {
        flags: u16_at(buf, 4),
        op: buf[6],
        message_id: u32_at(buf, 8),
        payload: buf.subrange(HEADER_LEN as int, HEADER_LEN + advertised_len(buf)),
    }
}

/// Cuts a byte stream into frames. Bytes that do not start with the magic are skipped one by one,
/// as long as a magic could still begin later; a magic with an absurd length behind it is skipped
/// as well; a frame that is not all there yet stays where it is.
pub open spec fn reframe(buf: Seq<u8>) -> Reframed
    decreases buf.len(),
{
    if buf.len() < MAGIC@.len() {
        Reframed { frames: seq![], rest: buf }
    } else if !occurs_at(buf, MAGIC@, 0) {
        reframe(buf.skip(1))
    } else if buf.len() < HEADER_LEN {
        Reframed { frames: seq![], rest: buf }
    } else if advertised_len(buf) > MAX_PAYLOAD {
        reframe(buf.skip(MAGIC@.len() as int))
    } else if buf.len() < HEADER_LEN + advertised_len(buf) {
        Reframed { frames: seq![], rest: buf }
    } else {
        let tail = reframe(buf.skip(HEADER_LEN + advertised_len(buf)));
        Reframed { frames: seq![first_frame(buf)] + tail.frames, rest: tail.rest }
    }
}

/// Bytes in front of a suffix of a stream are skipped where no magic begins at any of them.
proof fn lemma_skip_to(buf: Seq<u8>, n: int)
    requires
        0 <= n,
        n + MAGIC@.len() <= buf.len() + 1,
        forall|j: int| 0 <= j < n ==> !occurs_at(buf, MAGIC@, j),
    ensures
        reframe(buf) == reframe(buf.skip(n)),
    decreases n,
{
    if n == 0 {
        assert(buf.skip(0) =~= buf);
    } else {
        let shorter = buf.skip(1);
        assert(!occurs_at(buf, MAGIC@, 0));
        assert forall|j: int| 0 <= j < n - 1 implies !occurs_at(shorter, MAGIC@, j) by {
            assert(!occurs_at(buf, MAGIC@, j + 1));
            if j + MAGIC@.len() <= shorter.len() {
                assert(shorter.subrange(j, j + MAGIC@.len()) =~= buf.subrange(
                    j + 1,
                    j + 1 + MAGIC@.len(),
                ));
            }
        }
        lemma_skip_to(shorter, n - 1);
        assert(shorter.skip(n - 1) =~= buf.skip(n));
    }
}

/// Drops the first `n` bytes of a buffer.
fn drop_front(buf: &mut Vec<u8>, n: usize)
    requires
        n <= old(buf)@.len(),
    ensures
        final(buf)@ == old(buf)@.skip(n as int),
{
    let rest = buf.split_off(n);
    *buf = rest;
    assert(buf@ =~= old(buf)@.skip(n as int));
}

/// Takes the first whole frame out of `buf`, together with everything in front of it. Where there
/// is none, only the bytes that may still become one stay in `buf`.
pub fn next_frame(buf: &mut Vec<u8>) -> (res: Option<Frame>)
    ensures
        match res {
            Some(frame) => {
                let all = reframe(old(buf)@);
                &&& all.frames.len() > 0
                &&& frame@ == all.frames[0]
                &&& reframe(final(buf)@) == (Reframed {
                    frames: all.frames.skip(1),
                    rest: all.rest,
                })
                &&& final(buf)@.len() < old(buf)@.len()
            },
            None => reframe(old(buf)@) == (Reframed { frames: seq![], rest: final(buf)@ }),
        },
{
    loop
        invariant
            reframe(buf@) == reframe(old(buf)@),
            buf@.len() <= old(buf)@.len(),
        decreases buf@.len(),
    {
        // Resync to the magic bytes if necessary.
        if buf.len() < MAGIC.len() {
            return None;
        }
        if !is_at(buf, &MAGIC, 0) {
            match find_subslice(buf, &MAGIC) {
                Some(index) => {
                    let ghost whole = buf@;
                    proof {
                        lemma_skip_to(buf@, index as int);
                    }
                    drop_front(buf, index);
                    assert(buf@.subrange(0, MAGIC@.len() as int) =~= whole.subrange(
                        index as int,
                        index + MAGIC@.len(),
                    ));
                },
                None => {
                    // Keep the last few bytes in case the magic is split across reads.
                    let start: usize = buf.len() - (MAGIC.len() - 1);
                    proof {
                        lemma_skip_to(buf@, start as int);
                    }
                    drop_front(buf, start);
                    return None;
                },
            }
        }
        if buf.len() < HEADER_LEN {
            return None;
        }
        let payload_len: usize = read_u32(buf, 12) as usize;
        if payload_len > MAX_PAYLOAD {
            // Almost certainly desync: skip this magic and search for the next.
            drop_front(buf, MAGIC.len());
            continue ;
        }
        if buf.len() < HEADER_LEN + payload_len {
            return None;  // wait for the rest of the payload
        }
        let frame_flags: u16 = read_u16(buf, 4);
        let frame_op: u8 = buf[6];
        let message_id: u32 = read_u32(buf, 8);
        let ghost whole = buf@;
        let rest = buf.split_off(HEADER_LEN + payload_len);
        let payload = buf.split_off(HEADER_LEN);
        *buf = rest;
        assert(payload@ =~= first_frame(whole).payload);
        assert(buf@ =~= whole.skip(HEADER_LEN + payload_len));
        let frame = Frame { flags: frame_flags, op: frame_op, message_id, payload };
        assert(reframe(whole).frames.skip(1) =~= reframe(buf@).frames);
        return Some(frame);
    }
}

/// The header of an encoded frame describes the frame, and nothing else: from the bytes alone the
/// frame can be told, whatever follows it.
pub proof fn a_header_describes_its_frame(frame: FrameView, tail: Seq<u8>)
    requires
        frame.payload.len() < 0x1_0000_0000,
    ensures
        occurs_at(frame.bytes() + tail, MAGIC@, 0),
        advertised_len(frame.bytes() + tail) == frame.payload.len(),
        first_frame(frame.bytes() + tail) == frame,
        frame.bytes().len() == HEADER_LEN + frame.payload.len(),
{
    let buf = frame.bytes() + tail;
    let len = frame.payload.len();
    assert(buf.subrange(0, 4) =~= MAGIC@);
    assert(buf[4] == le16(frame.flags)[0] && buf[5] == le16(frame.flags)[1]);
    assert(forall|i: int| 0 <= i < 4 ==> buf[8 + i] == #[trigger] le32(frame.message_id)[i]);
    assert(forall|i: int| 0 <= i < 4 ==> buf[12 + i] == #[trigger] le32(len as u32)[i]);
    lemma_le16_read_back(buf, 4, frame.flags);
    lemma_le32_read_back(buf, 8, frame.message_id);
    lemma_le32_read_back(buf, 12, len as u32);
    assert(buf.subrange(HEADER_LEN as int, HEADER_LEN + len) =~= frame.payload);
    assert(first_frame(buf) =~= frame);
}

/// A frame that was encoded is read back as it was: in front of any further bytes, the encoded
/// frame is the first frame of the stream, and the further bytes are read as if they stood alone.
pub proof fn encoded_frame_is_read_back(frame: FrameView, tail: Seq<u8>)
    requires
        frame.payload.len() <= MAX_PAYLOAD,
    ensures
        reframe(frame.bytes() + tail) == (Reframed {
            frames: seq![frame] + reframe(tail).frames,
            rest: reframe(tail).rest,
        }),
{
    let buf = frame.bytes() + tail;
    a_header_describes_its_frame(frame, tail);
    assert(buf.skip(HEADER_LEN + frame.payload.len()) =~= tail);
}

/// A frame that advertises more than the cap is taken for corruption: reading goes on right behind
/// its magic.
pub proof fn an_oversized_frame_is_skipped(frame: FrameView, tail: Seq<u8>)
    requires
        MAX_PAYLOAD < frame.payload.len() < 0x1_0000_0000,
    ensures
        reframe(frame.bytes() + tail) == reframe((frame.bytes() + tail).skip(MAGIC@.len() as int)),
{
    a_header_describes_its_frame(frame, tail);
}

/// The little-endian bytes of a 16-bit number read back as that number.
proof fn lemma_le16_read_back(buf: Seq<u8>, at: int, x: u16)
    requires
        buf[at] == le16(x)[0],
        buf[at + 1] == le16(x)[1],
    ensures
        u16_at(buf, at) == x,
{
}

/// The little-endian bytes of a 32-bit number read back as that number.
proof fn lemma_le32_read_back(buf: Seq<u8>, at: int, x: u32)
    requires
        buf[at] == le32(x)[0],
        buf[at + 1] == le32(x)[1],
        buf[at + 2] == le32(x)[2],
        buf[at + 3] == le32(x)[3],
    ensures
        u32_at(buf, at) == x,
{
}

/// Several frames on the wire, one behind the other.
pub open spec fn wire(frames: Seq<FrameView>) -> Seq<u8>
    decreases frames.len(),
{
    if frames.len() == 0 {
        seq![]
    } else {
        frames[0].bytes() + wire(frames.skip(1))
    }
}

/// Frames that arrive together are all read, in order, whatever follows them.
pub proof fn coalesced_frames_are_all_read(frames: Seq<FrameView>, tail: Seq<u8>)
    requires
        forall|i: int| 0 <= i < frames.len() ==> (#[trigger] frames[i]).payload.len() <= MAX_PAYLOAD,
    ensures
        reframe(wire(frames) + tail) == (Reframed {
            frames: frames + reframe(tail).frames,
            rest: reframe(tail).rest,
        }),
    decreases frames.len(),
{
    if frames.len() == 0 {
        assert(wire(frames) + tail =~= tail);
        assert(frames + reframe(tail).frames =~= reframe(tail).frames);
    } else {
        let others = frames.skip(1);
        coalesced_frames_are_all_read(others, tail);
        encoded_frame_is_read_back(frames[0], wire(others) + tail);
        assert(wire(frames) + tail =~= frames[0].bytes() + (wire(others) + tail));
        assert(seq![frames[0]] + (others + reframe(tail).frames) =~= frames + reframe(tail).frames);
    }
}

/// Where a stream is split into reads does not matter: cutting the first part into frames, and
/// then what it left together with the second part, gives what cutting the whole at once gives.
pub proof fn split_reads_give_the_same_frames(first: Seq<u8>, second: Seq<u8>)
    ensures
        reframe(first + second) == (Reframed {
            frames: reframe(first).frames + reframe(reframe(first).rest + second).frames,
            rest: reframe(reframe(first).rest + second).rest,
        }),
    decreases first.len(),
{
    let whole = first + second;
    let again = reframe(reframe(first).rest + second);
    if first.len() < MAGIC@.len() {
        assert(reframe(first).frames + again.frames =~= again.frames);
    } else {
        assert(whole.subrange(0, MAGIC@.len() as int) =~= first.subrange(0, MAGIC@.len() as int));
        if !occurs_at(first, MAGIC@, 0) {
            split_reads_give_the_same_frames(first.skip(1), second);
            assert(whole.skip(1) =~= first.skip(1) + second);
        } else if first.len() < HEADER_LEN {
            assert(reframe(first).frames + again.frames =~= again.frames);
        } else {
            assert(advertised_len(whole) == advertised_len(first));
            let end = HEADER_LEN + advertised_len(first);
            if advertised_len(first) > MAX_PAYLOAD {
                split_reads_give_the_same_frames(first.skip(MAGIC@.len() as int), second);
                assert(whole.skip(MAGIC@.len() as int) =~= first.skip(MAGIC@.len() as int) + second);
            } else if first.len() < end {
                assert(reframe(first).frames + again.frames =~= again.frames);
            } else {
                split_reads_give_the_same_frames(first.skip(end), second);
                assert(whole.skip(end) =~= first.skip(end) + second);
                assert(first_frame(whole) =~= first_frame(first));
                assert(reframe(whole).frames =~= reframe(first).frames + again.frames);
            }
        }
    }
}

/// Bytes in front of a frame are skipped, provided that no magic begins among them.
pub proof fn reading_resumes_at_the_next_frame(junk: Seq<u8>, frame: FrameView, tail: Seq<u8>)
    requires
        frame.payload.len() <= MAX_PAYLOAD,
        forall|j: int| 0 <= j < junk.len() ==> !occurs_at(junk + frame.bytes(), MAGIC@, j),
    ensures
        reframe(junk + frame.bytes() + tail) == (Reframed {
            frames: seq![frame] + reframe(tail).frames,
            rest: reframe(tail).rest,
        }),
{
    let buf = junk + frame.bytes() + tail;
    assert forall|j: int| 0 <= j < junk.len() implies !occurs_at(buf, MAGIC@, j) by {
        assert(!occurs_at(junk + frame.bytes(), MAGIC@, j));
        assert(buf.subrange(j, j + MAGIC@.len()) =~= (junk + frame.bytes()).subrange(
            j,
            j + MAGIC@.len(),
        ));
    }
    lemma_skip_to(buf, junk.len() as int);
    assert(buf.skip(junk.len() as int) =~= frame.bytes() + tail);
    encoded_frame_is_read_back(frame, tail);
}

/// What is left of a stream is its end, holds no whole frame, stays as it is until more bytes
/// come, and is shorter than the longest frame.
pub proof fn rest_is_incomplete(buf: Seq<u8>)
    ensures
        reframe(buf).rest.len() <= buf.len(),
        reframe(buf).rest == buf.skip(buf.len() - reframe(buf).rest.len()),
        reframe(reframe(buf).rest) == (Reframed { frames: seq![], rest: reframe(buf).rest }),
        reframe(buf).rest.len() < HEADER_LEN + MAX_PAYLOAD,
    decreases buf.len(),
{
    if buf.len() < MAGIC@.len() {
        assert(buf.skip(0) =~= buf);
    } else if !occurs_at(buf, MAGIC@, 0) {
        rest_is_incomplete(buf.skip(1));
        lemma_end_of_end(buf, 1);
    } else if buf.len() < HEADER_LEN {
        assert(buf.skip(0) =~= buf);
    } else if advertised_len(buf) > MAX_PAYLOAD {
        rest_is_incomplete(buf.skip(MAGIC@.len() as int));
        lemma_end_of_end(buf, MAGIC@.len() as int);
    } else if buf.len() < HEADER_LEN + advertised_len(buf) {
        assert(buf.skip(0) =~= buf);
    } else {
        rest_is_incomplete(buf.skip(HEADER_LEN + advertised_len(buf)));
        lemma_end_of_end(buf, HEADER_LEN + advertised_len(buf));
    }
}

/// The end of a stream's end is the stream's end.
proof fn lemma_end_of_end(buf: Seq<u8>, n: int)
    requires
        0 <= n <= buf.len(),
    ensures
        forall|k: int|
            0 <= k <= buf.len() - n ==> #[trigger] buf.skip(n).skip(k) == buf.skip(n + k),
{
    assert forall|k: int| 0 <= k <= buf.len() - n implies #[trigger] buf.skip(n).skip(k)
        == buf.skip(n + k) by {
        assert(buf.skip(n).skip(k) =~= buf.skip(n + k));
    }
}

/// On the wire every field of a frame stands where the format has it: the magic in bytes 0 to 3,
/// the flags in 4 and 5, the operation in 6, a zero in 7, the message id in 8 to 11, the payload
/// length in 12 to 15, all numbers with the low byte first, and the payload behind.
pub proof fn an_encoded_frame_has_the_wire_layout(frame: FrameView)
    ensures
        ({
            let b = frame.bytes();
            &&& b.len() == 16 + frame.payload.len()
            &&& b[0] == 0x43 && b[1] == 0x93 && b[2] == 0x8a && b[3] == 0x41
            &&& b[4] + 0x100 * b[5] == frame.flags
            &&& b[6] == frame.op
            &&& b[7] == 0
            &&& b[8] + 0x100 * b[9] + 0x1_0000 * b[10] + 0x100_0000 * b[11] == frame.message_id
            &&& b[12] + 0x100 * b[13] + 0x1_0000 * b[14] + 0x100_0000 * b[15] == frame.payload.len()
                % 0x1_0000_0000
            &&& b.skip(16) == frame.payload
        }),
{
    let b = frame.bytes();
    let len = (frame.payload.len() % 0x1_0000_0000) as u32;
    assert(b[4] == le16(frame.flags)[0] && b[5] == le16(frame.flags)[1]);
    assert(forall|i: int| 0 <= i < 4 ==> b[8 + i] == #[trigger] le32(frame.message_id)[i]);
    assert(forall|i: int| 0 <= i < 4 ==> b[12 + i] == #[trigger] le32(len)[i]);
    lemma_le16_read_back(b, 4, frame.flags);
    lemma_le32_read_back(b, 8, frame.message_id);
    lemma_le32_read_back(b, 12, len);
    assert(b.skip(16) =~= frame.payload);
}

/// Whether the four bytes that every frame starts with stand in `buf` at index `at`.
pub open spec fn magic_at(buf: Seq<u8>, at: int) -> bool {
    &&& 0 <= at && at + 4 <= buf.len()
    &&& buf[at] == 0x43 && buf[at + 1] == 0x93 && buf[at + 2] == 0x8a && buf[at + 3] == 0x41
}

/// The payload length that stands in a header: bytes 12 to 15, low byte first.
pub open spec fn length_field(buf: Seq<u8>) -> int {
    buf[12] + 0x100 * buf[13] + 0x1_0000 * buf[14] + 0x100_0000 * buf[15]
}

/// A needle occurs where each of its bytes stands.
pub proof fn an_occurrence_matches_byte_for_byte(haystack: Seq<u8>, needle: Seq<u8>, at: int)
    ensures
        occurs_at(haystack, needle, at) <==> {
            &&& 0 <= at
            &&& at + needle.len() <= haystack.len()
            &&& forall|i: int| 0 <= i < needle.len() ==> haystack[at + i] == #[trigger] needle[i]
        },
{
    if 0 <= at && at + needle.len() <= haystack.len() {
        let window = haystack.subrange(at, at + needle.len());
        assert(forall|i: int| 0 <= i < needle.len() ==> window[i] == #[trigger] haystack[at + i]);
        if forall|i: int| 0 <= i < needle.len() ==> haystack[at + i] == #[trigger] needle[i] {
            assert(window =~= needle);
        }
        if window == needle {
            assert forall|i: int| 0 <= i < needle.len() implies haystack[at + i]
                == #[trigger] needle[i] by {
                assert(window[i] == haystack[at + i]);
            }
        }
    }
}

/// The magic stands where its four bytes stand.
proof fn lemma_magic_at(buf: Seq<u8>, at: int)
    ensures
        occurs_at(buf, MAGIC@, at) <==> magic_at(buf, at),
{
    an_occurrence_matches_byte_for_byte(buf, MAGIC@, at);
    assert(MAGIC@ =~= seq![0x43u8, 0x93, 0x8a, 0x41]);
    if magic_at(buf, at) {
        assert forall|i: int| 0 <= i < 4 implies buf[at + i] == #[trigger] MAGIC@[i] by {
            assert(i == 0 || i == 1 || i == 2 || i == 3);
        }
    }
    if occurs_at(buf, MAGIC@, at) {
        assert(buf[at + 0] == MAGIC@[0]);
        assert(buf[at + 1] == MAGIC@[1]);
        assert(buf[at + 2] == MAGIC@[2]);
        assert(buf[at + 3] == MAGIC@[3]);
    }
}

/// A stream that starts with a whole frame gives that frame first, with its fields as they stand
/// in the bytes, and then what the stream behind it gives.
pub proof fn a_whole_frame_is_read_from_its_bytes(buf: Seq<u8>)
    requires
        buf.len() >= 16,
        magic_at(buf, 0),
        length_field(buf) <= 0x10_0000,
        buf.len() >= 16 + length_field(buf),
    ensures
        ({
            let end = 16 + length_field(buf);
            let all = reframe(buf);
            let behind = reframe(buf.skip(end));
            &&& all.frames.len() == behind.frames.len() + 1
            &&& all.frames[0].flags == buf[4] + 0x100 * buf[5]
            &&& all.frames[0].op == buf[6]
            &&& all.frames[0].message_id == buf[8] + 0x100 * buf[9] + 0x1_0000 * buf[10]
                + 0x100_0000 * buf[11]
            &&& all.frames[0].payload == buf.subrange(16, end)
            &&& all.frames.skip(1) == behind.frames
            &&& all.rest == behind.rest
        }),
{
    lemma_magic_at(buf, 0);
    let behind = reframe(buf.skip(16 + length_field(buf)));
    assert(reframe(buf).frames.skip(1) =~= behind.frames);
}

/// A frame that has begun and is not all there stays where it is, every byte of it, until the rest
/// arrives: while its header is short of 16 bytes, or its payload short of what the header says.
pub proof fn an_unfinished_frame_is_waited_for(buf: Seq<u8>)
    requires
        magic_at(buf, 0),
        buf.len() < 16 || buf.len() < 16 + length_field(buf) <= 16 + 0x10_0000,
    ensures
        reframe(buf) == (Reframed { frames: seq![], rest: buf }),
{
    lemma_magic_at(buf, 0);
}

/// A header that says more than 1 MiB is no header: reading goes on behind its four magic bytes.
pub proof fn an_absurd_length_is_no_frame(buf: Seq<u8>)
    requires
        buf.len() >= 16,
        magic_at(buf, 0),
        length_field(buf) > 0x10_0000,
    ensures
        reframe(buf) == reframe(buf.skip(4)),
{
    lemma_magic_at(buf, 0);
}

/// Bytes at which no magic begins are skipped. The last three bytes of a stream are never: a magic
/// may begin at them that is not all there.
pub proof fn bytes_without_magic_are_skipped(buf: Seq<u8>, n: int)
    requires
        0 <= n <= buf.len(),
        n > 0 ==> n <= buf.len() - 3,
        forall|j: int| 0 <= j < n ==> !#[trigger] magic_at(buf, j),
    ensures
        reframe(buf) == reframe(buf.skip(n)),
        n == buf.len() - 3 ==> reframe(buf) == (Reframed { frames: seq![], rest: buf.skip(n) }),
        buf.len() < 4 ==> reframe(buf) == (Reframed { frames: seq![], rest: buf }),
{
    if n == 0 {
        assert(buf.skip(0) =~= buf);
    } else {
        assert forall|j: int| 0 <= j < n implies !occurs_at(buf, MAGIC@, j) by {
            lemma_magic_at(buf, j);
            assert(!magic_at(buf, j));
        }
        lemma_skip_to(buf, n);
    }
}

/// A frame says what it holds.
pub proof fn a_frame_says_what_it_holds(frame: Frame)
    ensures
        frame@.flags == frame.flags,
        frame@.op == frame.op,
        frame@.message_id == frame.message_id,
        frame@.payload == frame.payload@,
{
}

/// Encoding puts each field where the format has it, numbers with the low byte first.
pub proof fn encoding_follows_the_format(
    frame_flags: u16,
    frame_op: u8,
    message_id: u32,
    payload: &[u8],
    frame: Vec<u8>,
)
    requires
        call_ensures(encode_frame, (frame_flags, frame_op, message_id, payload), frame),
    ensures
        frame@.len() == 16 + payload@.len(),
        magic_at(frame@, 0),
        frame@[4] == frame_flags % 0x100,
        frame@[5] == frame_flags / 0x100,
        frame@[6] == frame_op,
        frame@[7] == 0,
        frame@[8] + 0x100 * frame@[9] + 0x1_0000 * frame@[10] + 0x100_0000 * frame@[11]
            == message_id,
        length_field(frame@) == payload@.len() % 0x1_0000_0000,
        frame@.skip(16) == payload@,
{
    an_encoded_frame_has_the_wire_layout(
        FrameView { flags: frame_flags, op: frame_op, message_id, payload: payload@ },
    );
}

/// A search ends at the first index from which on every byte of the needle stands, and without a
/// result only where there is no such index or the needle is empty.
pub proof fn a_search_ends_at_the_first_match(
    haystack: &[u8],
    needle: &[u8],
    res: Option<usize>,
    other: int,
)
    requires
        call_ensures(find_subslice, (haystack, needle), res),
        0 <= other,
        other + needle@.len() <= haystack@.len(),
        forall|i: int| 0 <= i < needle@.len() ==> haystack@[other + i] == #[trigger] needle@[i],
    ensures
        needle@.len() == 0 ==> res is None,
        needle@.len() > 0 ==> (res matches Some(index) && {
            &&& index <= other
            &&& forall|i: int|
                0 <= i < needle@.len() ==> haystack@[index + i] == #[trigger] needle@[i]
        }),
{
    an_occurrence_matches_byte_for_byte(haystack@, needle@, other);
    assert(occurs_at(haystack@, needle@, other));
    if needle@.len() > 0 {
        assert(occurs_before(haystack@, needle@, haystack@.len() as int));
        an_occurrence_matches_byte_for_byte(haystack@, needle@, res->Some_0 as int);
    }
}

/// A search that has a result has found the needle there.
pub proof fn a_search_finds_what_is_there(haystack: &[u8], needle: &[u8], index: usize)
    requires
        call_ensures(find_subslice, (haystack, needle), Some(index)),
    ensures
        0 < needle@.len() <= haystack@.len() - index,
        forall|i: int| 0 <= i < needle@.len() ==> haystack@[index + i] == #[trigger] needle@[i],
{
    an_occurrence_matches_byte_for_byte(haystack@, needle@, index as int);
}

/// The next frame of a buffer that starts with a whole one is that frame, with its fields as they
/// stand in the bytes. What is then left in the buffer reads as what stood behind the frame.
pub proof fn the_next_frame_is_the_first_in_the_buffer(buf: &mut Vec<u8>, res: Option<Frame>)
    requires
        call_ensures(next_frame, (buf,), res),
        old(buf)@.len() >= 16,
        magic_at(old(buf)@, 0),
        length_field(old(buf)@) <= 0x10_0000,
        old(buf)@.len() >= 16 + length_field(old(buf)@),
    ensures
        ({
            let b = old(buf)@;
            let end = 16 + length_field(b);
            &&& res matches Some(frame)
            &&& frame.flags == b[4] + 0x100 * b[5]
            &&& frame.op == b[6]
            &&& frame.message_id == b[8] + 0x100 * b[9] + 0x1_0000 * b[10] + 0x100_0000 * b[11]
            &&& frame.payload@ == b.subrange(16, end)
            &&& reframe(final(buf)@) == reframe(b.skip(end))
        }),
{
    a_whole_frame_is_read_from_its_bytes(old(buf)@);
}

/// There is no next frame in a buffer whose first frame is not all there, and the buffer stays as
/// it is.
pub proof fn no_frame_is_taken_before_it_is_whole(buf: &mut Vec<u8>, res: Option<Frame>)
    requires
        call_ensures(next_frame, (buf,), res),
        magic_at(old(buf)@, 0),
        old(buf)@.len() < 16 || old(buf)@.len() < 16 + length_field(old(buf)@) <= 16 + 0x10_0000,
    ensures
        res is None,
        final(buf)@ == old(buf)@,
{
    an_unfinished_frame_is_waited_for(old(buf)@);
}

} // verus!
