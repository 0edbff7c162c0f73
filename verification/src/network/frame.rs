//! Framing: every message travels in one bounded, versioned, checksummed
//! frame.
//!
//! ```text
//! magic "NEXN" (4) | version u16 | kind u8 | payload_len u32 | payload | crc32
//! ```
//!
//! The declared length is held against the configured maximum before
//! anything is copied.

use vstd::prelude::*;
use vstd::string::*;

use crate::base::text::{decimal, number, with_number};
use crate::network::checksum::{crc32, Crc32};
use crate::network::error::{NetworkError, NetworkErrorView, ProtocolError, ProtocolErrorView};
use crate::network::wire::{le_bytes, le_bytes_len, le_number, le_value, put_bytes, put_le};

verus! {

/// The four-byte frame magic, the letters `NEXN`.
pub const PROTOCOL_MAGIC: [u8; 4] = [0x4E, 0x45, 0x58, 0x4E];

/// The current protocol version.
pub const PROTOCOL_VERSION: u16 = 2;

/// Header size: magic (4), version (2), kind (1), length (4).
pub const HEADER_LEN: usize = 11;

/// Total fixed frame overhead: header (11) and checksum (4).
pub const FRAME_OVERHEAD: usize = 15;

/// The four-byte frame magic.
pub open spec fn magic() -> Seq<u8> {
    PROTOCOL_MAGIC@
}

/// What the checksum of a frame covers.
pub open spec fn checked_bytes(kind: u8, payload: Seq<u8>) -> Seq<u8> {
    le_bytes(PROTOCOL_VERSION as nat, 2) + seq![kind] + payload
}

/// The header of a frame.
pub open spec fn header_bytes(kind: u8, payload_len: nat) -> Seq<u8> {
    magic() + le_bytes(PROTOCOL_VERSION as nat, 2) + seq![kind] + le_bytes(payload_len, 4)
}

/// The frame that carries a payload.
pub open spec fn frame_bytes(kind: u8, payload: Seq<u8>) -> Seq<u8> {
    header_bytes(kind, payload.len()) + payload + le_bytes(
        crc32(checked_bytes(kind, payload)) as nat,
        4,
    )
}

/// The payload length a header declares.
pub open spec fn declared_len(bytes: Seq<u8>) -> int {
    le_number(bytes.subrange(7, 11)) as int
}

/// What is wrong with a complete header, if anything.
pub open spec fn header_violation(bytes: Seq<u8>, max_payload: u32) -> Option<ProtocolErrorView> {
    let version = le_number(bytes.subrange(4, 6));
    if bytes.take(4) != magic() {
        Some(ProtocolErrorView::BadMagic)
    } else if version != PROTOCOL_VERSION {
        Some(ProtocolErrorView::UnsupportedVersion(version as u16))
    } else if declared_len(bytes) > max_payload {
        Some(
            ProtocolErrorView::Oversized {
                len: declared_len(bytes) as u64,
                max: max_payload as u64,
            },
        )
    } else {
        None
    }
}

/// Whether the stored checksum of a complete frame is the computed one.
pub open spec fn checksum_matches(bytes: Seq<u8>) -> bool {
    let n = declared_len(bytes);
    le_number(bytes.subrange(11 + n, 15 + n)) == crc32(
        checked_bytes(bytes[6], bytes.subrange(11, 11 + n)),
    )
}

/// What the front of a byte stream holds.
pub enum FrontView {
    /// More bytes are needed.
    Partial,
    /// The bytes can never become a valid frame.
    Invalid(ProtocolErrorView),
    /// A valid frame with this message kind and payload length.
    Complete { kind: u8, payload_len: int },
}

/// What the front of a byte stream holds.
pub open spec fn front_of(bytes: Seq<u8>, max_payload: u32) -> FrontView {
    if bytes.len() < HEADER_LEN {
        FrontView::Partial
    } else {
        match header_violation(bytes, max_payload) {
            Some(e) => FrontView::Invalid(e),
            None => if bytes.len() < declared_len(bytes) + FRAME_OVERHEAD {
                FrontView::Partial
            } else if !checksum_matches(bytes) {
                FrontView::Invalid(ProtocolErrorView::BadChecksum)
            } else {
                FrontView::Complete { kind: bytes[6], payload_len: declared_len(bytes) }
            },
        }
    }
}

/// What [`front_of`] describes, with the payload located.
enum Front {
    Partial,
    Invalid(ProtocolError),
    Complete { kind: u8, payload_len: usize },
}

spec fn front_view(front: Front) -> FrontView {
    match front {
        Front::Partial => FrontView::Partial,
        Front::Invalid(e) => FrontView::Invalid(e@),
        Front::Complete { kind, payload_len } => FrontView::Complete {
            kind,
            payload_len: payload_len as int,
        },
    }
}

/// What complete frame bytes decode as: the kind and the payload.
pub open spec fn frame_decoded(bytes: Seq<u8>, max_payload: u32) -> Result<
    (u8, Seq<u8>),
    ProtocolErrorView,
> {
    match front_of(bytes, max_payload) {
        FrontView::Partial => Err(ProtocolErrorView::Truncated),
        FrontView::Invalid(e) => Err(e),
        FrontView::Complete { kind, payload_len } => Ok(
            (kind, bytes.subrange(11, 11 + payload_len)),
        ),
    }
}

/// What a streaming parser takes off the front of buffered bytes.
pub open spec fn frame_parsed(bytes: Seq<u8>, max_payload: u32) -> Result<
    Option<(Seq<u8>, int)>,
    ProtocolErrorView,
> {
    match front_of(bytes, max_payload) {
        FrontView::Partial => Ok(None),
        FrontView::Invalid(e) => Err(e),
        FrontView::Complete { kind, payload_len } => Ok(
            Some((bytes.take(payload_len + FRAME_OVERHEAD), payload_len + FRAME_OVERHEAD)),
        ),
    }
}

/// The message of a payload over the limit.
pub open spec fn over_limit_text(len: nat, max_payload: u32) -> Seq<char> {
    "message payload of "@ + decimal(len) + " bytes exceeds the maximum of "@ + decimal(
        max_payload as nat,
    )
}

/// The frame of a payload, or the refusal of one over the limit.
pub open spec fn frame_built(kind: u8, payload: Seq<u8>, max_payload: u32) -> Result<
    Seq<u8>,
    NetworkErrorView,
> {
    if payload.len() > max_payload {
        Err(NetworkErrorView::Capacity(over_limit_text(payload.len(), max_payload)))
    } else {
        Ok(frame_bytes(kind, payload))
    }
}

/// A byte result holds what is expected.
pub open spec fn builds_as(
    result: Result<Vec<u8>, NetworkError>,
    expected: Result<Seq<u8>, NetworkErrorView>,
) -> bool {
    match expected {
        Ok(bytes) => result is Ok && result->Ok_0@ == bytes,
        Err(e) => result is Err && result->Err_0@ == e,
    }
}

/// Builds one checksummed, length-prefixed frame; an over-limit payload is
/// refused before the frame is written.
pub fn build_frame(kind: u8, payload: &[u8], max_payload: u32) -> (frame: Result<
    Vec<u8>,
    NetworkError,
>)
    ensures
        builds_as(frame, frame_built(kind, payload@, max_payload)),
{
    if payload.len() as u64 > max_payload as u64 {
        let mut text = with_number(
            "message payload of ",
            payload.len() as u64,
            " bytes exceeds the maximum of ",
        );
        let digits = number(max_payload as u64);
        text.append(digits.as_str());
        return Err(NetworkError::Capacity(text));
    }
    let mut frame: Vec<u8> = Vec::new();
    frame.push(PROTOCOL_MAGIC[0]);
    frame.push(PROTOCOL_MAGIC[1]);
    frame.push(PROTOCOL_MAGIC[2]);
    frame.push(PROTOCOL_MAGIC[3]);
    assert(frame@ =~= magic());
    put_le(&mut frame, PROTOCOL_VERSION as u64, 2);
    frame.push(kind);
    assert(frame@ =~= magic() + le_bytes(PROTOCOL_VERSION as nat, 2) + seq![kind]);
    put_le(&mut frame, payload.len() as u64, 4);
    put_bytes(&mut frame, payload);
    let checksum: u32 = frame_checksum(kind, payload);
    put_le(&mut frame, checksum as u64, 4);
    Ok(frame)
}

/// The checksum of a frame.
fn frame_checksum(kind: u8, payload: &[u8]) -> (checksum: u32)
    ensures
        checksum == crc32(checked_bytes(kind, payload@)),
{
    let mut head: Vec<u8> = Vec::new();
    put_le(&mut head, PROTOCOL_VERSION as u64, 2);
    head.push(kind);
    assert(head@ =~= le_bytes(PROTOCOL_VERSION as nat, 2) + seq![kind]);
    let crc = Crc32::new().chain(head.as_slice()).chain(payload);
    assert(crc@ =~= checked_bytes(kind, payload@));
    crc.finalize()
}

/// A part of some bytes.
pub fn slice_of(bytes: &[u8], from: usize, to: usize) -> (part: &[u8])
    requires
        from <= to <= bytes@.len(),
    ensures
        part@ == bytes@.subrange(from as int, to as int),
{
    let (head, _) = bytes.split_at(to);
    let (_, part) = head.split_at(from);
    assert(part@ =~= bytes@.subrange(from as int, to as int));
    part
}

/// Copies bytes.
pub fn copy_bytes(bytes: &[u8]) -> (copy: Vec<u8>)
    ensures
        copy@ == bytes@,
{
    let mut copy: Vec<u8> = Vec::new();
    put_bytes(&mut copy, bytes);
    assert(copy@ =~= bytes@);
    copy
}

/// Inspects the front of a byte stream.
fn inspect(bytes: &[u8], max_payload: u32) -> (front: Front)
    ensures
        front_view(front) == front_of(bytes@, max_payload),
        front matches Front::Complete { payload_len, .. } ==> payload_len + FRAME_OVERHEAD
            <= bytes@.len() <= usize::MAX,
{
    if bytes.len() < HEADER_LEN {
        return Front::Partial;
    }
    assert(bytes@.take(4) =~= magic() <==> (bytes@[0] == magic()[0] && bytes@[1] == magic()[1]
        && bytes@[2] == magic()[2] && bytes@[3] == magic()[3])) by {
        let head = bytes@.take(4);
        assert(head[0] == bytes@[0] && head[1] == bytes@[1]);
        assert(head[2] == bytes@[2] && head[3] == bytes@[3]);
    }
    if bytes[0] != PROTOCOL_MAGIC[0] || bytes[1] != PROTOCOL_MAGIC[1] || bytes[2]
        != PROTOCOL_MAGIC[2] || bytes[3] != PROTOCOL_MAGIC[3] {
        return Front::Invalid(ProtocolError::BadMagic);
    }
    let version: u64 = le_value(slice_of(bytes, 4, 6));
    proof {
        reveal_with_fuel(crate::network::wire::byte_range, 5);
    }
    if version != PROTOCOL_VERSION as u64 {
        return Front::Invalid(ProtocolError::UnsupportedVersion(version as u16));
    }
    let payload_len: u64 = le_value(slice_of(bytes, 7, 11));
    if payload_len > max_payload as u64 {
        return Front::Invalid(
            ProtocolError::Oversized { len: payload_len, max: max_payload as u64 },
        );
    }
    if (bytes.len() as u64) < payload_len + 15 {
        return Front::Partial;
    }
    let n: usize = payload_len as usize;
    let payload = slice_of(bytes, HEADER_LEN, HEADER_LEN + n);
    let stored: u64 = le_value(slice_of(bytes, HEADER_LEN + n, HEADER_LEN + n + 4));
    let computed: u32 = frame_checksum(bytes[6], payload);
    if computed as u64 != stored {
        return Front::Invalid(ProtocolError::BadChecksum);
    }
    Front::Complete { kind: bytes[6], payload_len: n }
}

/// Validates one complete frame and yields its kind and payload.
pub fn decode_frame(frame: &[u8], max_payload: u32) -> (result: Result<
    (u8, Vec<u8>),
    ProtocolError,
>)
    ensures
        match frame_decoded(frame@, max_payload) {
            Ok((kind, payload)) => result is Ok && result->Ok_0.0 == kind && result->Ok_0.1@
                == payload,
            Err(e) => result is Err && result->Err_0@ == e,
        },
{
    match inspect(frame, max_payload) {
        Front::Partial => Err(ProtocolError::Truncated),
        Front::Invalid(error) => Err(error),
        Front::Complete { kind, payload_len } => Ok(
            (kind, copy_bytes(slice_of(frame, HEADER_LEN, HEADER_LEN + payload_len))),
        ),
    }
}

/// Incremental frame parsing for streaming transports: takes one complete,
/// valid frame off the front of `buf`. Yields the frame and how many bytes it
/// took, `None` when more bytes are needed, or an error when the buffered
/// bytes can never become a valid frame.
pub fn parse_frame(buf: &[u8], max_payload: u32) -> (result: Result<
    Option<(Vec<u8>, usize)>,
    ProtocolError,
>)
    ensures
        match frame_parsed(buf@, max_payload) {
            Ok(None) => result is Ok && result->Ok_0 is None,
            Ok(Some((frame, consumed))) => result matches Ok(Some((bytes, count))) && bytes@
                == frame && count == consumed,
            Err(e) => result is Err && result->Err_0@ == e,
        },
{
    match inspect(buf, max_payload) {
        Front::Partial => Ok(None),
        Front::Invalid(error) => Err(error),
        Front::Complete { kind: _, payload_len } => {
            let total: usize = payload_len + FRAME_OVERHEAD;
            let frame = copy_bytes(slice_of(buf, 0, total));
            assert(buf@.subrange(0, total as int) =~= buf@.take(total as int));
            Ok(Some((frame, total)))
        },
    }
}

/// Where the pieces of a frame are.
proof fn frame_layout(kind: u8, payload: Seq<u8>, rest: Seq<u8>)
    requires
        payload.len() <= u32::MAX,
    ensures
        ({
            let whole = frame_bytes(kind, payload) + rest;
            let n = payload.len() as int;
            &&& frame_bytes(kind, payload).len() == n + FRAME_OVERHEAD
            &&& whole.take(4) == magic()
            &&& le_number(whole.subrange(4, 6)) == PROTOCOL_VERSION
            &&& whole[6] == kind
            &&& declared_len(whole) == n
            &&& whole.subrange(11, 11 + n) == payload
            &&& le_number(whole.subrange(11 + n, 15 + n)) == crc32(checked_bytes(kind, payload))
            &&& whole.take(n + FRAME_OVERHEAD) == frame_bytes(kind, payload)
        }),
{
    reveal_with_fuel(crate::network::wire::byte_range, 5);
    let n = payload.len() as int;
    let v = le_bytes(PROTOCOL_VERSION as nat, 2);
    let len = le_bytes(payload.len(), 4);
    let sum = le_bytes(crc32(checked_bytes(kind, payload)) as nat, 4);
    le_bytes_len(PROTOCOL_VERSION as nat, 2);
    le_bytes_len(payload.len(), 4);
    le_bytes_len(crc32(checked_bytes(kind, payload)) as nat, 4);
    crate::network::wire::le_reads_back(PROTOCOL_VERSION as nat, 2);
    crate::network::wire::le_reads_back(payload.len(), 4);
    crate::network::wire::le_reads_back(crc32(checked_bytes(kind, payload)) as nat, 4);
    let whole = frame_bytes(kind, payload) + rest;
    assert(magic().len() == 4);
    assert(whole.take(4) =~= magic());
    assert(whole.subrange(4, 6) =~= v);
    assert(whole.subrange(7, 11) =~= len);
    assert(whole.subrange(11, 11 + n) =~= payload);
    assert(whole.subrange(11 + n, 15 + n) =~= sum);
    assert(whole.take(n + FRAME_OVERHEAD) =~= frame_bytes(kind, payload));
}

/// Reading back a frame: the frame of a payload within the limit decodes as
/// that kind and payload.
pub proof fn frame_reads_back(kind: u8, payload: Seq<u8>, max_payload: u32)
    requires
        payload.len() <= max_payload,
    ensures
        frame_decoded(frame_bytes(kind, payload), max_payload) == Ok::<
            (u8, Seq<u8>),
            ProtocolErrorView,
        >((kind, payload)),
{
    frame_layout(kind, payload, Seq::empty());
    assert(frame_bytes(kind, payload) + Seq::<u8>::empty() =~= frame_bytes(kind, payload));
}

/// A stream parser takes exactly one frame off the front of a stream,
/// whatever follows it.
pub proof fn stream_yields_front_frame(kind: u8, payload: Seq<u8>, rest: Seq<u8>, max_payload: u32)
    requires
        payload.len() <= max_payload,
    ensures
        frame_parsed(frame_bytes(kind, payload) + rest, max_payload) == Ok::<
            Option<(Seq<u8>, int)>,
            ProtocolErrorView,
        >(Some((frame_bytes(kind, payload), frame_bytes(kind, payload).len() as int))),
{
    frame_layout(kind, payload, rest);
}

/// A stream parser asks for more on every proper prefix of a valid frame: it
/// never reports part of a frame as an error or as a frame.
pub proof fn stream_waits_for_whole_frame(kind: u8, payload: Seq<u8>, n: int, max_payload: u32)
    requires
        payload.len() <= max_payload,
        0 <= n < frame_bytes(kind, payload).len(),
    ensures
        frame_parsed(frame_bytes(kind, payload).take(n), max_payload) == Ok::<
            Option<(Seq<u8>, int)>,
            ProtocolErrorView,
        >(None),
{
    let frame = frame_bytes(kind, payload);
    frame_layout(kind, payload, Seq::empty());
    assert(frame + Seq::<u8>::empty() =~= frame);
    let part = frame.take(n);
    if n >= HEADER_LEN {
        assert(part.take(4) =~= frame.take(4));
        assert(part.subrange(4, 6) =~= frame.subrange(4, 6));
        assert(part.subrange(7, 11) =~= frame.subrange(7, 11));
    }
}

/// The streaming parser and the whole-frame decoder agree: what the parser
/// hands out, the decoder accepts.
pub proof fn parsed_frames_decode(bytes: Seq<u8>, max_payload: u32)
    ensures
        frame_parsed(bytes, max_payload) matches Ok(Some((frame, consumed))) ==> frame_decoded(
            frame,
            max_payload,
        ) == frame_decoded(bytes, max_payload) && frame_decoded(frame, max_payload) is Ok,
{
    if let Ok(Some((frame, consumed))) = frame_parsed(bytes, max_payload) {
        let n = declared_len(bytes);
        assert(frame.take(4) =~= bytes.take(4));
        assert(frame.subrange(4, 6) =~= bytes.subrange(4, 6));
        assert(frame.subrange(7, 11) =~= bytes.subrange(7, 11));
        assert(frame.subrange(11, 11 + n) =~= bytes.subrange(11, 11 + n));
        assert(frame.subrange(11 + n, 15 + n) =~= bytes.subrange(11 + n, 15 + n));
    }
}

} // verus!
