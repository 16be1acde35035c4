//! Mathematical model of the wire format: what one frame's bytes decode to,
//! how the fragmentation tracker changes, and what each logical unit encodes
//! to. The executable codec in `frame` is proved against these functions.

use vstd::prelude::*;
use vstd::utf8::{encode_utf8, valid_utf8};

use crate::IOFailure;
use crate::cursor::{be16, be64};
use crate::frame::{SpecFrame, StatusCode, TrackerView};

verus! {

/// Byte-position XOR unmasking with a 4-byte key: `payload[i] ^ mask[i % 4]`.
pub open spec fn unmask(payload: Seq<u8>, mask: Seq<u8>) -> Seq<u8>
    recommends
        mask.len() == 4,
{
    payload.map(|i: int, b: u8| (b ^ mask[i % 4]) as u8)
}

/// The two bytes of `x` in big-endian order.
pub open spec fn u16_be_bytes(x: u16) -> Seq<u8> {
    seq![(x >> 8) as u8, x as u8]
}

/// The eight bytes of `x` in big-endian order.
pub open spec fn u64_be_bytes(x: u64) -> Seq<u8> {
    seq![
        (x >> 56) as u8,
        (x >> 48) as u8,
        (x >> 40) as u8,
        (x >> 32) as u8,
        (x >> 24) as u8,
        (x >> 16) as u8,
        (x >> 8) as u8,
        x as u8,
    ]
}

/// Payload-length serialization: one byte for 0..=125, marker 126 plus a
/// 16-bit big-endian value for 126..=65535, marker 127 plus a 64-bit
/// big-endian value beyond that.
pub open spec fn encode_len(l: nat) -> Seq<u8> {
    if l <= 125 {
        seq![l as u8]
    } else if l <= 65535 {
        seq![126u8] + u16_be_bytes(l as u16)
    } else {
        seq![127u8] + u64_be_bytes(l as u64)
    }
}

/// Decodes the payload length from the 7-bit header field `len7` and the bytes
/// that follow the fixed header: the literal value for 0..=125, an extended
/// 16-bit value after 126, an extended 64-bit value after 127. `None` when the
/// extended field is cut short; otherwise the length and how many extension
/// bytes it took.
pub open spec fn spec_ext_len(rest: Seq<u8>, len7: u8) -> Option<(u64, int)>
    recommends
        len7 <= 127,
{
    if len7 <= 125 {
        Some((len7 as u64, 0int))
    } else if len7 == 126 {
        if rest.len() < 2 {
            None
        } else {
            Some((be16(rest[0], rest[1]) as u64, 2int))
        }
    } else {
        if rest.len() < 8 {
            None
        } else {
            Some((be64(rest), 8int))
        }
    }
}

/// The close codes a peer is allowed to send.
pub open spec fn close_code_allowed(code: u16) -> bool {
    code == 1000 || code == 1001 || code == 1002 || code == 1003 || code == 1007 || code == 1008
        || code == 1009 || code == 1010 || code == 1011 || code == 3000 || code == 3999 || code
        == 4000 || code == 4999
}

/// Validates a close-frame payload of length 2..=125: the leading big-endian
/// status code must be in the allow-list and the trailing reason must be valid
/// UTF-8. Acceptance is reported as `Normal`; the peer's code is never echoed.
pub open spec fn spec_close_result(payload: Seq<u8>) -> StatusCode
    recommends
        2 <= payload.len() <= 125,
{
    if !close_code_allowed(be16(payload[0], payload[1])) {
        StatusCode::ProtocolError
    } else if !valid_utf8(payload.skip(2)) {
        StatusCode::ProtocolError
    } else {
        StatusCode::Normal
    }
}

/// "No fragmented message in progress."
pub open spec fn tracker_is_empty(t: TrackerView) -> bool {
    t.chunks.len() == 0
}

/// The tracker with one more fragment appended, keeping its shape.
pub open spec fn tracker_push(t: TrackerView, payload: Seq<u8>) -> TrackerView {
    TrackerView { is_text: t.is_text, chunks: t.chunks.push(payload) }
}

/// A text-shaped tracker whose accumulated fragments do not concatenate to
/// valid UTF-8. A binary tracker is never invalid.
pub open spec fn tracker_invalid(t: TrackerView) -> bool {
    t.is_text && !valid_utf8(t.chunks.flatten())
}

/// The frame dispatch and fragmentation state machine: given FIN, opcode and
/// the unmasked payload, the logical unit produced and the tracker afterwards.
pub open spec fn spec_dispatch(fin: bool, opcode: u8, payload: Seq<u8>, t: TrackerView) -> (
    SpecFrame,
    TrackerView,
) {
    if !fin {
        if opcode == 0x0 && tracker_is_empty(t) {
            (SpecFrame::Close(StatusCode::ProtocolError), t)
        } else if opcode == 0x0 || opcode == 0x1 {
            (SpecFrame::Continuation(None), tracker_push(t, payload))
        } else if opcode == 0x2 {
            (SpecFrame::Continuation(None), TrackerView { is_text: false, chunks: seq![payload] })
        } else {
            (SpecFrame::Close(StatusCode::ProtocolError), t)
        }
    } else if opcode == 0x0 {
        if tracker_is_empty(t) {
            (SpecFrame::Close(StatusCode::ProtocolError), t)
        } else if tracker_invalid(t) {
            (SpecFrame::Close(StatusCode::InvalidDataFormat), t)
        } else {
            (SpecFrame::Continuation(Some(tracker_push(t, payload))), tracker_push(t, payload))
        }
    } else if (opcode == 0x1 || opcode == 0x2) && !tracker_is_empty(t) {
        (SpecFrame::Close(StatusCode::ProtocolError), t)
    } else if opcode == 0x1 {
        if valid_utf8(payload) {
            (SpecFrame::Text(vstd::utf8::decode_utf8(payload)), t)
        } else {
            (SpecFrame::Close(StatusCode::InvalidDataFormat), t)
        }
    } else if opcode == 0x2 {
        (SpecFrame::Binary(payload), t)
    } else if opcode == 0x8 {
        if payload.len() == 0 {
            (SpecFrame::Close(StatusCode::Normal), t)
        } else if 2 <= payload.len() && payload.len() <= 125 {
            (SpecFrame::Close(spec_close_result(payload)), t)
        } else {
            (SpecFrame::Close(StatusCode::ProtocolError), t)
        }
    } else if opcode == 0x9 {
        if payload.len() <= 125 {
            (SpecFrame::Ping(payload), t)
        } else {
            (SpecFrame::Close(StatusCode::ProtocolError), t)
        }
    } else if opcode == 0xA {
        (SpecFrame::Pong(payload), t)
    } else {
        (SpecFrame::Close(StatusCode::ProtocolError), t)
    }
}

/// A successful decode: the logical unit, the tracker afterwards, and how many
/// input bytes one frame consumed.
pub struct ParseOutcome {
    pub frame: SpecFrame,
    pub tracker: TrackerView,
    pub consumed: int,
}

/// What decoding one frame from `input` with tracker `t` yields: an outcome,
/// or the exact truncation failure. Reserved bits or a missing mask are not
/// failures; they decode (consuming the 2 header bytes) to a protocol-error
/// close so that the caller can still answer the peer.
pub open spec fn spec_parse(input: Seq<u8>, t: TrackerView) -> Result<ParseOutcome, IOFailure> {
    if input.len() < 2 {
        Err(IOFailure::TruncatedHeader)
    } else {
        let fin = input[0] & 0x80 != 0;
        let rsv = input[0] & 0x70 != 0;
        let opcode = input[0] & 0x0f;
        let masked = input[1] & 0x80 != 0;
        let len7 = input[1] & 0x7f;
        if rsv || !masked {
            Ok(
                ParseOutcome {
                    frame: SpecFrame::Close(StatusCode::ProtocolError),
                    tracker: t,
                    consumed: 2int,
                },
            )
        } else {
            match spec_ext_len(input.skip(2), len7) {
                None => Err(IOFailure::TruncatedLength),
                Some((plen, ext)) => {
                    if input.len() < 2 + ext + 4 {
                        Err(IOFailure::TruncatedMask)
                    } else {
                        let mask = input.subrange(2 + ext, 2 + ext + 4);
                        let rest = input.skip(2 + ext + 4);
                        if rest.len() < plen as int {
                            Err(IOFailure::TruncatedPayload)
                        } else {
                            let payload = unmask(rest.take(plen as int), mask);
                            let (frame, tracker) = spec_dispatch(fin, opcode, payload, t);
                            Ok(ParseOutcome { frame, tracker, consumed: 6 + ext + plen as int })
                        }
                    }
                },
            }
        }
    }
}

/// The wire bytes for a logical unit, FIN always set and MASK never set:
/// reassembled or direct text/binary under opcode 0x1/0x2, a close as a fixed
/// 4-byte frame carrying the status code, a ping echoed as a pong (opcode 0xA)
/// with its length as one raw byte. `None` exactly for an in-flight fragment
/// marker and for a received pong, which get no response.
pub open spec fn spec_response(f: SpecFrame) -> Option<Seq<u8>> {
    match f {
        SpecFrame::Continuation(opt) => match opt {
            Some(t) => Some(
                seq![if t.is_text { 0x81u8 } else { 0x82u8 }] + encode_len(t.chunks.flatten().len())
                    + t.chunks.flatten(),
            ),
            None => None,
        },
        SpecFrame::Text(s) => Some(
            seq![0x81u8] + encode_len(encode_utf8(s).len()) + encode_utf8(s),
        ),
        SpecFrame::Binary(b) => Some(seq![0x82u8] + encode_len(b.len()) + b),
        SpecFrame::Close(st) => Some(seq![0x88u8, 0x02u8] + u16_be_bytes(status_code_val(st))),
        SpecFrame::Ping(p) => Some(seq![0x8Au8, p.len() as u8] + p),
        SpecFrame::Pong(_) => None,
    }
}

/// The 16-bit wire value of a generated close status.
pub open spec fn status_code_val(s: StatusCode) -> u16 {
    match s {
        StatusCode::Normal => 1000,
        StatusCode::ProtocolError => 1002,
        StatusCode::InvalidDataFormat => 1007,
    }
}

} // verus!
