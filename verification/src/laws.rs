//! Protocol laws proved once and for all over the model in `wire`.

use vstd::prelude::*;
use vstd::utf8::valid_utf8;

use crate::IOFailure;
use crate::cursor::{be16, be64};
use crate::frame::{SpecFrame, StatusCode, TrackerView};
use crate::wire::{
    close_code_allowed, encode_len, spec_close_result, spec_dispatch, spec_ext_len, spec_parse,
    tracker_is_empty, unmask, ParseOutcome,
};

verus! {

/// Encoding a payload length and then decoding the resulting field recovers
/// the length exactly, in each of the three length classes.
pub proof fn lemma_payload_length_round_trip(l: u64)
    ensures
        ({
            let e = encode_len(l as nat);
            spec_ext_len(e.skip(1), e[0]) == Some((l, e.len() - 1))
        }),
{
    let e = encode_len(l as nat);
    if l <= 125 {
        assert(e[0] == l as u8);
        assert((l as u8) as u64 == l) by (bit_vector)
            requires
                l <= 125,
        ;
    } else if l <= 65535 {
        let hi = ((l as nat) as u16 >> 8) as u8;
        let lo = ((l as nat) as u16) as u8;
        assert(e =~= seq![126u8, hi, lo]);
        assert(e.skip(1) =~= seq![hi, lo]);
        assert((((hi as u16) << 8) | (lo as u16)) as u64 == l) by (bit_vector)
            requires
                126 <= l <= 65535,
                hi == (l as u16 >> 8) as u8,
                lo == (l as u16) as u8,
        ;
        assert(be16(hi, lo) as u64 == l);
    } else {
        let x = (l as nat) as u64;
        assert(x == l);
        let b0 = (x >> 56) as u8;
        let b1 = (x >> 48) as u8;
        let b2 = (x >> 40) as u8;
        let b3 = (x >> 32) as u8;
        let b4 = (x >> 24) as u8;
        let b5 = (x >> 16) as u8;
        let b6 = (x >> 8) as u8;
        let b7 = x as u8;
        assert(e =~= seq![127u8, b0, b1, b2, b3, b4, b5, b6, b7]);
        let rest = e.skip(1);
        assert(rest =~= seq![b0, b1, b2, b3, b4, b5, b6, b7]);
        assert((((b0 as u64) << 56) | ((b1 as u64) << 48) | ((b2 as u64) << 40) | ((b3 as u64)
            << 32) | ((b4 as u64) << 24) | ((b5 as u64) << 16) | ((b6 as u64) << 8) | (b7 as u64))
            as u64 == l) by (bit_vector)
            requires
                b0 == (l >> 56) as u8,
                b1 == (l >> 48) as u8,
                b2 == (l >> 40) as u8,
                b3 == (l >> 32) as u8,
                b4 == (l >> 24) as u8,
                b5 == (l >> 16) as u8,
                b6 == (l >> 8) as u8,
                b7 == l as u8,
        ;
        assert(be64(rest) as u64 == l);
    }
}

/// Masking is self-inverse: unmasking the masked form of any payload with the
/// same 4-byte mask key reproduces the original bytes, for every length.
pub proof fn lemma_unmask_self_inverse(payload: Seq<u8>, mask: Seq<u8>)
    requires
        mask.len() == 4,
    ensures
        unmask(unmask(payload, mask), mask) == payload,
{
    let once = unmask(payload, mask);
    assert forall|i: int| 0 <= i < payload.len() implies unmask(once, mask)[i] == payload[i] by {
        let m = mask[i % 4];
        let b = payload[i];
        assert((b ^ m) ^ m == b) by (bit_vector);
    };
    assert(unmask(once, mask) =~= payload);
}

/// A final text frame whose payload is not valid UTF-8 never decodes to
/// `Text`; with no fragmented message in progress it decodes exactly to
/// `Close(InvalidDataFormat)`.
pub proof fn lemma_invalid_text_rejected(payload: Seq<u8>, t: TrackerView)
    requires
        !valid_utf8(payload),
    ensures
        !(spec_dispatch(true, 0x1, payload, t).0 is Text),
        tracker_is_empty(t) ==> spec_dispatch(true, 0x1, payload, t) == (
            SpecFrame::Close(StatusCode::InvalidDataFormat),
            t,
        ),
{
}

/// A continuation frame arriving with no fragmented message in progress is a
/// protocol error, whether or not it is final.
pub proof fn lemma_lone_continuation_rejected(fin: bool, payload: Seq<u8>, t: TrackerView)
    requires
        tracker_is_empty(t),
    ensures
        spec_dispatch(fin, 0x0, payload, t) == (SpecFrame::Close(StatusCode::ProtocolError), t),
{
}

/// A close frame with payload length 1, or longer than a control frame
/// allows, is a protocol error; an empty close payload is a normal closure.
pub proof fn lemma_close_length_rules(payload: Seq<u8>, t: TrackerView)
    ensures
        payload.len() == 1 || payload.len() > 125 ==> spec_dispatch(true, 0x8, payload, t) == (
            SpecFrame::Close(StatusCode::ProtocolError),
            t,
        ),
        payload.len() == 0 ==> spec_dispatch(true, 0x8, payload, t) == (
            SpecFrame::Close(StatusCode::Normal),
            t,
        ),
{
}

/// A close status code outside the allow-list (1004, for one) is a protocol
/// error; an allowed code followed by a valid UTF-8 reason is accepted as a
/// normal closure.
pub proof fn lemma_close_code_rules(payload: Seq<u8>)
    requires
        2 <= payload.len() <= 125,
    ensures
        be16(payload[0], payload[1]) == 1004 ==> spec_close_result(payload)
            == StatusCode::ProtocolError,
        !close_code_allowed(be16(payload[0], payload[1])) ==> spec_close_result(payload)
            == StatusCode::ProtocolError,
        close_code_allowed(be16(payload[0], payload[1])) && valid_utf8(payload.skip(2))
            ==> spec_close_result(payload) == StatusCode::Normal,
{
}

/// A frame whose MASK bit is clear decodes to `Close(ProtocolError)` whatever
/// its opcode, consuming only the 2-byte header and leaving the tracker
/// unchanged.
pub proof fn lemma_unmasked_frame_rejected(input: Seq<u8>, t: TrackerView)
    requires
        input.len() >= 2,
        input[1] & 0x80 == 0,
    ensures
        spec_parse(input, t) == Ok::<ParseOutcome, IOFailure>(
            ParseOutcome { frame: SpecFrame::Close(StatusCode::ProtocolError), tracker: t, consumed: 2 },
        ),
{
}

} // verus!
