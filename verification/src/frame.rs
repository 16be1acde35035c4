//! The frame decoder/encoder and the fragmentation state machine, proved
//! against the model in `wire`.

use vstd::prelude::*;
use vstd::utf8::{decode_utf8, valid_utf8};

use crate::IOFailure;
use crate::cursor::{BufCursor, get_u8, get_u16, get_u64};
use crate::wire::{
    spec_close_result, spec_dispatch, spec_ext_len, spec_parse, spec_response, status_code_val,
    tracker_invalid, tracker_is_empty, tracker_push, unmask, ParseOutcome,
};

verus! {

/// One decoded logical unit: an intermediate or just-completed fragment, a
/// complete text or binary message, a close signal, or a control frame.
#[derive(Debug, Clone)]
pub enum Frame {
    Continuation(Option<FragmentedMessage>),
    Text(String),
    Binary(Vec<u8>),
    Close(StatusCode),
    Ping(Vec<u8>),
    Pong(Vec<u8>),
}

/// The close statuses this codec itself puts on the wire.
#[derive(Debug, Clone, Copy, PartialEq, Eq, Structural)]
pub enum StatusCode {
    Normal,
    ProtocolError,
    InvalidDataFormat,
}

impl StatusCode {
    /// The 16-bit wire value: 1000, 1002 or 1007.
    pub fn code(&self) -> (r: u16)
        ensures
            r == status_code_val(*self),
    {
        match self {
            StatusCode::Normal => 1000,
            StatusCode::ProtocolError => 1002,
            StatusCode::InvalidDataFormat => 1007,
        }
    }
}

/// The in-progress multi-frame message of one connection: the raw payload
/// chunks accumulated so far, shaped text or binary. An empty chunk list means
/// no fragmented message is in progress.
#[derive(Debug)]
pub enum FragmentedMessage {
    Text(Vec<Vec<u8>>),
    Binary(Vec<Vec<u8>>),
}

/// The mathematical value of a `FragmentedMessage`: its shape and the
/// sequence of accumulated fragment payloads.
pub struct TrackerView {
    pub is_text: bool,
    pub chunks: Seq<Seq<u8>>,
}

/// The mathematical value of a `Frame`.
pub enum SpecFrame {
    Continuation(Option<TrackerView>),
    Text(Seq<char>),
    Binary(Seq<u8>),
    Close(StatusCode),
    Ping(Seq<u8>),
    Pong(Seq<u8>),
}

impl View for FragmentedMessage {
    type V = TrackerView;

    open spec fn view(&self) -> TrackerView {
        match self {
            FragmentedMessage::Text(messages) => TrackerView {
                is_text: true,
                chunks: messages.deep_view(),
            },
            FragmentedMessage::Binary(messages) => TrackerView {
                is_text: false,
                chunks: messages.deep_view(),
            },
        }
    }
}

impl View for Frame {
    type V = SpecFrame;

    open spec fn view(&self) -> SpecFrame {
        match self {
            Frame::Continuation(message) => SpecFrame::Continuation(
                match message {
                    Some(m) => Some(m@),
                    None => None,
                },
            ),
            Frame::Text(message) => SpecFrame::Text(message@),
            Frame::Binary(message) => SpecFrame::Binary(message@),
            Frame::Close(status_code) => SpecFrame::Close(*status_code),
            Frame::Ping(message) => SpecFrame::Ping(message@),
            Frame::Pong(message) => SpecFrame::Pong(message@),
        }
    }
}

/// Relies on `String::from_utf8`: it succeeds exactly on valid UTF-8 input,
/// and the returned string consists of the characters those bytes encode.
#[verifier::external_body]
pub(crate) fn utf8_to_string(bytes: Vec<u8>) -> (r: Option<String>)
    ensures
        r is Some <==> valid_utf8(bytes@),
        r matches Some(s) ==> s@ == decode_utf8(bytes@),
{
    String::from_utf8(bytes).ok()
}

/// Concatenates the chunks into one flat byte vector.
fn concat_chunks(chunks: &Vec<Vec<u8>>) -> (r: Vec<u8>)
    ensures
        r@ == chunks.deep_view().flatten(),
{
    let ghost dv = chunks.deep_view();
    let mut out: Vec<u8> = Vec::new();
    let mut i: usize = 0;
    proof {
        assert(dv.take(0) =~= Seq::<Seq<u8>>::empty());
        assert(out@ =~= dv.take(0).flatten());
    }
    while i < chunks.len()
        invariant
            i <= chunks.len(),
            dv == chunks.deep_view(),
            out@ == dv.take(i as int).flatten(),
        decreases chunks.len() - i,
    {
        let chunk = &chunks[i];
        let mut j: usize = 0;
        while j < chunk.len()
            invariant
                i < chunks.len(),
                j <= chunk.len(),
                dv == chunks.deep_view(),
                chunk@ == dv[i as int],
                out@ == dv.take(i as int).flatten() + chunk@.take(j as int),
            decreases chunk.len() - j,
        {
            out.push(chunk[j]);
            j = j + 1;
            proof {
                assert(chunk@.take(j - 1).push(chunk@[j - 1]) =~= chunk@.take(j as int));
            }
        }
        proof {
            assert(chunk@.take(chunk@.len() as int) =~= chunk@);
            assert(dv.take(i + 1).drop_last() =~= dv.take(i as int));
            assert(dv.take(i + 1).last() == dv[i as int]);
            dv.take(i as int).lemma_flatten_push(dv[i as int]);
            assert(dv.take(i as int).push(dv[i as int]) =~= dv.take(i + 1));
        }
        i = i + 1;
    }
    proof {
        assert(dv.take(chunks@.len() as int) =~= dv);
    }
    out
}

/// Copies a chunk list.
fn clone_chunks(chunks: &Vec<Vec<u8>>) -> (r: Vec<Vec<u8>>)
    ensures
        r.deep_view() == chunks.deep_view(),
{
    let mut out: Vec<Vec<u8>> = Vec::new();
    let mut i: usize = 0;
    while i < chunks.len()
        invariant
            i <= chunks.len(),
            out@.len() == i,
            forall|k: int| 0 <= k < i ==> out@[k]@ == chunks@[k]@,
        decreases chunks.len() - i,
    {
        out.push(vstd::slice::slice_to_vec(chunks[i].as_slice()));
        i = i + 1;
    }
    proof {
        assert(out.deep_view() =~~= chunks.deep_view());
    }
    out
}

impl Clone for FragmentedMessage {
    /// A copy with the same shape and chunks.
    fn clone(&self) -> (r: Self)
        ensures
            r@ == self@,
    {
        match self {
            FragmentedMessage::Text(messages) => FragmentedMessage::Text(clone_chunks(messages)),
            FragmentedMessage::Binary(messages) => FragmentedMessage::Binary(
                clone_chunks(messages),
            ),
        }
    }
}

impl FragmentedMessage {
    /// Whether no fragmented message is in progress.
    pub fn is_empty(&self) -> (r: bool)
        ensures
            r == tracker_is_empty(self@),
    {
        match self {
            FragmentedMessage::Text(messages) => messages.len() == 0,
            FragmentedMessage::Binary(messages) => messages.len() == 0,
        }
    }

    /// Appends one fragment payload, keeping the shape.
    pub fn push(&mut self, message: Vec<u8>)
        ensures
            final(self)@ == tracker_push(old(self)@, message@),
    {
        let ghost entry = message@;
        match self {
            FragmentedMessage::Text(messages) => messages.push(message),
            FragmentedMessage::Binary(messages) => messages.push(message),
        }
        proof {
            assert(self@.chunks =~~= tracker_push(old(self)@, entry).chunks);
        }
    }

    /// Whether the accumulated fragments of a text message do not concatenate
    /// to valid UTF-8; a binary accumulation is never invalid.
    pub fn invalid(&self) -> (r: bool)
        ensures
            r == tracker_invalid(self@),
    {
        match self {
            FragmentedMessage::Text(messages) => {
                let joined = concat_chunks(messages);
                utf8_to_string(joined).is_none()
            },
            FragmentedMessage::Binary(_) => false,
        }
    }

    /// Serializes the reassembled message as one unfragmented frame: opcode
    /// 0x1 (text) or 0x2 (binary) with FIN set, the encoded payload length,
    /// then the concatenated fragments.
    pub fn response(&self) -> (r: Vec<u8>)
        ensures
            Some(r@) == spec_response(SpecFrame::Continuation(Some(self@))),
    {
        let (message, first_byte): (Vec<u8>, u8) = match self {
            FragmentedMessage::Text(messages) => (concat_chunks(messages), 0x81),
            FragmentedMessage::Binary(messages) => (concat_chunks(messages), 0x82),
        };
        let mut response: Vec<u8> = Vec::new();
        response.push(first_byte);
        let mut length_info = Frame::payload_length_response(message.len());
        response.append(&mut length_info);
        let mut payload = message;
        response.append(&mut payload);
        proof {
            assert(response@ =~= seq![first_byte] + crate::wire::encode_len(
                self@.chunks.flatten().len(),
            ) + self@.chunks.flatten());
        }
        response
    }
}

impl Frame {
    /// Decodes one frame from the cursor, unmasking its payload and updating
    /// the fragmentation tracker, exactly as `spec_parse` describes: a
    /// truncated input is the matching `IOFailure` (tracker untouched), and
    /// every protocol violation is a successfully decoded `Close` unit.
    pub fn parse(src: &mut BufCursor, fragmented_message: &mut FragmentedMessage) -> (r: Result<
        Frame,
        IOFailure,
    >)
        requires
            old(src).wf(),
        ensures
            final(src).wf(),
            final(src).buf@ == old(src).buf@,
            match r {
                Ok(f) => {
                    &&& spec_parse(old(src).remaining_bytes(), old(fragmented_message)@)
                        matches Ok(o)
                    &&& f@ == o.frame
                    &&& final(fragmented_message)@ == o.tracker
                    &&& final(src).pos == old(src).pos + o.consumed
                },
                Err(e) => {
                    &&& spec_parse(old(src).remaining_bytes(), old(fragmented_message)@) == Err::<
                        ParseOutcome,
                        IOFailure,
                    >(e)
                    &&& final(fragmented_message)@ == old(fragmented_message)@
                },
            },
    {
        let ghost input = old(src).remaining_bytes();
        let ghost t0 = old(fragmented_message)@;

        let f_byte = match get_u8(src) {
            Ok(b) => b,
            Err(e) => {
                return Err(e);
            },
        };
        let fin = f_byte & 0x80 != 0;
        let rsv = f_byte & 0x70 != 0;
        let opcode = f_byte & 0x0f;

        let s_byte = match get_u8(src) {
            Ok(b) => b,
            Err(e) => {
                return Err(e);
            },
        };
        let mask_bit = s_byte & 0x80 != 0;
        let len7 = s_byte & 0x7f;
        proof {
            assert(f_byte == input[0]);
            assert(s_byte == input[1]);
        }

        if rsv || !mask_bit {
            return Ok(Frame::Close(StatusCode::ProtocolError));
        }
        proof {
            assert(s_byte & 0x7f <= 127) by (bit_vector);
            assert(src.remaining_bytes() =~= input.skip(2));
        }
        let payload_length = match Frame::payload_length(src, len7) {
            Ok(l) => l,
            Err(e) => {
                return Err(e);
            },
        };
        let ghost ext = src.pos - old(src).pos - 2;
        proof {
            assert(spec_ext_len(input.skip(2), len7) == Some((payload_length, ext)));
            assert(src.remaining_bytes() =~= input.skip(2 + ext));
        }
        let mask = match Frame::mask(src) {
            Ok(m) => m,
            Err(e) => {
                proof {
                    assert(input.len() < 2 + ext + 4);
                }
                return Err(e);
            },
        };
        proof {
            assert(input.len() >= 2 + ext + 4);
            assert(mask@ =~= input.subrange(2 + ext, 2 + ext + 4));
            assert(src.remaining_bytes() =~= input.skip(2 + ext + 4));
        }
        let message = match Frame::decoded_message(src, payload_length, &mask) {
            Ok(m) => m,
            Err(e) => {
                return Err(e);
            },
        };
        let ghost rest = input.skip(2 + ext + 4);
        let ghost payload = unmask(rest.take(payload_length as int), mask@);
        let ghost outcome = spec_dispatch(fin, opcode, payload, t0);
        proof {
            assert(message@ == payload);
            assert(spec_parse(input, t0) matches Ok(o) && o.frame == outcome.0 && o.tracker
                == outcome.1 && o.consumed == 6 + ext + payload_length);
        }

        if !fin {
            if opcode == 0x0 && fragmented_message.is_empty() {
                return Ok(Frame::Close(StatusCode::ProtocolError));
            } else if opcode == 0x0 || opcode == 0x1 {
                fragmented_message.push(message);
            } else if opcode == 0x2 {
                *fragmented_message = FragmentedMessage::Binary(Vec::new());
                fragmented_message.push(message);
                proof {
                    assert(fragmented_message@.chunks =~= seq![payload]);
                }
            } else {
                return Ok(Frame::Close(StatusCode::ProtocolError));
            }
            return Ok(Frame::Continuation(None));
        }
        if opcode == 0x0 {
            if fragmented_message.is_empty() {
                return Ok(Frame::Close(StatusCode::ProtocolError));
            }
            if fragmented_message.invalid() {
                return Ok(Frame::Close(StatusCode::InvalidDataFormat));
            }
            fragmented_message.push(message);
            return Ok(Frame::Continuation(Some(fragmented_message.clone())));
        }
        if (opcode == 0x1 || opcode == 0x2) && !fragmented_message.is_empty() {
            return Ok(Frame::Close(StatusCode::ProtocolError));
        }
        if opcode == 0x1 {
            return match utf8_to_string(message) {
                Some(decoded) => Ok(Frame::Text(decoded)),
                None => Ok(Frame::Close(StatusCode::InvalidDataFormat)),
            };
        }
        if opcode == 0x2 {
            return Ok(Frame::Binary(message));
        }
        if opcode == 0x8 {
            if payload_length == 0 {
                return Ok(Frame::Close(StatusCode::Normal));
            }
            if 2 <= payload_length && payload_length <= 125 {
                return Frame::parse_close_frame(message);
            }
            return Ok(Frame::Close(StatusCode::ProtocolError));
        }
        if opcode == 0x9 {
            if payload_length <= 125 {
                return Ok(Frame::Ping(message));
            }
            return Ok(Frame::Close(StatusCode::ProtocolError));
        }
        if opcode == 0xA {
            return Ok(Frame::Pong(message));
        }
        Ok(Frame::Close(StatusCode::ProtocolError))
    }

    /// Resolves the 7-bit length field: literal for 0..=125, a big-endian
    /// 16-bit extension after 126, a big-endian 64-bit extension after 127.
    pub fn payload_length(src: &mut BufCursor, payload_length: u8) -> (r: Result<u64, IOFailure>)
        requires
            old(src).wf(),
            payload_length <= 127,
        ensures
            final(src).wf(),
            final(src).buf@ == old(src).buf@,
            match r {
                Ok(l) => {
                    &&& spec_ext_len(old(src).remaining_bytes(), payload_length) matches Some(le)
                    &&& l == le.0
                    &&& final(src).pos == old(src).pos + le.1
                },
                Err(e) => {
                    &&& e == IOFailure::TruncatedLength
                    &&& spec_ext_len(old(src).remaining_bytes(), payload_length) is None
                    &&& final(src).pos == old(src).pos
                },
            },
    {
        if payload_length <= 125 {
            Ok(payload_length as u64)
        } else if payload_length == 126 {
            match get_u16(src) {
                Ok(v) => Ok(v as u64),
                Err(e) => Err(e),
            }
        } else {
            get_u64(src)
        }
    }

    /// Reads the 4-byte mask key that follows the length field.
    fn mask(src: &mut BufCursor) -> (r: Result<Vec<u8>, IOFailure>)
        requires
            old(src).wf(),
        ensures
            final(src).wf(),
            final(src).buf@ == old(src).buf@,
            match r {
                Ok(m) => {
                    &&& old(src).remaining_bytes().len() >= 4
                    &&& m@ == old(src).remaining_bytes().take(4)
                    &&& final(src).pos == old(src).pos + 4
                },
                Err(e) => {
                    &&& e == IOFailure::TruncatedMask
                    &&& old(src).remaining_bytes().len() < 4
                    &&& final(src).pos == old(src).pos
                },
            },
    {
        if src.remaining() < 4 {
            return Err(IOFailure::TruncatedMask);
        }
        let mut mask: Vec<u8> = Vec::new();
        mask.push(src.read_byte());
        mask.push(src.read_byte());
        mask.push(src.read_byte());
        mask.push(src.read_byte());
        proof {
            assert(mask@ =~= old(src).remaining_bytes().take(4));
        }
        Ok(mask)
    }

    /// Reads the declared number of payload bytes and unmasks them with the
    /// byte-position XOR `payload[i] ^ mask[i % 4]`.
    fn decoded_message(src: &mut BufCursor, payload_length: u64, mask: &Vec<u8>) -> (r: Result<
        Vec<u8>,
        IOFailure,
    >)
        requires
            old(src).wf(),
            mask@.len() == 4,
        ensures
            final(src).wf(),
            final(src).buf@ == old(src).buf@,
            match r {
                Ok(v) => {
                    &&& old(src).remaining_bytes().len() >= payload_length
                    &&& v@ == unmask(
                        old(src).remaining_bytes().take(payload_length as int),
                        mask@,
                    )
                    &&& final(src).pos == old(src).pos + payload_length
                },
                Err(e) => {
                    &&& e == IOFailure::TruncatedPayload
                    &&& old(src).remaining_bytes().len() < payload_length
                    &&& final(src).pos == old(src).pos
                },
            },
    {
        if (src.remaining() as u64) < payload_length {
            return Err(IOFailure::TruncatedPayload);
        }
        let n = payload_length as usize;
        let ghost orig = old(src).remaining_bytes();
        let mut encoded: Vec<u8> = Vec::new();
        let mut i: usize = 0;
        while i < n
            invariant
                i <= n,
                n == payload_length,
                orig.len() >= n,
                mask@.len() == 4,
                src.wf(),
                src.buf@ == old(src).buf@,
                src.pos == old(src).pos + i,
                orig == old(src).remaining_bytes(),
                src.remaining_bytes() == orig.skip(i as int),
                encoded@.len() == i,
                forall|k: int|
                    0 <= k < i ==> encoded@[k] == (orig[k] ^ mask@[k % 4]) as u8,
            decreases n - i,
        {
            let b = src.read_byte();
            let m = mask[i % 4];
            encoded.push(b ^ m);
            i = i + 1;
            proof {
                assert(src.remaining_bytes() =~= orig.skip(i as int));
            }
        }
        proof {
            assert(encoded@ =~= unmask(orig.take(n as int), mask@));
        }
        Ok(encoded)
    }

    /// Validates a close payload of length 2..=125: the big-endian status
    /// code must be allowed and the trailing reason valid UTF-8; acceptance
    /// is reported as `Close(Normal)`, anything else as a protocol error.
    pub fn parse_close_frame(message: Vec<u8>) -> (r: Result<Frame, IOFailure>)
        requires
            2 <= message@.len() <= 125,
        ensures
            r matches Ok(f) && f@ == SpecFrame::Close(spec_close_result(message@)),
    {
        let status_code: u16 = ((message[0] as u16) << 8) | (message[1] as u16);
        let allowed = status_code == 1000 || status_code == 1001 || status_code == 1002
            || status_code == 1003 || status_code == 1007 || status_code == 1008 || status_code
            == 1009 || status_code == 1010 || status_code == 1011 || status_code == 3000
            || status_code == 3999 || status_code == 4000 || status_code == 4999;
        if !allowed {
            return Ok(Frame::Close(StatusCode::ProtocolError));
        }
        let slice = message.as_slice();
        let reason = vstd::slice::slice_to_vec(
            vstd::slice::slice_subrange(slice, 2, message.len()),
        );
        proof {
            assert(reason@ =~= message@.skip(2));
        }
        match utf8_to_string(reason) {
            Some(_) => Ok(Frame::Close(StatusCode::Normal)),
            None => Ok(Frame::Close(StatusCode::ProtocolError)),
        }
    }

    /// Serializes this logical unit for the wire as `spec_response`
    /// describes; `None` exactly for `Continuation(None)` and `Pong`.
    pub fn response(&self) -> (r: Option<Vec<u8>>)
        ensures
            match spec_response(self@) {
                Some(bytes) => r matches Some(v) && v@ == bytes,
                None => r is None,
            },
    {
        match self {
            Frame::Continuation(message) => match message {
                Some(m) => Some(m.response()),
                None => None,
            },
            Frame::Text(message) => {
                let mut response: Vec<u8> = Vec::new();
                response.push(0x81);
                let payload = message.as_str().as_bytes();
                let mut length_info = Frame::payload_length_response(payload.len());
                response.append(&mut length_info);
                let mut payload_vec = vstd::slice::slice_to_vec(payload);
                response.append(&mut payload_vec);
                proof {
                    assert(response@ =~= spec_response(self@).unwrap());
                }
                Some(response)
            },
            Frame::Binary(message) => {
                let mut response: Vec<u8> = Vec::new();
                response.push(0x82);
                let mut length_info = Frame::payload_length_response(message.len());
                response.append(&mut length_info);
                let mut payload_vec = vstd::slice::slice_to_vec(message.as_slice());
                response.append(&mut payload_vec);
                proof {
                    assert(response@ =~= spec_response(self@).unwrap());
                }
                Some(response)
            },
            Frame::Close(status_code) => {
                let code = status_code.code();
                let mut response: Vec<u8> = Vec::new();
                response.push(0x88);
                response.push(0x02);
                response.push((code >> 8) as u8);
                response.push(#[verifier::truncate] (code as u8));
                proof {
                    assert(response@ =~= spec_response(self@).unwrap());
                }
                Some(response)
            },
            Frame::Ping(message) => {
                let mut response: Vec<u8> = Vec::new();
                response.push(0x8A);
                response.push(#[verifier::truncate] (message.len() as u8));
                let mut payload_vec = vstd::slice::slice_to_vec(message.as_slice());
                response.append(&mut payload_vec);
                proof {
                    assert(response@ =~= spec_response(self@).unwrap());
                }
                Some(response)
            },
            Frame::Pong(_) => None,
        }
    }

    /// Encodes a payload length: one byte for 0..=125, marker 126 plus two
    /// big-endian bytes up to 65535, marker 127 plus eight big-endian bytes
    /// beyond.
    pub fn payload_length_response(payload_length: usize) -> (r: Vec<u8>)
        ensures
            r@ == crate::wire::encode_len(payload_length as nat),
    {
        let mut payload_length_info: Vec<u8> = Vec::new();
        if payload_length <= 125 {
            payload_length_info.push(payload_length as u8);
        } else if payload_length <= 65535 {
            payload_length_info.push(126);
            let l = payload_length as u16;
            payload_length_info.push((l >> 8) as u8);
            payload_length_info.push(#[verifier::truncate] (l as u8));
        } else {
            payload_length_info.push(127);
            let l = payload_length as u64;
            payload_length_info.push((l >> 56) as u8);
            payload_length_info.push(#[verifier::truncate] ((l >> 48) as u8));
            payload_length_info.push(#[verifier::truncate] ((l >> 40) as u8));
            payload_length_info.push(#[verifier::truncate] ((l >> 32) as u8));
            payload_length_info.push(#[verifier::truncate] ((l >> 24) as u8));
            payload_length_info.push(#[verifier::truncate] ((l >> 16) as u8));
            payload_length_info.push(#[verifier::truncate] ((l >> 8) as u8));
            payload_length_info.push(#[verifier::truncate] (l as u8));
        }
        proof {
            assert(payload_length_info@ =~= crate::wire::encode_len(payload_length as nat));
        }
        payload_length_info
    }

    /// Whether this unit is a close signal.
    pub fn is_close(&self) -> (r: bool)
        ensures
            r == (self@ is Close),
    {
        matches!(self, Frame::Close(_))
    }

    /// Whether this unit is a complete text message.
    pub fn is_text(&self) -> (r: bool)
        ensures
            r == (self@ is Text),
    {
        matches!(self, Frame::Text(_))
    }

    /// Whether this unit is a complete binary message.
    pub fn is_binary(&self) -> (r: bool)
        ensures
            r == (self@ is Binary),
    {
        matches!(self, Frame::Binary(_))
    }

    /// Whether this unit is a fragment marker or a reassembled message.
    pub fn is_continuation(&self) -> (r: bool)
        ensures
            r == (self@ is Continuation),
    {
        matches!(self, Frame::Continuation(_))
    }
}

/// Byte-buffer helpers for the connection driver.
pub trait VecExt {
    /// The value `is_close` returns.
    spec fn spec_is_close(&self) -> bool;

    /// Whether an already-encoded frame starts a close frame (first byte
    /// 0x88: FIN set, opcode 0x8).
    fn is_close(&self) -> (r: bool)
        ensures
            r == self.spec_is_close(),
    ;
}

impl VecExt for Vec<u8> {
    open spec fn spec_is_close(&self) -> bool {
        self@.len() > 0 && self@[0] == 0x88
    }

    fn is_close(&self) -> (r: bool) {
        if self.len() == 0 {
            false
        } else {
            self[0] == 0x88
        }
    }
}

} // verus!
