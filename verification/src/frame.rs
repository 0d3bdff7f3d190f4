//! The WebSocket frame: its header bits, its length encodings, masking,
//! and the codec between a frame and its bytes on the wire.

use crate::endian::{
    be_bytes, be_value, lemma_be_bytes_len, lemma_be_value_of_bytes, lemma_u16_fits, lemma_u64_fits,
    read_u16_be, read_u64_be, write_u16_be, write_u64_be,
};
use vstd::prelude::*;
use vstd::string::StringSliceAdditionalSpecFns;
use vstd::slice::{slice_subrange, slice_to_vec};

verus! {

/// Value of the 7-bit length field that announces a 16-bit length.
pub const PAYLOAD_LEN_U16: u8 = 126;

/// Value of the 7-bit length field that announces a 64-bit length.
pub const PAYLOAD_LEN_U64: u8 = 127;

/// The purpose of a frame, as its 4-bit opcode tells it.
#[derive(Debug, Clone, Copy, PartialEq, Eq, Structural)]
pub enum OpCode {
    Continuation,
    TextFrame,
    BinaryFrame,
    ConnectionClose,
    Ping,
    Pong,
}

impl OpCode {
    /// The opcode that a wire value stands for, if any.
    pub open spec fn spec_from(op: u8) -> Option<OpCode> {
        if op == 0 {
            Some(OpCode::Continuation)
        } else if op == 1 {
            Some(OpCode::TextFrame)
        } else if op == 2 {
            Some(OpCode::BinaryFrame)
        } else if op == 8 {
            Some(OpCode::ConnectionClose)
        } else if op == 9 {
            Some(OpCode::Ping)
        } else if op == 10 {
            Some(OpCode::Pong)
        } else {
            None
        }
    }

    /// The wire value of an opcode.
    pub open spec fn spec_code(self) -> u8 {
        match self {
            OpCode::Continuation => 0,
            OpCode::TextFrame => 1,
            OpCode::BinaryFrame => 2,
            OpCode::ConnectionClose => 8,
            OpCode::Ping => 9,
            OpCode::Pong => 10,
        }
    }

    /// Close, ping and pong are control frames.
    pub open spec fn spec_is_control(self) -> bool {
        self == OpCode::ConnectionClose || self == OpCode::Ping || self == OpCode::Pong
    }

    pub fn from(op: u8) -> (r: Option<OpCode>)
        ensures
            r == Self::spec_from(op),
    {
        match op {
            0 => Some(OpCode::Continuation),
            1 => Some(OpCode::TextFrame),
            2 => Some(OpCode::BinaryFrame),
            8 => Some(OpCode::ConnectionClose),
            9 => Some(OpCode::Ping),
            0xA => Some(OpCode::Pong),
            _ => None,
        }
    }

    #[verifier::when_used_as_spec(spec_code)]
    pub fn code(self) -> (r: u8)
        ensures
            r == self.spec_code(),
    {
        match self {
            OpCode::Continuation => 0,
            OpCode::TextFrame => 1,
            OpCode::BinaryFrame => 2,
            OpCode::ConnectionClose => 8,
            OpCode::Ping => 9,
            OpCode::Pong => 10,
        }
    }

    #[verifier::when_used_as_spec(spec_is_control)]
    pub fn is_control(self) -> (r: bool)
        ensures
            r == self.spec_is_control(),
    {
        match self {
            OpCode::ConnectionClose | OpCode::Ping | OpCode::Pong => true,
            _ => false,
        }
    }
}

/// A wire value and its opcode name each other.
pub proof fn lemma_opcode_code_from(op: OpCode)
    ensures
        OpCode::spec_from(op.spec_code()) == Some(op),
        op.spec_code() < 16,
{
}

/// Only the six assigned wire values have an opcode.
pub proof fn lemma_opcode_from_code(n: u8)
    ensures
        OpCode::spec_from(n) matches Some(op) ==> op.spec_code() == n,
{
}

/// A rule of the framing protocol that the header of a frame can break.
#[derive(Debug, Clone, Copy, PartialEq, Eq, Structural)]
pub enum ProtocolViolation {
    /// The opcode is none of the six assigned ones.
    UnknownOpcode,
    /// A reserved bit is set although no extension was negotiated.
    ReservedBits,
    /// A control frame that is not final.
    FragmentedControl,
    /// A control frame whose payload is longer than 125 bytes.
    OversizedControl,
}

/// The first two bytes of a frame, taken apart.
#[derive(Debug, Clone, Copy, PartialEq, Eq, Structural)]
pub struct WebSocketFrameHeader {
    pub fin: bool,
    pub rsv1: bool,
    pub rsv2: bool,
    pub rsv3: bool,
    pub masked: bool,
    pub opcode: OpCode,
    /// The 7-bit length field: the length itself below 126, else the
    /// marker of the extended length that follows.
    pub payload_length: u8,
}

/// One if the flag is set, zero if not.
pub open spec fn bit(b: bool) -> int {
    if b {
        1
    } else {
        0
    }
}

/// The 7-bit length field that belongs to a payload of `len` bytes.
pub open spec fn length_code(len: nat) -> u8 {
    if len < 126 {
        len as u8
    } else if len <= 65535 {
        PAYLOAD_LEN_U16
    } else {
        PAYLOAD_LEN_U64
    }
}

/// The header that the two bytes `buf / 256` and `buf % 256` spell.
pub open spec fn header_of(buf: u16) -> Result<WebSocketFrameHeader, ProtocolViolation> {
    let first = buf / 256;
    let second = buf % 256;
    match OpCode::spec_from((first % 16) as u8) {
        Some(opcode) => Ok(
            WebSocketFrameHeader {
                fin: first / 128 == 1,
                rsv1: (first / 64) % 2 == 1,
                rsv2: (first / 32) % 2 == 1,
                rsv3: (first / 16) % 2 == 1,
                masked: second / 128 == 1,
                opcode,
                payload_length: (second % 128) as u8,
            },
        ),
        None => Err(ProtocolViolation::UnknownOpcode),
    }
}

/// The two bytes that spell a header, the first in the high half.
pub open spec fn header_bits(hdr: WebSocketFrameHeader) -> u16 {
    let first = bit(hdr.fin) * 128 + bit(hdr.rsv1) * 64 + bit(hdr.rsv2) * 32 + bit(hdr.rsv3) * 16
        + hdr.opcode.spec_code();
    let second = bit(hdr.masked) * 128 + hdr.payload_length % 128;
    (first * 256 + second) as u16
}

impl WebSocketFrameHeader {
    /// What a header must satisfy beyond its bits: no reserved bit, and
    /// a control frame is final and short.
    pub open spec fn spec_check(self) -> Result<(), ProtocolViolation> {
        if self.rsv1 || self.rsv2 || self.rsv3 {
            Err(ProtocolViolation::ReservedBits)
        } else if self.opcode.spec_is_control() && !self.fin {
            Err(ProtocolViolation::FragmentedControl)
        } else if self.opcode.spec_is_control() && self.payload_length > 125 {
            Err(ProtocolViolation::OversizedControl)
        } else {
            Ok(())
        }
    }

    /// The header of a final, unmasked frame with `len` bytes of payload.
    pub fn new_header(len: usize, opcode: OpCode) -> (hdr: Self)
        ensures
            hdr == (WebSocketFrameHeader {
                fin: true,
                rsv1: false,
                rsv2: false,
                rsv3: false,
                masked: false,
                opcode,
                payload_length: length_code(len as nat),
            }),
    {
        WebSocketFrameHeader {
            fin: true,
            rsv1: false,
            rsv2: false,
            rsv3: false,
            masked: false,
            opcode: opcode,
            payload_length: Self::determine_len(len),
        }
    }

    /// Chooses the length encoding: the length itself below 126, the
    /// 16-bit form up to 65535, the 64-bit form above.
    pub fn determine_len(len: usize) -> (code: u8)
        ensures
            code == length_code(len as nat),
            len < 126 ==> code == len,
            126 <= len <= 65535 ==> code == PAYLOAD_LEN_U16,
            len > 65535 ==> code == PAYLOAD_LEN_U64,
    {
        if len < (PAYLOAD_LEN_U16 as usize) {
            len as u8
        } else if len <= (u16::MAX as usize) {
            PAYLOAD_LEN_U16
        } else {
            PAYLOAD_LEN_U64
        }
    }

    /// Tests the rules that the bits of a single header can break.
    pub fn check(&self) -> (r: Result<(), ProtocolViolation>)
        ensures
            r == self.spec_check(),
    {
        if self.rsv1 || self.rsv2 || self.rsv3 {
            Err(ProtocolViolation::ReservedBits)
        } else if self.opcode.is_control() && !self.fin {
            Err(ProtocolViolation::FragmentedControl)
        } else if self.opcode.is_control() && self.payload_length > 125 {
            Err(ProtocolViolation::OversizedControl)
        } else {
            Ok(())
        }
    }
}

/// Why no frame could be read from the bytes at hand.
#[derive(Debug, Clone, Copy, PartialEq, Eq, Structural)]
pub enum ReadError {
    /// The bytes are the beginning of a frame, and its end has not come.
    NeedMoreData,
    /// The bytes cannot begin any frame.
    ProtocolError(ProtocolViolation),
}

/// The payload with every byte combined, by exclusive or, with the byte
/// of the key at its index modulo 4. Masks and unmasks alike.
pub open spec fn unmask(mask: Seq<u8>, payload: Seq<u8>) -> Seq<u8> {
    Seq::new(payload.len(), |i: int| payload[i] ^ mask[i % 4])
}

/// The payload length that a 7-bit length field and the bytes after it
/// announce, with the number of those bytes that belong to it; `None`
/// while the extended length is not all there.
pub open spec fn announced_length(code: u8, input: Seq<u8>) -> Option<(u64, usize)> {
    if code == PAYLOAD_LEN_U64 {
        if input.len() >= 8 {
            Some((be_value(input.subrange(0, 8)) as u64, 8usize))
        } else {
            None
        }
    } else if code == PAYLOAD_LEN_U16 {
        if input.len() >= 2 {
            Some((be_value(input.subrange(0, 2)) as u64, 2usize))
        } else {
            None
        }
    } else {
        Some((code as u64, 0usize))
    }
}

/// The bytes of the extended length of a payload of `len` bytes: none
/// below 126, two up to 65535, eight above.
pub open spec fn extended_length(len: nat) -> Seq<u8> {
    if len < 126 {
        Seq::empty()
    } else if len <= 65535 {
        be_bytes(len, 2)
    } else {
        be_bytes(len, 8)
    }
}

/// The frame at the head of `input` and the number of bytes it takes,
/// or why there is none.
///
/// The first two bytes are the header; an extended length follows where
/// the length field announces one, then the masking key where the mask
/// bit is set, then the payload, which is unmasked with that key. Bytes
/// behind the frame play no part.
pub open spec fn decode(input: Seq<u8>) -> Result<(FrameView, nat), ReadError> {
    if input.len() < 2 {
        Err(ReadError::NeedMoreData)
    } else {
        match header_of(be_value(input.subrange(0, 2)) as u16) {
            Err(v) => Err(ReadError::ProtocolError(v)),
            Ok(header) => match header.spec_check() {
                Err(v) => Err(ReadError::ProtocolError(v)),
                Ok(_) => match announced_length(header.payload_length, input.skip(2)) {
                    None => Err(ReadError::NeedMoreData),
                    Some((len, size)) => {
                        let key_at = 2 + size;
                        let payload_at = key_at + if header.masked {
                            4int
                        } else {
                            0int
                        };
                        if input.len() < payload_at + len {
                            Err(ReadError::NeedMoreData)
                        } else {
                            let raw = input.subrange(payload_at, payload_at + len);
                            let key = input.subrange(key_at, key_at + 4);
                            Ok(
                                (
                                    FrameView {
                                        header,
                                        mask: if header.masked {
                                            Some(key)
                                        } else {
                                            None
                                        },
                                        payload: if header.masked {
                                            unmask(key, raw)
                                        } else {
                                            raw
                                        },
                                    },
                                    (payload_at + len) as nat,
                                ),
                            )
                        }
                    },
                },
            },
        }
    }
}

/// The bytes of a frame as this endpoint sends it: the header with the
/// mask bit clear and the length field that fits the payload, the
/// extended length where one is due, and the payload in the clear.
pub open spec fn encode(frame: FrameView) -> Seq<u8> {
    let header = WebSocketFrameHeader {
        masked: false,
        payload_length: length_code(frame.payload.len()),
        ..frame.header
    };
    be_bytes(header_bits(header) as nat, 2) + extended_length(frame.payload.len()) + frame.payload
}

/// A frame: its header, its masking key if it has one, and its payload
/// in the clear.
#[derive(Debug)]
pub struct WebSocketFrame {
    pub header: WebSocketFrameHeader,
    pub mask: Option<[u8; 4]>,
    pub payload: Vec<u8>,
}

/// A frame as a value: the payload as a sequence of bytes.
pub struct FrameView {
    pub header: WebSocketFrameHeader,
    pub mask: Option<Seq<u8>>,
    pub payload: Seq<u8>,
}

impl FrameView {
    /// A frame that may stand on the wire: its header breaks no rule,
    /// its payload's length can be written in 64 bits, its length field
    /// fits that length, and it has a key of four bytes exactly if its
    /// mask bit is set.
    pub open spec fn valid(self) -> bool {
        &&& self.header.spec_check() is Ok
        &&& self.payload.len() <= u64::MAX
        &&& self.header.payload_length == length_code(self.payload.len())
        &&& self.mask is Some <==> self.header.masked
        &&& self.mask matches Some(key) ==> key.len() == 4
    }

    /// The same frame as this endpoint sends it: without mask bit and
    /// without key.
    pub open spec fn unmasked(self) -> FrameView {
        FrameView {
            header: WebSocketFrameHeader { masked: false, ..self.header },
            mask: None,
            payload: self.payload,
        }
    }
}

impl View for WebSocketFrame {
    type V = FrameView;

    open spec fn view(&self) -> FrameView {
        FrameView {
            header: self.header,
            mask: match self.mask {
                Some(key) => Some(key@),
                None => None,
            },
            payload: self.payload@,
        }
    }
}

/// The final, unmasked frame that carries `payload` under `opcode`.
pub open spec fn frame_of(opcode: OpCode, payload: Seq<u8>) -> FrameView {
    FrameView {
        header: WebSocketFrameHeader {
            fin: true,
            rsv1: false,
            rsv2: false,
            rsv3: false,
            masked: false,
            opcode,
            payload_length: length_code(payload.len()),
        },
        mask: None,
        payload,
    }
}

impl<'a> vstd::std_specs::convert::FromSpecImpl<&'a str> for WebSocketFrame {
    /// Two vectors of equal content need not be one value, so the
    /// conversion is stated over the view, on `from` itself.
    open spec fn obeys_from_spec() -> bool {
        false
    }

    open spec fn from_spec(v: &'a str) -> Self {
        arbitrary()
    }
}

impl<'a> From<&'a str> for WebSocketFrame {
    /// The text frame that carries the UTF-8 bytes of `payload`.
    fn from(payload: &'a str) -> (frame: WebSocketFrame)
        ensures
            frame@ == frame_of(OpCode::TextFrame, payload.spec_bytes()),
    {
        WebSocketFrame::new(OpCode::TextFrame, slice_to_vec(payload.as_bytes()))
    }
}

impl WebSocketFrame {
    /// The final, unmasked frame that carries `payload` under `opcode`.
    pub fn new(opcode: OpCode, payload: Vec<u8>) -> (frame: WebSocketFrame)
        ensures
            frame@ == frame_of(opcode, payload@),
    {
        WebSocketFrame {
            header: WebSocketFrameHeader::new_header(payload.len(), opcode),
            payload: payload,
            mask: None,
        }
    }

    pub fn get_opcode(&self) -> (op: OpCode)
        ensures
            op == self.header.opcode,
    {
        self.header.opcode
    }

    /// Takes the two header bytes apart. Fails on an opcode that is not
    /// assigned, and on nothing else.
    pub fn parse_header(buf: u16) -> (r: Result<WebSocketFrameHeader, ProtocolViolation>)
        ensures
            r == header_of(buf),
    {
        let opcode_num: u8 = ((buf >> 8) as u8) & 0x0F;
        let opcode = OpCode::from(opcode_num);
        proof {
            assert(((buf >> 8) as u8) & 0x0F == ((buf / 256) % 16) as u8) by (bit_vector);
            assert(((buf >> 8) & 0x80 == 0x80) == ((buf / 256) / 128 == 1)) by (bit_vector);
            assert(((buf >> 8) & 0x40 == 0x40) == (((buf / 256) / 64) % 2 == 1)) by (bit_vector);
            assert(((buf >> 8) & 0x20 == 0x20) == (((buf / 256) / 32) % 2 == 1)) by (bit_vector);
            assert(((buf >> 8) & 0x10 == 0x10) == (((buf / 256) / 16) % 2 == 1)) by (bit_vector);
            assert((buf & 0x80 == 0x80) == ((buf % 256) / 128 == 1)) by (bit_vector);
            assert((buf as u8) & 0x7F == ((buf % 256) % 128) as u8) by (bit_vector);
        }
        if let Some(op) = opcode {
            Ok(
                WebSocketFrameHeader {
                    fin: (buf >> 8) & 0x80 == 0x80,
                    rsv1: (buf >> 8) & 0x40 == 0x40,
                    rsv2: (buf >> 8) & 0x20 == 0x20,
                    rsv3: (buf >> 8) & 0x10 == 0x10,
                    opcode: op,
                    masked: buf & 0x80 == 0x80,
                    payload_length: (buf as u8) & 0x7F,
                },
            )
        } else {
            Err(ProtocolViolation::UnknownOpcode)
        }
    }

    /// Masks or unmasks `bytes` in place with the key `mask`.
    pub fn apply_mask(mask: [u8; 4], bytes: &mut Vec<u8>)
        ensures
            final(bytes)@ == unmask(mask@, old(bytes)@),
    {
        let n: usize = bytes.len();
        let mut idx: usize = 0;
        while idx < n
            invariant
                idx <= n,
                n == bytes@.len(),
                n == old(bytes)@.len(),
                forall|i: int| 0 <= i < idx ==> bytes@[i] == old(bytes)@[i] ^ mask@[i % 4],
                forall|i: int| idx <= i < n ==> bytes@[i] == old(bytes)@[i],
            decreases n - idx,
        {
            let c: u8 = bytes[idx] ^ mask[idx % 4];
            bytes.set(idx, c);
            idx += 1;
        }
    }

    /// The masking key at the head of `input`; `None` while fewer than
    /// four bytes are there.
    pub fn read_mask(input: &[u8]) -> (r: Option<[u8; 4]>)
        ensures
            r is Some <==> input@.len() >= 4,
            r matches Some(key) ==> key@ == input@.subrange(0, 4),
    {
        if input.len() < 4 {
            None
        } else {
            let key: [u8; 4] = [input[0], input[1], input[2], input[3]];
            Some(key)
        }
    }

    /// The first `payload_len` bytes of `input`; `None` while fewer are
    /// there.
    pub fn read_payload(payload_len: usize, input: &[u8]) -> (r: Option<Vec<u8>>)
        ensures
            r is Some <==> input@.len() >= payload_len,
            r matches Some(payload) ==> payload@ == input@.subrange(0, payload_len as int),
    {
        if input.len() < payload_len {
            None
        } else {
            Some(slice_to_vec(slice_subrange(input, 0, payload_len)))
        }
    }

    /// The payload length that the length field `payload_len` and the
    /// bytes after the header announce, and how many of those bytes
    /// spell it; `None` while the extended length is not all there.
    pub fn read_length(payload_len: u8, input: &[u8]) -> (r: Option<(u64, usize)>)
        ensures
            r == announced_length(payload_len, input@),
    {
        if payload_len == PAYLOAD_LEN_U64 {
            if input.len() >= 8 {
                Some((read_u64_be(input), 8))
            } else {
                None
            }
        } else if payload_len == PAYLOAD_LEN_U16 {
            if input.len() >= 2 {
                Some((read_u16_be(input) as u64, 2))
            } else {
                None
            }
        } else {
            Some((payload_len as u64, 0))
        }
    }

    /// Reads the frame at the head of `input`, and says how many bytes
    /// it took. Reads nothing behind the frame, and asks for more data
    /// where the frame is not all there.
    pub fn read(input: &[u8]) -> (r: Result<(WebSocketFrame, usize), ReadError>)
        ensures
            match r {
                Ok((frame, used)) => decode(input@) == Ok::<_, ReadError>((frame@, used as nat)),
                Err(e) => decode(input@) == Err::<(FrameView, nat), _>(e),
            },
    {
        let total: usize = input.len();
        if total < 2 {
            return Err(ReadError::NeedMoreData);
        }
        let buf: u16 = read_u16_be(input);
        let header = match Self::parse_header(buf) {
            Ok(header) => header,
            Err(v) => {
                return Err(ReadError::ProtocolError(v));
            },
        };
        if let Err(v) = header.check() {
            return Err(ReadError::ProtocolError(v));
        }
        let (len, size) = match Self::read_length(
            header.payload_length,
            slice_subrange(input, 2, total),
        ) {
            Some(found) => found,
            None => {
                return Err(ReadError::NeedMoreData);
            },
        };
        let key_at: usize = 2 + size;
        let mask_key = if header.masked {
            match Self::read_mask(slice_subrange(input, key_at, total)) {
                Some(key) => Some(key),
                None => {
                    return Err(ReadError::NeedMoreData);
                },
            }
        } else {
            None
        };
        let payload_at: usize = if header.masked {
            key_at + 4
        } else {
            key_at
        };
        if len > (total - payload_at) as u64 {
            return Err(ReadError::NeedMoreData);
        }
        let end: usize = payload_at + len as usize;
        let mut payload = slice_to_vec(slice_subrange(input, payload_at, end));
        if let Some(mask) = mask_key {
            assert(mask@ == input@.subrange(key_at as int, key_at + 4));
            Self::apply_mask(mask, &mut payload);
        }
        Ok((WebSocketFrame { header: header, payload: payload, mask: mask_key }, end))
    }

    /// Appends the bytes of this frame to `output`. The frame goes out
    /// unmasked, whatever its mask bit says.
    pub fn write(&self, output: &mut Vec<u8>)
        ensures
            final(output)@ == old(output)@ + encode(self@),
    {
        let len: usize = self.payload.len();
        let wire = WebSocketFrameHeader {
            fin: self.header.fin,
            rsv1: self.header.rsv1,
            rsv2: self.header.rsv2,
            rsv3: self.header.rsv3,
            masked: false,
            opcode: self.header.opcode,
            payload_length: WebSocketFrameHeader::determine_len(len),
        };
        let header: u16 = Self::serialize_header(&wire);
        let first = write_u16_be(header);
        append_bytes(output, first.as_slice());
        if wire.payload_length == PAYLOAD_LEN_U16 {
            let extended = write_u16_be(len as u16);
            append_bytes(output, extended.as_slice());
        } else if wire.payload_length == PAYLOAD_LEN_U64 {
            let extended = write_u64_be(len as u64);
            append_bytes(output, extended.as_slice());
        }
        append_bytes(output, self.payload.as_slice());
    }

    /// Puts a header together into its two bytes.
    pub fn serialize_header(hdr: &WebSocketFrameHeader) -> (buf: u16)
        ensures
            buf == header_bits(*hdr),
    {
        let fin: u8 = if hdr.fin { 0x80 } else { 0 };
        let rsv1: u8 = if hdr.rsv1 { 0x40 } else { 0 };
        let rsv2: u8 = if hdr.rsv2 { 0x20 } else { 0 };
        let rsv3: u8 = if hdr.rsv3 { 0x10 } else { 0 };
        let masked: u8 = if hdr.masked { 0x80 } else { 0 };
        let code: u8 = hdr.opcode.code();
        let len: u8 = hdr.payload_length;
        let b1: u8 = fin | rsv1 | rsv2 | rsv3 | (code & 0x0F);
        let b2: u8 = masked | (len & 0x7F);
        proof {
            assert(fin | rsv1 | rsv2 | rsv3 | (code & 0x0F) == fin + rsv1 + rsv2 + rsv3 + code)
                by (bit_vector)
                requires
                    fin == 0x80 || fin == 0,
                    rsv1 == 0x40 || rsv1 == 0,
                    rsv2 == 0x20 || rsv2 == 0,
                    rsv3 == 0x10 || rsv3 == 0,
                    code < 16,
            ;
            assert(masked | (len & 0x7F) == masked + len % 128) by (bit_vector)
                requires
                    masked == 0x80 || masked == 0,
            ;
            assert(((b1 as u16) << 8) | (b2 as u16) == b1 * 256 + b2) by (bit_vector);
        }
        ((b1 as u16) << 8) | (b2 as u16)
    }
}

/// Appends a copy of `bytes` to `output`.
pub fn append_bytes(output: &mut Vec<u8>, bytes: &[u8])
    ensures
        final(output)@ == old(output)@ + bytes@,
{
    let n: usize = bytes.len();
    let mut idx: usize = 0;
    while idx < n
        invariant
            idx <= n,
            n == bytes@.len(),
            output@ == old(output)@ + bytes@.subrange(0, idx as int),
        decreases n - idx,
    {
        output.push(bytes[idx]);
        idx += 1;
    }
}

/// A header with a 7-bit length field is the header of its own two bytes.
pub proof fn lemma_header_of_bits(hdr: WebSocketFrameHeader)
    requires
        hdr.payload_length < 128,
    ensures
        header_of(header_bits(hdr)) == Ok::<_, ProtocolViolation>(hdr),
{
}

/// Two bytes with an assigned opcode are the bytes of their own header.
pub proof fn lemma_bits_of_header(buf: u16)
    requires
        header_of(buf) is Ok,
    ensures
        header_bits(header_of(buf)->Ok_0) == buf,
{
    lemma_opcode_from_code(((buf / 256) % 16) as u8);
}

/// A frame that was read takes at least its two header bytes and no
/// more bytes than there are, and its payload lies within them.
pub proof fn lemma_decode_bounds(input: Seq<u8>)
    ensures
        decode(input) matches Ok((frame, used)) ==> 2 <= used <= input.len() && frame.payload.len()
            <= used - 2,
{
}

/// Masking twice with one key gives the payload back.
pub proof fn lemma_unmask_involution(mask: Seq<u8>, payload: Seq<u8>)
    requires
        mask.len() == 4,
    ensures
        unmask(mask, unmask(mask, payload)) == payload,
{
    assert forall|i: int| 0 <= i < payload.len() implies #[trigger] unmask(
        mask,
        unmask(mask, payload),
    )[i] == payload[i] by {
        let p = payload[i];
        let k = mask[i % 4];
        assert((p ^ k) ^ k == p) by (bit_vector);
    }
}

/// What was written is read back, whatever bytes follow it: reading
/// the bytes of a valid frame gives that frame, unmasked, and takes
/// those bytes and no more.
pub proof fn lemma_decode_encode_then(frame: FrameView, tail: Seq<u8>)
    requires
        frame.valid(),
    ensures
        decode(encode(frame) + tail) == Ok::<_, ReadError>((frame.unmasked(), encode(frame).len())),
{
    let len = frame.payload.len();
    let wire = WebSocketFrameHeader {
        masked: false,
        payload_length: length_code(len),
        ..frame.header
    };
    let bits = header_bits(wire);
    let ext = extended_length(len);
    let input = encode(frame) + tail;
    // the header
    lemma_be_bytes_len(bits as nat, 2);
    lemma_u16_fits(bits);
    lemma_be_value_of_bytes(bits as nat, 2);
    assert(input.subrange(0, 2) =~= be_bytes(bits as nat, 2));
    lemma_header_of_bits(wire);
    // the extended length
    if 126 <= len <= 65535 {
        lemma_be_bytes_len(len, 2);
        lemma_u16_fits(len as u16);
        lemma_be_value_of_bytes(len, 2);
        assert(input.skip(2).subrange(0, 2) =~= ext);
    } else if len > 65535 {
        lemma_be_bytes_len(len, 8);
        lemma_u64_fits(len as u64);
        lemma_be_value_of_bytes(len, 8);
        assert(input.skip(2).subrange(0, 8) =~= ext);
    }
    // the payload
    let payload_at = 2 + ext.len();
    assert(input.subrange(payload_at as int, (payload_at + len) as int) =~= frame.payload);
}

/// Reading what was written gives the frame back, but for the mask: a
/// frame goes out unmasked even if its mask bit is set.
pub proof fn lemma_decode_encode(frame: FrameView)
    requires
        frame.valid(),
    ensures
        decode(encode(frame)) == Ok::<_, ReadError>((frame.unmasked(), encode(frame).len())),
        !frame.header.masked ==> frame.unmasked() == frame,
{
    lemma_decode_encode_then(frame, Seq::empty());
}

} // verus!
