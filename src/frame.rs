//! Frames: the header layout, the three length classes, masking.
use vstd::prelude::*;

use crate::bytes::{be_bytes, from_be, push_be, read_be};
use crate::support::random_u32;

verus! {

/// The kind of a frame.
#[derive(Debug, Clone, Copy, PartialEq, Eq, Structural)]
pub enum Opcode {
    Continue,
    Text,
    Binary,
    Close,
    Ping,
    Pong,
}

/// The four opcode bits that stand for an opcode on the wire.
pub open spec fn opcode_bits(op: Opcode) -> u8 {
    match op {
        Opcode::Continue => 0,
        Opcode::Text => 1,
        Opcode::Binary => 2,
        Opcode::Close => 8,
        Opcode::Ping => 9,
        Opcode::Pong => 10,
    }
}

/// The opcode that four bits stand for, if any.
pub open spec fn opcode_of_bits(b: u8) -> Option<Opcode> {
    if b == 0 {
        Some(Opcode::Continue)
    } else if b == 1 {
        Some(Opcode::Text)
    } else if b == 2 {
        Some(Opcode::Binary)
    } else if b == 8 {
        Some(Opcode::Close)
    } else if b == 9 {
        Some(Opcode::Ping)
    } else if b == 10 {
        Some(Opcode::Pong)
    } else {
        None
    }
}

/// Four bits that stand for no opcode.
#[derive(Debug, Clone, Copy, PartialEq, Eq, Structural)]
pub struct InvalidOpcode;

impl Opcode {
    /// The opcode bits of this opcode.
    pub fn bits(self) -> (r: u8)
        ensures
            r == opcode_bits(self),
    {
        match self {
            Opcode::Continue => 0,
            Opcode::Text => 1,
            Opcode::Binary => 2,
            Opcode::Close => 8,
            Opcode::Ping => 9,
            Opcode::Pong => 10,
        }
    }
}

impl TryFrom<u8> for Opcode {
    type Error = InvalidOpcode;

    fn try_from(value: u8) -> (r: Result<Opcode, InvalidOpcode>) {
        match value {
            0 => Ok(Opcode::Continue),
            1 => Ok(Opcode::Text),
            2 => Ok(Opcode::Binary),
            8 => Ok(Opcode::Close),
            9 => Ok(Opcode::Ping),
            10 => Ok(Opcode::Pong),
            _ => Err(InvalidOpcode),
        }
    }
}

impl vstd::std_specs::convert::TryFromSpecImpl<u8> for Opcode {
    open spec fn obeys_try_from_spec() -> bool {
        true
    }

    open spec fn try_from_spec(v: u8) -> Result<Opcode, InvalidOpcode> {
        match opcode_of_bits(v) {
            Some(op) => Ok(op),
            None => Err(InvalidOpcode),
        }
    }
}

/// The bits of an opcode stand for that opcode, and fit in four bits.
pub proof fn lemma_opcode_bits(op: Opcode)
    ensures
        opcode_of_bits(opcode_bits(op)) == Some(op),
        opcode_bits(op) < 16,
{
}

/// The length of a frame's payload, as the header states it. While a header
/// is read, the marker of a longer class may stand before its bytes have come.
#[derive(Debug, Clone, Copy, PartialEq, Eq, Structural)]
pub enum PayloadLen {
    /// A length of at most 125, held in the seven length bits.
    ExactU8(u8),
    /// A length held in two extra bytes (marker 126).
    ExactU16(u16),
    /// A length held in eight extra bytes (marker 127).
    ExactU64(u64),
    /// Marker 126: two length bytes follow.
    HintU16,
    /// Marker 127: eight length bytes follow.
    HintU64,
}

impl PayloadLen {
    /// The length stated, or 0 for a marker.
    pub open spec fn spec_value(self) -> nat {
        match self {
            PayloadLen::ExactU8(n) => n as nat,
            PayloadLen::ExactU16(n) => n as nat,
            PayloadLen::ExactU64(n) => n as nat,
            _ => 0,
        }
    }

    /// The length is stated, not only announced by a marker.
    pub open spec fn is_exact(self) -> bool {
        !(self is HintU16) && !(self is HintU64)
    }

    /// The seven length bits of this length on the wire.
    pub open spec fn spec_len_bits(self) -> u8 {
        match self {
            PayloadLen::ExactU8(n) => n,
            PayloadLen::ExactU16(_) => 126,
            PayloadLen::HintU16 => 126,
            _ => 127,
        }
    }

    /// The extra length bytes that follow the first two bytes of a header.
    pub open spec fn spec_ext_bytes(self) -> Seq<u8> {
        match self {
            PayloadLen::ExactU16(n) => be_bytes(n as nat, 2),
            PayloadLen::ExactU64(n) => be_bytes(n as nat, 8),
            _ => Seq::empty(),
        }
    }

    /// The number of extra length bytes that the seven length bits call for.
    pub open spec fn spec_ext_len(self) -> nat {
        match self {
            PayloadLen::ExactU16(_) => 2,
            PayloadLen::HintU16 => 2,
            PayloadLen::ExactU64(_) => 8,
            PayloadLen::HintU64 => 8,
            _ => 0,
        }
    }

    /// The length stated, or none for a marker.
    pub fn value(&self) -> (r: Option<u64>)
        ensures
            r == (if self.is_exact() { Some(self.spec_value() as u64) } else { None::<u64> }),
    {
        match self {
            PayloadLen::ExactU8(n) => Some(*n as u64),
            PayloadLen::ExactU16(n) => Some(*n as u64),
            PayloadLen::ExactU64(n) => Some(*n),
            _ => None,
        }
    }

    /// The number of extra length bytes that this length takes, or that a
    /// marker announces.
    pub fn ext_len(&self) -> (r: usize)
        ensures
            r as nat == self.spec_ext_len(),
    {
        match self {
            PayloadLen::ExactU16(_) => 2,
            PayloadLen::HintU16 => 2,
            PayloadLen::ExactU64(_) => 8,
            PayloadLen::HintU64 => 8,
            _ => 0,
        }
    }
}

/// The smallest length class that holds `v`.
pub open spec fn length_class(v: u64) -> PayloadLen {
    if v <= 125 {
        PayloadLen::ExactU8(v as u8)
    } else if v <= 0xffff {
        PayloadLen::ExactU16(v as u16)
    } else {
        PayloadLen::ExactU64(v)
    }
}

impl From<u64> for PayloadLen {
    /// The smallest length class that holds `value`.
    fn from(value: u64) -> (r: PayloadLen) {
        if value <= 125 {
            PayloadLen::ExactU8(value as u8)
        } else if value <= 0xffff {
            PayloadLen::ExactU16(value as u16)
        } else {
            PayloadLen::ExactU64(value)
        }
    }
}

impl vstd::std_specs::convert::FromSpecImpl<u64> for PayloadLen {
    open spec fn obeys_from_spec() -> bool {
        true
    }

    open spec fn from_spec(v: u64) -> PayloadLen {
        length_class(v)
    }
}

/// The part of a frame that comes before the masking key: two bytes, then
/// 0, 2 or 8 extra length bytes.
#[derive(Debug, Clone, Copy, PartialEq, Eq, Structural)]
pub struct FrameHeader {
    pub fin: bool,
    /// The three reserved bits RSV1 RSV2 RSV3, in the low bits.
    pub rsv: u8,
    pub opcode: Opcode,
    pub masked: bool,
    pub payload_len: PayloadLen,
}

/// The first byte of a header: FIN, the reserved bits, the opcode.
pub open spec fn first_byte(h: FrameHeader) -> u8 {
    (if h.fin { 0x80u8 } else { 0u8 }) | ((h.rsv & 7u8) << 4u8) | opcode_bits(h.opcode)
}

/// The second byte of a header: MASK and the seven length bits.
pub open spec fn second_byte(h: FrameHeader) -> u8 {
    (if h.masked { 0x80u8 } else { 0u8 }) | h.payload_len.spec_len_bits()
}

/// A header on the wire.
pub open spec fn header_bytes(h: FrameHeader) -> Seq<u8> {
    seq![first_byte(h), second_byte(h)] + h.payload_len.spec_ext_bytes()
}

/// A header as a complete frame holds it: the reserved bits fit in three
/// bits, the length is stated and a one-byte length is at most 125.
pub open spec fn header_wf(h: FrameHeader) -> bool {
    &&& h.rsv < 8
    &&& h.payload_len.is_exact()
    &&& (h.payload_len matches PayloadLen::ExactU8(n) ==> n <= 125)
}

/// What the first bytes of a frame say of its header. Where the extra length
/// bytes have not all come, the length is the marker.
pub open spec fn parse_header(b: Seq<u8>) -> Result<FrameHeader, FrameError> {
    if b.len() < 2 {
        Err(FrameError::FrameTooShort)
    } else {
        let bits = b[1] & 0x7fu8;
        let payload_len = if bits <= 125 {
            PayloadLen::ExactU8(bits)
        } else if bits == 126 {
            if b.len() >= 4 {
                PayloadLen::ExactU16(from_be(b.subrange(2, 4)) as u16)
            } else {
                PayloadLen::HintU16
            }
        } else if b.len() >= 10 {
            PayloadLen::ExactU64(from_be(b.subrange(2, 10)) as u64)
        } else {
            PayloadLen::HintU64
        };
        match opcode_of_bits(b[0] & 0x0fu8) {
            None => Err(FrameError::InvalidOpcode),
            Some(opcode) => Ok(
                FrameHeader {
                    fin: (b[0] >> 7u8) != 0,
                    rsv: (b[0] & 0x70u8) >> 4u8,
                    opcode,
                    masked: (b[1] >> 7u8) != 0,
                    payload_len,
                },
            ),
        }
    }
}

/// Why bytes are no frame.
#[derive(Debug, Clone, Copy, PartialEq, Eq, Structural)]
pub enum FrameError {
    /// Fewer than two bytes.
    FrameTooShort,
    /// The opcode bits stand for no opcode.
    InvalidOpcode,
    /// The extra length bytes have not all come.
    LengthParsing,
    /// The masking key has not all come.
    MaskingKeyParsing,
    /// Fewer payload bytes than the header states.
    PayloadTooShort,
}

impl FrameHeader {
    /// A header with the reserved bits clear and the smallest length class
    /// that holds `payload_len`.
    pub fn new(fin: bool, opcode: Opcode, masked: bool, payload_len: u64) -> (r: FrameHeader)
        ensures
            r == (FrameHeader { fin, rsv: 0, opcode, masked, payload_len: length_class(payload_len) }),
            header_wf(r),
            r.payload_len.spec_value() == payload_len,
    {
        FrameHeader { fin, rsv: 0, opcode, masked, payload_len: PayloadLen::from(payload_len) }
    }

    /// The number of masking key bytes that follow this header.
    pub fn key_len(&self) -> (r: usize)
        ensures
            r == (if self.masked { 4usize } else { 0usize }),
    {
        if self.masked {
            4
        } else {
            0
        }
    }

    /// The header on the wire.
    pub fn to_bytes(&self) -> (r: Vec<u8>)
        ensures
            r@ == header_bytes(*self),
    {
        let mut out: Vec<u8> = Vec::new();
        let fin: u8 = if self.fin { 0x80 } else { 0 };
        let first: u8 = fin | ((self.rsv & 7) << 4) | self.opcode.bits();
        out.push(first);
        let masked: u8 = if self.masked { 0x80 } else { 0 };
        match self.payload_len {
            PayloadLen::ExactU8(n) => {
                out.push(masked | n);
            },
            PayloadLen::ExactU16(n) => {
                out.push(masked | 126);
                push_be(&mut out, n as u64, 2);
            },
            PayloadLen::ExactU64(n) => {
                out.push(masked | 127);
                push_be(&mut out, n, 8);
            },
            PayloadLen::HintU16 => {
                out.push(masked | 126);
            },
            PayloadLen::HintU64 => {
                out.push(masked | 127);
            },
        }
        proof {
            assert(out@ =~= header_bytes(*self));
        }
        out
    }

    /// Reads a header from the first bytes of a frame. Where the extra
    /// length bytes have not all come, the length is the marker.
    pub fn parse(value: &[u8]) -> (r: Result<FrameHeader, FrameError>)
        ensures
            r == parse_header(value@),
    {
        if value.len() < 2 {
            return Err(FrameError::FrameTooShort);
        }
        let b0: u8 = value[0];
        let b1: u8 = value[1];
        let bits: u8 = b1 & 0x7f;
        let payload_len = if bits <= 125 {
            PayloadLen::ExactU8(bits)
        } else if bits == 126 {
            if value.len() >= 4 {
                let v = read_be(value, 2, 2);
                proof {
                    crate::bytes::lemma_from_be_bound(value@.subrange(2, 4));
                    crate::bytes::lemma_pow256_values();
                }
                PayloadLen::ExactU16(v as u16)
            } else {
                PayloadLen::HintU16
            }
        } else if value.len() >= 10 {
            PayloadLen::ExactU64(read_be(value, 2, 8))
        } else {
            PayloadLen::HintU64
        };
        match Opcode::try_from(b0 & 0x0f) {
            Err(_) => Err(FrameError::InvalidOpcode),
            Ok(opcode) => Ok(
                FrameHeader {
                    fin: (b0 >> 7) != 0,
                    rsv: (b0 & 0x70) >> 4,
                    opcode,
                    masked: (b1 >> 7) != 0,
                    payload_len,
                },
            ),
        }
    }
}

impl TryFrom<&[u8]> for FrameHeader {
    type Error = FrameError;

    fn try_from(value: &[u8]) -> (r: Result<FrameHeader, FrameError>) {
        FrameHeader::parse(value)
    }
}

impl vstd::std_specs::convert::TryFromSpecImpl<&[u8]> for FrameHeader {
    open spec fn obeys_try_from_spec() -> bool {
        true
    }

    open spec fn try_from_spec(v: &[u8]) -> Result<FrameHeader, FrameError> {
        parse_header(v@)
    }
}

proof fn lemma_rsv_bits(b: u8)
    ensures
        (b & 0x70u8) >> 4u8 < 8,
{
    assert((b & 0x70u8) >> 4u8 < 8) by (bit_vector);
}

/// A frame: header, masking key, payload. The payload is held as it is
/// on the wire; masking and unmasking are left to [`Frame::mask`].
#[derive(Debug, Clone)]
pub struct Frame {
    pub header: FrameHeader,
    pub masking_key: Option<u32>,
    pub payload: Vec<u8>,
}

/// The four bytes of a masking key, most significant first.
pub open spec fn key_bytes(key: Option<u32>) -> Seq<u8> {
    match key {
        Some(k) => be_bytes(k as nat, 4),
        None => Seq::empty(),
    }
}

/// A frame on the wire.
pub open spec fn frame_bytes(f: Frame) -> Seq<u8> {
    header_bytes(f.header) + key_bytes(f.masking_key) + f.payload@
}

/// A complete frame: a well-formed header, a key exactly when the header
/// says masked, and as many payload bytes as the header states.
pub open spec fn frame_wf(f: Frame) -> bool {
    &&& header_wf(f.header)
    &&& f.header.masked == f.masking_key.is_some()
    &&& f.payload@.len() == f.header.payload_len.spec_value()
}

/// Where the masking key of a frame with header `h` begins.
pub open spec fn key_start(h: FrameHeader) -> nat {
    2 + h.payload_len.spec_ext_len()
}

/// Where the payload of a frame with header `h` begins.
pub open spec fn payload_start(h: FrameHeader) -> nat {
    key_start(h) + if h.masked { 4nat } else { 0nat }
}

/// The length on the wire of a frame with header `h`.
pub open spec fn frame_len(h: FrameHeader) -> nat {
    payload_start(h) + h.payload_len.spec_value()
}

/// What bytes say of a frame's header and masking key, or why they hold
/// no frame. The payload follows at `payload_start` of the header.
pub open spec fn parse_frame(b: Seq<u8>) -> Result<(FrameHeader, Option<u32>), FrameError> {
    match parse_header(b) {
        Err(e) => Err(e),
        Ok(h) => {
            if !h.payload_len.is_exact() {
                Err(FrameError::LengthParsing)
            } else if b.len() < payload_start(h) {
                Err(FrameError::MaskingKeyParsing)
            } else if b.len() < frame_len(h) {
                Err(FrameError::PayloadTooShort)
            } else {
                let k = key_start(h) as int;
                let key = if h.masked {
                    Some(from_be(b.subrange(k, k + 4)) as u32)
                } else {
                    None
                };
                Ok((h, key))
            }
        },
    }
}

/// The payload with each byte XORed with byte `i % 4` of the key's
/// big-endian bytes.
pub open spec fn masked_payload(p: Seq<u8>, key: u32) -> Seq<u8> {
    Seq::new(p.len(), |i: int| p[i] ^ be_bytes(key as nat, 4)[i % 4])
}

impl Frame {
    /// A frame of one payload, with a masking key drawn at random and the
    /// payload not yet masked.
    pub fn new(fin: bool, opcode: Opcode, payload: Vec<u8>) -> (r: Frame)
        ensures
            r.header == (FrameHeader {
                fin,
                rsv: 0,
                opcode,
                masked: true,
                payload_len: length_class(payload@.len() as u64),
            }),
            r.masking_key.is_some(),
            r.payload@ == payload@,
            frame_wf(r),
    {
        Frame::with_key(fin, opcode, payload, random_u32())
    }

    /// A frame of one payload with the given masking key, the payload not
    /// yet masked.
    pub fn with_key(fin: bool, opcode: Opcode, payload: Vec<u8>, key: u32) -> (r: Frame)
        ensures
            r.header == (FrameHeader {
                fin,
                rsv: 0,
                opcode,
                masked: true,
                payload_len: length_class(payload@.len() as u64),
            }),
            r.masking_key == Some(key),
            r.payload@ == payload@,
            frame_wf(r),
    {
        let len = payload.len() as u64;
        Frame { header: FrameHeader::new(fin, opcode, true, len), masking_key: Some(key), payload }
    }

    /// Masks the payload with the masking key. Masking twice gives the
    /// payload back, so this unmasks as well.
    pub fn mask(&mut self)
        requires
            old(self).masking_key.is_some(),
        ensures
            final(self).header == old(self).header,
            final(self).masking_key == old(self).masking_key,
            final(self).payload@ == masked_payload(old(self).payload@, old(self).masking_key.unwrap()),
    {
        let key = self.masking_key.unwrap();
        let mut kb: Vec<u8> = Vec::new();
        push_be(&mut kb, key as u64, 4);
        let ghost orig = self.payload@;
        let n = self.payload.len();
        let mut i: usize = 0;
        while i < n
            invariant
                i <= n,
                n == orig.len(),
                self.payload@.len() == n,
                kb@ == be_bytes(key as nat, 4),
                self.masking_key == old(self).masking_key,
                self.header == old(self).header,
                key == old(self).masking_key.unwrap(),
                orig == old(self).payload@,
                forall|j: int| 0 <= j < i ==> self.payload@[j] == orig[j] ^ kb@[j % 4],
                forall|j: int| i <= j < n ==> self.payload@[j] == orig[j],
            decreases n - i,
        {
            proof {
                crate::bytes::lemma_be_bytes_len(key as nat, 4);
            }
            let b = self.payload[i] ^ kb[i % 4];
            self.payload.set(i, b);
            i += 1;
        }
        proof {
            assert(self.payload@ =~= masked_payload(orig, key));
        }
    }

    /// The frame on the wire: header, masking key if any, payload.
    pub fn to_bytes(&self) -> (r: Vec<u8>)
        ensures
            r@ == frame_bytes(*self),
    {
        let mut out = self.header.to_bytes();
        match self.masking_key {
            Some(k) => push_be(&mut out, k as u64, 4),
            None => {},
        }
        let n = self.payload.len();
        let ghost before = out@;
        let mut i: usize = 0;
        while i < n
            invariant
                i <= n,
                n == self.payload@.len(),
                out@ == before + self.payload@.subrange(0, i as int),
            decreases n - i,
        {
            out.push(self.payload[i]);
            i += 1;
            proof {
                assert(out@ =~= before + self.payload@.subrange(0, i as int));
            }
        }
        proof {
            assert(self.payload@.subrange(0, n as int) =~= self.payload@);
            assert(out@ =~= frame_bytes(*self));
        }
        out
    }

    /// Reads one frame from the start of `value`: the header, the masking
    /// key if the header says masked, and exactly as many payload bytes as
    /// the header states. The payload is left as it came.
    pub fn parse(value: &[u8]) -> (r: Result<Frame, FrameError>)
        ensures
            match r {
                Ok(f) => {
                    &&& parse_frame(value@) == Ok::<_, FrameError>((f.header, f.masking_key))
                    &&& f.payload@ == value@.subrange(
                        payload_start(f.header) as int,
                        frame_len(f.header) as int,
                    )
                    &&& frame_wf(f)
                },
                Err(e) => parse_frame(value@) == Err::<(FrameHeader, Option<u32>), _>(e),
            },
    {
        let header = match FrameHeader::parse(value) {
            Ok(h) => h,
            Err(e) => return Err(e),
        };
        let (ext, len): (usize, u64) = match header.payload_len {
            PayloadLen::ExactU8(n) => (0, n as u64),
            PayloadLen::ExactU16(n) => (2, n as u64),
            PayloadLen::ExactU64(n) => (8, n),
            _ => return Err(FrameError::LengthParsing),
        };
        let key_at: usize = 2 + ext;
        let start: usize = if header.masked { key_at + 4 } else { key_at };
        if value.len() < start {
            return Err(FrameError::MaskingKeyParsing);
        }
        if ((value.len() - start) as u64) < len {
            return Err(FrameError::PayloadTooShort);
        }
        let masking_key = if header.masked {
            let k = read_be(value, key_at, 4);
            proof {
                crate::bytes::lemma_from_be_bound(value@.subrange(key_at as int, key_at + 4));
                crate::bytes::lemma_pow256_values();
            }
            Some(k as u32)
        } else {
            None
        };
        let end: usize = start + len as usize;
        let mut payload: Vec<u8> = Vec::new();
        let mut i: usize = start;
        while i < end
            invariant
                start <= i <= end,
                end <= value@.len(),
                payload@ == value@.subrange(start as int, i as int),
            decreases end - i,
        {
            payload.push(value[i]);
            i += 1;
            proof {
                assert(payload@ =~= value@.subrange(start as int, i as int));
            }
        }
        proof {
            lemma_rsv_bits(value@[0]);
        }
        Ok(Frame { header, masking_key, payload })
    }
}


proof fn lemma_first_byte(f: u8, rsv: u8, op: u8)
    requires
        f == 0x80u8 || f == 0u8,
        rsv < 8,
        op < 16,
    ensures
        ((f | ((rsv & 7u8) << 4u8) | op) >> 7u8 != 0) == (f == 0x80u8),
        ((f | ((rsv & 7u8) << 4u8) | op) & 0x70u8) >> 4u8 == rsv,
        (f | ((rsv & 7u8) << 4u8) | op) & 0x0fu8 == op,
{
    assert(((f | ((rsv & 7u8) << 4u8) | op) >> 7u8 != 0) == (f == 0x80u8)) by (bit_vector)
        requires
            f == 0x80u8 || f == 0u8,
            rsv < 8,
            op < 16,
    ;
    assert(((f | ((rsv & 7u8) << 4u8) | op) & 0x70u8) >> 4u8 == rsv) by (bit_vector)
        requires
            f == 0x80u8 || f == 0u8,
            rsv < 8,
            op < 16,
    ;
    assert((f | ((rsv & 7u8) << 4u8) | op) & 0x0fu8 == op) by (bit_vector)
        requires
            f == 0x80u8 || f == 0u8,
            rsv < 8,
            op < 16,
    ;
}

proof fn lemma_second_byte(m: u8, bits: u8)
    requires
        m == 0x80u8 || m == 0u8,
        bits < 128,
    ensures
        ((m | bits) >> 7u8 != 0) == (m == 0x80u8),
        (m | bits) & 0x7fu8 == bits,
{
    assert(((m | bits) >> 7u8 != 0) == (m == 0x80u8)) by (bit_vector)
        requires
            m == 0x80u8 || m == 0u8,
            bits < 128,
    ;
    assert((m | bits) & 0x7fu8 == bits) by (bit_vector)
        requires
            m == 0x80u8 || m == 0u8,
            bits < 128,
    ;
}

/// Encoding a complete frame and decoding the bytes gives back its header,
/// its masking key and its payload, and uses every byte.
pub proof fn lemma_round_trip(f: Frame)
    requires
        frame_wf(f),
    ensures
        parse_frame(frame_bytes(f)) == Ok::<_, FrameError>((f.header, f.masking_key)),
        frame_bytes(f).len() == frame_len(f.header),
        frame_bytes(f).subrange(payload_start(f.header) as int, frame_len(f.header) as int)
            == f.payload@,
{
    let h = f.header;
    let b = frame_bytes(f);
    let hb = header_bytes(h);
    let kb = key_bytes(f.masking_key);
    lemma_opcode_bits(h.opcode);
    lemma_first_byte(if h.fin { 0x80u8 } else { 0u8 }, h.rsv, opcode_bits(h.opcode));
    lemma_second_byte(if h.masked { 0x80u8 } else { 0u8 }, h.payload_len.spec_len_bits());
    crate::bytes::lemma_pow256_values();
    assert(b[0] == first_byte(h));
    assert(b[1] == second_byte(h));
    match h.payload_len {
        PayloadLen::ExactU16(n) => {
            crate::bytes::lemma_be_bytes_len(n as nat, 2);
            crate::bytes::lemma_from_be_bytes(n as nat, 2);
            assert(b.subrange(2, 4) =~= be_bytes(n as nat, 2));
        },
        PayloadLen::ExactU64(n) => {
            crate::bytes::lemma_be_bytes_len(n as nat, 8);
            crate::bytes::lemma_from_be_bytes(n as nat, 8);
            assert(b.subrange(2, 10) =~= be_bytes(n as nat, 8));
        },
        _ => {},
    }
    assert(hb.len() == key_start(h));
    if let Some(k) = f.masking_key {
        crate::bytes::lemma_be_bytes_len(k as nat, 4);
        crate::bytes::lemma_from_be_bytes(k as nat, 4);
        let ks = key_start(h) as int;
        assert(b.subrange(ks, ks + 4) =~= be_bytes(k as nat, 4));
    }
    assert(parse_header(b) == Ok::<_, FrameError>(h));
    assert(b.subrange(payload_start(h) as int, frame_len(h) as int) =~= f.payload@);
}

/// Masking twice with one key gives the payload back, for every key and
/// every payload length, 0 included.
pub proof fn lemma_mask_involution(p: Seq<u8>, key: u32)
    ensures
        masked_payload(masked_payload(p, key), key) == p,
{
    let m = masked_payload(masked_payload(p, key), key);
    assert forall|i: int| 0 <= i < p.len() implies m[i] == p[i] by {
        let a = p[i];
        let k = be_bytes(key as nat, 4)[i % 4];
        assert((a ^ k) ^ k == a) by (bit_vector);
    }
    assert(m =~= p);
}

/// A length of at most 125 is written in the seven length bits; up to
/// 65535 behind marker 126 in two bytes; beyond that behind marker 127 in
/// eight bytes.
pub proof fn lemma_length_classes(v: u64)
    ensures
        v <= 125 ==> length_class(v).spec_len_bits() == v && length_class(v).spec_ext_len() == 0,
        126 <= v <= 0xffff ==> length_class(v).spec_len_bits() == 126
            && length_class(v).spec_ext_bytes() == be_bytes(v as nat, 2),
        0xffff < v ==> length_class(v).spec_len_bits() == 127
            && length_class(v).spec_ext_bytes() == be_bytes(v as nat, 8),
        length_class(v).spec_value() == v,
{
}


/// How many more bytes the start of a frame needs before it holds the whole
/// frame (at most `u64::MAX`): first the two header bytes, then the extra
/// length bytes they announce, then the masking key and the payload. Zero
/// once the frame is complete.
pub open spec fn bytes_missing(b: Seq<u8>) -> Result<nat, FrameError> {
    if b.len() < 2 {
        Ok((2 - b.len()) as nat)
    } else {
        match parse_header(b) {
            Err(e) => Err(e),
            Ok(h) => {
                let need: int = if h.payload_len.is_exact() {
                    frame_len(h) as int
                } else {
                    key_start(h) as int
                };
                if need <= b.len() {
                    Ok(0)
                } else if need - b.len() > u64::MAX {
                    Ok(u64::MAX as nat)
                } else {
                    Ok((need - b.len()) as nat)
                }
            },
        }
    }
}

/// How many more bytes the start of a frame needs before it holds the whole
/// frame, never more than the frame: a reader that asks for exactly this
/// many, again and again, stops at the frame's end.
pub fn missing_bytes(prefix: &[u8]) -> (r: Result<u64, FrameError>)
    ensures
        match bytes_missing(prefix@) {
            Ok(n) => r == Ok::<u64, FrameError>(n as u64),
            Err(e) => r == Err::<u64, FrameError>(e),
        },
{
    let n = prefix.len();
    if n < 2 {
        return Ok((2 - n) as u64);
    }
    let h = match FrameHeader::parse(prefix) {
        Ok(h) => h,
        Err(e) => return Err(e),
    };
    let key_at: u64 = 2 + h.payload_len.ext_len() as u64;
    let have = n as u64;
    match h.payload_len.value() {
        None => {
            if key_at <= have {
                Ok(0)
            } else {
                Ok(key_at - have)
            }
        },
        Some(len) => {
            let start: u64 = key_at + h.key_len() as u64;
            if start >= have {
                let before = start - have;
                if len > u64::MAX - before {
                    Ok(u64::MAX)
                } else {
                    Ok(before + len)
                }
            } else {
                let extra = have - start;
                if len <= extra {
                    Ok(0)
                } else {
                    Ok(len - extra)
                }
            }
        },
    }
}

/// Once nothing is missing, the bytes hold a whole frame.
pub proof fn lemma_nothing_missing_parses(b: Seq<u8>)
    requires
        bytes_missing(b) == Ok::<nat, FrameError>(0),
    ensures
        parse_frame(b) is Ok,
{
    let h = parse_header(b)->Ok_0;
    if !h.payload_len.is_exact() {
        assert(b.len() >= key_start(h));
    }
}


impl From<FrameHeader> for Vec<u8> {
    /// The header on the wire; see [`FrameHeader::to_bytes`].
    fn from(value: FrameHeader) -> (r: Vec<u8>)
        ensures
            r@ == header_bytes(value),
    {
        value.to_bytes()
    }
}

impl vstd::std_specs::convert::FromSpecImpl<FrameHeader> for Vec<u8> {
    open spec fn obeys_from_spec() -> bool {
        false
    }

    open spec fn from_spec(v: FrameHeader) -> Vec<u8> {
        vstd::pervasive::arbitrary()
    }
}


impl From<Frame> for Vec<u8> {
    /// The frame on the wire; see [`Frame::to_bytes`].
    fn from(value: Frame) -> (r: Vec<u8>)
        ensures
            r@ == frame_bytes(value),
    {
        value.to_bytes()
    }
}

impl vstd::std_specs::convert::FromSpecImpl<Frame> for Vec<u8> {
    open spec fn obeys_from_spec() -> bool {
        false
    }

    open spec fn from_spec(v: Frame) -> Vec<u8> {
        vstd::pervasive::arbitrary()
    }
}

impl TryFrom<Vec<u8>> for Frame {
    type Error = FrameError;

    /// One frame from the start of the bytes; see [`Frame::parse`].
    fn try_from(value: Vec<u8>) -> (r: Result<Frame, FrameError>)
        ensures
            match r {
                Ok(f) => {
                    &&& parse_frame(value@) == Ok::<_, FrameError>((f.header, f.masking_key))
                    &&& f.payload@ == value@.subrange(
                        payload_start(f.header) as int,
                        frame_len(f.header) as int,
                    )
                    &&& frame_wf(f)
                },
                Err(e) => parse_frame(value@) == Err::<(FrameHeader, Option<u32>), _>(e),
            },
    {
        Frame::parse(value.as_slice())
    }
}

impl vstd::std_specs::convert::TryFromSpecImpl<Vec<u8>> for Frame {
    open spec fn obeys_try_from_spec() -> bool {
        false
    }

    open spec fn try_from_spec(v: Vec<u8>) -> Result<Frame, FrameError> {
        vstd::pervasive::arbitrary()
    }
}

} // verus!
