//! Messages: what frames carry for the application, their assembly from
//! fragments, and the single frame that each becomes when sent.
use vstd::prelude::*;
use vstd::utf8::{decode_utf8, encode_utf8, valid_utf8};

use crate::bytes::{append_slice, be_bytes, from_be, push_be, read_be};
use crate::frame::{length_class, Frame, FrameHeader, Opcode};
use crate::support::{random_u32, utf8_string};

verus! {

/// The status of a closing connection.
#[derive(Debug, Clone, Copy, PartialEq, Eq, Structural)]
pub enum StatusCode {
    Normal,
    GoingAway,
    ProtocolError,
    UnsupportedData,
    NoStatus,
    CloseAbnormal,
    InvalidPayloadData,
    PolicyViolated,
    MessageTooBig,
    UnsupportedExtension,
    InternalServerError,
}

/// The number that stands for a status on the wire.
pub open spec fn status_number(c: StatusCode) -> u16 {
    match c {
        StatusCode::Normal => 1000,
        StatusCode::GoingAway => 1001,
        StatusCode::ProtocolError => 1002,
        StatusCode::UnsupportedData => 1003,
        StatusCode::NoStatus => 1005,
        StatusCode::CloseAbnormal => 1006,
        StatusCode::InvalidPayloadData => 1007,
        StatusCode::PolicyViolated => 1008,
        StatusCode::MessageTooBig => 1009,
        StatusCode::UnsupportedExtension => 1010,
        StatusCode::InternalServerError => 1011,
    }
}

/// The status that a number stands for; a number that stands for none is
/// read as `UnsupportedData`.
pub open spec fn status_of_number(v: u16) -> StatusCode {
    if v == 1000 {
        StatusCode::Normal
    } else if v == 1001 {
        StatusCode::GoingAway
    } else if v == 1002 {
        StatusCode::ProtocolError
    } else if v == 1005 {
        StatusCode::NoStatus
    } else if v == 1006 {
        StatusCode::CloseAbnormal
    } else if v == 1007 {
        StatusCode::InvalidPayloadData
    } else if v == 1008 {
        StatusCode::PolicyViolated
    } else if v == 1009 {
        StatusCode::MessageTooBig
    } else if v == 1010 {
        StatusCode::UnsupportedExtension
    } else if v == 1011 {
        StatusCode::InternalServerError
    } else {
        StatusCode::UnsupportedData
    }
}

impl StatusCode {
    /// The number that stands for this status on the wire.
    pub fn number(self) -> (r: u16)
        ensures
            r == status_number(self),
    {
        match self {
            StatusCode::Normal => 1000,
            StatusCode::GoingAway => 1001,
            StatusCode::ProtocolError => 1002,
            StatusCode::UnsupportedData => 1003,
            StatusCode::NoStatus => 1005,
            StatusCode::CloseAbnormal => 1006,
            StatusCode::InvalidPayloadData => 1007,
            StatusCode::PolicyViolated => 1008,
            StatusCode::MessageTooBig => 1009,
            StatusCode::UnsupportedExtension => 1010,
            StatusCode::InternalServerError => 1011,
        }
    }
}

impl From<u16> for StatusCode {
    fn from(value: u16) -> (r: StatusCode) {
        match value {
            1000 => StatusCode::Normal,
            1001 => StatusCode::GoingAway,
            1002 => StatusCode::ProtocolError,
            1005 => StatusCode::NoStatus,
            1006 => StatusCode::CloseAbnormal,
            1007 => StatusCode::InvalidPayloadData,
            1008 => StatusCode::PolicyViolated,
            1009 => StatusCode::MessageTooBig,
            1010 => StatusCode::UnsupportedExtension,
            1011 => StatusCode::InternalServerError,
            _ => StatusCode::UnsupportedData,
        }
    }
}

impl vstd::std_specs::convert::FromSpecImpl<u16> for StatusCode {
    open spec fn obeys_from_spec() -> bool {
        true
    }

    open spec fn from_spec(v: u16) -> StatusCode {
        status_of_number(v)
    }
}

/// Reading back the number of a status gives the status.
pub proof fn lemma_status_round_trip(c: StatusCode)
    ensures
        status_of_number(status_number(c)) == c,
{
}

/// What one or more frames carry for the application.
#[derive(Debug, Clone, PartialEq, Eq)]
pub enum Message {
    /// Valid UTF-8 text.
    Text(String),
    /// Any bytes.
    Binary(Vec<u8>),
    /// A close, with a status and an optional reason. When sent, the
    /// reason is cut to 123 bytes.
    Close(StatusCode, Option<String>),
    /// A ping. When sent, the payload is cut to 125 bytes.
    Ping(Vec<u8>),
    /// A pong. When sent, the payload is cut to 125 bytes.
    Pong(Vec<u8>),
}

/// Why frames give no message.
#[derive(Debug, Clone, Copy, PartialEq, Eq, Structural)]
pub enum MessageError {
    /// The frames break the protocol; the status says how.
    ProtocolViolated(StatusCode),
    /// The frame is not final: more frames are needed for a message.
    IsNotFinal,
}

/// The opcode of the frame that carries a message.
pub open spec fn message_opcode(m: Message) -> Opcode {
    match m {
        Message::Text(_) => Opcode::Text,
        Message::Binary(_) => Opcode::Binary,
        Message::Close(_, _) => Opcode::Close,
        Message::Ping(_) => Opcode::Ping,
        Message::Pong(_) => Opcode::Pong,
    }
}

/// At most the first `n` elements of `s`.
pub open spec fn take_at_most(s: Seq<u8>, n: nat) -> Seq<u8> {
    if s.len() <= n {
        s
    } else {
        s.subrange(0, n as int)
    }
}

/// The payload of the frame that carries a message.
pub open spec fn message_payload(m: Message) -> Seq<u8> {
    match m {
        Message::Text(s) => encode_utf8(s@),
        Message::Binary(b) => b@,
        Message::Close(c, reason) => be_bytes(status_number(c) as nat, 2) + match reason {
            Some(s) => take_at_most(encode_utf8(s@), 123),
            None => Seq::empty(),
        },
        Message::Ping(b) => take_at_most(b@, 125),
        Message::Pong(b) => take_at_most(b@, 125),
    }
}

/// The reason that the rest of a close payload gives: none where it is
/// empty or not valid UTF-8.
pub open spec fn close_reason(rest: Seq<u8>) -> Option<Seq<char>> {
    if rest.len() > 0 && valid_utf8(rest) {
        Some(decode_utf8(rest))
    } else {
        None
    }
}

/// Why a final frame with this opcode and payload gives no message, if it
/// gives none.
pub open spec fn payload_error(opcode: Opcode, p: Seq<u8>) -> Option<MessageError> {
    match opcode {
        Opcode::Continue => Some(MessageError::ProtocolViolated(StatusCode::ProtocolError)),
        Opcode::Text => if valid_utf8(p) {
            None
        } else {
            Some(MessageError::ProtocolViolated(StatusCode::InvalidPayloadData))
        },
        Opcode::Close => if p.len() >= 2 {
            None
        } else {
            Some(MessageError::ProtocolViolated(StatusCode::InvalidPayloadData))
        },
        _ => None,
    }
}

/// `m` is the message that a final frame with this opcode and payload
/// carries.
pub open spec fn carries(m: Message, opcode: Opcode, p: Seq<u8>) -> bool {
    match m {
        Message::Text(s) => opcode == Opcode::Text && s@ == decode_utf8(p),
        Message::Binary(b) => opcode == Opcode::Binary && b@ == p,
        Message::Close(c, reason) => {
            &&& opcode == Opcode::Close
            &&& c == status_of_number(from_be(p.subrange(0, 2)) as u16)
            &&& match (reason, close_reason(p.subrange(2, p.len() as int))) {
                (Some(s), Some(t)) => s@ == t,
                (None, None) => true,
                _ => false,
            }
        },
        Message::Ping(b) => opcode == Opcode::Ping && b@ == p,
        Message::Pong(b) => opcode == Opcode::Pong && b@ == p,
    }
}

/// What a frame with this fin bit, opcode and payload gives: exactly the
/// error of `payload_error`, or a message that it carries.
pub open spec fn decodes_to(
    r: Result<Message, MessageError>,
    fin: bool,
    opcode: Opcode,
    p: Seq<u8>,
) -> bool {
    if !fin {
        r == Err::<Message, _>(MessageError::IsNotFinal)
    } else {
        match payload_error(opcode, p) {
            Some(e) => r == Err::<Message, _>(e),
            None => r matches Ok(m) && carries(m, opcode, p),
        }
    }
}

/// The bytes `s[start..end]` as a new vector.
fn copy_range(s: &[u8], start: usize, end: usize) -> (r: Vec<u8>)
    requires
        start <= end <= s@.len(),
    ensures
        r@ == s@.subrange(start as int, end as int),
{
    let mut out: Vec<u8> = Vec::new();
    let mut i: usize = start;
    while i < end
        invariant
            start <= i <= end,
            end <= s@.len(),
            out@ == s@.subrange(start as int, i as int),
        decreases end - i,
    {
        out.push(s[i]);
        i += 1;
        proof {
            assert(out@ =~= s@.subrange(start as int, i as int));
        }
    }
    out
}

impl Message {
    /// The opcode of the frame that carries this message.
    pub fn opcode(&self) -> (r: Opcode)
        ensures
            r == message_opcode(*self),
    {
        match self {
            Message::Text(_) => Opcode::Text,
            Message::Binary(_) => Opcode::Binary,
            Message::Close(_, _) => Opcode::Close,
            Message::Ping(_) => Opcode::Ping,
            Message::Pong(_) => Opcode::Pong,
        }
    }

    /// The message that one final frame carries, read from its payload as
    /// it stands (already unmasked).
    pub fn from_frame(frame: Frame) -> (r: Result<Message, MessageError>)
        ensures
            decodes_to(r, frame.header.fin, frame.header.opcode, frame.payload@),
    {
        if !frame.header.fin {
            return Err(MessageError::IsNotFinal);
        }
        match frame.header.opcode {
            Opcode::Continue => Err(MessageError::ProtocolViolated(StatusCode::ProtocolError)),
            Opcode::Text => match utf8_string(frame.payload) {
                Some(s) => Ok(Message::Text(s)),
                None => Err(MessageError::ProtocolViolated(StatusCode::InvalidPayloadData)),
            },
            Opcode::Binary => Ok(Message::Binary(frame.payload)),
            Opcode::Close => {
                let p = frame.payload.as_slice();
                if p.len() < 2 {
                    return Err(MessageError::ProtocolViolated(StatusCode::InvalidPayloadData));
                }
                let v = read_be(p, 0, 2);
                proof {
                    crate::bytes::lemma_from_be_bound(p@.subrange(0, 2));
                    crate::bytes::lemma_pow256_values();
                }
                let code = StatusCode::from(v as u16);
                let rest = copy_range(p, 2, p.len());
                let reason = if rest.len() == 0 {
                    None
                } else {
                    utf8_string(rest)
                };
                Ok(Message::Close(code, reason))
            },
            Opcode::Ping => Ok(Message::Ping(frame.payload)),
            Opcode::Pong => Ok(Message::Pong(frame.payload)),
        }
    }
}


/// The payloads of frames, one after another.
pub open spec fn concat_payloads(fs: Seq<Frame>) -> Seq<u8>
    decreases fs.len(),
{
    if fs.len() == 0 {
        Seq::empty()
    } else {
        concat_payloads(fs.drop_last()) + fs.last().payload@
    }
}

/// Why a sequence of frames is no complete message, if it is none. A
/// complete message is one or more frames of which the last alone is final,
/// and all but the first carry `Continue`. A sequence that breaks the
/// protocol is a violation even before its final frame has come; only a
/// sequence that more frames could complete is not final.
pub open spec fn fragments_error(fs: Seq<Frame>) -> Option<MessageError> {
    if fs.len() == 0 {
        Some(MessageError::ProtocolViolated(StatusCode::ProtocolError))
    } else if exists|i: int| 0 <= i < fs.len() - 1 && (#[trigger] fs[i]).header.fin {
        Some(MessageError::ProtocolViolated(StatusCode::ProtocolError))
    } else if exists|i: int| 1 <= i < fs.len() && (#[trigger] fs[i]).header.opcode != Opcode::Continue {
        Some(MessageError::ProtocolViolated(StatusCode::ProtocolError))
    } else if !fs.last().header.fin {
        Some(MessageError::IsNotFinal)
    } else {
        None
    }
}

/// What a sequence of frames gives: the error of `fragments_error`, or what
/// one final frame with the first frame's opcode and all the payloads
/// joined gives.
pub open spec fn assembles_to(r: Result<Message, MessageError>, fs: Seq<Frame>) -> bool {
    match fragments_error(fs) {
        Some(e) => r == Err::<Message, _>(e),
        None => decodes_to(r, true, fs[0].header.opcode, concat_payloads(fs)),
    }
}

impl Message {
    /// Assembles the message that a sequence of frames carries: the first
    /// frame gives the opcode, the payloads are joined in order.
    pub fn from_frames(frames: Vec<Frame>) -> (r: Result<Message, MessageError>)
        ensures
            assembles_to(r, frames@),
    {
        let n = frames.len();
        if n == 0 {
            return Err(MessageError::ProtocolViolated(StatusCode::ProtocolError));
        }
        let mut i: usize = 0;
        while i + 1 < n
            invariant
                n == frames@.len(),
                n >= 1,
                i <= n - 1,
                forall|j: int| 0 <= j < i ==> !(#[trigger] frames@[j]).header.fin,
            decreases n - i,
        {
            if frames[i].header.fin {
                proof {
                    assert(frames@[i as int].header.fin);
                }
                return Err(MessageError::ProtocolViolated(StatusCode::ProtocolError));
            }
            i += 1;
        }
        let mut i: usize = 1;
        while i < n
            invariant
                n == frames@.len(),
                1 <= i <= n,
                forall|j: int| 0 <= j < n - 1 ==> !(#[trigger] frames@[j]).header.fin,
                forall|j: int| 1 <= j < i ==> (#[trigger] frames@[j]).header.opcode == Opcode::Continue,
            decreases n - i,
        {
            if frames[i].header.opcode != Opcode::Continue {
                proof {
                    assert(frames@[i as int].header.opcode != Opcode::Continue);
                }
                return Err(MessageError::ProtocolViolated(StatusCode::ProtocolError));
            }
            i += 1;
        }
        if !frames[n - 1].header.fin {
            return Err(MessageError::IsNotFinal);
        }
        let mut buffer: Vec<u8> = Vec::new();
        let mut i: usize = 0;
        while i < n
            invariant
                n == frames@.len(),
                i <= n,
                fragments_error(frames@) is None,
                buffer@ == concat_payloads(frames@.subrange(0, i as int)),
            decreases n - i,
        {
            append_slice(&mut buffer, frames[i].payload.as_slice());
            i += 1;
            proof {
                let fs = frames@.subrange(0, i as int);
                assert(fs.drop_last() =~= frames@.subrange(0, i - 1));
            }
        }
        proof {
            assert(frames@.subrange(0, n as int) =~= frames@);
        }
        let first = frames[0].header;
        let len = buffer.len() as u64;
        let combined = Frame {
            header: FrameHeader::new(true, first.opcode, first.masked, len),
            masking_key: frames[0].masking_key,
            payload: buffer,
        };
        Message::from_frame(combined)
    }

    /// The payload of the frame that carries this message: text as UTF-8,
    /// a close as its status number then its reason cut to 123 bytes, a
    /// ping or pong cut to 125 bytes.
    pub fn into_payload(self) -> (r: Vec<u8>)
        ensures
            r@ == message_payload(self),
    {
        match self {
            Message::Text(s) => {
                let b = s.as_str().as_bytes();
                let mut out: Vec<u8> = Vec::new();
                append_slice(&mut out, b);
                out
            },
            Message::Binary(b) => b,
            Message::Close(code, reason) => {
                let mut out: Vec<u8> = Vec::new();
                push_be(&mut out, code.number() as u64, 2);
                match reason {
                    Some(s) => {
                        let b = s.as_str().as_bytes();
                        let end: usize = if b.len() <= 123 { b.len() } else { 123 };
                        append_slice(&mut out, copy_range(b, 0, end).as_slice());
                        proof {
                            assert(b@.subrange(0, b@.len() as int) =~= b@);
                        }
                    },
                    None => {
                        proof {
                            assert(out@ =~= out@ + Seq::<u8>::empty());
                        }
                    },
                }
                out
            },
            Message::Ping(mut b) => {
                b.truncate(125);
                b
            },
            Message::Pong(mut b) => {
                b.truncate(125);
                b
            },
        }
    }
}

impl Frame {
    /// The single final frame that carries a message, with a masking key
    /// drawn at random and the payload not yet masked.
    pub fn from_message(message: Message) -> (r: Frame)
        ensures
            r.header == (FrameHeader {
                fin: true,
                rsv: 0,
                opcode: message_opcode(message),
                masked: true,
                payload_len: length_class(message_payload(message).len() as u64),
            }),
            r.masking_key.is_some(),
            r.payload@ == message_payload(message),
            crate::frame::frame_wf(r),
    {
        Frame::message_frame(message, random_u32())
    }

    /// The single final frame that carries a message, with the given
    /// masking key and the payload not yet masked.
    pub fn message_frame(message: Message, key: u32) -> (r: Frame)
        ensures
            r.header == (FrameHeader {
                fin: true,
                rsv: 0,
                opcode: message_opcode(message),
                masked: true,
                payload_len: length_class(message_payload(message).len() as u64),
            }),
            r.masking_key == Some(key),
            r.payload@ == message_payload(message),
            crate::frame::frame_wf(r),
    {
        let opcode = message.opcode();
        let payload = message.into_payload();
        Frame::with_key(true, opcode, payload, key)
    }
}


impl From<&Message> for Opcode {
    fn from(value: &Message) -> (r: Opcode) {
        value.opcode()
    }
}

impl vstd::std_specs::convert::FromSpecImpl<&Message> for Opcode {
    open spec fn obeys_from_spec() -> bool {
        true
    }

    open spec fn from_spec(v: &Message) -> Opcode {
        message_opcode(*v)
    }
}

/// Two messages of one kind whose contents read the same.
pub open spec fn same_message(a: Message, b: Message) -> bool {
    match (a, b) {
        (Message::Text(x), Message::Text(y)) => x@ == y@,
        (Message::Binary(x), Message::Binary(y)) => x@ == y@,
        (Message::Close(c, x), Message::Close(d, y)) => c == d && match (x, y) {
            (Some(s), Some(t)) => s@ == t@,
            (None, None) => true,
            _ => false,
        },
        (Message::Ping(x), Message::Ping(y)) => x@ == y@,
        (Message::Pong(x), Message::Pong(y)) => x@ == y@,
        _ => false,
    }
}

/// A message that is sent whole: a ping or pong payload of at most 125
/// bytes, a close reason that is not empty and takes at most 123 bytes.
pub open spec fn sent_whole(m: Message) -> bool {
    match m {
        Message::Close(_, Some(s)) => 0 < s@.len() && encode_utf8(s@).len() <= 123,
        Message::Ping(b) => b@.len() <= 125,
        Message::Pong(b) => b@.len() <= 125,
        _ => true,
    }
}

proof fn lemma_encode_utf8_empty(s: Seq<char>)
    ensures
        (encode_utf8(s).len() == 0) == (s.len() == 0),
{
    if s.len() > 0 {
        assert(encode_utf8(s) == vstd::utf8::encode_scalar(s[0] as u32) + encode_utf8(
            s.drop_first(),
        ));
    }
}

/// A message sent whole, put into its frame's payload and read back, is the
/// same message; no error comes.
pub proof fn lemma_message_round_trip(m: Message, back: Message)
    requires
        sent_whole(m),
        carries(back, message_opcode(m), message_payload(m)),
    ensures
        payload_error(message_opcode(m), message_payload(m)) is None,
        same_message(back, m),
{
    broadcast use vstd::utf8::encode_utf8_valid_utf8, vstd::utf8::encode_utf8_decode_utf8;

    lemma_message_payload_readable(m);
    let p = message_payload(m);
    match m {
        Message::Close(c, reason) => {
            let n = status_number(c) as nat;
            crate::bytes::lemma_be_bytes_len(n, 2);
            crate::bytes::lemma_pow256_values();
            crate::bytes::lemma_from_be_bytes(n, 2);
            assert(p.subrange(0, 2) =~= be_bytes(n, 2));
            let rest = p.subrange(2, p.len() as int);
            match reason {
                Some(s) => {
                    lemma_encode_utf8_empty(s@);
                    assert(rest =~= encode_utf8(s@));
                },
                None => {
                    assert(rest.len() == 0);
                },
            }
        },
        _ => {},
    }
}

/// The payload of every message that can be sent is read without error.
proof fn lemma_message_payload_readable(m: Message)
    ensures
        payload_error(message_opcode(m), message_payload(m)) is None,
{
    broadcast use vstd::utf8::encode_utf8_valid_utf8;

    if let Message::Close(c, reason) = m {
        crate::bytes::lemma_be_bytes_len(status_number(c) as nat, 2);
    }
}

/// A close payload whose status is followed by nothing, or by bytes that
/// are not UTF-8, is read as a close without a reason, not as an error.
pub proof fn lemma_close_without_reason(p: Seq<u8>, back: Message)
    requires
        p.len() >= 2,
        p.len() == 2 || !valid_utf8(p.subrange(2, p.len() as int)),
    ensures
        payload_error(Opcode::Close, p) is None,
        carries(back, Opcode::Close, p) ==> back matches Message::Close(_, None),
{
}


impl TryFrom<Frame> for Message {
    type Error = MessageError;

    /// The message that one final frame carries; see [`Message::from_frame`].
    fn try_from(value: Frame) -> (r: Result<Message, MessageError>)
        ensures
            decodes_to(r, value.header.fin, value.header.opcode, value.payload@),
    {
        Message::from_frame(value)
    }
}

impl vstd::std_specs::convert::TryFromSpecImpl<Frame> for Message {
    open spec fn obeys_try_from_spec() -> bool {
        false
    }

    open spec fn try_from_spec(v: Frame) -> Result<Message, MessageError> {
        vstd::pervasive::arbitrary()
    }
}

impl TryFrom<Vec<Frame>> for Message {
    type Error = MessageError;

    /// The message that a sequence of frames carries; see
    /// [`Message::from_frames`].
    fn try_from(value: Vec<Frame>) -> (r: Result<Message, MessageError>)
        ensures
            assembles_to(r, value@),
    {
        Message::from_frames(value)
    }
}

impl vstd::std_specs::convert::TryFromSpecImpl<Vec<Frame>> for Message {
    open spec fn obeys_try_from_spec() -> bool {
        false
    }

    open spec fn try_from_spec(v: Vec<Frame>) -> Result<Message, MessageError> {
        vstd::pervasive::arbitrary()
    }
}

impl From<Message> for Frame {
    /// The single final frame that carries a message, with a masking key
    /// drawn at random; see [`Frame::from_message`].
    fn from(value: Message) -> (r: Frame)
        ensures
            r.header == (FrameHeader {
                fin: true,
                rsv: 0,
                opcode: message_opcode(value),
                masked: true,
                payload_len: length_class(message_payload(value).len() as u64),
            }),
            r.masking_key.is_some(),
            r.payload@ == message_payload(value),
            crate::frame::frame_wf(r),
    {
        Frame::from_message(value)
    }
}

impl vstd::std_specs::convert::FromSpecImpl<Message> for Frame {
    open spec fn obeys_from_spec() -> bool {
        false
    }

    open spec fn from_spec(v: Message) -> Frame {
        vstd::pervasive::arbitrary()
    }
}

} // verus!
