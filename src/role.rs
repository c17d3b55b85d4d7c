//! The two ends of a connection, and what each does to the frames it sends
//! and receives: the initiator masks what it sends with a fresh key, the
//! acceptor never masks and unmasks what it receives.
use vstd::prelude::*;

use crate::frame::{
    frame_bytes, frame_len, frame_wf, header_bytes, key_bytes, length_class, masked_payload,
    parse_frame, payload_start, Frame, FrameHeader,
};
use crate::support::random_u32;
use crate::message::{
    assembles_to, message_opcode, message_payload, Message, MessageError, StatusCode,
};

verus! {

/// Which end of a connection this is.
#[derive(Debug, Clone, Copy, PartialEq, Eq, Structural)]
pub enum Role {
    /// The end that opened the connection.
    Initiator,
    /// The end that accepted it.
    Acceptor,
}

/// A type that names the kind of peer a stream talks to, and so the role
/// of this end.
pub trait Side {
    spec fn side_role() -> Role;

    fn role() -> (r: Role)
        ensures
            r == Self::side_role(),
    ;
}

/// The peer is a server: this end initiates.
#[derive(Debug, Clone, Copy, Hash, PartialEq, Eq, Structural)]
pub struct Server;

/// The peer is a client: this end accepts.
#[derive(Debug, Clone, Copy, Hash, PartialEq, Eq, Structural)]
pub struct Client;

impl Side for Server {
    open spec fn side_role() -> Role {
        Role::Initiator
    }

    fn role() -> (r: Role) {
        Role::Initiator
    }
}

impl Side for Client {
    open spec fn side_role() -> Role {
        Role::Acceptor
    }

    fn role() -> (r: Role) {
        Role::Acceptor
    }
}

/// The header of the frame that `role` sends for a message: final,
/// reserved bits clear, the message's opcode, masked exactly for the
/// initiator, the smallest length class.
pub open spec fn outgoing_header(role: Role, message: Message) -> FrameHeader {
    FrameHeader {
        fin: true,
        rsv: 0,
        opcode: message_opcode(message),
        masked: role == Role::Initiator,
        payload_len: length_class(message_payload(message).len() as u64),
    }
}

/// The bytes that `role` sends for a message, where the initiator masks
/// with `key`; the acceptor sends no key and the plain payload.
pub open spec fn outgoing_bytes(role: Role, message: Message, key: u32) -> Seq<u8> {
    let h = outgoing_header(role, message);
    if role == Role::Initiator {
        header_bytes(h) + key_bytes(Some(key)) + masked_payload(message_payload(message), key)
    } else {
        header_bytes(h) + message_payload(message)
    }
}

/// The frame that `role` sends for a message, where the initiator masks
/// with `key`; the acceptor sends it unmasked, without a key.
pub fn outgoing_frame_with_key(role: Role, message: Message, key: u32) -> (r: Frame)
    ensures
        r.header == outgoing_header(role, message),
        frame_wf(r),
        role == Role::Initiator ==> {
            &&& r.masking_key == Some(key)
            &&& r.payload@ == masked_payload(message_payload(message), key)
        },
        role == Role::Acceptor ==> {
            &&& r.masking_key is None
            &&& r.payload@ == message_payload(message)
        },
        frame_bytes(r) == outgoing_bytes(role, message, key),
{
    let mut frame = Frame::message_frame(message, key);
    match role {
        Role::Initiator => {
            frame.mask();
        },
        Role::Acceptor => {
            frame.header.masked = false;
            frame.masking_key = None;
        },
    }
    proof {
        assert(frame_bytes(frame) =~= outgoing_bytes(role, message, key));
    }
    frame
}

/// The frame that `role` sends for a message. The initiator masks it with
/// a key drawn at this call; the acceptor sends it unmasked, without a key.
pub fn outgoing_frame(role: Role, message: Message) -> (r: Frame)
    ensures
        r.header == outgoing_header(role, message),
        frame_wf(r),
        role == Role::Initiator ==> {
            &&& r.masking_key matches Some(k)
            &&& r.payload@ == masked_payload(message_payload(message), k)
        },
        role == Role::Acceptor ==> {
            &&& r.masking_key is None
            &&& r.payload@ == message_payload(message)
        },
{
    outgoing_frame_with_key(role, message, random_u32())
}

/// The bytes that `role` sends for a message, where the initiator masks
/// with `key`.
pub fn encode_outgoing_with_key(role: Role, message: Message, key: u32) -> (r: Vec<u8>)
    ensures
        r@ == outgoing_bytes(role, message, key),
{
    let frame = outgoing_frame_with_key(role, message, key);
    frame.to_bytes()
}

/// The bytes that `role` sends for a message. The initiator masks with a
/// key drawn at this call.
pub fn encode_outgoing(role: Role, message: Message) -> (r: Vec<u8>)
    ensures
        exists|key: u32| r@ == outgoing_bytes(role, message, key),
{
    let key = random_u32();
    encode_outgoing_with_key(role, message, key)
}

/// `g` is the frame that `role` keeps of a received frame `f`: the acceptor
/// unmasks a masked payload, the initiator keeps the payload as it came.
pub open spec fn received(role: Role, f: Frame, g: Frame) -> bool {
    &&& g.header == f.header
    &&& g.masking_key == f.masking_key
    &&& g.payload@ == match (role, f.masking_key) {
        (Role::Acceptor, Some(k)) => masked_payload(f.payload@, k),
        _ => f.payload@,
    }
}

/// One step of a receiver of `role` that held `before` and takes frame
/// `f`: it keeps the frame as `received` says, then either holds it back
/// (not final) or assembles all it holds into `r` and holds nothing.
pub open spec fn accept_step(
    role: Role,
    before: Seq<Frame>,
    f: Frame,
    after: Seq<Frame>,
    r: Option<Result<Message, MessageError>>,
) -> bool {
    exists|g: Frame|
        {
            &&& received(role, f, g)
            &&& if f.header.fin {
                &&& after == Seq::<Frame>::empty()
                &&& r matches Some(res)
                &&& assembles_to(res, before.push(g))
            } else {
                &&& after == before.push(g)
                &&& r is None
            }
        }
}

/// Frames of one connection direction, gathered until a final frame
/// completes a message.
pub struct Receiver {
    role: Role,
    frames: Vec<Frame>,
}

impl Receiver {
    /// The role of the end that receives.
    pub closed spec fn spec_role(&self) -> Role {
        self.role
    }

    /// The role of the end that receives.
    pub fn role(&self) -> (r: Role)
        ensures
            r == self.spec_role(),
    {
        self.role
    }

    /// The frames kept so far, in arrival order.
    pub closed spec fn pending(&self) -> Seq<Frame> {
        self.frames@
    }

    /// A receiver for `role` with no frames kept.
    pub fn new(role: Role) -> (r: Receiver)
        ensures
            r.spec_role() == role,
            r.pending() == Seq::<Frame>::empty(),
    {
        Receiver { role, frames: Vec::new() }
    }

    /// Takes one received frame. A frame that is not final is kept and
    /// nothing is returned; a final frame ends the sequence, which is
    /// assembled into a message or an error, and no frame is kept.
    pub fn accept(&mut self, frame: Frame) -> (r: Option<Result<Message, MessageError>>)
        ensures
            final(self).spec_role() == old(self).spec_role(),
            accept_step(old(self).spec_role(), old(self).pending(), frame, final(self).pending(), r),
    {
        let mut frame = frame;
        let ghost f0 = frame;
        match (self.role, frame.masking_key) {
            (Role::Acceptor, Some(_)) => frame.mask(),
            _ => {},
        }
        let fin = frame.header.fin;
        self.frames.push(frame);
        let ghost g = frame;
        if fin {
            let mut frames: Vec<Frame> = Vec::new();
            std::mem::swap(&mut frames, &mut self.frames);
            assert(frames@ == old(self).pending().push(g));
            let res = Message::from_frames(frames);
            assert(received(old(self).role, f0, g));
            assert(self.pending() =~= Seq::<Frame>::empty());
            assert(assembles_to(res, old(self).pending().push(g)));
            Some(res)
        } else {
            assert(received(old(self).role, f0, g));
            assert(self.pending() == old(self).pending().push(g));
            None
        }
    }

    /// Takes the bytes of one received frame. Bytes that hold no frame are
    /// a protocol error, and the frames held so far are dropped; a frame is
    /// taken as `accept` takes it.
    pub fn accept_bytes(&mut self, bytes: &[u8]) -> (r: Option<Result<Message, MessageError>>)
        ensures
            final(self).spec_role() == old(self).spec_role(),
            match parse_frame(bytes@) {
                Err(_) => {
                    &&& r == Some(
                        Err::<Message, MessageError>(
                            MessageError::ProtocolViolated(StatusCode::ProtocolError),
                        ),
                    )
                    &&& final(self).pending() == Seq::<Frame>::empty()
                },
                Ok((h, k)) => exists|f: Frame|
                    {
                        &&& f.header == h
                        &&& f.masking_key == k
                        &&& f.payload@ == bytes@.subrange(
                            payload_start(h) as int,
                            frame_len(h) as int,
                        )
                        &&& accept_step(
                            old(self).spec_role(),
                            old(self).pending(),
                            f,
                            final(self).pending(),
                            r,
                        )
                    },
            },
    {
        match Frame::parse(bytes) {
            Ok(frame) => {
                let ghost f = frame;
                let r = self.accept(frame);
                assert(f.payload@ == bytes@.subrange(
                    payload_start(f.header) as int,
                    frame_len(f.header) as int,
                ));
                r
            },
            Err(_) => {
                self.frames = Vec::new();
                proof {
                    assert(self.pending() =~= Seq::<Frame>::empty());
                }
                Some(Err(MessageError::ProtocolViolated(StatusCode::ProtocolError)))
            },
        }
    }

    /// What a failed read of the stream gives: an abnormal close. The
    /// frames held so far are dropped.
    pub fn read_failed(&mut self) -> (r: MessageError)
        ensures
            r == MessageError::ProtocolViolated(StatusCode::CloseAbnormal),
            final(self).spec_role() == old(self).spec_role(),
            final(self).pending() == Seq::<Frame>::empty(),
    {
        self.frames = Vec::new();
        proof {
            assert(self.pending() =~= Seq::<Frame>::empty());
        }
        MessageError::ProtocolViolated(StatusCode::CloseAbnormal)
    }
}

} // verus!
