//! The envelope of the link: every data frame is a four-byte little-endian
//! tag that names the side the message is meant for, followed by the
//! message itself.

use vstd::prelude::*;
use vstd::bytes::{
    lemma_auto_spec_u32_to_from_le_bytes, spec_u32_from_le_bytes, spec_u32_to_le_bytes,
    u32_from_le_bytes, u32_to_le_bytes,
};
use vstd::slice::{slice_subrange, slice_to_vec};

verus! {

/// Length of the tag.
pub const TAG_LENGTH: usize = 4;

/// Tag of a message for the served side of the link.
pub const TAG_CHILD: u32 = 0;

/// Tag of a message for the calling side of the link.
pub const TAG_PARENT: u32 = 1;

/// A message together with the side it is meant for.
#[derive(Clone, Debug, PartialEq, Eq)]
pub enum MuxedMessage {
    /// For the service that answers requests.
    Child(Vec<u8>),
    /// For the client that awaits responses.
    Parent(Vec<u8>),
}

/// A `MuxedMessage` with its bytes as a sequence.
pub enum Envelope {
    Child(Seq<u8>),
    Parent(Seq<u8>),
}

impl View for MuxedMessage {
    type V = Envelope;

    open spec fn view(&self) -> Envelope {
        match self {
            MuxedMessage::Child(body) => Envelope::Child(body@),
            MuxedMessage::Parent(body) => Envelope::Parent(body@),
        }
    }
}

/// Why a frame is dropped.
#[derive(Clone, Copy, Debug, PartialEq, Eq, Structural)]
pub enum DecodeError {
    /// The frame is too short to hold a tag.
    Truncated,
    /// The tag names no side.
    UnknownTag(u32),
}

/// The frame that carries `message`.
pub open spec fn spec_encode(message: Envelope) -> Seq<u8> {
    match message {
        Envelope::Child(body) => spec_u32_to_le_bytes(TAG_CHILD) + body,
        Envelope::Parent(body) => spec_u32_to_le_bytes(TAG_PARENT) + body,
    }
}

/// The message that `frame` carries, or why it carries none.
pub open spec fn spec_decode(frame: Seq<u8>) -> Result<Envelope, DecodeError> {
    if frame.len() < TAG_LENGTH {
        Err(DecodeError::Truncated)
    } else {
        let tag = spec_u32_from_le_bytes(frame.subrange(0, TAG_LENGTH as int));
        let body = frame.subrange(TAG_LENGTH as int, frame.len() as int);
        if tag == TAG_CHILD {
            Ok(Envelope::Child(body))
        } else if tag == TAG_PARENT {
            Ok(Envelope::Parent(body))
        } else {
            Err(DecodeError::UnknownTag(tag))
        }
    }
}

/// Frames a message.
pub fn encode(message: &MuxedMessage) -> (frame: Vec<u8>)
    ensures
        frame@ == spec_encode(message@),
{
    match message {
        MuxedMessage::Child(body) => {
            let mut frame = u32_to_le_bytes(TAG_CHILD);
            frame.extend_from_slice(body.as_slice());
            assert(frame@ =~= spec_encode(message@));
            frame
        },
        MuxedMessage::Parent(body) => {
            let mut frame = u32_to_le_bytes(TAG_PARENT);
            frame.extend_from_slice(body.as_slice());
            assert(frame@ =~= spec_encode(message@));
            frame
        },
    }
}

/// Reads a frame. It fails on a frame shorter than a tag and on a tag that
/// names no side, and on nothing else.
pub fn decode(frame: &[u8]) -> (r: Result<MuxedMessage, DecodeError>)
    ensures
        match r {
            Ok(message) => spec_decode(frame@) == Ok::<Envelope, DecodeError>(message@),
            Err(e) => spec_decode(frame@) == Err::<Envelope, DecodeError>(e),
        },
{
    if frame.len() < TAG_LENGTH {
        return Err(DecodeError::Truncated);
    }
    let tag = u32_from_le_bytes(slice_subrange(frame, 0, TAG_LENGTH));
    let body = slice_to_vec(slice_subrange(frame, TAG_LENGTH, frame.len()));
    if tag == TAG_CHILD {
        Ok(MuxedMessage::Child(body))
    } else if tag == TAG_PARENT {
        Ok(MuxedMessage::Parent(body))
    } else {
        Err(DecodeError::UnknownTag(tag))
    }
}

/// What was framed is read back unchanged, for the same side.
pub proof fn lemma_decode_encode(message: Envelope)
    ensures
        spec_decode(spec_encode(message)) == Ok::<Envelope, DecodeError>(message),
{
    lemma_auto_spec_u32_to_from_le_bytes();
    let frame = spec_encode(message);
    match message {
        Envelope::Child(body) => {
            assert(spec_u32_to_le_bytes(TAG_CHILD).len() == 4);
            assert(frame.subrange(0, 4) =~= spec_u32_to_le_bytes(TAG_CHILD));
            assert(frame.subrange(4, frame.len() as int) =~= body);
        },
        Envelope::Parent(body) => {
            assert(spec_u32_to_le_bytes(TAG_PARENT).len() == 4);
            assert(frame.subrange(0, 4) =~= spec_u32_to_le_bytes(TAG_PARENT));
            assert(frame.subrange(4, frame.len() as int) =~= body);
        },
    }
}

/// A frame that is read as a message is the frame of that message.
pub proof fn lemma_encode_decode(frame: Seq<u8>)
    requires
        spec_decode(frame).is_ok(),
    ensures
        spec_encode(spec_decode(frame).unwrap()) == frame,
{
    lemma_auto_spec_u32_to_from_le_bytes();
    let head = frame.subrange(0, 4);
    assert(head.len() == 4);
    assert(spec_u32_to_le_bytes(spec_u32_from_le_bytes(head)) == head);
    assert(frame =~= head + frame.subrange(4, frame.len() as int));
}

} // verus!
