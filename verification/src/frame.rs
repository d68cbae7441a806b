//! Control frames: messages with their length in front.
use vstd::prelude::*;

use crate::bytes::{
    append_bytes, be_bytes, be_decode, be_encode, be_value, lemma_be_bounds, lemma_be_bytes_len,
    lemma_be_bytes_of_be_value, lemma_be_value_of_be_bytes,
};
use crate::message::{
    decode_message, decoded, encode_message, encoded, law_message_round_trips, WireMessage,
};
use crate::outcome::agrees;
use crate::protocol::{LimitsView, ProtocolError, ProtocolLimits};

verus! {

pub const CONTROL_FRAME_HEADER_SIZE: usize = 4;

/// The frame of a message.
pub open spec fn framed<M: WireMessage>(view: M::V, limits: LimitsView) -> Result<
    Seq<u8>,
    ProtocolError,
> {
    let payload = encoded::<M>(view);
    if payload.len() > limits.maximum_control_frame_bytes {
        Err(
            ProtocolError::ControlFrameTooLarge {
                actual: payload.len() as usize,
                maximum: limits.maximum_control_frame_bytes,
            },
        )
    } else {
        Ok(be_bytes(payload.len(), 4) + payload)
    }
}

/// The message in a frame.
pub open spec fn unframed<M: WireMessage>(frame: Seq<u8>, limits: LimitsView) -> Result<
    M::V,
    ProtocolError,
> {
    if frame.len() < CONTROL_FRAME_HEADER_SIZE {
        Err(ProtocolError::ControlFrameHeaderTooShort { actual: frame.len() as usize })
    } else {
        let declared = be_value(frame.take(4));
        let actual = (frame.len() - CONTROL_FRAME_HEADER_SIZE) as nat;
        if declared > limits.maximum_control_frame_bytes {
            Err(
                ProtocolError::ControlFrameTooLarge {
                    actual: declared as usize,
                    maximum: limits.maximum_control_frame_bytes,
                },
            )
        } else if declared != actual {
            Err(
                ProtocolError::ControlFrameLengthMismatch {
                    declared: declared as usize,
                    actual: actual as usize,
                },
            )
        } else {
            match decoded::<M>(frame.skip(4)) {
                Some(view) => Ok(view),
                None => Err(ProtocolError::Decode),
            }
        }
    }
}

/// Puts a message into a frame.
pub fn encode_control_frame<M: WireMessage>(message: &M, limits: ProtocolLimits) -> (result: Result<
    Vec<u8>,
    ProtocolError,
>)
    ensures
        agrees(result, framed::<M>(message@, limits@)),
{
    let payload: Vec<u8> = encode_message(message);
    let maximum: usize = limits.maximum_control_frame_bytes();
    if payload.len() > maximum {
        return Err(ProtocolError::ControlFrameTooLarge { actual: payload.len(), maximum });
    }
    let mut frame: Vec<u8> = be_encode(payload.len() as u128, CONTROL_FRAME_HEADER_SIZE);
    append_bytes(&mut frame, payload.as_slice());
    Ok(frame)
}

/// Takes a message out of a frame.
pub fn decode_control_frame<M: WireMessage>(frame: &[u8], limits: ProtocolLimits) -> (result: Result<
    M,
    ProtocolError,
>)
    ensures
        agrees(result, unframed::<M>(frame@, limits@)),
{
    let length: usize = frame.len();
    if length < CONTROL_FRAME_HEADER_SIZE {
        return Err(ProtocolError::ControlFrameHeaderTooShort { actual: length });
    }
    let header: &[u8] = vstd::slice::slice_subrange(frame, 0, CONTROL_FRAME_HEADER_SIZE);
    proof {
        assert(header@ =~= frame@.take(4));
        lemma_be_bounds();
        lemma_be_bytes_of_be_value(header@);
    }
    let declared: usize = be_decode(header) as usize;
    let maximum: usize = limits.maximum_control_frame_bytes();
    if declared > maximum {
        return Err(ProtocolError::ControlFrameTooLarge { actual: declared, maximum });
    }
    let actual: usize = length - CONTROL_FRAME_HEADER_SIZE;
    if declared != actual {
        return Err(ProtocolError::ControlFrameLengthMismatch { declared, actual });
    }
    let payload: &[u8] = vstd::slice::slice_subrange(frame, CONTROL_FRAME_HEADER_SIZE, length);
    assert(payload@ =~= frame@.skip(4));
    match decode_message(payload) {
        Ok(message) => Ok(message),
        Err(_) => Err(ProtocolError::Decode),
    }
}

/// Taking a message out of its frame gives the message, at every device whose limit admits the
/// frame.
pub proof fn law_frame_round_trips<M: WireMessage>(
    view: M::V,
    sender_limits: LimitsView,
    receiver_limits: LimitsView,
)
    requires
        sender_limits.wf(),
        framed::<M>(view, sender_limits) is Ok,
        encoded::<M>(view).len() <= receiver_limits.maximum_control_frame_bytes,
    ensures
        unframed::<M>(framed::<M>(view, sender_limits)->Ok_0, receiver_limits) == Ok::<
            M::V,
            ProtocolError,
        >(view),
{
    let payload = encoded::<M>(view);
    let frame = be_bytes(payload.len(), 4) + payload;
    lemma_be_bounds();
    lemma_be_bytes_len(payload.len(), 4);
    lemma_be_value_of_be_bytes(payload.len(), 4);
    law_message_round_trips::<M>(view);
    assert(frame.take(4) =~= be_bytes(payload.len(), 4));
    assert(frame.skip(4) =~= payload);
}

} // verus!
