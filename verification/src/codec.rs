//! The wire format: one frame per message.
//!
//! A frame is the message's identifier as two bytes, the payload's length as
//! four bytes, both little-endian, and then the payload. Nothing may follow
//! the payload: a frame is exactly as long as its header says.
//!
//! | message                  | payload                                                   |
//! |--------------------------|-----------------------------------------------------------|
//! | `Disconnect`             | the reason's code, one byte                               |
//! | `PuzzleRequest`          | empty                                                     |
//! | `PuzzleResponse`         | challenge length (four bytes), challenge, tag, block body |
//! | `UnconfirmedSolution`    | the solution                                              |
//! | `UnconfirmedTransaction` | the transaction                                           |

use crate::bytes::{
    copy_range, le_u16, le_u32, lemma_u16_le, lemma_u32_le, push_bytes, push_u16_le, push_u32_le,
    read_u16_le, read_u32_le, u16_le, u32_le,
};
use crate::message::{DataPayload, DataPayloadView, DisconnectReason, Message, MessageView};
use vstd::prelude::*;

verus! {

/// The number of bytes before the payload.
pub const HEADER_LEN: usize = 6;

/// Why bytes are not a frame.
#[derive(Clone, Copy, Debug, PartialEq, Eq, Structural)]
pub enum DecodeError {
    /// The bytes end before the header, or before the payload that the header
    /// announces, is complete.
    Truncated,
    /// The message identifier, a disconnect reason or a block tag is none
    /// that this node knows.
    UnknownDiscriminator,
    /// Bytes follow the announced payload, or the payload does not have the
    /// length that its message calls for.
    LengthMismatch,
}

/// Why a message has no frame.
#[derive(Clone, Copy, Debug, PartialEq, Eq, Structural)]
pub enum EncodeError {
    /// The payload's length does not fit in the header's four bytes.
    PayloadTooLong,
}

/// The payload of a message.
pub open spec fn payload_of(m: MessageView) -> Seq<u8> {
    match m {
        MessageView::Disconnect { reason } => seq![reason.code()],
        MessageView::PuzzleRequest => Seq::empty(),
        MessageView::PuzzleResponse { epoch_challenge, block } => u32_le(
            epoch_challenge.len() as u32,
        ) + epoch_challenge + seq![block.tag()] + block.body(),
        MessageView::UnconfirmedSolution { solution } => solution,
        MessageView::UnconfirmedTransaction { transaction } => transaction,
    }
}

/// Whether a message has a frame: whether its payload's length fits in the
/// header.
pub open spec fn encodable(m: MessageView) -> bool {
    payload_of(m).len() <= u32::MAX
}

/// The frame of a message.
pub open spec fn frame_of(m: MessageView) -> Seq<u8> {
    u16_le(m.id()) + u32_le(payload_of(m).len() as u32) + payload_of(m)
}

/// The message that a payload stands for under a given identifier.
pub open spec fn parse_payload(id: u16, payload: Seq<u8>) -> Result<MessageView, DecodeError> {
    if id == 0 {
        if payload.len() != 1 {
            Err(DecodeError::LengthMismatch)
        } else {
            match DisconnectReason::from_code(payload[0]) {
                Some(reason) => Ok(MessageView::Disconnect { reason }),
                None => Err(DecodeError::UnknownDiscriminator),
            }
        }
    } else if id == 1 {
        if payload.len() != 0 {
            Err(DecodeError::LengthMismatch)
        } else {
            Ok(MessageView::PuzzleRequest)
        }
    } else if id == 2 {
        if payload.len() < 4 {
            Err(DecodeError::LengthMismatch)
        } else {
            let n = le_u32(payload.subrange(0, 4)) as int;
            if payload.len() < 4 + n + 1 {
                Err(DecodeError::LengthMismatch)
            } else {
                let epoch_challenge = payload.subrange(4, 4 + n);
                let tag = payload[4 + n];
                let body = payload.subrange(4 + n + 1, payload.len() as int);
                if tag == 0 {
                    Ok(
                        MessageView::PuzzleResponse {
                            epoch_challenge,
                            block: DataPayloadView::Inline(body),
                        },
                    )
                } else if tag == 1 {
                    Ok(
                        MessageView::PuzzleResponse {
                            epoch_challenge,
                            block: DataPayloadView::Reference(body),
                        },
                    )
                } else {
                    Err(DecodeError::UnknownDiscriminator)
                }
            }
        }
    } else if id == 3 {
        Ok(MessageView::UnconfirmedSolution { solution: payload })
    } else if id == 4 {
        Ok(MessageView::UnconfirmedTransaction { transaction: payload })
    } else {
        Err(DecodeError::UnknownDiscriminator)
    }
}

/// The message that bytes stand for, or why they stand for none.
pub open spec fn parse_frame(bytes: Seq<u8>) -> Result<MessageView, DecodeError> {
    if bytes.len() < 6 {
        Err(DecodeError::Truncated)
    } else {
        let id = le_u16(bytes.subrange(0, 2));
        let len = le_u32(bytes.subrange(2, 6)) as int;
        if id > 4 {
            Err(DecodeError::UnknownDiscriminator)
        } else if bytes.len() - 6 < len {
            Err(DecodeError::Truncated)
        } else if bytes.len() - 6 > len {
            Err(DecodeError::LengthMismatch)
        } else {
            parse_payload(id, bytes.subrange(6, bytes.len() as int))
        }
    }
}

/// How long the frame at the start of a buffer is, once the buffer holds all
/// of it.
pub open spec fn frame_len(buffer: Seq<u8>) -> Option<int> {
    if buffer.len() < 6 {
        None
    } else {
        let len = le_u32(buffer.subrange(2, 6)) as int;
        if buffer.len() - 6 < len {
            None
        } else {
            Some(6 + len)
        }
    }
}

/// Decoding undoes encoding: every message that has a frame is the message
/// that its frame stands for.
pub proof fn lemma_decode_encode(m: MessageView)
    requires
        encodable(m),
    ensures
        parse_frame(frame_of(m)) == Ok::<MessageView, DecodeError>(m),
{
    let payload = payload_of(m);
    let frame = frame_of(m);
    lemma_u16_le(m.id(), Seq::empty());
    lemma_u32_le(payload.len() as u32, Seq::empty());
    assert(frame.subrange(0, 2) =~= u16_le(m.id()));
    assert(frame.subrange(2, 6) =~= u32_le(payload.len() as u32));
    assert(frame.subrange(6, frame.len() as int) =~= payload);
    match m {
        MessageView::Disconnect { reason } => {
            DisconnectReason::lemma_code_roundtrip(reason, 0);
        },
        MessageView::PuzzleRequest => {},
        MessageView::PuzzleResponse { epoch_challenge, block } => {
            let n = epoch_challenge.len() as int;
            lemma_u32_le(n as u32, Seq::empty());
            assert(payload.subrange(0, 4) =~= u32_le(n as u32));
            assert(payload.subrange(4, 4 + n) =~= epoch_challenge);
            assert(payload[4 + n] == block.tag());
            assert(payload.subrange(4 + n + 1, payload.len() as int) =~= block.body());
        },
        MessageView::UnconfirmedSolution { solution } => {},
        MessageView::UnconfirmedTransaction { transaction } => {},
    }
}

/// Encoding undoes decoding: bytes that stand for a message are that
/// message's frame, so a message has one frame and no other bytes decode to
/// it.
pub proof fn lemma_encode_decode(bytes: Seq<u8>, m: MessageView)
    requires
        parse_frame(bytes) == Ok::<MessageView, DecodeError>(m),
    ensures
        encodable(m),
        frame_of(m) == bytes,
{
    let id = le_u16(bytes.subrange(0, 2));
    let len = le_u32(bytes.subrange(2, 6));
    let payload = bytes.subrange(6, bytes.len() as int);
    lemma_u16_le(0, bytes.subrange(0, 2));
    lemma_u32_le(0, bytes.subrange(2, 6));
    assert(parse_payload(id, payload) == Ok::<MessageView, DecodeError>(m));
    assert(payload_of(m) =~= payload) by {
        if id == 0 {
            DisconnectReason::lemma_code_roundtrip(DisconnectReason::NoReasonGiven, payload[0]);
        } else if id == 2 {
            let n = le_u32(payload.subrange(0, 4));
            lemma_u32_le(0, payload.subrange(0, 4));
            assert(payload.subrange(4, 4 + n).len() == n);
        }
    }
    assert(m.id() == id);
    assert(frame_of(m) =~= bytes);
}

/// Builds the payload of a message, whatever its length.
fn encode_payload(message: &Message) -> (payload: Option<Vec<u8>>)
    ensures
        match payload {
            Some(bytes) => bytes@ == payload_of(message@),
            None => !encodable(message@),
        },
{
    let mut out: Vec<u8> = Vec::new();
    match message {
        Message::Disconnect { reason } => {
            out.push(reason.to_code());
            assert(out@ =~= payload_of(message@));
        },
        Message::PuzzleRequest => {
            assert(out@ =~= payload_of(message@));
        },
        Message::PuzzleResponse { epoch_challenge, block } => {
            if epoch_challenge.len() as u64 > 0xffff_ffff {
                return None;
            }
            push_u32_le(&mut out, epoch_challenge.len() as u32);
            push_bytes(&mut out, epoch_challenge.as_slice());
            match block {
                DataPayload::Inline(bytes) => {
                    out.push(0);
                    push_bytes(&mut out, bytes.as_slice());
                },
                DataPayload::Reference(handle) => {
                    out.push(1);
                    push_bytes(&mut out, handle.as_slice());
                },
            }
            assert(out@ =~= payload_of(message@));
        },
        Message::UnconfirmedSolution { solution } => {
            push_bytes(&mut out, solution.as_slice());
            assert(out@ =~= payload_of(message@));
        },
        Message::UnconfirmedTransaction { transaction } => {
            push_bytes(&mut out, transaction.as_slice());
            assert(out@ =~= payload_of(message@));
        },
    }
    Some(out)
}

/// Encodes a message as its frame.
///
/// Fails exactly when the message has no frame, that is when its payload is
/// too long for the header.
pub fn encode(message: &Message) -> (result: Result<Vec<u8>, EncodeError>)
    ensures
        match result {
            Ok(bytes) => encodable(message@) && bytes@ == frame_of(message@) && parse_frame(bytes@)
                == Ok::<MessageView, DecodeError>(message@),
            Err(e) => !encodable(message@) && e == EncodeError::PayloadTooLong,
        },
{
    let payload = match encode_payload(message) {
        Some(payload) => payload,
        None => {
            return Err(EncodeError::PayloadTooLong);
        },
    };
    if payload.len() as u64 > 0xffff_ffff {
        return Err(EncodeError::PayloadTooLong);
    }
    let mut out: Vec<u8> = Vec::new();
    push_u16_le(&mut out, message.id());
    push_u32_le(&mut out, payload.len() as u32);
    push_bytes(&mut out, payload.as_slice());
    proof {
        assert(out@ =~= frame_of(message@));
        lemma_decode_encode(message@);
    }
    Ok(out)
}

/// Decodes the payload of a frame whose header named `id`.
fn decode_payload(id: u16, payload: &[u8]) -> (result: Result<Message, DecodeError>)
    ensures
        match result {
            Ok(m) => parse_payload(id, payload@) == Ok::<MessageView, DecodeError>(m@),
            Err(e) => parse_payload(id, payload@) == Err::<MessageView, DecodeError>(e),
        },
{
    let len: usize = payload.len();
    if id == 0 {
        if len != 1 {
            return Err(DecodeError::LengthMismatch);
        }
        match DisconnectReason::of_code(payload[0]) {
            Some(reason) => Ok(Message::Disconnect { reason }),
            None => Err(DecodeError::UnknownDiscriminator),
        }
    } else if id == 1 {
        if len != 0 {
            return Err(DecodeError::LengthMismatch);
        }
        Ok(Message::PuzzleRequest)
    } else if id == 2 {
        if len < 4 {
            return Err(DecodeError::LengthMismatch);
        }
        let n: u32 = read_u32_le(payload, 0);
        if ((len - 4) as u64) < n as u64 + 1 {
            return Err(DecodeError::LengthMismatch);
        }
        let n: usize = n as usize;
        let epoch_challenge = copy_range(payload, 4, 4 + n);
        let tag: u8 = payload[4 + n];
        let body = copy_range(payload, 4 + n + 1, len);
        if tag == 0 {
            Ok(Message::PuzzleResponse { epoch_challenge, block: DataPayload::Inline(body) })
        } else if tag == 1 {
            Ok(Message::PuzzleResponse { epoch_challenge, block: DataPayload::Reference(body) })
        } else {
            Err(DecodeError::UnknownDiscriminator)
        }
    } else if id == 3 {
        let solution = copy_range(payload, 0, len);
        assert(solution@ =~= payload@);
        Ok(Message::UnconfirmedSolution { solution })
    } else if id == 4 {
        let transaction = copy_range(payload, 0, len);
        assert(transaction@ =~= payload@);
        Ok(Message::UnconfirmedTransaction { transaction })
    } else {
        Err(DecodeError::UnknownDiscriminator)
    }
}

/// Decodes one frame.
///
/// Succeeds exactly on the frames of messages, and gives back the message
/// whose frame the bytes are. Otherwise the error says what is wrong: the
/// bytes end early, a discriminator is unknown, or a length does not fit.
pub fn decode(bytes: &[u8]) -> (result: Result<Message, DecodeError>)
    ensures
        match result {
            Ok(m) => parse_frame(bytes@) == Ok::<MessageView, DecodeError>(m@) && encodable(m@)
                && bytes@ == frame_of(m@),
            Err(e) => parse_frame(bytes@) == Err::<MessageView, DecodeError>(e),
        },
        result is Ok <==> exists|m: MessageView| encodable(m) && bytes@ == frame_of(m),
{
    proof {
        assert forall|m: MessageView| encodable(m) && bytes@ == frame_of(m) implies parse_frame(
            bytes@,
        ) is Ok by {
            lemma_decode_encode(m);
        }
    }
    let total: usize = bytes.len();
    if total < HEADER_LEN {
        return Err(DecodeError::Truncated);
    }
    let id: u16 = read_u16_le(bytes, 0);
    let len: u32 = read_u32_le(bytes, 2);
    if id > 4 {
        return Err(DecodeError::UnknownDiscriminator);
    }
    let rest: usize = total - HEADER_LEN;
    if (rest as u64) < len as u64 {
        return Err(DecodeError::Truncated);
    }
    if rest as u64 > len as u64 {
        return Err(DecodeError::LengthMismatch);
    }
    let payload = vstd::slice::slice_subrange(bytes, HEADER_LEN, total);
    let result = decode_payload(id, payload);
    proof {
        if let Ok(m) = &result {
            lemma_encode_decode(bytes@, m@);
        }
    }
    result
}

/// Tells where the frame at the start of a receive buffer ends.
///
/// Returns the frame's length once the buffer holds the whole frame, and
/// `None` while more bytes have to arrive.
pub fn next_frame_len(buffer: &[u8]) -> (len: Option<usize>)
    ensures
        match len {
            Some(n) => frame_len(buffer@) == Some(n as int) && HEADER_LEN <= n <= buffer@.len(),
            None => frame_len(buffer@) is None,
        },
{
    let total: usize = buffer.len();
    if total < HEADER_LEN {
        return None;
    }
    let len: u32 = read_u32_le(buffer, 2);
    let rest: usize = total - HEADER_LEN;
    if (rest as u64) < len as u64 {
        return None;
    }
    Some(HEADER_LEN + len as usize)
}

} // verus!
