//! The mathematical model of the wire format: an abstract frame value, a
//! specification-level parser over byte sequences, the exact byte sequence
//! a frame encodes to, and the frame's wire length. The executable codec
//! is verified against these functions.

use crate::varint::{fits_varint, spec_varint_bytes, spec_varint_len, varint_at};
use crate::Error;
use vstd::prelude::*;

verus! {

/// The abstract value of one frame: what a decoded frame means, with
/// every byte field as a plain sequence.
pub enum FrameModel {
    Padding,
    ConnectionClose { error_code: u16, frame_type: u64, reason: Seq<u8> },
    ApplicationClose { error_code: u16, reason: Seq<u8> },
    Ping,
    NewConnectionId { seq_num: u64, conn_id: Seq<u8>, reset_token: Seq<u8> },
    ACK { largest_ack: u64, ack_delay: u64 },
    Crypto { offset: u64, data: Seq<u8> },
    Stream { stream_id: u64, offset: u64, data: Seq<u8>, fin: bool },
}

/// The 16-bit big-endian integer at `pos`, or `None` past the buffer end.
pub open spec fn u16_at(s: Seq<u8>, pos: int) -> Option<u16> {
    if 0 <= pos && pos + 2 <= s.len() {
        Some((s[pos] * 0x100 + s[pos + 1]) as u16)
    } else {
        None
    }
}

/// A byte run prefixed by its own length as a variable-length integer:
/// the run and the position after it.
pub open spec fn varint_prefixed_at(s: Seq<u8>, pos: int) -> Option<(Seq<u8>, int)> {
    match varint_at(s, pos) {
        Some((l, w)) => {
            if pos + w + l <= s.len() {
                Some((s.subrange(pos + w, pos + w + l), pos + w + l))
            } else {
                None
            }
        },
        None => None,
    }
}

/// Wire discriminants of the frame variants. The eight stream values
/// form one logical variant: their three low bits are flags.
pub open spec fn known_frame_type(ty: u64) -> bool {
    ty == 0x00 || ty == 0x02 || ty == 0x03 || ty == 0x07 || ty == 0x0b || ty == 0x0d
        || (0x10 <= ty && ty <= 0x17) || ty == 0x18
}

pub open spec fn parse_connection_close_at(s: Seq<u8>, pos: int) -> Result<(FrameModel, int), Error> {
    match u16_at(s, pos) {
        None => Err(Error::BufferTooShort),
        Some(error_code) => match varint_at(s, pos + 2) {
            None => Err(Error::BufferTooShort),
            Some((frame_type, w)) => match varint_prefixed_at(s, pos + 2 + w) {
                None => Err(Error::BufferTooShort),
                Some((reason, end)) => Ok(
                    (FrameModel::ConnectionClose { error_code, frame_type, reason }, end),
                ),
            },
        },
    }
}

pub open spec fn parse_application_close_at(s: Seq<u8>, pos: int) -> Result<(FrameModel, int), Error> {
    match u16_at(s, pos) {
        None => Err(Error::BufferTooShort),
        Some(error_code) => match varint_prefixed_at(s, pos + 2) {
            None => Err(Error::BufferTooShort),
            Some((reason, end)) => Ok((FrameModel::ApplicationClose { error_code, reason }, end)),
        },
    }
}

pub open spec fn parse_new_connection_id_at(s: Seq<u8>, pos: int) -> Result<(FrameModel, int), Error> {
    match varint_at(s, pos) {
        None => Err(Error::BufferTooShort),
        Some((seq_num, w)) => {
            let p = pos + w;
            if p < s.len() {
                let l = s[p] as int;
                if p + 1 + l <= s.len() {
                    let conn_id = s.subrange(p + 1, p + 1 + l);
                    let q = p + 1 + l;
                    if q + 16 <= s.len() {
                        Ok(
                            (
                                FrameModel::NewConnectionId {
                                    seq_num,
                                    conn_id,
                                    reset_token: s.subrange(q, q + 16),
                                },
                                q + 16,
                            ),
                        )
                    } else {
                        Err(Error::BufferTooShort)
                    }
                } else {
                    Err(Error::BufferTooShort)
                }
            } else {
                Err(Error::BufferTooShort)
            }
        },
    }
}

/// Positions past the acknowledged-range list: `count` pairs of
/// variable-length integers are read and discarded.
pub open spec fn skip_ranges_at(s: Seq<u8>, pos: int, count: u64) -> Option<int>
    decreases count,
{
    if count == 0 {
        Some(pos)
    } else {
        match varint_at(s, pos) {
            None => None,
            Some((_gap, w1)) => match varint_at(s, pos + w1) {
                None => None,
                Some((_len, w2)) => skip_ranges_at(s, pos + w1 + w2, (count - 1) as u64),
            },
        }
    }
}

pub open spec fn parse_ack_at(s: Seq<u8>, pos: int) -> Result<(FrameModel, int), Error> {
    match varint_at(s, pos) {
        None => Err(Error::BufferTooShort),
        Some((largest_ack, w1)) => match varint_at(s, pos + w1) {
            None => Err(Error::BufferTooShort),
            Some((ack_delay, w2)) => match varint_at(s, pos + w1 + w2) {
                None => Err(Error::BufferTooShort),
                Some((count, w3)) => match varint_at(s, pos + w1 + w2 + w3) {
                    None => Err(Error::BufferTooShort),
                    Some((_first, w4)) => match skip_ranges_at(s, pos + w1 + w2 + w3 + w4, count) {
                        None => Err(Error::BufferTooShort),
                        Some(end) => Ok((FrameModel::ACK { largest_ack, ack_delay }, end)),
                    },
                },
            },
        },
    }
}

pub open spec fn parse_crypto_at(s: Seq<u8>, pos: int) -> Result<(FrameModel, int), Error> {
    match varint_at(s, pos) {
        None => Err(Error::BufferTooShort),
        Some((offset, w)) => match varint_prefixed_at(s, pos + w) {
            None => Err(Error::BufferTooShort),
            Some((data, end)) => Ok((FrameModel::Crypto { offset, data }, end)),
        },
    }
}

/// The three low bits of a stream discriminant are independent flags.
pub open spec fn stream_has_offset(ty: u64) -> bool {
    ty % 8 >= 4
}

pub open spec fn stream_has_length(ty: u64) -> bool {
    ty % 4 >= 2
}

pub open spec fn stream_fin(ty: u64) -> bool {
    ty % 2 == 1
}

/// The tail of a stream frame after stream id and offset: data with an
/// explicit length prefix, or the whole remainder of the buffer when the
/// length flag is clear.
pub open spec fn parse_stream_tail_at(
    s: Seq<u8>,
    pos: int,
    stream_id: u64,
    offset: u64,
    ty: u64,
) -> Result<(FrameModel, int), Error> {
    if stream_has_length(ty) {
        match varint_prefixed_at(s, pos) {
            None => Err(Error::BufferTooShort),
            Some((data, end)) => Ok(
                (FrameModel::Stream { stream_id, offset, data, fin: stream_fin(ty) }, end),
            ),
        }
    } else {
        Ok(
            (
                FrameModel::Stream {
                    stream_id,
                    offset,
                    data: s.subrange(pos, s.len() as int),
                    fin: stream_fin(ty),
                },
                s.len() as int,
            ),
        )
    }
}

pub open spec fn parse_stream_at(s: Seq<u8>, pos: int, ty: u64) -> Result<(FrameModel, int), Error> {
    match varint_at(s, pos) {
        None => Err(Error::BufferTooShort),
        Some((stream_id, w)) => {
            if stream_has_offset(ty) {
                match varint_at(s, pos + w) {
                    None => Err(Error::BufferTooShort),
                    Some((offset, w2)) => parse_stream_tail_at(s, pos + w + w2, stream_id, offset, ty),
                }
            } else {
                parse_stream_tail_at(s, pos + w, stream_id, 0, ty)
            }
        },
    }
}

/// Parse one frame at `pos`: the frame and the position just past it, or
/// the structural error the decoder reports.
pub open spec fn spec_parse_at(s: Seq<u8>, pos: int) -> Result<(FrameModel, int), Error> {
    match varint_at(s, pos) {
        None => Err(Error::BufferTooShort),
        Some((ty, w)) => {
            let p = pos + w;
            if ty == 0x00 {
                Ok((FrameModel::Padding, p))
            } else if ty == 0x02 {
                parse_connection_close_at(s, p)
            } else if ty == 0x03 {
                parse_application_close_at(s, p)
            } else if ty == 0x07 {
                Ok((FrameModel::Ping, p))
            } else if ty == 0x0b {
                parse_new_connection_id_at(s, p)
            } else if ty == 0x0d {
                parse_ack_at(s, p)
            } else if 0x10 <= ty && ty <= 0x17 {
                parse_stream_at(s, p, ty)
            } else if ty == 0x18 {
                parse_crypto_at(s, p)
            } else {
                Err(Error::UnknownFrame)
            }
        },
    }
}

/// Parse one frame at the start of `s`.
pub open spec fn spec_parse(s: Seq<u8>) -> Result<(FrameModel, int), Error> {
    spec_parse_at(s, 0)
}

/// The two bytes of a 16-bit integer in network byte order.
pub open spec fn be16_bytes(v: u16) -> Seq<u8> {
    seq![(v / 0x100) as u8, (v % 0x100) as u8]
}

/// The discriminant byte the encoder emits for a stream frame: offset and
/// explicit length always present, plus the fin bit.
pub open spec fn stream_type_byte(fin: bool) -> u64 {
    if fin {
        0x17
    } else {
        0x16
    }
}

/// The exact byte sequence a frame encodes to. The encoder always emits
/// the self-delimiting stream form (offset and explicit length present)
/// and an empty acknowledged-range list.
pub open spec fn spec_enc(m: FrameModel) -> Seq<u8> {
    match m {
        FrameModel::Padding => spec_varint_bytes(0x00),
        FrameModel::ConnectionClose { error_code, frame_type, reason } => spec_varint_bytes(0x02)
            + be16_bytes(error_code) + spec_varint_bytes(frame_type)
            + spec_varint_bytes(reason.len() as u64) + reason,
        FrameModel::ApplicationClose { error_code, reason } => spec_varint_bytes(0x03)
            + be16_bytes(error_code) + spec_varint_bytes(reason.len() as u64) + reason,
        FrameModel::Ping => spec_varint_bytes(0x07),
        FrameModel::NewConnectionId { seq_num, conn_id, reset_token } => spec_varint_bytes(0x0b)
            + spec_varint_bytes(seq_num) + seq![conn_id.len() as u8] + conn_id + reset_token,
        FrameModel::ACK { largest_ack, ack_delay } => spec_varint_bytes(0x0d)
            + spec_varint_bytes(largest_ack) + spec_varint_bytes(ack_delay) + spec_varint_bytes(0)
            + spec_varint_bytes(0),
        FrameModel::Crypto { offset, data } => spec_varint_bytes(0x18) + spec_varint_bytes(offset)
            + spec_varint_bytes(data.len() as u64) + data,
        FrameModel::Stream { stream_id, offset, data, fin } => spec_varint_bytes(
            stream_type_byte(fin),
        ) + spec_varint_bytes(stream_id) + spec_varint_bytes(offset)
            + spec_varint_bytes(data.len() as u64) + data,
    }
}

/// The wire length of a frame, field by field, as the length calculator
/// computes it.
pub open spec fn spec_wire_len(m: FrameModel) -> int {
    match m {
        FrameModel::Padding => 1,
        FrameModel::ConnectionClose { frame_type, reason, .. } => 1 + 2 + spec_varint_len(frame_type)
            + spec_varint_len(reason.len() as u64) + reason.len(),
        FrameModel::ApplicationClose { reason, .. } => 1 + 2 + spec_varint_len(reason.len() as u64)
            + reason.len(),
        FrameModel::Ping => 1,
        FrameModel::NewConnectionId { seq_num, conn_id, reset_token } => 1 + spec_varint_len(seq_num)
            + 1 + conn_id.len() + reset_token.len(),
        FrameModel::ACK { largest_ack, ack_delay } => 1 + spec_varint_len(largest_ack)
            + spec_varint_len(ack_delay) + 1 + 1,
        FrameModel::Crypto { offset, data } => 1 + spec_varint_len(offset)
            + spec_varint_len(data.len() as u64) + data.len(),
        FrameModel::Stream { stream_id, offset, data, .. } => 1 + spec_varint_len(stream_id)
            + spec_varint_len(offset) + spec_varint_len(data.len() as u64) + data.len(),
    }
}

impl FrameModel {
    /// Well-formedness of a constructible frame: every integer field fits
    /// the variable-length encoding, byte runs fit their length prefixes
    /// (an 8-bit prefix for the alternate connection id, exactly 16 bytes
    /// of reset token), and the whole encoded frame fits in a `usize`.
    pub open spec fn wf(self) -> bool {
        &&& match self {
            FrameModel::Padding => true,
            FrameModel::ConnectionClose { frame_type, reason, .. } => fits_varint(frame_type)
                && fits_varint(reason.len() as u64),
            FrameModel::ApplicationClose { reason, .. } => fits_varint(reason.len() as u64),
            FrameModel::Ping => true,
            FrameModel::NewConnectionId { seq_num, conn_id, reset_token } => fits_varint(seq_num)
                && conn_id.len() <= 0xff && reset_token.len() == 16,
            FrameModel::ACK { largest_ack, ack_delay } => fits_varint(largest_ack)
                && fits_varint(ack_delay),
            FrameModel::Crypto { offset, data } => fits_varint(offset)
                && fits_varint(data.len() as u64),
            FrameModel::Stream { stream_id, offset, data, .. } => fits_varint(stream_id)
                && fits_varint(offset) && fits_varint(data.len() as u64),
        }
        &&& spec_wire_len(self) <= usize::MAX
    }
}

/// `s` with the run at `pos` replaced by `w`: what one bounds-checked
/// write leaves behind.
pub open spec fn splice(s: Seq<u8>, pos: int, w: Seq<u8>) -> Seq<u8> {
    s.subrange(0, pos) + w + s.subrange(pos + w.len(), s.len() as int)
}

/// Two writes one after the other splice in the concatenation.
pub proof fn lemma_splice_splice(s: Seq<u8>, pos: int, w1: Seq<u8>, w2: Seq<u8>)
    requires
        0 <= pos,
        pos + w1.len() + w2.len() <= s.len(),
    ensures
        splice(splice(s, pos, w1), pos + w1.len(), w2) == splice(s, pos, w1 + w2),
{
    assert(splice(splice(s, pos, w1), pos + w1.len(), w2) =~= splice(s, pos, w1 + w2));
}

} // verus!
