//! The frame codec: a typed frame value, a decoder that consumes one
//! frame from a cursor, an encoder that writes one frame to a cursor, and
//! a wire-length calculator that never touches a buffer. All three are
//! verified against the one wire model in `wire`, so they cannot diverge
//! from each other.

use crate::cursor;
use crate::cursor::{octets_data, octets_mut_data, octets_mut_off, octets_off};
use crate::varint::spec_varint_bytes;
use crate::laws::lemma_wire_len_matches_encoding;
use crate::varint::lemma_varint_bytes_shape;
use crate::wire::{
    be16_bytes, lemma_splice_splice, parse_ack_at, parse_stream_at, skip_ranges_at, spec_enc,
    spec_parse_at, spec_wire_len, splice, stream_type_byte, varint_prefixed_at, FrameModel,
};
use crate::Error;
use vstd::prelude::*;

verus! {

/// One frame of the transport protocol. Byte fields are owned copies:
/// the payloads of `Crypto` and `Stream` frames are copied out of the
/// input buffer rather than borrowed from it, trading one copy per
/// decode for a frame value with no lifetime tie to the buffer.
#[derive(Debug, PartialEq)]
pub enum Frame {
    Padding,
    ConnectionClose { error_code: u16, frame_type: u64, reason: Vec<u8> },
    ApplicationClose { error_code: u16, reason: Vec<u8> },
    Ping,
    NewConnectionId { seq_num: u64, conn_id: Vec<u8>, reset_token: Vec<u8> },
    ACK { largest_ack: u64, ack_delay: u64 },
    Crypto { offset: u64, data: Vec<u8> },
    Stream { stream_id: u64, offset: u64, data: Vec<u8>, fin: bool },
}

impl View for Frame {
    type V = FrameModel;

    open spec fn view(&self) -> FrameModel {
        match self {
            Frame::Padding => FrameModel::Padding,
            Frame::ConnectionClose { error_code, frame_type, reason } => FrameModel::ConnectionClose {
                error_code: *error_code,
                frame_type: *frame_type,
                reason: reason@,
            },
            Frame::ApplicationClose { error_code, reason } => FrameModel::ApplicationClose {
                error_code: *error_code,
                reason: reason@,
            },
            Frame::Ping => FrameModel::Ping,
            Frame::NewConnectionId { seq_num, conn_id, reset_token } => FrameModel::NewConnectionId {
                seq_num: *seq_num,
                conn_id: conn_id@,
                reset_token: reset_token@,
            },
            Frame::ACK { largest_ack, ack_delay } => FrameModel::ACK {
                largest_ack: *largest_ack,
                ack_delay: *ack_delay,
            },
            Frame::Crypto { offset, data } => FrameModel::Crypto {
                offset: *offset,
                data: data@,
            },
            Frame::Stream { stream_id, offset, data, fin } => FrameModel::Stream {
                stream_id: *stream_id,
                offset: *offset,
                data: data@,
                fin: *fin,
            },
        }
    }
}

/// Reads a byte run prefixed by its length as a variable-length integer,
/// copying it out of the buffer.
fn read_varint_prefixed(b: &mut octets::Octets) -> (r: Result<Vec<u8>, Error>)
    ensures
        octets_data(*final(b)) == octets_data(*old(b)),
        match r {
            Ok(v) => varint_prefixed_at(octets_data(*old(b)), octets_off(*old(b))) == Some(
                (v@, octets_off(*final(b))),
            ),
            Err(e) => e == Error::BufferTooShort && varint_prefixed_at(
                octets_data(*old(b)),
                octets_off(*old(b)),
            ) is None,
        },
{
    let len = match cursor::get_varint(b) {
        Ok(v) => v,
        Err(_) => return Err(Error::BufferTooShort),
    };
    let remaining = cursor::cap(b);
    if len > remaining as u64 {
        return Err(Error::BufferTooShort);
    }
    match cursor::get_bytes_vec(b, len as usize) {
        Ok(v) => Ok(v),
        Err(_) => Err(Error::BufferTooShort),
    }
}

/// Decodes the body of an acknowledgment frame: the two summary fields
/// are kept, the acknowledged-range list is read and discarded so the
/// cursor still lands exactly on the next frame.
#[verifier::loop_isolation(false)]
fn parse_ack_frame(_ty: u64, b: &mut octets::Octets) -> (r: Result<Frame, Error>)
    ensures
        octets_data(*final(b)) == octets_data(*old(b)),
        match r {
            Ok(f) => parse_ack_at(octets_data(*old(b)), octets_off(*old(b))) == Ok::<
                (FrameModel, int),
                Error,
            >((f@, octets_off(*final(b)))),
            Err(e) => parse_ack_at(octets_data(*old(b)), octets_off(*old(b))) == Err::<
                (FrameModel, int),
                Error,
            >(e),
        },
{
    let largest_ack = match cursor::get_varint(b) {
        Ok(v) => v,
        Err(_) => return Err(Error::BufferTooShort),
    };
    let ack_delay = match cursor::get_varint(b) {
        Ok(v) => v,
        Err(_) => return Err(Error::BufferTooShort),
    };
    let block_count = match cursor::get_varint(b) {
        Ok(v) => v,
        Err(_) => return Err(Error::BufferTooShort),
    };
    let _first_block = match cursor::get_varint(b) {
        Ok(v) => v,
        Err(_) => return Err(Error::BufferTooShort),
    };
    let ghost s = octets_data(*b);
    let ghost start = octets_off(*b);
    let mut i: u64 = 0;
    while i < block_count
        invariant
            octets_data(*b) == s,
            i <= block_count,
            0 <= octets_off(*b) <= s.len(),
            skip_ranges_at(s, start, block_count) == skip_ranges_at(
                s,
                octets_off(*b),
                (block_count - i) as u64,
            ),
        decreases block_count - i,
    {
        let _gap = match cursor::get_varint(b) {
            Ok(v) => v,
            Err(_) => return Err(Error::BufferTooShort),
        };
        let _ack = match cursor::get_varint(b) {
            Ok(v) => v,
            Err(_) => return Err(Error::BufferTooShort),
        };
        i = i + 1;
    }
    Ok(Frame::ACK { largest_ack, ack_delay })
}

/// Decodes the body of a stream frame. The discriminant's three low bits
/// are flags: offset present, explicit length present, and fin. With the
/// length flag clear the whole remainder of the buffer is the payload;
/// only the caller can know whether this frame really was the last one.
fn parse_stream_frame(ty: u64, b: &mut octets::Octets) -> (r: Result<Frame, Error>)
    requires
        0x10 <= ty <= 0x17,
    ensures
        octets_data(*final(b)) == octets_data(*old(b)),
        match r {
            Ok(f) => parse_stream_at(octets_data(*old(b)), octets_off(*old(b)), ty) == Ok::<
                (FrameModel, int),
                Error,
            >((f@, octets_off(*final(b)))),
            Err(e) => parse_stream_at(octets_data(*old(b)), octets_off(*old(b)), ty) == Err::<
                (FrameModel, int),
                Error,
            >(e),
        },
{
    proof {
        assert((ty & 0x04 != 0) == (ty % 8 >= 4)) by (bit_vector);
        assert((ty & 0x02 != 0) == (ty % 4 >= 2)) by (bit_vector);
        assert((ty & 0x01 != 0) == (ty % 2 == 1)) by (bit_vector);
    }
    let stream_id = match cursor::get_varint(b) {
        Ok(v) => v,
        Err(_) => return Err(Error::BufferTooShort),
    };
    let offset = if ty & 0x04 != 0 {
        match cursor::get_varint(b) {
            Ok(v) => v,
            Err(_) => return Err(Error::BufferTooShort),
        }
    } else {
        0
    };
    let fin = ty & 0x01 != 0;
    let data = if ty & 0x02 != 0 {
        match read_varint_prefixed(b) {
            Ok(v) => v,
            Err(e) => return Err(e),
        }
    } else {
        let remaining = cursor::cap(b);
        match cursor::get_bytes_vec(b, remaining) {
            Ok(v) => v,
            Err(_) => return Err(Error::BufferTooShort),
        }
    };
    Ok(Frame::Stream { stream_id, offset, data, fin })
}

impl Frame {
    /// Decodes one frame from the cursor, advancing it exactly past the
    /// frame's wire bytes. The result, success or error, is exactly what
    /// the wire model's parser says about the bytes at the cursor's
    /// position; on an error the cursor's position is not meaningful and
    /// the rest of the buffer must be abandoned.
    pub fn from_bytes(b: &mut octets::Octets) -> (r: Result<Frame, Error>)
        ensures
            octets_data(*final(b)) == octets_data(*old(b)),
            match r {
                Ok(f) => spec_parse_at(octets_data(*old(b)), octets_off(*old(b))) == Ok::<
                    (FrameModel, int),
                    Error,
                >((f@, octets_off(*final(b)))),
                Err(e) => spec_parse_at(octets_data(*old(b)), octets_off(*old(b))) == Err::<
                    (FrameModel, int),
                    Error,
                >(e),
            },
    {
        let frame_type = match cursor::get_varint(b) {
            Ok(v) => v,
            Err(_) => return Err(Error::BufferTooShort),
        };
        if frame_type == 0x00 {
            Ok(Frame::Padding)
        } else if frame_type == 0x02 {
            let error_code = match cursor::get_u16(b) {
                Ok(v) => v,
                Err(_) => return Err(Error::BufferTooShort),
            };
            let inner_type = match cursor::get_varint(b) {
                Ok(v) => v,
                Err(_) => return Err(Error::BufferTooShort),
            };
            let reason = match read_varint_prefixed(b) {
                Ok(v) => v,
                Err(e) => return Err(e),
            };
            Ok(Frame::ConnectionClose { error_code, frame_type: inner_type, reason })
        } else if frame_type == 0x03 {
            let error_code = match cursor::get_u16(b) {
                Ok(v) => v,
                Err(_) => return Err(Error::BufferTooShort),
            };
            let reason = match read_varint_prefixed(b) {
                Ok(v) => v,
                Err(e) => return Err(e),
            };
            Ok(Frame::ApplicationClose { error_code, reason })
        } else if frame_type == 0x07 {
            Ok(Frame::Ping)
        } else if frame_type == 0x0b {
            let seq_num = match cursor::get_varint(b) {
                Ok(v) => v,
                Err(_) => return Err(Error::BufferTooShort),
            };
            let id_len = match cursor::get_u8(b) {
                Ok(v) => v,
                Err(_) => return Err(Error::BufferTooShort),
            };
            let conn_id = match cursor::get_bytes_vec(b, id_len as usize) {
                Ok(v) => v,
                Err(_) => return Err(Error::BufferTooShort),
            };
            let reset_token = match cursor::get_bytes_vec(b, 16) {
                Ok(v) => v,
                Err(_) => return Err(Error::BufferTooShort),
            };
            Ok(Frame::NewConnectionId { seq_num, conn_id, reset_token })
        } else if frame_type == 0x0d {
            parse_ack_frame(frame_type, b)
        } else if 0x10 <= frame_type && frame_type <= 0x17 {
            parse_stream_frame(frame_type, b)
        } else if frame_type == 0x18 {
            let offset = match cursor::get_varint(b) {
                Ok(v) => v,
                Err(_) => return Err(Error::BufferTooShort),
            };
            let data = match read_varint_prefixed(b) {
                Ok(v) => v,
                Err(e) => return Err(e),
            };
            Ok(Frame::Crypto { offset, data })
        } else {
            Err(Error::UnknownFrame)
        }
    }

    /// Encodes this frame at the cursor's offset, advancing past what it
    /// wrote and returning the byte count. On success the buffer carries
    /// exactly the wire model's encoding of the frame. On failure the
    /// frame did not fit in the remaining bytes, and bytes up to the
    /// failure point may already have been overwritten: the caller must
    /// discard the whole buffer, not reuse it.
    #[verifier::rlimit(100)]
    pub fn to_bytes(&self, b: &mut octets::OctetsMut) -> (r: Result<usize, Error>)
        requires
            self@.wf(),
        ensures
            octets_mut_data(*final(b)).len() == octets_mut_data(*old(b)).len(),
            match r {
                Ok(n) => n == spec_wire_len(self@) && octets_mut_off(*old(b)) + spec_wire_len(self@)
                    <= octets_mut_data(*old(b)).len() && octets_mut_data(*final(b)) == splice(
                    octets_mut_data(*old(b)),
                    octets_mut_off(*old(b)),
                    spec_enc(self@),
                ) && octets_mut_off(*final(b)) == octets_mut_off(*old(b)) + spec_wire_len(self@),
                Err(e) => e == Error::BufferTooShort && octets_mut_data(*old(b)).len()
                    < octets_mut_off(*old(b)) + spec_wire_len(self@),
            },
    {
        let before = cursor::cap_mut(b);
        let ghost s0 = octets_mut_data(*b);
        let ghost p0 = octets_mut_off(*b);
        proof {
            lemma_wire_len_matches_encoding(self@);
        }
        match self {
            Frame::Padding => {
                match cursor::put_varint(b, 0x00) {
                    Ok(_) => {},
                    Err(_) => return Err(Error::BufferTooShort),
                }
            },
            Frame::ConnectionClose { error_code, frame_type, reason } => {
                proof {
                    lemma_varint_bytes_shape(0x02);
                    lemma_varint_bytes_shape(*frame_type);
                    lemma_varint_bytes_shape(reason@.len() as u64);
                }
                match cursor::put_varint(b, 0x02) {
                    Ok(_) => {},
                    Err(_) => return Err(Error::BufferTooShort),
                }
                match cursor::put_u16(b, *error_code) {
                    Ok(_) => {},
                    Err(_) => return Err(Error::BufferTooShort),
                }
                proof {
                    lemma_splice_splice(s0, p0, spec_varint_bytes(0x02), be16_bytes(*error_code));
                }
                match cursor::put_varint(b, *frame_type) {
                    Ok(_) => {},
                    Err(_) => return Err(Error::BufferTooShort),
                }
                proof {
                    lemma_splice_splice(
                        s0,
                        p0,
                        spec_varint_bytes(0x02) + be16_bytes(*error_code),
                        spec_varint_bytes(*frame_type),
                    );
                }
                match cursor::put_varint(b, reason.len() as u64) {
                    Ok(_) => {},
                    Err(_) => return Err(Error::BufferTooShort),
                }
                proof {
                    lemma_splice_splice(
                        s0,
                        p0,
                        spec_varint_bytes(0x02) + be16_bytes(*error_code) + spec_varint_bytes(
                            *frame_type,
                        ),
                        spec_varint_bytes(reason@.len() as u64),
                    );
                }
                match cursor::put_bytes(b, reason.as_slice()) {
                    Ok(_) => {},
                    Err(_) => return Err(Error::BufferTooShort),
                }
                proof {
                    lemma_splice_splice(
                        s0,
                        p0,
                        spec_varint_bytes(0x02) + be16_bytes(*error_code) + spec_varint_bytes(
                            *frame_type,
                        ) + spec_varint_bytes(reason@.len() as u64),
                        reason@,
                    );
                }
            },
            Frame::ApplicationClose { error_code, reason } => {
                proof {
                    lemma_varint_bytes_shape(0x03);
                    lemma_varint_bytes_shape(reason@.len() as u64);
                }
                match cursor::put_varint(b, 0x03) {
                    Ok(_) => {},
                    Err(_) => return Err(Error::BufferTooShort),
                }
                match cursor::put_u16(b, *error_code) {
                    Ok(_) => {},
                    Err(_) => return Err(Error::BufferTooShort),
                }
                proof {
                    lemma_splice_splice(s0, p0, spec_varint_bytes(0x03), be16_bytes(*error_code));
                }
                match cursor::put_varint(b, reason.len() as u64) {
                    Ok(_) => {},
                    Err(_) => return Err(Error::BufferTooShort),
                }
                proof {
                    lemma_splice_splice(
                        s0,
                        p0,
                        spec_varint_bytes(0x03) + be16_bytes(*error_code),
                        spec_varint_bytes(reason@.len() as u64),
                    );
                }
                match cursor::put_bytes(b, reason.as_slice()) {
                    Ok(_) => {},
                    Err(_) => return Err(Error::BufferTooShort),
                }
                proof {
                    lemma_splice_splice(
                        s0,
                        p0,
                        spec_varint_bytes(0x03) + be16_bytes(*error_code) + spec_varint_bytes(
                            reason@.len() as u64,
                        ),
                        reason@,
                    );
                }
            },
            Frame::Ping => {
                match cursor::put_varint(b, 0x07) {
                    Ok(_) => {},
                    Err(_) => return Err(Error::BufferTooShort),
                }
            },
            Frame::NewConnectionId { seq_num, conn_id, reset_token } => {
                proof {
                    lemma_varint_bytes_shape(0x0b);
                    lemma_varint_bytes_shape(*seq_num);
                }
                match cursor::put_varint(b, 0x0b) {
                    Ok(_) => {},
                    Err(_) => return Err(Error::BufferTooShort),
                }
                match cursor::put_varint(b, *seq_num) {
                    Ok(_) => {},
                    Err(_) => return Err(Error::BufferTooShort),
                }
                proof {
                    lemma_splice_splice(s0, p0, spec_varint_bytes(0x0b), spec_varint_bytes(*seq_num));
                }
                match cursor::put_u8(b, conn_id.len() as u8) {
                    Ok(_) => {},
                    Err(_) => return Err(Error::BufferTooShort),
                }
                proof {
                    lemma_splice_splice(
                        s0,
                        p0,
                        spec_varint_bytes(0x0b) + spec_varint_bytes(*seq_num),
                        seq![conn_id@.len() as u8],
                    );
                }
                match cursor::put_bytes(b, conn_id.as_slice()) {
                    Ok(_) => {},
                    Err(_) => return Err(Error::BufferTooShort),
                }
                proof {
                    lemma_splice_splice(
                        s0,
                        p0,
                        spec_varint_bytes(0x0b) + spec_varint_bytes(*seq_num) + seq![
                            conn_id@.len() as u8,
                        ],
                        conn_id@,
                    );
                }
                match cursor::put_bytes(b, reset_token.as_slice()) {
                    Ok(_) => {},
                    Err(_) => return Err(Error::BufferTooShort),
                }
                proof {
                    lemma_splice_splice(
                        s0,
                        p0,
                        spec_varint_bytes(0x0b) + spec_varint_bytes(*seq_num) + seq![
                            conn_id@.len() as u8,
                        ] + conn_id@,
                        reset_token@,
                    );
                }
            },
            Frame::ACK { largest_ack, ack_delay } => {
                proof {
                    lemma_varint_bytes_shape(0x0d);
                    lemma_varint_bytes_shape(*largest_ack);
                    lemma_varint_bytes_shape(*ack_delay);
                    lemma_varint_bytes_shape(0);
                }
                match cursor::put_varint(b, 0x0d) {
                    Ok(_) => {},
                    Err(_) => return Err(Error::BufferTooShort),
                }
                match cursor::put_varint(b, *largest_ack) {
                    Ok(_) => {},
                    Err(_) => return Err(Error::BufferTooShort),
                }
                proof {
                    lemma_splice_splice(
                        s0,
                        p0,
                        spec_varint_bytes(0x0d),
                        spec_varint_bytes(*largest_ack),
                    );
                }
                match cursor::put_varint(b, *ack_delay) {
                    Ok(_) => {},
                    Err(_) => return Err(Error::BufferTooShort),
                }
                proof {
                    lemma_splice_splice(
                        s0,
                        p0,
                        spec_varint_bytes(0x0d) + spec_varint_bytes(*largest_ack),
                        spec_varint_bytes(*ack_delay),
                    );
                }
                match cursor::put_varint(b, 0) {
                    Ok(_) => {},
                    Err(_) => return Err(Error::BufferTooShort),
                }
                proof {
                    lemma_splice_splice(
                        s0,
                        p0,
                        spec_varint_bytes(0x0d) + spec_varint_bytes(*largest_ack)
                            + spec_varint_bytes(*ack_delay),
                        spec_varint_bytes(0),
                    );
                }
                match cursor::put_varint(b, 0) {
                    Ok(_) => {},
                    Err(_) => return Err(Error::BufferTooShort),
                }
                proof {
                    lemma_splice_splice(
                        s0,
                        p0,
                        spec_varint_bytes(0x0d) + spec_varint_bytes(*largest_ack)
                            + spec_varint_bytes(*ack_delay) + spec_varint_bytes(0),
                        spec_varint_bytes(0),
                    );
                }
            },
            Frame::Crypto { offset, data } => {
                proof {
                    lemma_varint_bytes_shape(0x18);
                    lemma_varint_bytes_shape(*offset);
                    lemma_varint_bytes_shape(data@.len() as u64);
                }
                match cursor::put_varint(b, 0x18) {
                    Ok(_) => {},
                    Err(_) => return Err(Error::BufferTooShort),
                }
                match cursor::put_varint(b, *offset) {
                    Ok(_) => {},
                    Err(_) => return Err(Error::BufferTooShort),
                }
                proof {
                    lemma_splice_splice(s0, p0, spec_varint_bytes(0x18), spec_varint_bytes(*offset));
                }
                match cursor::put_varint(b, data.len() as u64) {
                    Ok(_) => {},
                    Err(_) => return Err(Error::BufferTooShort),
                }
                proof {
                    lemma_splice_splice(
                        s0,
                        p0,
                        spec_varint_bytes(0x18) + spec_varint_bytes(*offset),
                        spec_varint_bytes(data@.len() as u64),
                    );
                }
                match cursor::put_bytes(b, data.as_slice()) {
                    Ok(_) => {},
                    Err(_) => return Err(Error::BufferTooShort),
                }
                proof {
                    lemma_splice_splice(
                        s0,
                        p0,
                        spec_varint_bytes(0x18) + spec_varint_bytes(*offset) + spec_varint_bytes(
                            data@.len() as u64,
                        ),
                        data@,
                    );
                }
            },
            Frame::Stream { stream_id, offset, data, fin } => {
                let ty: u64 = if *fin {
                    0x17
                } else {
                    0x16
                };
                proof {
                    assert(ty == stream_type_byte(*fin));
                    lemma_varint_bytes_shape(ty);
                    lemma_varint_bytes_shape(*stream_id);
                    lemma_varint_bytes_shape(*offset);
                    lemma_varint_bytes_shape(data@.len() as u64);
                }
                match cursor::put_varint(b, ty) {
                    Ok(_) => {},
                    Err(_) => return Err(Error::BufferTooShort),
                }
                match cursor::put_varint(b, *stream_id) {
                    Ok(_) => {},
                    Err(_) => return Err(Error::BufferTooShort),
                }
                proof {
                    lemma_splice_splice(s0, p0, spec_varint_bytes(ty), spec_varint_bytes(*stream_id));
                }
                match cursor::put_varint(b, *offset) {
                    Ok(_) => {},
                    Err(_) => return Err(Error::BufferTooShort),
                }
                proof {
                    lemma_splice_splice(
                        s0,
                        p0,
                        spec_varint_bytes(ty) + spec_varint_bytes(*stream_id),
                        spec_varint_bytes(*offset),
                    );
                }
                match cursor::put_varint(b, data.len() as u64) {
                    Ok(_) => {},
                    Err(_) => return Err(Error::BufferTooShort),
                }
                proof {
                    lemma_splice_splice(
                        s0,
                        p0,
                        spec_varint_bytes(ty) + spec_varint_bytes(*stream_id) + spec_varint_bytes(
                            *offset,
                        ),
                        spec_varint_bytes(data@.len() as u64),
                    );
                }
                match cursor::put_bytes(b, data.as_slice()) {
                    Ok(_) => {},
                    Err(_) => return Err(Error::BufferTooShort),
                }
                proof {
                    lemma_splice_splice(
                        s0,
                        p0,
                        spec_varint_bytes(ty) + spec_varint_bytes(*stream_id) + spec_varint_bytes(
                            *offset,
                        ) + spec_varint_bytes(data@.len() as u64),
                        data@,
                    );
                }
            },
        }
        let after = cursor::cap_mut(b);
        Ok(before - after)
    }

    /// The exact number of bytes `to_bytes` writes for this frame,
    /// without touching any buffer.
    pub fn wire_len(&self) -> (r: usize)
        requires
            self@.wf(),
        ensures
            r == spec_wire_len(self@),
    {
        match self {
            Frame::Padding => 1,
            Frame::ConnectionClose { error_code: _, frame_type, reason } => 1 + 2
                + cursor::varint_len(*frame_type) + cursor::varint_len(reason.len() as u64)
                + reason.len(),
            Frame::ApplicationClose { error_code: _, reason } => 1 + 2 + cursor::varint_len(
                reason.len() as u64,
            ) + reason.len(),
            Frame::Ping => 1,
            Frame::NewConnectionId { seq_num, conn_id, reset_token } => 1 + cursor::varint_len(
                *seq_num,
            ) + 1 + conn_id.len() + reset_token.len(),
            Frame::ACK { largest_ack, ack_delay } => 1 + cursor::varint_len(*largest_ack)
                + cursor::varint_len(*ack_delay) + 1 + 1,
            Frame::Crypto { offset, data } => 1 + cursor::varint_len(*offset) + cursor::varint_len(
                data.len() as u64,
            ) + data.len(),
            Frame::Stream { stream_id, offset, data, fin: _ } => 1 + cursor::varint_len(*stream_id)
                + cursor::varint_len(*offset) + cursor::varint_len(data.len() as u64) + data.len(),
        }
    }
}

} // verus!
