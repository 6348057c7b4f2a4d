//! The codec's laws, proved once over the wire model: the length
//! calculator agrees with the encoder, every well-formed frame decodes
//! back from its own encoding, unknown discriminants and truncated
//! frames are rejected, and a stream frame without a length prefix
//! consumes the whole remainder of the buffer.

use crate::varint::{
    fits_varint, lemma_varint_at_bytes, lemma_varint_bytes_shape, spec_varint_bytes,
    spec_varint_len, varint_at,
};
use crate::wire::{
    be16_bytes, known_frame_type, skip_ranges_at, spec_enc, spec_parse, spec_parse_at,
    spec_wire_len, stream_fin, stream_has_length, stream_has_offset, stream_type_byte, u16_at,
    varint_prefixed_at, FrameModel,
};
use crate::Error;
use vstd::prelude::*;

verus! {

/// Length consistency: for every well-formed frame, the wire length the
/// calculator reports is exactly the number of bytes the encoder writes.
pub proof fn lemma_wire_len_matches_encoding(m: FrameModel)
    requires
        m.wf(),
    ensures
        spec_enc(m).len() == spec_wire_len(m),
{
    match m {
        FrameModel::Padding => {
            lemma_varint_bytes_shape(0x00);
        },
        FrameModel::ConnectionClose { error_code, frame_type, reason } => {
            lemma_varint_bytes_shape(0x02);
            lemma_varint_bytes_shape(frame_type);
            lemma_varint_bytes_shape(reason.len() as u64);
        },
        FrameModel::ApplicationClose { error_code, reason } => {
            lemma_varint_bytes_shape(0x03);
            lemma_varint_bytes_shape(reason.len() as u64);
        },
        FrameModel::Ping => {
            lemma_varint_bytes_shape(0x07);
        },
        FrameModel::NewConnectionId { seq_num, conn_id, reset_token } => {
            lemma_varint_bytes_shape(0x0b);
            lemma_varint_bytes_shape(seq_num);
        },
        FrameModel::ACK { largest_ack, ack_delay } => {
            lemma_varint_bytes_shape(0x0d);
            lemma_varint_bytes_shape(largest_ack);
            lemma_varint_bytes_shape(ack_delay);
            lemma_varint_bytes_shape(0);
        },
        FrameModel::Crypto { offset, data } => {
            lemma_varint_bytes_shape(0x18);
            lemma_varint_bytes_shape(offset);
            lemma_varint_bytes_shape(data.len() as u64);
        },
        FrameModel::Stream { stream_id, offset, data, fin } => {
            lemma_varint_bytes_shape(if fin { 0x17 } else { 0x16 });
            lemma_varint_bytes_shape(stream_id);
            lemma_varint_bytes_shape(offset);
            lemma_varint_bytes_shape(data.len() as u64);
        },
    }
}

/// Round trip: every well-formed frame decodes back from its own
/// encoding, whatever follows it in the buffer, consuming exactly the
/// encoding's bytes. Acknowledgment frames carry only the two summary
/// fields and encode an empty range list, so they round-trip exactly.
pub proof fn lemma_round_trip(m: FrameModel, rest: Seq<u8>)
    requires
        m.wf(),
    ensures
        spec_parse(spec_enc(m) + rest) == Ok::<(FrameModel, int), Error>(
            (m, spec_enc(m).len() as int),
        ),
{
    let e = spec_enc(m);
    let s = e + rest;
    lemma_wire_len_matches_encoding(m);
    match m {
        FrameModel::Padding => {
            lemma_varint_bytes_shape(0x00);
            assert(s.subrange(0, 1) =~= spec_varint_bytes(0x00));
            lemma_varint_at_bytes(s, 0, 0x00);
        },
        FrameModel::ConnectionClose { error_code, frame_type, reason } => {
            lemma_round_trip_connection_close(error_code, frame_type, reason, rest);
        },
        FrameModel::ApplicationClose { error_code, reason } => {
            lemma_round_trip_application_close(error_code, reason, rest);
        },
        FrameModel::Ping => {
            lemma_varint_bytes_shape(0x07);
            assert(s.subrange(0, 1) =~= spec_varint_bytes(0x07));
            lemma_varint_at_bytes(s, 0, 0x07);
        },
        FrameModel::NewConnectionId { seq_num, conn_id, reset_token } => {
            lemma_round_trip_new_connection_id(seq_num, conn_id, reset_token, rest);
        },
        FrameModel::ACK { largest_ack, ack_delay } => {
            lemma_round_trip_ack(largest_ack, ack_delay, rest);
        },
        FrameModel::Crypto { offset, data } => {
            lemma_round_trip_crypto(offset, data, rest);
        },
        FrameModel::Stream { stream_id, offset, data, fin } => {
            lemma_round_trip_stream(stream_id, offset, data, fin, rest);
        },
    }
}

#[verifier::rlimit(100)]
proof fn lemma_round_trip_connection_close(
    error_code: u16,
    frame_type: u64,
    reason: Seq<u8>,
    rest: Seq<u8>,
)
    requires
        (FrameModel::ConnectionClose { error_code, frame_type, reason }).wf(),
    ensures
        ({
            let m = FrameModel::ConnectionClose { error_code, frame_type, reason };
            spec_parse(spec_enc(m) + rest) == Ok::<(FrameModel, int), Error>(
                (m, spec_enc(m).len() as int),
            )
        }),
{
    let m = FrameModel::ConnectionClose { error_code, frame_type, reason };
    let e = spec_enc(m);
    let s = e + rest;
    let rl = reason.len() as u64;
    lemma_varint_bytes_shape(0x02);
    lemma_varint_bytes_shape(frame_type);
    lemma_varint_bytes_shape(rl);
    let c2 = 3 + spec_varint_len(frame_type);
    let c3 = c2 + spec_varint_len(rl);
    let c4 = c3 + reason.len();
    assert(s.subrange(0, 1) =~= spec_varint_bytes(0x02));
    lemma_varint_at_bytes(s, 0, 0x02);
    assert(s[1] == be16_bytes(error_code)[0] && s[2] == be16_bytes(error_code)[1]);
    assert(u16_at(s, 1) == Some(error_code));
    assert(s.subrange(3, c2) =~= spec_varint_bytes(frame_type));
    lemma_varint_at_bytes(s, 3, frame_type);
    assert(s.subrange(c2, c3) =~= spec_varint_bytes(rl));
    lemma_varint_at_bytes(s, c2, rl);
    assert(s.subrange(c3, c4) =~= reason);
    assert(varint_prefixed_at(s, c2) == Some((reason, c4)));
    assert(spec_parse_at(s, 0) == Ok::<(FrameModel, int), Error>((m, c4)));
}

#[verifier::rlimit(100)]
proof fn lemma_round_trip_application_close(error_code: u16, reason: Seq<u8>, rest: Seq<u8>)
    requires
        (FrameModel::ApplicationClose { error_code, reason }).wf(),
    ensures
        ({
            let m = FrameModel::ApplicationClose { error_code, reason };
            spec_parse(spec_enc(m) + rest) == Ok::<(FrameModel, int), Error>(
                (m, spec_enc(m).len() as int),
            )
        }),
{
    let m = FrameModel::ApplicationClose { error_code, reason };
    let e = spec_enc(m);
    let s = e + rest;
    let rl = reason.len() as u64;
    lemma_varint_bytes_shape(0x03);
    lemma_varint_bytes_shape(rl);
    let c2 = 3 + spec_varint_len(rl);
    let c3 = c2 + reason.len();
    assert(s.subrange(0, 1) =~= spec_varint_bytes(0x03));
    lemma_varint_at_bytes(s, 0, 0x03);
    assert(s[1] == be16_bytes(error_code)[0] && s[2] == be16_bytes(error_code)[1]);
    assert(u16_at(s, 1) == Some(error_code));
    assert(s.subrange(3, c2) =~= spec_varint_bytes(rl));
    lemma_varint_at_bytes(s, 3, rl);
    assert(s.subrange(c2, c3) =~= reason);
    assert(varint_prefixed_at(s, 3) == Some((reason, c3)));
    assert(spec_parse_at(s, 0) == Ok::<(FrameModel, int), Error>((m, c3)));
}

#[verifier::rlimit(100)]
proof fn lemma_round_trip_new_connection_id(
    seq_num: u64,
    conn_id: Seq<u8>,
    reset_token: Seq<u8>,
    rest: Seq<u8>,
)
    requires
        (FrameModel::NewConnectionId { seq_num, conn_id, reset_token }).wf(),
    ensures
        ({
            let m = FrameModel::NewConnectionId { seq_num, conn_id, reset_token };
            spec_parse(spec_enc(m) + rest) == Ok::<(FrameModel, int), Error>(
                (m, spec_enc(m).len() as int),
            )
        }),
{
    let m = FrameModel::NewConnectionId { seq_num, conn_id, reset_token };
    let e = spec_enc(m);
    let s = e + rest;
    lemma_varint_bytes_shape(0x0b);
    lemma_varint_bytes_shape(seq_num);
    let c1 = 1 + spec_varint_len(seq_num);
    let c2 = c1 + 1;
    let c3 = c2 + conn_id.len();
    let c4 = c3 + 16;
    assert(s.subrange(0, 1) =~= spec_varint_bytes(0x0b));
    lemma_varint_at_bytes(s, 0, 0x0b);
    assert(s.subrange(1, c1) =~= spec_varint_bytes(seq_num));
    lemma_varint_at_bytes(s, 1, seq_num);
    assert(s[c1] == conn_id.len() as u8);
    assert(s.subrange(c2, c3) =~= conn_id);
    assert(s.subrange(c3, c4) =~= reset_token);
    assert(spec_parse_at(s, 0) == Ok::<(FrameModel, int), Error>((m, c4)));
}

#[verifier::rlimit(100)]
proof fn lemma_round_trip_ack(largest_ack: u64, ack_delay: u64, rest: Seq<u8>)
    requires
        (FrameModel::ACK { largest_ack, ack_delay }).wf(),
    ensures
        ({
            let m = FrameModel::ACK { largest_ack, ack_delay };
            spec_parse(spec_enc(m) + rest) == Ok::<(FrameModel, int), Error>(
                (m, spec_enc(m).len() as int),
            )
        }),
{
    let m = FrameModel::ACK { largest_ack, ack_delay };
    let e = spec_enc(m);
    let s = e + rest;
    lemma_varint_bytes_shape(0x0d);
    lemma_varint_bytes_shape(largest_ack);
    lemma_varint_bytes_shape(ack_delay);
    lemma_varint_bytes_shape(0);
    let c1 = 1 + spec_varint_len(largest_ack);
    let c2 = c1 + spec_varint_len(ack_delay);
    let c3 = c2 + 1;
    let c4 = c3 + 1;
    assert(s.subrange(0, 1) =~= spec_varint_bytes(0x0d));
    lemma_varint_at_bytes(s, 0, 0x0d);
    assert(s.subrange(1, c1) =~= spec_varint_bytes(largest_ack));
    lemma_varint_at_bytes(s, 1, largest_ack);
    assert(s.subrange(c1, c2) =~= spec_varint_bytes(ack_delay));
    lemma_varint_at_bytes(s, c1, ack_delay);
    assert(s.subrange(c2, c3) =~= spec_varint_bytes(0));
    lemma_varint_at_bytes(s, c2, 0);
    assert(s.subrange(c3, c4) =~= spec_varint_bytes(0));
    lemma_varint_at_bytes(s, c3, 0);
    assert(skip_ranges_at(s, c4, 0) == Some(c4));
    assert(spec_parse_at(s, 0) == Ok::<(FrameModel, int), Error>((m, c4)));
}

#[verifier::rlimit(100)]
proof fn lemma_round_trip_crypto(offset: u64, data: Seq<u8>, rest: Seq<u8>)
    requires
        (FrameModel::Crypto { offset, data }).wf(),
    ensures
        ({
            let m = FrameModel::Crypto { offset, data };
            spec_parse(spec_enc(m) + rest) == Ok::<(FrameModel, int), Error>(
                (m, spec_enc(m).len() as int),
            )
        }),
{
    let m = FrameModel::Crypto { offset, data };
    let e = spec_enc(m);
    let s = e + rest;
    let dl = data.len() as u64;
    lemma_varint_bytes_shape(0x18);
    lemma_varint_bytes_shape(offset);
    lemma_varint_bytes_shape(dl);
    let c1 = 1 + spec_varint_len(offset);
    let c2 = c1 + spec_varint_len(dl);
    let c3 = c2 + data.len();
    assert(s.subrange(0, 1) =~= spec_varint_bytes(0x18));
    lemma_varint_at_bytes(s, 0, 0x18);
    assert(s.subrange(1, c1) =~= spec_varint_bytes(offset));
    lemma_varint_at_bytes(s, 1, offset);
    assert(s.subrange(c1, c2) =~= spec_varint_bytes(dl));
    lemma_varint_at_bytes(s, c1, dl);
    assert(s.subrange(c2, c3) =~= data);
    assert(varint_prefixed_at(s, c1) == Some((data, c3)));
    assert(spec_parse_at(s, 0) == Ok::<(FrameModel, int), Error>((m, c3)));
}

#[verifier::rlimit(100)]
proof fn lemma_round_trip_stream(stream_id: u64, offset: u64, data: Seq<u8>, fin: bool, rest: Seq<u8>)
    requires
        (FrameModel::Stream { stream_id, offset, data, fin }).wf(),
    ensures
        ({
            let m = FrameModel::Stream { stream_id, offset, data, fin };
            spec_parse(spec_enc(m) + rest) == Ok::<(FrameModel, int), Error>(
                (m, spec_enc(m).len() as int),
            )
        }),
{
    let m = FrameModel::Stream { stream_id, offset, data, fin };
    let e = spec_enc(m);
    let s = e + rest;
    let ty = stream_type_byte(fin);
    let dl = data.len() as u64;
    lemma_varint_bytes_shape(ty);
    lemma_varint_bytes_shape(stream_id);
    lemma_varint_bytes_shape(offset);
    lemma_varint_bytes_shape(dl);
    let c1 = 1 + spec_varint_len(stream_id);
    let c2 = c1 + spec_varint_len(offset);
    let c3 = c2 + spec_varint_len(dl);
    let c4 = c3 + data.len();
    assert(stream_has_offset(ty) && stream_has_length(ty) && stream_fin(ty) == fin);
    assert(s.subrange(0, 1) =~= spec_varint_bytes(ty));
    lemma_varint_at_bytes(s, 0, ty);
    assert(s.subrange(1, c1) =~= spec_varint_bytes(stream_id));
    lemma_varint_at_bytes(s, 1, stream_id);
    assert(s.subrange(c1, c2) =~= spec_varint_bytes(offset));
    lemma_varint_at_bytes(s, c1, offset);
    assert(s.subrange(c2, c3) =~= spec_varint_bytes(dl));
    lemma_varint_at_bytes(s, c2, dl);
    assert(s.subrange(c3, c4) =~= data);
    assert(varint_prefixed_at(s, c2) == Some((data, c4)));
    assert(spec_parse_at(s, 0) == Ok::<(FrameModel, int), Error>((m, c4)));
}

/// Truncation rejection: cutting any number of trailing bytes off a
/// well-formed frame's encoding leaves a buffer whose decoding fails for
/// exhaustion. The encoder never emits the implicit-length stream form,
/// so no strict prefix of an encoding is itself a complete frame.
pub proof fn lemma_truncation_rejected(m: FrameModel, k: int)
    requires
        m.wf(),
        0 <= k < spec_enc(m).len(),
    ensures
        spec_parse(spec_enc(m).subrange(0, k)) == Err::<(FrameModel, int), Error>(
            Error::BufferTooShort,
        ),
{
    lemma_wire_len_matches_encoding(m);
    match m {
        FrameModel::Padding => {
            lemma_varint_bytes_shape(0x00);
        },
        FrameModel::ConnectionClose { error_code, frame_type, reason } => {
            lemma_truncated_connection_close(error_code, frame_type, reason, k);
        },
        FrameModel::ApplicationClose { error_code, reason } => {
            lemma_truncated_application_close(error_code, reason, k);
        },
        FrameModel::Ping => {
            lemma_varint_bytes_shape(0x07);
        },
        FrameModel::NewConnectionId { seq_num, conn_id, reset_token } => {
            lemma_truncated_new_connection_id(seq_num, conn_id, reset_token, k);
        },
        FrameModel::ACK { largest_ack, ack_delay } => {
            lemma_truncated_ack(largest_ack, ack_delay, k);
        },
        FrameModel::Crypto { offset, data } => {
            lemma_truncated_crypto(offset, data, k);
        },
        FrameModel::Stream { stream_id, offset, data, fin } => {
            lemma_truncated_stream(stream_id, offset, data, fin, k);
        },
    }
}

#[verifier::rlimit(100)]
proof fn lemma_truncated_connection_close(
    error_code: u16,
    frame_type: u64,
    reason: Seq<u8>,
    k: int,
)
    requires
        (FrameModel::ConnectionClose { error_code, frame_type, reason }).wf(),
        0 <= k < spec_enc(FrameModel::ConnectionClose { error_code, frame_type, reason }).len(),
    ensures
        spec_parse(
            spec_enc(FrameModel::ConnectionClose { error_code, frame_type, reason }).subrange(0, k),
        ) == Err::<(FrameModel, int), Error>(Error::BufferTooShort),
{
    let m = FrameModel::ConnectionClose { error_code, frame_type, reason };
    let e = spec_enc(m);
    let t = e.subrange(0, k);
    let rl = reason.len() as u64;
    lemma_varint_bytes_shape(0x02);
    lemma_varint_bytes_shape(frame_type);
    lemma_varint_bytes_shape(rl);
    let c2 = 3 + spec_varint_len(frame_type);
    let c3 = c2 + spec_varint_len(rl);
    let c4 = c3 + reason.len();
    assert(e.len() == c4);
    if k == 0 {
        assert(varint_at(t, 0) is None);
    } else {
        assert(t.subrange(0, 1) =~= spec_varint_bytes(0x02));
        lemma_varint_at_bytes(t, 0, 0x02);
        if k < 3 {
            assert(u16_at(t, 1) is None);
        } else {
            assert(t[1] == be16_bytes(error_code)[0] && t[2] == be16_bytes(error_code)[1]);
            assert(u16_at(t, 1) == Some(error_code));
            if k < c2 {
                if 3 < k {
                    assert(t[3] == spec_varint_bytes(frame_type)[0]);
                }
                assert(varint_at(t, 3) is None);
            } else {
                assert(t.subrange(3, c2) =~= spec_varint_bytes(frame_type));
                lemma_varint_at_bytes(t, 3, frame_type);
                if k < c3 {
                    if c2 < k {
                        assert(t[c2] == spec_varint_bytes(rl)[0]);
                    }
                    assert(varint_at(t, c2) is None);
                } else {
                    assert(t.subrange(c2, c3) =~= spec_varint_bytes(rl));
                    lemma_varint_at_bytes(t, c2, rl);
                }
                assert(varint_prefixed_at(t, c2) is None);
            }
        }
    }
}

#[verifier::rlimit(100)]
proof fn lemma_truncated_application_close(error_code: u16, reason: Seq<u8>, k: int)
    requires
        (FrameModel::ApplicationClose { error_code, reason }).wf(),
        0 <= k < spec_enc(FrameModel::ApplicationClose { error_code, reason }).len(),
    ensures
        spec_parse(spec_enc(FrameModel::ApplicationClose { error_code, reason }).subrange(0, k))
            == Err::<(FrameModel, int), Error>(Error::BufferTooShort),
{
    let m = FrameModel::ApplicationClose { error_code, reason };
    let e = spec_enc(m);
    let t = e.subrange(0, k);
    let rl = reason.len() as u64;
    lemma_varint_bytes_shape(0x03);
    lemma_varint_bytes_shape(rl);
    let c2 = 3 + spec_varint_len(rl);
    let c3 = c2 + reason.len();
    assert(e.len() == c3);
    if k == 0 {
        assert(varint_at(t, 0) is None);
    } else {
        assert(t.subrange(0, 1) =~= spec_varint_bytes(0x03));
        lemma_varint_at_bytes(t, 0, 0x03);
        if k < 3 {
            assert(u16_at(t, 1) is None);
        } else {
            assert(t[1] == be16_bytes(error_code)[0] && t[2] == be16_bytes(error_code)[1]);
            assert(u16_at(t, 1) == Some(error_code));
            if k < c2 {
                if 3 < k {
                    assert(t[3] == spec_varint_bytes(rl)[0]);
                }
                assert(varint_at(t, 3) is None);
            } else {
                assert(t.subrange(3, c2) =~= spec_varint_bytes(rl));
                lemma_varint_at_bytes(t, 3, rl);
            }
            assert(varint_prefixed_at(t, 3) is None);
        }
    }
}

#[verifier::rlimit(100)]
proof fn lemma_truncated_new_connection_id(
    seq_num: u64,
    conn_id: Seq<u8>,
    reset_token: Seq<u8>,
    k: int,
)
    requires
        (FrameModel::NewConnectionId { seq_num, conn_id, reset_token }).wf(),
        0 <= k < spec_enc(FrameModel::NewConnectionId { seq_num, conn_id, reset_token }).len(),
    ensures
        spec_parse(
            spec_enc(FrameModel::NewConnectionId { seq_num, conn_id, reset_token }).subrange(0, k),
        ) == Err::<(FrameModel, int), Error>(Error::BufferTooShort),
{
    let m = FrameModel::NewConnectionId { seq_num, conn_id, reset_token };
    let e = spec_enc(m);
    let t = e.subrange(0, k);
    lemma_varint_bytes_shape(0x0b);
    lemma_varint_bytes_shape(seq_num);
    let c1 = 1 + spec_varint_len(seq_num);
    let c2 = c1 + 1;
    let c3 = c2 + conn_id.len();
    let c4 = c3 + 16;
    assert(e.len() == c4);
    if k == 0 {
        assert(varint_at(t, 0) is None);
    } else {
        assert(t.subrange(0, 1) =~= spec_varint_bytes(0x0b));
        lemma_varint_at_bytes(t, 0, 0x0b);
        if k < c1 {
            if 1 < k {
                assert(t[1] == spec_varint_bytes(seq_num)[0]);
            }
            assert(varint_at(t, 1) is None);
        } else {
            assert(t.subrange(1, c1) =~= spec_varint_bytes(seq_num));
            lemma_varint_at_bytes(t, 1, seq_num);
            if k < c2 {
                assert(c1 >= t.len());
            } else {
                assert(t[c1] == conn_id.len() as u8);
                if k < c3 {
                    assert(c2 + conn_id.len() > t.len());
                } else {
                    assert(c3 + 16 > t.len());
                }
            }
        }
    }
}

#[verifier::rlimit(100)]
proof fn lemma_truncated_ack(largest_ack: u64, ack_delay: u64, k: int)
    requires
        (FrameModel::ACK { largest_ack, ack_delay }).wf(),
        0 <= k < spec_enc(FrameModel::ACK { largest_ack, ack_delay }).len(),
    ensures
        spec_parse(spec_enc(FrameModel::ACK { largest_ack, ack_delay }).subrange(0, k)) == Err::<
            (FrameModel, int),
            Error,
        >(Error::BufferTooShort),
{
    let m = FrameModel::ACK { largest_ack, ack_delay };
    let e = spec_enc(m);
    let t = e.subrange(0, k);
    lemma_varint_bytes_shape(0x0d);
    lemma_varint_bytes_shape(largest_ack);
    lemma_varint_bytes_shape(ack_delay);
    lemma_varint_bytes_shape(0);
    let c1 = 1 + spec_varint_len(largest_ack);
    let c2 = c1 + spec_varint_len(ack_delay);
    let c3 = c2 + 1;
    let c4 = c3 + 1;
    assert(e.len() == c4);
    if k == 0 {
        assert(varint_at(t, 0) is None);
    } else {
        assert(t.subrange(0, 1) =~= spec_varint_bytes(0x0d));
        lemma_varint_at_bytes(t, 0, 0x0d);
        if k < c1 {
            if 1 < k {
                assert(t[1] == spec_varint_bytes(largest_ack)[0]);
            }
            assert(varint_at(t, 1) is None);
        } else {
            assert(t.subrange(1, c1) =~= spec_varint_bytes(largest_ack));
            lemma_varint_at_bytes(t, 1, largest_ack);
            if k < c2 {
                if c1 < k {
                    assert(t[c1] == spec_varint_bytes(ack_delay)[0]);
                }
                assert(varint_at(t, c1) is None);
            } else {
                assert(t.subrange(c1, c2) =~= spec_varint_bytes(ack_delay));
                lemma_varint_at_bytes(t, c1, ack_delay);
                if k < c3 {
                    assert(varint_at(t, c2) is None);
                } else {
                    assert(t.subrange(c2, c3) =~= spec_varint_bytes(0));
                    lemma_varint_at_bytes(t, c2, 0);
                    assert(varint_at(t, c3) is None);
                }
            }
        }
    }
}

#[verifier::rlimit(100)]
proof fn lemma_truncated_crypto(offset: u64, data: Seq<u8>, k: int)
    requires
        (FrameModel::Crypto { offset, data }).wf(),
        0 <= k < spec_enc(FrameModel::Crypto { offset, data }).len(),
    ensures
        spec_parse(spec_enc(FrameModel::Crypto { offset, data }).subrange(0, k)) == Err::<
            (FrameModel, int),
            Error,
        >(Error::BufferTooShort),
{
    let m = FrameModel::Crypto { offset, data };
    let e = spec_enc(m);
    let t = e.subrange(0, k);
    let dl = data.len() as u64;
    lemma_varint_bytes_shape(0x18);
    lemma_varint_bytes_shape(offset);
    lemma_varint_bytes_shape(dl);
    let c1 = 1 + spec_varint_len(offset);
    let c2 = c1 + spec_varint_len(dl);
    let c3 = c2 + data.len();
    assert(e.len() == c3);
    if k == 0 {
        assert(varint_at(t, 0) is None);
    } else {
        assert(t.subrange(0, 1) =~= spec_varint_bytes(0x18));
        lemma_varint_at_bytes(t, 0, 0x18);
        if k < c1 {
            if 1 < k {
                assert(t[1] == spec_varint_bytes(offset)[0]);
            }
            assert(varint_at(t, 1) is None);
        } else {
            assert(t.subrange(1, c1) =~= spec_varint_bytes(offset));
            lemma_varint_at_bytes(t, 1, offset);
            if k < c2 {
                if c1 < k {
                    assert(t[c1] == spec_varint_bytes(dl)[0]);
                }
                assert(varint_at(t, c1) is None);
            } else {
                assert(t.subrange(c1, c2) =~= spec_varint_bytes(dl));
                lemma_varint_at_bytes(t, c1, dl);
            }
            assert(varint_prefixed_at(t, c1) is None);
        }
    }
}

#[verifier::rlimit(100)]
proof fn lemma_truncated_stream(stream_id: u64, offset: u64, data: Seq<u8>, fin: bool, k: int)
    requires
        (FrameModel::Stream { stream_id, offset, data, fin }).wf(),
        0 <= k < spec_enc(FrameModel::Stream { stream_id, offset, data, fin }).len(),
    ensures
        spec_parse(spec_enc(FrameModel::Stream { stream_id, offset, data, fin }).subrange(0, k))
            == Err::<(FrameModel, int), Error>(Error::BufferTooShort),
{
    let m = FrameModel::Stream { stream_id, offset, data, fin };
    let e = spec_enc(m);
    let t = e.subrange(0, k);
    let ty = stream_type_byte(fin);
    let dl = data.len() as u64;
    lemma_varint_bytes_shape(ty);
    lemma_varint_bytes_shape(stream_id);
    lemma_varint_bytes_shape(offset);
    lemma_varint_bytes_shape(dl);
    let c1 = 1 + spec_varint_len(stream_id);
    let c2 = c1 + spec_varint_len(offset);
    let c3 = c2 + spec_varint_len(dl);
    let c4 = c3 + data.len();
    assert(e.len() == c4);
    assert(stream_has_offset(ty) && stream_has_length(ty) && stream_fin(ty) == fin);
    if k == 0 {
        assert(varint_at(t, 0) is None);
    } else {
        assert(t.subrange(0, 1) =~= spec_varint_bytes(ty));
        lemma_varint_at_bytes(t, 0, ty);
        if k < c1 {
            if 1 < k {
                assert(t[1] == spec_varint_bytes(stream_id)[0]);
            }
            assert(varint_at(t, 1) is None);
        } else {
            assert(t.subrange(1, c1) =~= spec_varint_bytes(stream_id));
            lemma_varint_at_bytes(t, 1, stream_id);
            if k < c2 {
                if c1 < k {
                    assert(t[c1] == spec_varint_bytes(offset)[0]);
                }
                assert(varint_at(t, c1) is None);
            } else {
                assert(t.subrange(c1, c2) =~= spec_varint_bytes(offset));
                lemma_varint_at_bytes(t, c1, offset);
                if k < c3 {
                    if c2 < k {
                        assert(t[c2] == spec_varint_bytes(dl)[0]);
                    }
                    assert(varint_at(t, c2) is None);
                } else {
                    assert(t.subrange(c2, c3) =~= spec_varint_bytes(dl));
                    lemma_varint_at_bytes(t, c2, dl);
                }
                assert(varint_prefixed_at(t, c2) is None);
            }
        }
    }
}

/// Unknown discriminant rejection: a buffer whose leading variable-length
/// integer matches no frame variant is rejected as an unknown frame,
/// whatever follows it.
pub proof fn lemma_unknown_discriminant(s: Seq<u8>, ty: u64, w: int)
    requires
        varint_at(s, 0) == Some((ty, w)),
        !known_frame_type(ty),
    ensures
        spec_parse(s) == Err::<(FrameModel, int), Error>(Error::UnknownFrame),
{
}

/// Stream implicit length: a stream frame whose discriminant has the
/// length flag clear takes the entire remainder of the buffer as its
/// payload, whatever its count, and consumes the buffer to its end.
pub proof fn lemma_stream_implicit_length(ty: u64, stream_id: u64, offset: u64, payload: Seq<u8>)
    requires
        0x10 <= ty <= 0x17,
        !stream_has_length(ty),
        fits_varint(stream_id),
        fits_varint(offset),
    ensures
        ({
            let s = spec_varint_bytes(ty) + spec_varint_bytes(stream_id) + (if stream_has_offset(
                ty,
            ) {
                spec_varint_bytes(offset)
            } else {
                Seq::<u8>::empty()
            }) + payload;
            spec_parse(s) == Ok::<(FrameModel, int), Error>(
                (
                    FrameModel::Stream {
                        stream_id,
                        offset: if stream_has_offset(ty) {
                            offset
                        } else {
                            0
                        },
                        data: payload,
                        fin: stream_fin(ty),
                    },
                    s.len() as int,
                ),
            )
        }),
{
    let woff = if stream_has_offset(ty) {
        spec_varint_bytes(offset)
    } else {
        Seq::<u8>::empty()
    };
    let s = spec_varint_bytes(ty) + spec_varint_bytes(stream_id) + woff + payload;
    lemma_varint_bytes_shape(ty);
    lemma_varint_bytes_shape(stream_id);
    let c1 = 1 + spec_varint_len(stream_id);
    assert(s.subrange(0, 1) =~= spec_varint_bytes(ty));
    lemma_varint_at_bytes(s, 0, ty);
    assert(s.subrange(1, c1) =~= spec_varint_bytes(stream_id));
    lemma_varint_at_bytes(s, 1, stream_id);
    if stream_has_offset(ty) {
        lemma_varint_bytes_shape(offset);
        let c2 = c1 + spec_varint_len(offset);
        assert(s.subrange(c1, c2) =~= spec_varint_bytes(offset));
        lemma_varint_at_bytes(s, c1, offset);
        assert(s.subrange(c2, s.len() as int) =~= payload);
    } else {
        assert(s.subrange(c1, s.len() as int) =~= payload);
    }
}

} // verus!
