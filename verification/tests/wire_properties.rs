use quic_frames::frame::Frame;
use quic_frames::Error;

fn sample_frames() -> Vec<Frame> {
    vec![
        Frame::Padding,
        Frame::ConnectionClose { error_code: 0xbeef, frame_type: 523423, reason: vec![9, 8, 7] },
        Frame::ApplicationClose { error_code: 0x0102, reason: vec![] },
        Frame::Ping,
        Frame::NewConnectionId {
            seq_num: 123213,
            conn_id: vec![1, 2, 3, 4],
            reset_token: vec![0x42; 16],
        },
        Frame::ACK { largest_ack: 2163721632, ack_delay: 874656534 },
        Frame::Crypto { offset: 1230976, data: vec![1, 2, 3, 4, 5] },
        Frame::Stream { stream_id: 32, offset: 1230976, data: vec![1, 2, 3], fin: true },
        Frame::Stream { stream_id: 0, offset: 0, data: vec![], fin: false },
    ]
}

#[test]
fn wire_len_matches_encoded_size() {
    for frame in sample_frames() {
        let mut d: [u8; 128] = [0; 128];
        let written = {
            let mut b = octets::OctetsMut::with_slice(&mut d);
            frame.to_bytes(&mut b).unwrap()
        };
        assert_eq!(written, frame.wire_len());
    }
}

#[test]
fn round_trip_every_variant() {
    for frame in sample_frames() {
        let mut d: [u8; 128] = [0x5a; 128];
        let written = {
            let mut b = octets::OctetsMut::with_slice(&mut d);
            frame.to_bytes(&mut b).unwrap()
        };
        let mut b = octets::Octets::with_slice(&d[..written]);
        assert_eq!(Frame::from_bytes(&mut b).unwrap(), frame);
        assert_eq!(b.cap(), 0);
    }
}

#[test]
fn unknown_discriminant_rejected() {
    let d: [u8; 4] = [0x01, 0, 0, 0];
    let mut b = octets::Octets::with_slice(&d);
    assert_eq!(Frame::from_bytes(&mut b), Err(Error::UnknownFrame));

    let d: [u8; 1] = [0x3f];
    let mut b = octets::Octets::with_slice(&d);
    assert_eq!(Frame::from_bytes(&mut b), Err(Error::UnknownFrame));

    // A two-byte encoding of an out-of-table value dispatches on the value.
    let d: [u8; 2] = [0x40, 0x2a];
    let mut b = octets::Octets::with_slice(&d);
    assert_eq!(Frame::from_bytes(&mut b), Err(Error::UnknownFrame));
}

#[test]
fn empty_buffer_rejected() {
    let d: [u8; 0] = [];
    let mut b = octets::Octets::with_slice(&d);
    assert_eq!(Frame::from_bytes(&mut b), Err(Error::BufferTooShort));
}

#[test]
fn truncated_frames_rejected() {
    for frame in sample_frames() {
        let mut d: [u8; 128] = [0; 128];
        let written = {
            let mut b = octets::OctetsMut::with_slice(&mut d);
            frame.to_bytes(&mut b).unwrap()
        };
        // Truncation by one byte, and every deeper truncation too.
        for cut in 0..written {
            let mut b = octets::Octets::with_slice(&d[..cut]);
            assert_eq!(Frame::from_bytes(&mut b), Err(Error::BufferTooShort));
        }
    }
}

#[test]
fn encode_without_room_fails() {
    let frame = Frame::ConnectionClose {
        error_code: 0xbeef,
        frame_type: 523423,
        reason: vec![9, 8, 7],
    };
    let needed = frame.wire_len();
    for cap in 0..needed {
        let mut d = vec![0u8; cap];
        let mut b = octets::OctetsMut::with_slice(&mut d);
        assert_eq!(frame.to_bytes(&mut b), Err(Error::BufferTooShort));
    }
}

#[test]
fn stream_implicit_length_takes_remainder() {
    // Discriminant 0x14: offset present, no explicit length, no fin.
    let d: [u8; 7] = [0x14, 0x05, 0x08, 0xaa, 0xbb, 0xcc, 0xdd];
    let mut b = octets::Octets::with_slice(&d);
    let frame = Frame::from_bytes(&mut b).unwrap();
    assert_eq!(
        frame,
        Frame::Stream { stream_id: 5, offset: 8, data: vec![0xaa, 0xbb, 0xcc, 0xdd], fin: false }
    );
    assert_eq!(b.cap(), 0);

    // Discriminant 0x10: no offset, no explicit length; offset defaults to 0.
    let d: [u8; 3] = [0x10, 0x05, 0xee];
    let mut b = octets::Octets::with_slice(&d);
    assert_eq!(
        Frame::from_bytes(&mut b).unwrap(),
        Frame::Stream { stream_id: 5, offset: 0, data: vec![0xee], fin: false }
    );
    assert_eq!(b.cap(), 0);

    // Discriminant 0x15: offset present, no explicit length, fin; empty payload.
    let d: [u8; 3] = [0x15, 0x05, 0x08];
    let mut b = octets::Octets::with_slice(&d);
    assert_eq!(
        Frame::from_bytes(&mut b).unwrap(),
        Frame::Stream { stream_id: 5, offset: 8, data: vec![], fin: true }
    );
    assert_eq!(b.cap(), 0);
}

#[test]
fn ack_range_list_is_skipped() {
    // largest_ack, ack_delay, range_count = 2, first range length, then
    // two (gap, length) pairs the decoder must step over exactly.
    let mut d: [u8; 64] = [0; 64];
    let total = {
        let mut b = octets::OctetsMut::with_slice(&mut d);
        b.put_varint(0x0d).unwrap();
        b.put_varint(2163721632).unwrap();
        b.put_varint(874656534).unwrap();
        b.put_varint(2).unwrap();
        b.put_varint(11).unwrap();
        b.put_varint(5).unwrap();
        b.put_varint(70000).unwrap();
        b.put_varint(17000).unwrap();
        b.put_varint(3).unwrap();
        b.off()
    };
    let mut b = octets::Octets::with_slice(&d[..total]);
    assert_eq!(
        Frame::from_bytes(&mut b).unwrap(),
        Frame::ACK { largest_ack: 2163721632, ack_delay: 874656534 }
    );
    assert_eq!(b.off(), total);
}

#[test]
fn ack_truncated_inside_range_list_rejected() {
    let mut d: [u8; 64] = [0; 64];
    let total = {
        let mut b = octets::OctetsMut::with_slice(&mut d);
        b.put_varint(0x0d).unwrap();
        b.put_varint(100).unwrap();
        b.put_varint(200).unwrap();
        b.put_varint(2).unwrap();
        b.put_varint(11).unwrap();
        b.put_varint(5).unwrap();
        b.put_varint(70000).unwrap();
        b.put_varint(17000).unwrap();
        b.put_varint(3).unwrap();
        b.off()
    };
    let mut b = octets::Octets::with_slice(&d[..total - 1]);
    assert_eq!(Frame::from_bytes(&mut b), Err(Error::BufferTooShort));
}

#[test]
fn connection_close_exact_bytes() {
    let frame = Frame::ConnectionClose {
        error_code: 0xbeef,
        frame_type: 523423,
        reason: vec![1, 2, 3, 4, 5, 6, 7, 8, 9, 10, 11, 12],
    };
    let mut d: [u8; 32] = [0; 32];
    let written = {
        let mut b = octets::OctetsMut::with_slice(&mut d);
        frame.to_bytes(&mut b).unwrap()
    };
    let expected: [u8; 20] = [
        0x02, 0xbe, 0xef, 0x80, 0x07, 0xfc, 0x9f, 0x0c, 1, 2, 3, 4, 5, 6, 7, 8, 9, 10, 11, 12,
    ];
    assert_eq!(&d[..written], expected);
}

#[test]
fn stream_exact_bytes() {
    let frame = Frame::Stream {
        stream_id: 32,
        offset: 1230976,
        data: vec![1, 2, 3, 4, 5, 6, 7, 8, 9, 10, 11, 12],
        fin: true,
    };
    let mut d: [u8; 32] = [0; 32];
    let written = {
        let mut b = octets::OctetsMut::with_slice(&mut d);
        frame.to_bytes(&mut b).unwrap()
    };
    let expected: [u8; 19] = [
        0x17, 0x20, 0x80, 0x12, 0xc8, 0x80, 0x0c, 1, 2, 3, 4, 5, 6, 7, 8, 9, 10, 11, 12,
    ];
    assert_eq!(&d[..written], expected);
}

#[test]
fn ack_exact_bytes() {
    let frame = Frame::ACK { largest_ack: 2163721632, ack_delay: 874656534 };
    let mut d: [u8; 32] = [0; 32];
    let written = {
        let mut b = octets::OctetsMut::with_slice(&mut d);
        frame.to_bytes(&mut b).unwrap()
    };
    let expected: [u8; 15] = [
        0x0d, 0xc0, 0x00, 0x00, 0x00, 0x80, 0xf7, 0xc5, 0xa0, 0xb4, 0x22, 0x33, 0x16, 0x00, 0x00,
    ];
    assert_eq!(&d[..written], expected);
}

#[test]
fn new_connection_id_exact_bytes() {
    let frame = Frame::NewConnectionId {
        seq_num: 123213,
        conn_id: vec![1, 2, 3],
        reset_token: vec![0x42; 16],
    };
    let mut d: [u8; 32] = [0; 32];
    let written = {
        let mut b = octets::OctetsMut::with_slice(&mut d);
        frame.to_bytes(&mut b).unwrap()
    };
    let expected: [u8; 25] = [
        0x0b, 0x80, 0x01, 0xe1, 0x4d, 0x03, 1, 2, 3, 0x42, 0x42, 0x42, 0x42, 0x42, 0x42, 0x42,
        0x42, 0x42, 0x42, 0x42, 0x42, 0x42, 0x42, 0x42, 0x42,
    ];
    assert_eq!(&d[..written], expected);
}

#[test]
fn crypto_exact_bytes() {
    let frame = Frame::Crypto { offset: 1230976, data: vec![0xde, 0xad] };
    let mut d: [u8; 16] = [0; 16];
    let written = {
        let mut b = octets::OctetsMut::with_slice(&mut d);
        frame.to_bytes(&mut b).unwrap()
    };
    let expected: [u8; 8] = [0x18, 0x80, 0x12, 0xc8, 0x80, 0x02, 0xde, 0xad];
    assert_eq!(&d[..written], expected);
}

#[test]
fn decode_two_frames_in_sequence() {
    let mut d: [u8; 64] = [0; 64];
    let first = Frame::Crypto { offset: 7, data: vec![1, 2, 3] };
    let second = Frame::Ping;
    let total = {
        let mut b = octets::OctetsMut::with_slice(&mut d);
        let n1 = first.to_bytes(&mut b).unwrap();
        let n2 = second.to_bytes(&mut b).unwrap();
        n1 + n2
    };
    let mut b = octets::Octets::with_slice(&d[..total]);
    assert_eq!(Frame::from_bytes(&mut b).unwrap(), first);
    assert_eq!(Frame::from_bytes(&mut b).unwrap(), second);
    assert_eq!(b.cap(), 0);
}
