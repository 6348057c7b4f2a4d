use quic_frames::frame::Frame;

#[test]
fn padding() {
    let mut d: [u8; 128] = [42; 128];

    let frame = Frame::Padding;

    let wire_len = {
        let mut b = octets::OctetsMut::with_slice(&mut d);
        frame.to_bytes(&mut b).unwrap()
    };

    assert_eq!(wire_len, 1);
    assert_eq!(&d[..wire_len], [0 as u8]);

    {
        let mut b = octets::Octets::with_slice(&d);
        assert_eq!(Frame::from_bytes(&mut b).unwrap(), frame);
    }
}

#[test]
fn connection_close() {
    let mut d: [u8; 128] = [42; 128];

    let frame = Frame::ConnectionClose {
        error_code: 0xbeef,
        frame_type: 523423,
        reason: vec![1, 2, 3, 4, 5, 6, 7, 8, 9, 10, 11, 12],
    };

    let wire_len = {
        let mut b = octets::OctetsMut::with_slice(&mut d);
        frame.to_bytes(&mut b).unwrap()
    };

    assert_eq!(wire_len, 20);

    {
        let mut b = octets::Octets::with_slice(&d);
        assert_eq!(Frame::from_bytes(&mut b).unwrap(), frame);
    }
}

#[test]
fn application_close() {
    let mut d: [u8; 128] = [42; 128];

    let frame = Frame::ApplicationClose {
        error_code: 0xbeef,
        reason: vec![1, 2, 3, 4, 5, 6, 7, 8, 9, 10, 11, 12],
    };

    let wire_len = {
        let mut b = octets::OctetsMut::with_slice(&mut d);
        frame.to_bytes(&mut b).unwrap()
    };

    assert_eq!(wire_len, 16);

    {
        let mut b = octets::Octets::with_slice(&d);
        assert_eq!(Frame::from_bytes(&mut b).unwrap(), frame);
    }
}

#[test]
fn ping() {
    let mut d: [u8; 128] = [42; 128];

    let frame = Frame::Ping;

    let wire_len = {
        let mut b = octets::OctetsMut::with_slice(&mut d);
        frame.to_bytes(&mut b).unwrap()
    };

    assert_eq!(wire_len, 1);
    assert_eq!(&d[..wire_len], [0x07 as u8]);

    {
        let mut b = octets::Octets::with_slice(&d);
        assert_eq!(Frame::from_bytes(&mut b).unwrap(), frame);
    }
}

#[test]
fn new_connection_id() {
    let mut d: [u8; 128] = [42; 128];

    let frame = Frame::NewConnectionId {
        seq_num: 123213,
        conn_id: vec![1, 2, 3, 4, 5, 6, 7, 8, 9, 10, 11, 12, 13, 14, 15],
        reset_token: vec![0x42; 16],
    };

    let wire_len = {
        let mut b = octets::OctetsMut::with_slice(&mut d);
        frame.to_bytes(&mut b).unwrap()
    };

    assert_eq!(wire_len, 37);

    {
        let mut b = octets::Octets::with_slice(&d);
        assert_eq!(Frame::from_bytes(&mut b).unwrap(), frame);
    }
}

#[test]
fn ack() {
    let mut d: [u8; 128] = [42; 128];

    let frame = Frame::ACK {
        largest_ack: 2163721632,
        ack_delay: 874656534,
    };

    let wire_len = {
        let mut b = octets::OctetsMut::with_slice(&mut d);
        frame.to_bytes(&mut b).unwrap()
    };

    assert_eq!(wire_len, 15);

    {
        let mut b = octets::Octets::with_slice(&d);
        assert_eq!(Frame::from_bytes(&mut b).unwrap(), frame);
    }
}

#[test]
fn crypto() {
    let mut d: [u8; 128] = [42; 128];

    let frame = Frame::Crypto {
        offset: 1230976,
        data: vec![1, 2, 3, 4, 5, 6, 7, 8, 9, 10, 11, 12],
    };

    let wire_len = {
        let mut b = octets::OctetsMut::with_slice(&mut d);
        frame.to_bytes(&mut b).unwrap()
    };

    assert_eq!(wire_len, 18);

    {
        let mut b = octets::Octets::with_slice(&d);
        assert_eq!(Frame::from_bytes(&mut b).unwrap(), frame);
    }
}

#[test]
fn stream() {
    let mut d: [u8; 128] = [42; 128];

    let frame = Frame::Stream {
        stream_id: 32,
        offset: 1230976,
        data: vec![1, 2, 3, 4, 5, 6, 7, 8, 9, 10, 11, 12],
        fin: true,
    };

    let wire_len = {
        let mut b = octets::OctetsMut::with_slice(&mut d);
        frame.to_bytes(&mut b).unwrap()
    };

    assert_eq!(wire_len, 19);

    {
        let mut b = octets::Octets::with_slice(&d);
        assert_eq!(Frame::from_bytes(&mut b).unwrap(), frame);
    }
}
