use virting_ublk_drbd_demo::protocol::{
    read_frame, read_header, write_frame, Frame, FrameError, Op, FLAG_FULL_RESYNC, HEADER_LEN,
    MAGIC, MAX_PAYLOAD_LEN, VERSION,
};

#[test]
fn frame_round_trips() {
    let frame = Frame {
        op: Op::Write,
        flags: FLAG_FULL_RESYNC,
        offset: 4096,
        value: 12,
        payload: b"hello world".to_vec(),
    };
    let mut buf = Vec::new();
    write_frame(&mut buf, &frame).unwrap();
    let decoded = read_frame(&buf[..]).unwrap();
    assert_eq!(decoded, frame);
}

#[test]
fn header_layout_is_big_endian() {
    let frame = Frame {
        op: Op::Read,
        flags: 0x01020304,
        offset: 0x0102030405060708,
        value: 0x1112131415161718,
        payload: vec![0xaa, 0xbb],
    };
    let mut buf = Vec::new();
    write_frame(&mut buf, &frame).unwrap();
    assert_eq!(buf.len(), HEADER_LEN + 2);
    assert_eq!(&buf[0..8], b"VRBDMVP1");
    assert_eq!(&buf[0..8], &MAGIC);
    assert_eq!(&buf[8..10], &[0, 1]);
    assert_eq!(&buf[10..12], &[0, 5]);
    assert_eq!(&buf[12..16], &[1, 2, 3, 4]);
    assert_eq!(&buf[16..24], &[1, 2, 3, 4, 5, 6, 7, 8]);
    assert_eq!(&buf[24..32], &[0x11, 0x12, 0x13, 0x14, 0x15, 0x16, 0x17, 0x18]);
    assert_eq!(&buf[32..36], &[0, 0, 0, 2]);
    assert_eq!(&buf[36..40], &[0, 0, 0, 0]);
    assert_eq!(&buf[40..], &[0xaa, 0xbb]);
}

#[test]
fn write_frame_appends_to_existing_bytes() {
    let mut buf = vec![9u8, 9];
    write_frame(&mut buf, &Frame::new(Op::Status)).unwrap();
    assert_eq!(buf.len(), 2 + HEADER_LEN);
    assert_eq!(&buf[..2], &[9, 9]);
    assert_eq!(read_frame(&buf[2..]).unwrap(), Frame::new(Op::Status));
}

#[test]
fn oversized_payload_is_refused_and_nothing_written() {
    let frame = Frame::with_payload(Op::Write, vec![0u8; MAX_PAYLOAD_LEN as usize + 1]);
    let mut buf = vec![1u8];
    let err = write_frame(&mut buf, &frame).unwrap_err();
    assert_eq!(
        err,
        FrameError::PayloadTooLarge {
            size: MAX_PAYLOAD_LEN as usize + 1
        }
    );
    assert_eq!(buf, vec![1u8]);
}

#[test]
fn largest_payload_is_accepted() {
    let frame = Frame::with_payload(Op::ReadOk, vec![7u8; MAX_PAYLOAD_LEN as usize]);
    let mut buf = Vec::new();
    write_frame(&mut buf, &frame).unwrap();
    assert_eq!(read_frame(&buf).unwrap(), frame);
}

#[test]
fn short_input_is_truncated() {
    let mut buf = Vec::new();
    write_frame(&mut buf, &Frame::with_payload(Op::Write, b"abc".to_vec())).unwrap();
    assert_eq!(read_frame(&buf[..39]), Err(FrameError::Truncated));
    assert_eq!(read_frame(&buf[..42]), Err(FrameError::Truncated));
    assert_eq!(read_frame(&[]), Err(FrameError::Truncated));
}

#[test]
fn bad_magic_version_op_and_length_are_refused() {
    let mut good = Vec::new();
    write_frame(&mut good, &Frame::new(Op::Hello)).unwrap();

    let mut bad = good.clone();
    bad[3] = b'X';
    assert_eq!(read_frame(&bad), Err(FrameError::BadMagic));

    let mut bad = good.clone();
    bad[9] = 2;
    assert_eq!(
        read_frame(&bad),
        Err(FrameError::UnsupportedVersion { version: 2 })
    );

    let mut bad = good.clone();
    bad[11] = 14;
    assert_eq!(read_frame(&bad), Err(FrameError::UnknownOp { code: 14 }));
    bad[11] = 0;
    assert_eq!(read_frame(&bad), Err(FrameError::UnknownOp { code: 0 }));

    let mut bad = good.clone();
    bad[32..36].copy_from_slice(&(MAX_PAYLOAD_LEN + 1).to_be_bytes());
    assert_eq!(
        read_frame(&bad),
        Err(FrameError::PayloadLengthExceedsLimit {
            len: MAX_PAYLOAD_LEN + 1
        })
    );
}

#[test]
fn reserved_bytes_and_trailing_bytes_are_ignored() {
    let frame = Frame::with_payload(Op::Error, b"boom".to_vec());
    let mut buf = Vec::new();
    write_frame(&mut buf, &frame).unwrap();
    buf[37] = 0x55;
    buf.extend_from_slice(b"next frame");
    assert_eq!(read_frame(&buf).unwrap(), frame);
}

#[test]
fn header_is_read_alone() {
    let mut frame = Frame::with_payload(Op::Write, b"xyz".to_vec());
    frame.offset = 8;
    frame.value = 3;
    let mut buf = Vec::new();
    write_frame(&mut buf, &frame).unwrap();
    let header = read_header(&buf[..HEADER_LEN]).unwrap();
    assert_eq!(header.op, Op::Write);
    assert_eq!(header.offset, 8);
    assert_eq!(header.value, 3);
    assert_eq!(header.payload_len, 3);
    assert_eq!(VERSION, 1);
}

#[test]
fn op_codes_and_names() {
    let all = [
        Op::Hello,
        Op::HelloOk,
        Op::Write,
        Op::WriteOk,
        Op::Read,
        Op::ReadOk,
        Op::Status,
        Op::StatusOk,
        Op::Resync,
        Op::ResyncOk,
        Op::Checksum,
        Op::ChecksumOk,
        Op::Error,
    ];
    for (i, op) in all.iter().enumerate() {
        assert_eq!(op.code(), i as u16 + 1);
        assert_eq!(Op::from_code(op.code()), Ok(*op));
        assert_eq!(op.name(), format!("{op:?}"));
    }
    assert_eq!(Op::from_code(14), Err(FrameError::UnknownOp { code: 14 }));
}

#[test]
fn error_frame_text_reads_back() {
    let frame = Frame::error("first frame must be Hello".to_string());
    assert_eq!(frame.op, Op::Error);
    assert_eq!(frame.payload, b"first frame must be Hello".to_vec());
    assert_eq!(frame.payload_text(), "first frame must be Hello");
    let frame = Frame::error("größe".to_string());
    assert_eq!(frame.payload_text(), "größe");
}

#[test]
fn invalid_utf8_payload_is_replaced() {
    let frame = Frame::with_payload(Op::Error, vec![b'a', 0xff, b'b']);
    assert_eq!(frame.payload_text(), "a\u{fffd}b");
}

#[test]
fn new_frame_is_empty() {
    let frame = Frame::new(Op::Checksum);
    assert_eq!(frame.flags, 0);
    assert_eq!(frame.offset, 0);
    assert_eq!(frame.value, 0);
    assert!(frame.payload.is_empty());
}
