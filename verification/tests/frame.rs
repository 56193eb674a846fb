use pimprobe::frame::{
    decode_frame, encode_frame, frame_header, FrameError, DATA, MAX_FRAME_SIZE, QUEUED, REALTIME,
};

#[test]
fn frames_carry_a_type_and_a_big_endian_length() {
    assert_eq!(
        encode_frame(QUEUED, b"$P\n").unwrap(),
        vec![b'Q', 0, 0, 0, 3, b'$', b'P', b'\n']
    );
    assert_eq!(encode_frame(REALTIME, b"").unwrap(), vec![b'R', 0, 0, 0, 0]);
    assert_eq!(DATA, b'D');
    let big = vec![7u8; 0x0001_0203];
    let frame = encode_frame(DATA, &big).unwrap();
    assert_eq!(&frame[..5], &[b'D', 0x00, 0x01, 0x02, 0x03]);
    assert_eq!(frame.len(), 5 + big.len());
}

#[test]
fn fragmented_stream_and_multiple_frames() {
    let mut stream = encode_frame(b'D', b"ok\n").unwrap();
    stream.extend(encode_frame(b'D', b"error:9\n").unwrap());
    // A stream delivered one byte at a time holds no frame until all of it
    // has arrived.
    for cut in 0..8 {
        assert_eq!(decode_frame(&stream[..cut]), Ok(None), "cut {cut}");
    }
    let (kind, payload, used) = decode_frame(&stream).unwrap().unwrap();
    assert_eq!((kind, payload.as_slice()), (b'D', &b"ok\n"[..]));
    let (kind, payload, rest) = decode_frame(&stream[used..]).unwrap().unwrap();
    assert_eq!((kind, payload.as_slice()), (b'D', &b"error:9\n"[..]));
    assert_eq!(used + rest, stream.len());
    assert_eq!(decode_frame(&stream[used + rest..]), Ok(None));
    assert_eq!(
        encode_frame(b'Q', &vec![0; MAX_FRAME_SIZE + 1]),
        Err(FrameError::Oversize)
    );
}

#[test]
fn framing_limits_and_truncation() {
    let bytes = encode_frame(b'Q', b"G54\n").unwrap();
    assert_eq!(bytes, b"Q\0\0\0\x04G54\n");
    let (kind, payload, used) = decode_frame(&bytes).unwrap().unwrap();
    assert_eq!((kind, payload, used), (b'Q', b"G54\n".to_vec(), 9));
    assert_eq!(decode_frame(&bytes[..7]), Ok(None));
    assert_eq!(decode_frame(&b"D\x00\x10\x00\x01"[..]), Err(FrameError::Oversize));
    assert!(encode_frame(QUEUED, &vec![0u8; MAX_FRAME_SIZE]).is_ok());
    assert_eq!(frame_header([b'D', 0, 0x10, 0, 0]), Ok((b'D', MAX_FRAME_SIZE)));
    assert_eq!(frame_header([b'D', 0, 0x10, 0, 1]), Err(FrameError::Oversize));
    assert_eq!(decode_frame(&[b'D', 0xff, 0xff, 0xff, 0xff]), Err(FrameError::Oversize));
}

#[test]
fn documented_command_frame() {
    assert_eq!(
        encode_frame(QUEUED, b"G54\n").unwrap(),
        vec![0x51, 0x00, 0x00, 0x00, 0x04, 0x47, 0x35, 0x34, 0x0a]
    );
    let (kind, payload, used) = decode_frame(&[0x51, 0x00, 0x00, 0x00, 0x04, 0x47, 0x35, 0x34, 0x0a])
        .unwrap()
        .unwrap();
    assert_eq!((kind, payload.as_slice(), used), (QUEUED, &b"G54\n"[..], 9));
}
