use serial_gateway::frames::{decode_frame, log_record, FrameError, SerialBuffer, SERIAL_BUF_SIZE};

/// Feeds `bytes` in reads of `size` bytes.
fn feed_in_reads(bytes: &[u8], size: usize) -> (Vec<Vec<u8>>, usize) {
    let mut buffer = SerialBuffer::new();
    let mut frames = Vec::new();
    for chunk in bytes.chunks(size) {
        assert!(chunk.len() <= buffer.make_room());
        frames.extend(buffer.feed(chunk));
    }
    (frames, SERIAL_BUF_SIZE - buffer.make_room())
}

#[test]
fn a_stream_is_cut_at_zero_bytes() {
    let (frames, kept) = feed_in_reads(&[1, 2, 0, 3, 0, 0, 4], 64);
    assert_eq!(frames, vec![vec![1, 2], vec![3], vec![]]);
    assert_eq!(kept, 1);
}

#[test]
fn reads_make_no_difference() {
    let mut stream = Vec::new();
    for i in 0..40u8 {
        stream.extend(std::iter::repeat(i + 1).take(i as usize % 23));
        stream.push(0);
    }
    let expected: Vec<Vec<u8>> = (0..40u8).map(|i| vec![i + 1; i as usize % 23]).collect();
    for size in [1, 2, 3, 7, 16, 40] {
        assert_eq!(feed_in_reads(&stream, size).0, expected);
    }
}

#[test]
fn a_full_buffer_is_told() {
    let mut buffer = SerialBuffer::new();
    assert_eq!(buffer.make_room(), 64);
    assert!(buffer.feed(&[7; 63]).is_empty());
    assert!(!buffer.is_full());
    assert_eq!(buffer.make_room(), 1);
    assert!(buffer.feed(&[7]).is_empty());
    assert!(buffer.is_full());
    assert_eq!(buffer.make_room(), 0);
}

#[test]
fn a_frame_may_fill_the_buffer() {
    let mut buffer = SerialBuffer::new();
    buffer.feed(&[7; 63]);
    assert_eq!(buffer.feed(&[0]), vec![vec![7; 63]]);
    assert!(!buffer.is_full());
    assert_eq!(buffer.make_room(), 64);
}

#[test]
fn frames_are_decoded() {
    assert_eq!(decode_frame(b"\x04ABC\x05ghijzxy"), Ok(b"ABC\0ghij\0xyz".to_vec()));
    assert_eq!(decode_frame(&[0x03, 0x2F, 0xA2, 0x26, 0x92, 0x73]), Ok(vec![0x2F, 0xA2, 0x00, 0x92, 0x73, 0x26]));
    assert_eq!(decode_frame(&[]), Ok(vec![]));
    assert_eq!(decode_frame(&[1, 0, 2]), Err(FrameError::Encoding));
}

#[test]
fn encoded_data_is_decoded() {
    for len in 0..300usize {
        let data: Vec<u8> = (0..len).map(|i| (i * 7 % 5 * 50) as u8).collect();
        let mut buf = vec![0u8; cobs2::cobsr::encode_max_output_size(len)];
        let frame = cobs2::cobsr::encode_array(&mut buf, &data).unwrap();
        let decoded = decode_frame(frame).unwrap();
        assert_eq!(decoded, data);
        assert!(decoded.len() <= frame.len());
    }
}

#[test]
fn a_record_follows_its_length() {
    assert_eq!(log_record(&[2, 0, 0, 0, 8, 9]), Ok(vec![8, 9]));
    assert_eq!(log_record(&[0, 0, 0, 0]), Ok(vec![]));
    assert_eq!(log_record(&[]), Err(FrameError::TooShort));
    assert_eq!(log_record(&[1, 0, 0]), Err(FrameError::TooShort));
    assert_eq!(log_record(&[1, 0, 0, 0]), Err(FrameError::LengthMismatch));
    assert_eq!(log_record(&[1, 0, 0, 0, 5, 6]), Err(FrameError::LengthMismatch));
    assert_eq!(log_record(&[2, 1, 0, 0, 5, 6]), Err(FrameError::LengthMismatch));
    assert_eq!(log_record(&[2, 0, 0, 1, 5, 6]), Err(FrameError::LengthMismatch));
    let mut long = vec![0x2C, 0x01, 0, 0];
    long.extend(vec![7; 300]);
    assert_eq!(log_record(&long), Ok(vec![7; 300]));
}

#[test]
fn frame_errors_have_messages() {
    assert_eq!(FrameError::Encoding.message(), "COBS decode error - skipping frame");
    assert_eq!(FrameError::TooShort.message(), "Frame too short");
    assert_eq!(FrameError::LengthMismatch.message(), "Length mismatch");
}
