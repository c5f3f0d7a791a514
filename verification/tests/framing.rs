use ubx_capture::frame::encode_frame;
use ubx_capture::frame::DecodeError;
use ubx_capture::frame::Frame;
use ubx_capture::parser::FrameParser;

fn ok_frames(results: &[Result<Frame, DecodeError>]) -> Vec<(u8, u8, Vec<u8>)> {
    let mut out = Vec::new();
    for r in results {
        if let Ok(f) = r {
            out.push((f.class, f.id, f.payload.clone()));
        }
    }
    out
}

fn errors(results: &[Result<Frame, DecodeError>]) -> Vec<DecodeError> {
    let mut out = Vec::new();
    for r in results {
        if let Err(e) = r {
            out.push(*e);
        }
    }
    out
}

#[test]
fn decodes_encoded_frame() {
    let bytes = encode_frame(0x01, 0x07, &[10, 20, 30]);
    assert_eq!(bytes.len(), 11);
    assert_eq!(bytes[0], 0xb5);
    assert_eq!(bytes[1], 0x62);
    let mut parser = FrameParser::new();
    let results = parser.consume_and_drain(&bytes);
    assert_eq!(results.len(), 1);
    match &results[0] {
        Ok(f) => {
            assert_eq!(f.class, 0x01);
            assert_eq!(f.id, 0x07);
            assert_eq!(f.payload, vec![10, 20, 30]);
        },
        Err(_) => panic!("a well-formed frame must decode"),
    }
}

#[test]
fn encoding_matches_known_frame_bytes() {
    // The acknowledgment of a message-rate command, checksum included.
    let bytes = encode_frame(0x05, 0x01, &[0x06, 0x01]);
    assert_eq!(bytes, vec![0xb5, 0x62, 0x05, 0x01, 0x02, 0x00, 0x06, 0x01, 0x0f, 0x38]);
}

#[test]
fn chunk_boundary_independence() {
    // The same stream fed whole and fed byte by byte yields the same
    // decode results.
    let mut stream = Vec::new();
    stream.extend_from_slice(&encode_frame(1, 2, &[5, 6, 7]));
    stream.extend_from_slice(&[0xde, 0xad, 0x00]);
    stream.extend_from_slice(&encode_frame(3, 4, &[]));
    stream.extend_from_slice(&encode_frame(5, 6, &[9; 40]));

    let mut whole = FrameParser::new();
    let whole_results = whole.consume_and_drain(&stream);

    let mut split = FrameParser::new();
    let mut split_results = Vec::new();
    for b in &stream {
        split_results.extend(split.consume_and_drain(&[*b]));
    }

    assert_eq!(whole_results.len(), split_results.len());
    assert_eq!(ok_frames(&whole_results), ok_frames(&split_results));
    assert_eq!(errors(&whole_results), errors(&split_results));
    assert_eq!(ok_frames(&whole_results).len(), 3);
    assert_eq!(errors(&whole_results).len(), 0);
}

#[test]
fn resynchronizes_after_corrupt_frame() {
    // A corrupted frame (flipped checksum byte) between two valid
    // frames yields exactly two frames and one decode failure.
    let first = encode_frame(1, 2, &[10, 20, 30]);
    let mut corrupt = encode_frame(3, 4, &[1, 2]);
    let last_index = corrupt.len() - 1;
    corrupt[last_index] ^= 0xff;
    let third = encode_frame(5, 6, &[]);

    let mut stream = Vec::new();
    stream.extend_from_slice(&first);
    stream.extend_from_slice(&corrupt);
    stream.extend_from_slice(&third);

    let mut parser = FrameParser::new();
    let results = parser.consume_and_drain(&stream);
    let oks = ok_frames(&results);
    let errs = errors(&results);
    assert_eq!(oks.len(), 2);
    assert_eq!(errs.len(), 1);
    assert_eq!(errs[0], DecodeError::BadChecksum);
    assert_eq!(oks[0], (1, 2, vec![10, 20, 30]));
    assert_eq!(oks[1], (5, 6, vec![]));
}

#[test]
fn timeout_gap_is_transparent() {
    // A frame split across a "no data" gap still decodes once the rest
    // arrives, and the gap itself produces nothing.
    let bytes = encode_frame(9, 9, &[1, 2, 3, 4]);
    let (head, tail) = bytes.split_at(5);

    let mut parser = FrameParser::new();
    let r1 = parser.consume_and_drain(head);
    assert_eq!(r1.len(), 0);
    let r2 = parser.consume_and_drain(&[]);
    assert_eq!(r2.len(), 0);
    let r3 = parser.consume_and_drain(tail);
    assert_eq!(r3.len(), 1);
    assert!(matches!(&r3[0], Ok(f) if f.class == 9 && f.id == 9));
}

#[test]
fn garbage_between_frames_is_skipped_silently() {
    // Three valid frames, three garbage bytes, one more valid frame:
    // four frames decode, in order, with no decode failure reported.
    let mut stream = Vec::new();
    stream.extend_from_slice(&encode_frame(1, 0, &[1]));
    stream.extend_from_slice(&encode_frame(2, 0, &[2]));
    stream.extend_from_slice(&encode_frame(1, 0, &[3]));
    stream.extend_from_slice(&[0x00, 0x7f, 0x33]);
    stream.extend_from_slice(&encode_frame(1, 0, &[4]));

    let mut parser = FrameParser::new();
    let results = parser.consume_and_drain(&stream);
    assert_eq!(results.len(), 4);
    let oks = ok_frames(&results);
    assert_eq!(oks.len(), 4);
    assert_eq!(
        oks,
        vec![
            (1, 0, vec![1]),
            (2, 0, vec![2]),
            (1, 0, vec![3]),
            (1, 0, vec![4]),
        ]
    );
}

#[test]
fn incomplete_frame_is_retained_not_discarded() {
    let bytes = encode_frame(1, 1, &[42; 10]);
    let mut parser = FrameParser::new();
    // Everything but the last byte: no result, nothing lost.
    let r1 = parser.consume_and_drain(&bytes[..bytes.len() - 1]);
    assert_eq!(r1.len(), 0);
    let r2 = parser.consume_and_drain(&bytes[bytes.len() - 1..]);
    assert_eq!(r2.len(), 1);
    assert!(matches!(&r2[0], Ok(f) if f.payload == vec![42; 10]));
}

#[test]
fn oversized_length_is_a_decode_failure() {
    // A marker whose header declares a payload longer than the engine
    // accepts is malformed, not something to buffer forever.
    let stream = [0xb5, 0x62, 1, 1, 0xff, 0xff, 0, 0];
    let mut parser = FrameParser::new();
    let results = parser.consume_and_drain(&stream);
    assert_eq!(results.len(), 1);
    assert_eq!(errors(&results), vec![DecodeError::OversizedPayload]);
}

#[test]
fn try_next_pulls_results_one_at_a_time() {
    let mut stream = Vec::new();
    stream.extend_from_slice(&encode_frame(1, 2, &[]));
    stream.extend_from_slice(&encode_frame(3, 4, &[]));
    let mut parser = FrameParser::new();
    parser.consume(&stream);
    let first = parser.try_next();
    assert!(matches!(&first, Some(Ok(f)) if f.class == 1));
    let second = parser.try_next();
    assert!(matches!(&second, Some(Ok(f)) if f.class == 3));
    assert!(parser.try_next().is_none());
}
