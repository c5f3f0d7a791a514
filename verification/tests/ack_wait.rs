use ubx_capture::ack::scan_for_ack;
use ubx_capture::ack::AckTarget;
use ubx_capture::ack::AckWaiter;
use ubx_capture::frame::encode_frame;
use ubx_capture::frame::Frame;
use ubx_capture::parser::FrameParser;

fn ack_frame_bytes(class: u8, id: u8) -> Vec<u8> {
    encode_frame(0x05, 0x01, &[class, id])
}

#[test]
fn first_matching_acknowledgment_wins() {
    // Acknowledgments for A, then B, then A again: a wait for A ends at
    // the first occurrence, not the second.
    let mut stream = Vec::new();
    stream.extend_from_slice(&ack_frame_bytes(0x06, 0x00)); // A
    stream.extend_from_slice(&ack_frame_bytes(0x06, 0x01)); // B
    stream.extend_from_slice(&ack_frame_bytes(0x06, 0x00)); // A again

    let mut parser = FrameParser::new();
    let results = parser.consume_and_drain(&stream);
    assert_eq!(results.len(), 3);

    let target_a = AckTarget { class: 0x06, id: 0x00 };
    assert_eq!(scan_for_ack(&results, target_a), Some(0));

    let target_b = AckTarget { class: 0x06, id: 0x01 };
    assert_eq!(scan_for_ack(&results, target_b), Some(1));
}

#[test]
fn absent_acknowledgment_never_matches() {
    // A target that never appears in a finite stream is never found:
    // the wait over such a stream would block indefinitely.
    let mut stream = Vec::new();
    stream.extend_from_slice(&ack_frame_bytes(0x06, 0x00));
    stream.extend_from_slice(&ack_frame_bytes(0x06, 0x01));

    let mut parser = FrameParser::new();
    let results = parser.consume_and_drain(&stream);
    let target_c = AckTarget { class: 0x06, id: 0x08 };
    assert_eq!(scan_for_ack(&results, target_c), None);
}

#[test]
fn unrelated_frames_and_failures_are_ignored() {
    let mut stream = Vec::new();
    stream.extend_from_slice(&encode_frame(0x01, 0x07, &[1, 2, 3])); // not an ack
    let mut corrupt = ack_frame_bytes(0x06, 0x00);
    let last = corrupt.len() - 1;
    corrupt[last] ^= 0xff; // decode failure, not an ack
    stream.extend_from_slice(&corrupt);
    stream.extend_from_slice(&ack_frame_bytes(0x06, 0x00));

    let mut parser = FrameParser::new();
    let results = parser.consume_and_drain(&stream);
    let target = AckTarget { class: 0x06, id: 0x00 };
    let found = scan_for_ack(&results, target).expect("the intact acknowledgment must be found");
    assert!(matches!(&results[found], Ok(f) if f.class == 0x05 && f.id == 0x01));
}

#[test]
fn waiter_latches_on_first_match() {
    let target = AckTarget { class: 0x06, id: 0x00 };
    let mut waiter = AckWaiter::new(target);
    assert!(!waiter.matched);

    let other = Frame { class: 0x05, id: 0x01, payload: vec![0x06, 0x01] };
    waiter.observe(&other);
    assert!(!waiter.matched);

    let matching = Frame { class: 0x05, id: 0x01, payload: vec![0x06, 0x00] };
    waiter.observe(&matching);
    assert!(waiter.matched);

    // Once matched, the wait stays matched.
    waiter.observe(&other);
    assert!(waiter.matched);
}

#[test]
fn acknowledgment_payload_must_match_exactly() {
    let target = AckTarget { class: 0x06, id: 0x00 };
    let mut waiter = AckWaiter::new(target);
    // Right class and id but a payload of the wrong shape.
    let short = Frame { class: 0x05, id: 0x01, payload: vec![0x06] };
    waiter.observe(&short);
    assert!(!waiter.matched);
    // An ordinary frame whose payload happens to name the target.
    let not_ack = Frame { class: 0x05, id: 0x02, payload: vec![0x06, 0x00] };
    waiter.observe(&not_ack);
    assert!(!waiter.matched);
}
