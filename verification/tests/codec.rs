use signal_apps::codec::{decode_text_frame, encode_len, encode_text_frame, read_be32};

fn round_trip(text: &str) {
    let frame = encode_text_frame(text).expect("frame fits");
    let back = decode_text_frame(&frame).expect("frame decodes");
    assert_eq!(back.as_str(), text);
}

#[test]
fn frame_round_trip_empty() {
    round_trip("");
}

#[test]
fn frame_round_trip_short() {
    round_trip("hello");
}

#[test]
fn frame_round_trip_json_payload() {
    round_trip("{\"type\":\"response\",\"value\":\"a description\"}");
}

#[test]
fn frame_round_trip_multibyte() {
    round_trip("héllo wörld ✓");
}

#[test]
fn frame_round_trip_typical_message() {
    let text = "x".repeat(4096);
    round_trip(&text);
}

#[test]
fn frame_layout_is_length_prefixed() {
    let frame = encode_text_frame("hello").unwrap();
    assert_eq!(
        frame,
        vec![0u8, 0, 0, 5, b'h', b'e', b'l', b'l', b'o']
    );
}

#[test]
fn length_prefix_is_big_endian() {
    assert_eq!(encode_len(0x01020304), vec![1u8, 2, 3, 4]);
    assert_eq!(encode_len(5), vec![0u8, 0, 0, 5]);
    assert_eq!(read_be32(&vec![1u8, 2, 3, 4]), 0x01020304);
    assert_eq!(read_be32(&vec![0u8, 0, 0, 5, 9, 9]), 5);
}

#[test]
fn truncated_frames_do_not_decode() {
    assert!(decode_text_frame(&vec![]).is_none());
    assert!(decode_text_frame(&vec![0u8, 0, 0]).is_none());
    // Prefix says 5 bytes, only 4 follow.
    assert!(decode_text_frame(&vec![0u8, 0, 0, 5, b'a', b'b', b'c', b'd']).is_none());
    // Prefix says 1 byte, 2 follow.
    assert!(decode_text_frame(&vec![0u8, 0, 0, 1, b'a', b'b']).is_none());
}

#[test]
fn invalid_utf8_does_not_decode() {
    assert!(decode_text_frame(&vec![0u8, 0, 0, 1, 0xFF]).is_none());
    assert!(decode_text_frame(&vec![0u8, 0, 0, 2, 0xC3, 0x28]).is_none());
}
