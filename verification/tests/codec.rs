use linux_bt_proxy::frame::{encode_response, next_message};
use linux_bt_proxy::varint::{decode_varint, encode_varint, VarintError};

#[test]
fn varint_round_trip_many_values() {
    let values: [u64; 12] = [
        0,
        1,
        127,
        128,
        300,
        16383,
        16384,
        0xFFFF_FFFF,
        0x1_0000_0000,
        u64::MAX / 2,
        u64::MAX - 1,
        u64::MAX,
    ];
    for &v in values.iter() {
        let enc = encode_varint(v);
        let dec = decode_varint(&enc).expect("round trip must decode");
        assert_eq!(dec, (v, enc.len()));
    }
}

#[test]
fn varint_known_encodings() {
    assert_eq!(encode_varint(0), vec![0x00]);
    assert_eq!(encode_varint(1), vec![0x01]);
    assert_eq!(encode_varint(127), vec![0x7F]);
    assert_eq!(encode_varint(128), vec![0x80, 0x01]);
    assert_eq!(encode_varint(300), vec![0xAC, 0x02]);
    assert_eq!(encode_varint(u64::MAX).len(), 10);
}

#[test]
fn varint_incomplete_and_overlong() {
    assert_eq!(decode_varint(&[]), Err(VarintError::Incomplete));
    assert_eq!(decode_varint(&[0x80]), Err(VarintError::Incomplete));
    assert_eq!(decode_varint(&[0x80; 9]), Err(VarintError::Incomplete));
    assert_eq!(decode_varint(&[0x80; 10]), Err(VarintError::Overlong));
    assert_eq!(decode_varint(&[0x80; 11]), Err(VarintError::Overlong));
}

#[test]
fn varint_decode_stops_at_terminator() {
    // Trailing bytes are untouched; only the varint is consumed.
    assert_eq!(decode_varint(&[0xAC, 0x02, 0xFF, 0xFF]), Ok((300, 2)));
}

#[test]
fn frame_round_trip() {
    let payload: Vec<u8> = vec![0x08, 0x01, 0x10, 0x0A];
    let frame = encode_response(0x02, &payload);
    assert_eq!(frame[0], 0x00);
    let mut buf = frame.clone();
    let (t, p) = next_message(&mut buf).expect("complete frame must parse");
    assert_eq!(t, 0x02);
    assert_eq!(p, payload);
    assert!(buf.is_empty());
}

#[test]
fn frame_round_trip_empty_payload() {
    let frame = encode_response(0x07, &[]);
    assert_eq!(frame, vec![0x00, 0x00, 0x07]);
    let mut buf = frame;
    let (t, p) = next_message(&mut buf).expect("complete frame must parse");
    assert_eq!(t, 0x07);
    assert!(p.is_empty());
    assert!(buf.is_empty());
}

#[test]
fn frame_keeps_trailing_bytes() {
    let mut buf = encode_response(0x09, &[0xAA]);
    buf.extend_from_slice(&[0x00, 0x01]);
    let (t, p) = next_message(&mut buf).expect("first frame must parse");
    assert_eq!(t, 0x09);
    assert_eq!(p, vec![0xAA]);
    assert_eq!(buf, vec![0x00, 0x01]);
}

#[test]
fn frame_partial_delivery_byte_by_byte() {
    // Feeding an encoded frame one byte at a time yields exactly one
    // frame, on the final byte and never before.
    let payload: Vec<u8> = vec![0x0A, 0x01, 0x74];
    let frame = encode_response(0x01, &payload);
    let n = frame.len();
    let mut buf: Vec<u8> = Vec::new();
    for (i, &b) in frame.iter().enumerate() {
        buf.push(b);
        let parsed = next_message(&mut buf);
        if i + 1 < n {
            assert!(parsed.is_none(), "no frame may appear before byte {}", n);
            assert_eq!(buf.len(), i + 1, "an incomplete buffer is left untouched");
        } else {
            let (t, p) = parsed.expect("the complete frame appears on the last byte");
            assert_eq!(t, 0x01);
            assert_eq!(p, payload);
            assert!(buf.is_empty());
        }
    }
}

#[test]
fn frame_bad_delimiter_left_in_place() {
    let mut buf = vec![0x01, 0x02, 0x03];
    assert!(next_message(&mut buf).is_none());
    assert_eq!(buf, vec![0x01, 0x02, 0x03]);
}

#[test]
fn frame_incomplete_payload_left_in_place() {
    let frame = encode_response(0x05, &[1, 2, 3, 4]);
    let mut buf = frame[..frame.len() - 1].to_vec();
    assert!(next_message(&mut buf).is_none());
    assert_eq!(buf.len(), frame.len() - 1);
}

#[test]
fn frame_large_payload() {
    let payload: Vec<u8> = (0..300u32).map(|i| (i % 256) as u8).collect();
    let frame = encode_response(0x43, &payload);
    // length 300 takes a two-byte varint
    assert_eq!(&frame[0..3], &[0x00, 0xAC, 0x02]);
    let mut buf = frame;
    let (t, p) = next_message(&mut buf).expect("complete frame must parse");
    assert_eq!(t, 0x43);
    assert_eq!(p, payload);
    assert!(buf.is_empty());
}
