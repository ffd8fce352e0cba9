use mysql_core::bytes::{read_lenenc_bytes, read_lenenc_int, read_u16_le, read_u32_le, write_lenenc_bytes, write_lenenc_int, write_le, read_le};
use mysql_core::framer::{decode_packet, encode_packet, FrameError, MAX_PAYLOAD_LEN};

#[test]
fn lenenc_int_lengths_and_round_trip() {
    let cases: [(u64, usize); 5] = [(250, 1), (251, 3), (65535, 3), (16777215, 4), (1u64 << 32, 9)];
    for (n, len) in cases.iter() {
        let mut out = Vec::new();
        write_lenenc_int(&mut out, *n);
        assert_eq!(out.len(), *len);
        assert_eq!(read_lenenc_int(&out, 0), Some((*n, *len)));
    }
}

#[test]
fn lenenc_int_exact_bytes() {
    let mut out = Vec::new();
    write_lenenc_int(&mut out, 251);
    assert_eq!(out, vec![0xfc, 0xfb, 0x00]);
    let mut out = Vec::new();
    write_lenenc_int(&mut out, 16777215);
    assert_eq!(out, vec![0xfd, 0xff, 0xff, 0xff]);
    let mut out = Vec::new();
    write_lenenc_int(&mut out, 1u64 << 32);
    assert_eq!(out, vec![0xfe, 0, 0, 0, 0, 1, 0, 0, 0]);
}

#[test]
fn lenenc_int_rejects_null_marker_and_short_input() {
    assert_eq!(read_lenenc_int(&[0xfb], 0), None);
    assert_eq!(read_lenenc_int(&[0xff], 0), None);
    assert_eq!(read_lenenc_int(&[0xfc, 0x01], 0), None);
    assert_eq!(read_lenenc_int(&[], 0), None);
}

#[test]
fn lenenc_bytes_round_trip() {
    let mut out = Vec::new();
    write_lenenc_bytes(&mut out, b"hello");
    assert_eq!(out, vec![5, b'h', b'e', b'l', b'l', b'o']);
    assert_eq!(read_lenenc_bytes(&out, 0), Some((b"hello".to_vec(), 6)));
    assert_eq!(read_lenenc_bytes(&[3, 1, 2], 0), None);
}

#[test]
fn little_endian_fields() {
    let mut out = Vec::new();
    write_le(&mut out, 0x0102_0304, 4);
    assert_eq!(out, vec![4, 3, 2, 1]);
    assert_eq!(read_u32_le(&out, 0), Some(0x0102_0304));
    assert_eq!(read_u16_le(&out, 2), Some(0x0102));
    assert_eq!(read_u16_le(&out, 3), None);
    assert_eq!(read_le(&[0xff; 8], 0, 8), Some(u64::MAX));
}

fn round_trip(len: usize) {
    let payload: Vec<u8> = (0..len).map(|i| (i % 251) as u8).collect();
    let (wire, next) = encode_packet(&payload, 0);
    let frames = len / MAX_PAYLOAD_LEN + 1;
    assert_eq!(wire.len(), len + 4 * frames);
    assert_eq!(next as usize, frames % 256);
    for i in 0..frames {
        assert_eq!(wire[i * (MAX_PAYLOAD_LEN + 4) + 3] as usize, i);
    }
    if len > 0 && len % MAX_PAYLOAD_LEN == 0 {
        let n = wire.len();
        assert_eq!(&wire[n - 4..n - 1], &[0, 0, 0]);
    }
    let mut with_rest = wire.clone();
    with_rest.extend_from_slice(&[9, 9, 9]);
    let (p, consumed, s) = decode_packet(&with_rest, 0).unwrap();
    assert!(p == payload);
    assert_eq!(consumed, wire.len());
    assert_eq!(s, next);
}

#[test]
fn frames_round_trip_small() {
    round_trip(0);
    round_trip(1);
}

#[test]
fn frames_round_trip_below_max() {
    round_trip(MAX_PAYLOAD_LEN - 1);
}

#[test]
fn frames_round_trip_exact_max() {
    round_trip(MAX_PAYLOAD_LEN);
}

#[test]
fn frames_round_trip_above_max() {
    round_trip(MAX_PAYLOAD_LEN + 1);
}

#[test]
fn frames_round_trip_twice_max() {
    round_trip(2 * MAX_PAYLOAD_LEN);
}

#[test]
fn empty_payload_is_one_empty_frame() {
    let (wire, next) = encode_packet(&[], 7);
    assert_eq!(wire, vec![0, 0, 0, 7]);
    assert_eq!(next, 8);
    let (wire, next) = encode_packet(&[1, 2], 255);
    assert_eq!(wire, vec![2, 0, 0, 255, 1, 2]);
    assert_eq!(next, 0);
}

#[test]
fn decode_detects_out_of_sync_and_incomplete() {
    assert_eq!(decode_packet(&[1, 0, 0, 3, 42], 2), Err(FrameError::OutOfSync));
    assert_eq!(decode_packet(&[1, 0, 0], 0), Err(FrameError::Incomplete));
    assert_eq!(decode_packet(&[2, 0, 0, 0, 42], 0), Err(FrameError::Incomplete));
    assert_eq!(decode_packet(&[1, 0, 0, 0, 42], 0), Ok((vec![42], 5, 1)));
}
