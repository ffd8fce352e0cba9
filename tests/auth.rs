use mysql_core::auth::{handshake_response_payload, scramble, scramble_from_digests};
use mysql_core::consts::{CLIENT_CONNECT_WITH_DB, CLIENT_LONG_FLAG};

#[test]
fn scramble_matches_native_password_algorithm() {
    let seed: Vec<u8> = (1u8..=20).collect();
    let r = scramble(&seed, b"password");
    assert_eq!(
        r,
        vec![193, 125, 96, 9, 165, 203, 71, 229, 159, 116, 131, 252, 240, 85, 83, 187, 191, 125, 208, 214]
    );
}

#[test]
fn empty_password_gives_empty_scramble() {
    assert!(scramble(&[1, 2, 3], b"").is_empty());
}

#[test]
fn scramble_xor_of_digests() {
    assert_eq!(scramble_from_digests(&[0xff, 0x0f], &[0x0f, 0x0f, 0x55]), vec![0xf0, 0x00]);
}

#[test]
fn handshake_response_layout() {
    let r = handshake_response_payload(CLIENT_LONG_FLAG, b"root", &[9; 20], b"");
    let flags = u32::from_le_bytes([r[0], r[1], r[2], r[3]]);
    assert_eq!(flags, 0x0000_a285 | CLIENT_LONG_FLAG);
    assert_eq!(&r[4..8], &[0, 0, 0, 0]);
    assert_eq!(r[8], 33);
    assert_eq!(&r[9..32], &[0u8; 23][..]);
    assert_eq!(&r[32..37], b"root\0");
    assert_eq!(r[37], 20);
    assert_eq!(&r[38..58], &[9u8; 20][..]);
    assert_eq!(r.len(), 58);
    let r = handshake_response_payload(0, b"u", &[], b"mysql");
    let flags = u32::from_le_bytes([r[0], r[1], r[2], r[3]]);
    assert!(flags & CLIENT_CONNECT_WITH_DB != 0);
    assert_eq!(&r[32..], b"u\0\0mysql\0");
}
