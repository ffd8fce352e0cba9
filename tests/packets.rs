use mysql_core::packets::{EOFPacket, ErrPacket, HandshakePacket, OkPacket};

#[test]
fn test_ok_packet() {
    let payload = [0u8, 1u8, 2u8, 3u8, 0u8, 4u8, 0u8, 32u8];
    let ok_packet = OkPacket::from_payload(&payload);
    assert!(ok_packet.is_ok());
    let ok_packet = ok_packet.unwrap();
    assert!(ok_packet.affected_rows == 1);
    assert!(ok_packet.last_insert_id == 2);
    assert!(ok_packet.status_flags == 3);
    assert!(ok_packet.warnings == 4);
    assert!(ok_packet.info == vec![32u8]);
}

#[test]
fn test_err_packet() {
    let payload = [255u8, 1u8, 0u8, 35u8, 51u8, 68u8, 48u8, 48u8, 48u8, 32u8, 32u8];
    let err_packet = ErrPacket::from_payload(&payload);
    assert!(err_packet.is_ok());
    let err_packet = err_packet.unwrap();
    assert!(err_packet.error_code == 1);
    assert!(err_packet.sql_state == vec![51u8, 68u8, 48u8, 48u8, 48u8]);
    assert!(err_packet.error_message == vec![32u8, 32u8]);
}

#[test]
fn test_eof_packet() {
    let payload = [0xfe_u8, 1u8, 0u8, 2u8, 0u8];
    let eof_packet = EOFPacket::from_payload(&payload);
    assert!(eof_packet.is_ok());
    let eof_packet = eof_packet.unwrap();
    assert!(eof_packet.warnings == 1);
    assert!(eof_packet.status_flags == 2);
}

#[test]
fn test_handshake_packet() {
    let payload = vec![
        0x0a_u8, 32u8, 32u8, 32u8, 32u8, 0u8, 1u8, 0u8, 0u8, 0u8, 1u8, 2u8, 3u8, 4u8, 5u8, 6u8, 7u8,
        8u8, 0u8, 3u8, 0x80_u8,
    ];
    let handshake_packet = HandshakePacket::from_payload(&payload);
    assert!(handshake_packet.is_ok());
    let handshake_packet = handshake_packet.unwrap();
    assert!(handshake_packet.protocol_version == 0x0a);
    assert!(handshake_packet.connection_id == 1);
    assert!(handshake_packet.auth_plugin_data == vec![1u8, 2u8, 3u8, 4u8, 5u8, 6u8, 7u8, 8u8]);
    assert!(handshake_packet.capability_flags == 0x00008003);
    let mut payload = payload.clone();
    payload.push(33u8);
    payload.extend_from_slice(&[4u8, 0u8]);
    payload.extend_from_slice(&[0x08_u8, 0u8]);
    payload.extend_from_slice(&[0x15_u8]);
    payload.extend_from_slice(&[0u8; 10]);
    payload.extend_from_slice(&[
        0x26_u8, 0x3a_u8, 0x34_u8, 0x34_u8, 0x46_u8, 0x44_u8, 0x63_u8, 0x44_u8, 0x69_u8, 0x63_u8,
        0x39_u8, 0x30_u8, 0x00_u8,
    ]);
    payload.extend_from_slice(&[1u8, 2u8, 3u8, 4u8, 5u8, 0u8]);
    let handshake_packet = HandshakePacket::from_payload(&payload);
    assert!(handshake_packet.is_ok());
    let handshake_packet = handshake_packet.unwrap();
    assert!(handshake_packet.protocol_version == 0x0a);
    assert!(handshake_packet.connection_id == 1);
    assert!(
        handshake_packet.auth_plugin_data
            == vec![
                1u8, 2u8, 3u8, 4u8, 5u8, 6u8, 7u8, 8u8, 0x26_u8, 0x3a_u8, 0x34_u8, 0x34_u8, 0x46_u8,
                0x44_u8, 0x63_u8, 0x44_u8, 0x69_u8, 0x63_u8, 0x39_u8, 0x30_u8
            ]
    );
    assert!(handshake_packet.capability_flags == 0x00088003);
    assert!(handshake_packet.character_set == 33);
    assert!(handshake_packet.status_flags == 4);
    assert!(handshake_packet.auth_plugin_name == vec![1u8, 2u8, 3u8, 4u8, 5u8]);
}
