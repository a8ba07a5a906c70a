use mincraft_server::packets::{ClientPacket, ServerPacket};
use mincraft_server::protocol::{
    parse_bool, parse_f32, parse_f64, parse_i32, parse_i64, parse_packet, parse_utf16_string,
    ParseError,
};

#[test]
fn parse_i32_reads_big_endian() {
    assert_eq!(parse_i32(&[0x00, 0x00, 0x01, 0x02, 0xFF]), Ok((4, 258)));
    assert_eq!(parse_i32(&[0xFF, 0xFF, 0xFF, 0xFE]), Ok((4, -2)));
    assert_eq!(parse_i32(&[0x00, 0x01, 0x02]), Err(ParseError::Incomplete));
}

#[test]
fn parse_i64_reads_big_endian() {
    assert_eq!(parse_i64(&[0, 0, 0, 0, 0, 0, 0x04, 0xD2]), Ok((8, 1234)));
    assert_eq!(parse_i64(&[0xFF; 8]), Ok((8, -1)));
    assert_eq!(parse_i64(&[0; 7]), Err(ParseError::Incomplete));
}

#[test]
fn parse_floats_give_their_bits() {
    let bytes = 1.5f32.to_be_bytes();
    assert_eq!(parse_f32(&bytes), Ok((4, 1.5f32.to_bits())));
    let bytes = (-66.62f64).to_be_bytes();
    assert_eq!(parse_f64(&bytes), Ok((8, (-66.62f64).to_bits())));
    assert_eq!(f64::from_bits(parse_f64(&bytes).unwrap().1), -66.62);
    assert_eq!(parse_f32(&[1, 2, 3]), Err(ParseError::Incomplete));
    assert_eq!(parse_f64(&[1, 2, 3]), Err(ParseError::Incomplete));
}

#[test]
fn parse_bool_is_nonzero_byte() {
    assert_eq!(parse_bool(&[0]), Ok((1, false)));
    assert_eq!(parse_bool(&[7, 0]), Ok((1, true)));
    assert_eq!(parse_bool(&[]), Err(ParseError::Incomplete));
}

#[test]
fn parse_utf16_string_reads_units() {
    let bytes = [0x00, 0x03, 0x00, b'a', 0x00, b'b', 0x00, 0xE9, 0xAA];
    let (n, s) = parse_utf16_string(&bytes).unwrap();
    assert_eq!(n, 8);
    assert_eq!(s, "ab\u{e9}");
    assert_eq!(parse_utf16_string(&[0x00, 0x02, 0x00, b'a']), Err(ParseError::Incomplete));
    assert_eq!(parse_utf16_string(&[0x00]), Err(ParseError::Incomplete));
    // A lone surrogate becomes the replacement character.
    let (_, s) = parse_utf16_string(&[0x00, 0x01, 0xD8, 0x00]).unwrap();
    assert_eq!(s, "\u{fffd}");
}

#[test]
fn parse_packet_keep_alive() {
    assert_eq!(
        parse_packet(&[0x00, 0x00, 0x00, 0x00, 0x2A, 0x99]),
        Ok((5, ClientPacket::KeepAlive(42)))
    );
    assert_eq!(parse_packet(&[0x00, 0x00, 0x00]), Err(ParseError::Incomplete));
    assert_eq!(parse_packet(&[]), Err(ParseError::Incomplete));
}

#[test]
fn parse_packet_handshake() {
    let bytes = [0x02, 0x00, 0x02, 0x00, b'h', 0x00, b'i'];
    assert_eq!(parse_packet(&bytes), Ok((7, ClientPacket::Handshake("hi".to_string()))));
    assert_eq!(parse_packet(&bytes[..6]), Err(ParseError::Incomplete));
}

#[test]
fn parse_packet_login_request() {
    let mut bytes = vec![0x01, 0x00, 0x00, 0x00, 0x11, 0x00, 0x02, 0x00, b'n', 0x00, b'o'];
    bytes.extend_from_slice(&(-5i64).to_be_bytes());
    bytes.push(0xFF);
    let expected = ClientPacket::LoginRequest {
        protocol_version: 17,
        username: "no".to_string(),
        map_seed: -5,
        dimension: -1,
    };
    assert_eq!(parse_packet(&bytes), Ok((bytes.len(), expected)));
    assert_eq!(parse_packet(&bytes[..bytes.len() - 1]), Err(ParseError::Incomplete));
}

#[test]
fn parse_packet_position() {
    let mut bytes = vec![0x0B];
    for v in [1.0f64, 65.5, 67.12, -3.25] {
        bytes.extend_from_slice(&v.to_be_bytes());
    }
    bytes.push(1);
    let expected = ClientPacket::PlayerPosition {
        x: 1.0f64.to_bits(),
        y: 65.5f64.to_bits(),
        stance: 67.12f64.to_bits(),
        z: (-3.25f64).to_bits(),
        on_ground: true,
    };
    assert_eq!(parse_packet(&bytes), Ok((34, expected)));
    assert_eq!(parse_packet(&bytes[..33]), Err(ParseError::Incomplete));
}

#[test]
fn parse_packet_position_and_look() {
    let mut bytes = vec![0x0D];
    for v in [8.5f64, 64.0, 65.62, 16.25] {
        bytes.extend_from_slice(&v.to_be_bytes());
    }
    bytes.extend_from_slice(&90.0f32.to_be_bytes());
    bytes.extend_from_slice(&(-45.0f32).to_be_bytes());
    bytes.push(0);
    let expected = ClientPacket::PlayerPositionAndLook {
        x: 8.5f64.to_bits(),
        y: 64.0f64.to_bits(),
        stance: 65.62f64.to_bits(),
        z: 16.25f64.to_bits(),
        yaw: 90.0f32.to_bits(),
        pitch: (-45.0f32).to_bits(),
        on_ground: false,
    };
    assert_eq!(parse_packet(&bytes), Ok((42, expected)));
    assert_eq!(parse_packet(&bytes[..41]), Err(ParseError::Incomplete));
}

#[test]
fn parse_packet_unknown_id() {
    assert_eq!(parse_packet(&[0x03, 0x00]), Err(ParseError::UnknownPacketId(0x03)));
    assert_eq!(parse_packet(&[0xFE]), Err(ParseError::UnknownPacketId(0xFE)));
}

#[test]
fn parse_packet_prefix_stable_on_concrete_bytes() {
    let bytes = [0x00, 0x00, 0x00, 0x00, 0x07];
    let mut longer = bytes.to_vec();
    longer.extend_from_slice(&[0x02, 0x00]);
    assert_eq!(parse_packet(&bytes), parse_packet(&longer));
}

#[test]
fn keep_alive_round_trip() {
    for v in [0, 1, -1, i32::MAX, i32::MIN, 123456] {
        let bytes = ServerPacket::KeepAlive(v).to_bytes();
        assert_eq!(parse_packet(&bytes[..]), Ok((5, ClientPacket::KeepAlive(v))));
    }
}

#[test]
fn handshake_round_trip_ascii() {
    let bytes = ServerPacket::Handshake("Steve-1".to_string()).to_bytes();
    assert_eq!(
        parse_packet(&bytes[..]),
        Ok((3 + 2 * 7, ClientPacket::Handshake("Steve-1".to_string())))
    );
}

#[test]
fn handshake_round_trip_non_ascii() {
    let bytes = ServerPacket::Handshake("\u{e9}".to_string()).to_bytes();
    assert_eq!(&bytes[..], &[0x02, 0x00, 0x01, 0x00, 0xE9]);
    assert_eq!(
        parse_packet(&bytes[..]),
        Ok((5, ClientPacket::Handshake("\u{e9}".to_string())))
    );
    let bytes = ServerPacket::Handshake("x\u{1F600}".to_string()).to_bytes();
    assert_eq!(&bytes[..], &[0x02, 0x00, 0x03, 0x00, b'x', 0xD8, 0x3D, 0xDE, 0x00]);
    assert_eq!(
        parse_packet(&bytes[..]),
        Ok((9, ClientPacket::Handshake("x\u{1F600}".to_string())))
    );
}

#[test]
fn round_trip_keeps_trailing_bytes() {
    let mut bytes = ServerPacket::KeepAlive(-7).to_bytes().to_vec();
    bytes.extend_from_slice(&[0x00, 0x01]);
    assert_eq!(parse_packet(&bytes), Ok((5, ClientPacket::KeepAlive(-7))));
}

#[test]
fn position_and_look_round_trip_with_trailing_bytes() {
    let sent = ServerPacket::PlayerPositionAndLook {
        x: 8.5f64.to_bits(),
        y: 64.0f64.to_bits(),
        stance: 65.62f64.to_bits(),
        z: (-16.25f64).to_bits(),
        yaw: 90.0f32.to_bits(),
        pitch: (-45.0f32).to_bits(),
        on_ground: true,
    };
    let mut bytes = sent.to_bytes().to_vec();
    assert_eq!(bytes.len(), 42);
    bytes.extend_from_slice(&[0x0D, 0xFF]);
    let expected = ClientPacket::PlayerPositionAndLook {
        x: 8.5f64.to_bits(),
        y: 64.0f64.to_bits(),
        stance: 65.62f64.to_bits(),
        z: (-16.25f64).to_bits(),
        yaw: 90.0f32.to_bits(),
        pitch: (-45.0f32).to_bits(),
        on_ground: true,
    };
    assert_eq!(parse_packet(&bytes), Ok((42, expected)));
}

#[test]
fn every_proper_prefix_is_incomplete() {
    let encodings = vec![
        ServerPacket::KeepAlive(5).to_bytes().to_vec(),
        ServerPacket::Handshake("Alex".to_string()).to_bytes().to_vec(),
        ServerPacket::PlayerPositionAndLook {
            x: 1.0f64.to_bits(),
            y: 2.0f64.to_bits(),
            stance: 3.0f64.to_bits(),
            z: 4.0f64.to_bits(),
            yaw: 5.0f32.to_bits(),
            pitch: 6.0f32.to_bits(),
            on_ground: false,
        }
        .to_bytes()
        .to_vec(),
    ];
    for e in encodings {
        for k in 0..e.len() {
            assert_eq!(parse_packet(&e[..k]), Err(ParseError::Incomplete));
        }
    }
}
