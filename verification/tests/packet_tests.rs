use bytes::BytesMut;
use mincraft_server::packets::{write_utf16_string, ServerPacket};

fn bytes_of(p: ServerPacket) -> Vec<u8> {
    p.to_bytes().to_vec()
}

#[test]
fn write_utf16_string_writes_code_units() {
    let mut buf = BytesMut::new();
    buf.extend_from_slice(&[0xAA]);
    write_utf16_string(&mut buf, "ab");
    assert_eq!(&buf[..], &[0xAA, 0x00, 0x02, 0x00, b'a', 0x00, b'b']);
    let mut empty = BytesMut::new();
    write_utf16_string(&mut empty, "");
    assert_eq!(&empty[..], &[0x00, 0x00]);
}

#[test]
fn write_utf16_string_non_ascii() {
    let mut buf = BytesMut::new();
    write_utf16_string(&mut buf, "\u{e9}");
    assert_eq!(&buf[..], &[0x00, 0x01, 0x00, 0xE9]);
    let mut pair = BytesMut::new();
    write_utf16_string(&mut pair, "a\u{1F600}");
    assert_eq!(&pair[..], &[0x00, 0x03, 0x00, b'a', 0xD8, 0x3D, 0xDE, 0x00]);
}

#[test]
fn keep_alive_bytes() {
    assert_eq!(bytes_of(ServerPacket::KeepAlive(0x01020304)), vec![0x00, 1, 2, 3, 4]);
    assert_eq!(bytes_of(ServerPacket::KeepAlive(-1)), vec![0x00, 0xFF, 0xFF, 0xFF, 0xFF]);
}

#[test]
fn handshake_bytes() {
    assert_eq!(bytes_of(ServerPacket::Handshake("-".to_string())), vec![0x02, 0, 1, 0, b'-']);
}

#[test]
fn login_response_bytes() {
    let p = ServerPacket::LoginResponse {
        entity_id: 1,
        level_type: String::new(),
        map_seed: 1234,
        game_mode: 0,
        dimension: 0,
        difficulty: 1,
        world_height: 127,
        max_players: 20,
    };
    let mut expected = vec![0x01, 0, 0, 0, 1, 0, 0];
    expected.extend_from_slice(&1234i64.to_be_bytes());
    expected.extend_from_slice(&0i32.to_be_bytes());
    expected.extend_from_slice(&[0, 1, 127, 20]);
    assert_eq!(bytes_of(p), expected);
    let negative = ServerPacket::LoginResponse {
        entity_id: 0xFFFF_FFFF,
        level_type: "x".to_string(),
        map_seed: -1,
        game_mode: -2,
        dimension: 255,
        difficulty: 3,
        world_height: -1,
        max_players: -128,
    };
    let mut expected = vec![0x01, 0xFF, 0xFF, 0xFF, 0xFF, 0, 1, 0, b'x'];
    expected.extend_from_slice(&[0xFF; 8]);
    expected.extend_from_slice(&(-2i32).to_be_bytes());
    expected.extend_from_slice(&[255, 3, 0xFF, 0x80]);
    assert_eq!(bytes_of(negative), expected);
}

#[test]
fn spawn_position_bytes() {
    assert_eq!(
        bytes_of(ServerPacket::SpawnPosition { x: 0, y: 64, z: -1 }),
        vec![0x06, 0, 0, 0, 0, 0, 0, 0, 64, 0xFF, 0xFF, 0xFF, 0xFF]
    );
}

#[test]
fn position_and_look_bytes() {
    let p = ServerPacket::PlayerPositionAndLook {
        x: 0.5f64.to_bits(),
        y: 65.0f64.to_bits(),
        stance: 66.62f64.to_bits(),
        z: 0.5f64.to_bits(),
        yaw: 0.0f32.to_bits(),
        pitch: 12.5f32.to_bits(),
        on_ground: true,
    };
    let mut expected = vec![0x0D];
    for v in [0.5f64, 65.0, 66.62, 0.5] {
        expected.extend_from_slice(&v.to_be_bytes());
    }
    expected.extend_from_slice(&0.0f32.to_be_bytes());
    expected.extend_from_slice(&12.5f32.to_be_bytes());
    expected.push(1);
    assert_eq!(bytes_of(p), expected);
}

#[test]
fn pre_chunk_bytes() {
    assert_eq!(
        bytes_of(ServerPacket::PreChunk { x: 1, z: -2, mode: true }),
        vec![0x32, 0, 0, 0, 1, 0xFF, 0xFF, 0xFF, 0xFE, 1]
    );
    assert_eq!(
        bytes_of(ServerPacket::PreChunk { x: 0, z: 0, mode: false }),
        vec![0x32, 0, 0, 0, 0, 0, 0, 0, 0, 0]
    );
}

#[test]
fn map_chunk_bytes() {
    let p = ServerPacket::MapChunk {
        x: 16,
        y: 0,
        z: -16,
        size_x: 15,
        size_y: 127,
        size_z: 15,
        compressed_data: vec![9, 8, 7],
    };
    assert_eq!(
        bytes_of(p),
        vec![0x33, 0, 0, 0, 16, 0, 0, 0xFF, 0xFF, 0xFF, 0xF0, 15, 127, 15, 0, 0, 0, 3, 9, 8, 7]
    );
}

#[test]
fn chat_and_player_list_bytes() {
    assert_eq!(
        bytes_of(ServerPacket::ChatMessage("a: b".to_string())),
        vec![0x03, 0, 4, 0, b'a', 0, b':', 0, b' ', 0, b'b']
    );
    assert_eq!(
        bytes_of(ServerPacket::PlayerListItem { username: "ab".to_string(), online: true, ping: -2 }),
        vec![0xC9, 0, 2, 0, b'a', 0, b'b', 1, 0xFF, 0xFE]
    );
}

#[test]
fn block_change_bytes() {
    assert_eq!(
        bytes_of(ServerPacket::BlockChange { x: 3, y: -1, z: 4, block_id: 0 }),
        vec![0x35, 0, 0, 0, 3, 0xFF, 0, 0, 0, 4, 0, 0]
    );
}

#[test]
fn entity_packet_bytes() {
    assert_eq!(bytes_of(ServerPacket::Entity(5)), vec![0x1E, 0, 0, 0, 5]);
    assert_eq!(
        bytes_of(ServerPacket::EntityRelativeMove { entity_id: 5, delta_x: 1, delta_y: 2, delta_z: 3 }),
        vec![0x1F, 0, 0, 0, 5, 1, 2, 3]
    );
    assert_eq!(
        bytes_of(ServerPacket::EntityLook { entity_id: 5, yaw: 64, pitch: 128 }),
        vec![0x20, 0, 0, 0, 5, 64, 128]
    );
    assert_eq!(
        bytes_of(ServerPacket::EntityLookAndRelativeMove {
            entity_id: 5,
            delta_x: 1,
            delta_y: 2,
            delta_z: 3,
            yaw: 4,
            pitch: 5
        }),
        vec![0x21, 0, 0, 0, 5, 1, 2, 3, 4, 5]
    );
    assert_eq!(
        bytes_of(ServerPacket::EntityTeleport { entity_id: 5, x: 32, y: 2080, z: -32, yaw: 0, pitch: 1 }),
        vec![0x22, 0, 0, 0, 5, 0, 0, 0, 32, 0, 0, 0x08, 0x20, 0xFF, 0xFF, 0xFF, 0xE0, 0, 1]
    );
}

#[test]
fn named_entity_spawn_bytes() {
    let p = ServerPacket::NamedEntitySpawn {
        entity_id: 7,
        username: "Al".to_string(),
        x: 0,
        y: 65,
        z: 0,
        yaw: 0,
        pitch: 0,
        current_item: 0x0102,
    };
    assert_eq!(
        bytes_of(p),
        vec![0x14, 0, 0, 0, 7, 0, 2, 0, b'A', 0, b'l', 0, 0, 0, 0, 0, 0, 0, 65, 0, 0, 0, 0, 0, 0, 1, 2]
    );
}
