use mincraft_server::chunk_manager::ChunkPos;
use mincraft_server::packets::{ClientPacket, ServerPacket};
use mincraft_server::player::Player;
use mincraft_server::server::{
    chat_line, decode_stream, initial_chunks, login_response, look_packet, map_chunk_packet,
    movement_packet, named_entity_spawn, player_list_packet, pre_chunk_packet, respond_to_packet,
    spawn_chunk, spawn_look_packet, spawn_position_packet, unload_packets, Reply,
};
use mincraft_server::server::{chunk_after_move, login_steps, LoginStep};

#[test]
fn new_player_state() {
    let p = Player::new();
    assert_eq!(p.get_username(), None);
    assert_eq!(p.entity_id, None);
    assert_eq!(p.next_keepalive_id, 1);
    assert!(p.pending_keepalive.is_empty());
    assert_eq!(p.ping(), 0);
}

#[test]
fn keepalive_measures_latency() {
    let mut p = Player::new();
    let id = p.start_latency_measurement(1000);
    assert_eq!(id, 1);
    assert_eq!(p.next_keepalive_id, 2);
    assert_eq!(p.pending_keepalive.get(&1), Some(&1000));
    assert_eq!(p.answer_keepalive(1, 1042), Some(42));
    assert!(p.pending_keepalive.is_empty());
    assert_eq!(p.last_latency, Some(42));
    assert_eq!(p.ping(), 42);
    // An answer that is not pending changes nothing.
    assert_eq!(p.answer_keepalive(1, 2000), None);
    assert_eq!(p.ping(), 42);
}

#[test]
fn keepalive_ids_wrap() {
    let mut p = Player::new();
    p.next_keepalive_id = i32::MAX;
    assert_eq!(p.start_latency_measurement(0), i32::MAX);
    assert_eq!(p.next_keepalive_id, i32::MIN);
    p.cancel_keepalive(i32::MAX);
    assert!(p.pending_keepalive.is_empty());
    assert_eq!(p.get_next_keepalive_id(), i32::MIN);
    assert_eq!(p.next_keepalive_id, i32::MIN + 1);
}

#[test]
fn keepalive_latency_wraps_to_16_bits() {
    let mut p = Player::new();
    let id = p.start_latency_measurement(0);
    assert_eq!(p.answer_keepalive(id, 40000), Some(40000u64 as i16));
    assert_eq!(p.last_latency, Some((40000u64 as i16) as u64));
    assert_eq!(p.ping(), 40000u64 as i16);
    let id = p.start_latency_measurement(500);
    // An answer stamped before the send counts as no time.
    assert_eq!(p.answer_keepalive(id, 100), Some(0));
}

#[test]
fn username_and_entity() {
    let mut p = Player::new();
    p.set_username("Notch".to_string());
    assert_eq!(p.get_username(), Some("Notch".to_string()));
    let id = p.assign_entity_id();
    assert_eq!(p.entity_id, Some(id));
}

#[test]
fn decode_stream_splits_packets() {
    let mut buf = vec![0x00, 0, 0, 0, 1, 0x02, 0, 1, 0, b'x', 0x00, 0, 0];
    let (packets, used) = decode_stream(&buf);
    assert_eq!(packets, vec![ClientPacket::KeepAlive(1), ClientPacket::Handshake("x".to_string())]);
    assert_eq!(used, 10);
    buf.push(0);
    buf.push(2);
    let (packets, used) = decode_stream(&buf[10..]);
    assert_eq!(packets, vec![ClientPacket::KeepAlive(2)]);
    assert_eq!(used, 5);
}

#[test]
fn decode_stream_drops_unreadable() {
    let buf = vec![0x00, 0, 0, 0, 1, 0x03, 0, 0];
    let (packets, used) = decode_stream(&buf);
    assert_eq!(packets, vec![ClientPacket::KeepAlive(1)]);
    assert_eq!(used, buf.len());
    assert_eq!(decode_stream(&[]), (vec![], 0));
}

#[test]
fn respond_to_packets() {
    let mut p = Player::new();
    assert_eq!(
        respond_to_packet(&mut p, &ClientPacket::Handshake("Steve".to_string()), 0),
        Reply::Send(ServerPacket::Handshake("-".to_string()))
    );
    let login = ClientPacket::LoginRequest {
        protocol_version: 17,
        username: "Steve".to_string(),
        map_seed: 0,
        dimension: 0,
    };
    assert_eq!(respond_to_packet(&mut p, &login, 0), Reply::Login);
    assert_eq!(p.get_username(), Some("Steve".to_string()));
    assert_eq!(
        respond_to_packet(&mut p, &ClientPacket::ChatMessage("hi".to_string()), 0),
        Reply::Broadcast { packet: ServerPacket::ChatMessage("Steve: hi".to_string()), include_self: true }
    );
    let id = p.start_latency_measurement(10);
    assert_eq!(respond_to_packet(&mut p, &ClientPacket::KeepAlive(id), 25), Reply::Ignore);
    assert_eq!(p.ping(), 15);
    let dig = ClientPacket::PlayerDigging { status: 0, x: 1, y: 60, z: -2, face: 1 };
    assert_eq!(
        respond_to_packet(&mut p, &dig, 0),
        Reply::Send(ServerPacket::BlockChange { x: 1, y: 60, z: -2, block_id: 0 })
    );
    let finish = ClientPacket::PlayerDigging { status: 2, x: 1, y: 60, z: -2, face: 1 };
    assert_eq!(respond_to_packet(&mut p, &finish, 0), Reply::Ignore);
    assert_eq!(
        respond_to_packet(&mut p, &ClientPacket::PlayerLook { yaw: 5, pitch: 6, on_ground: true }, 0),
        Reply::Look { yaw: 5, pitch: 6 }
    );
    let mv = ClientPacket::PlayerPositionAndLook { x: 1, y: 2, stance: 3, z: 4, yaw: 5, pitch: 6, on_ground: false };
    assert_eq!(respond_to_packet(&mut p, &mv, 0), Reply::Move { x: 1, y: 2, z: 4, yaw: 5, pitch: 6 });
    assert_eq!(respond_to_packet(&mut p, &ClientPacket::Disconnect("bye".to_string()), 0), Reply::Disconnect);
    assert_eq!(respond_to_packet(&mut p, &ClientPacket::HoldingChange { slot: 2 }, 0), Reply::Ignore);
    assert_eq!(respond_to_packet(&mut p, &ClientPacket::Player { on_ground: true }, 0), Reply::Ignore);
}

#[test]
fn chat_line_without_name() {
    assert_eq!(chat_line(&None, "hello"), ": hello");
    assert_eq!(chat_line(&Some("a".to_string()), ""), "a: ");
}

#[test]
fn movement_packets() {
    assert_eq!(
        movement_packet(Some(9), 1, 2, 3, 100, 200, 300, 10, 20),
        ServerPacket::EntityLookAndRelativeMove { entity_id: 9, delta_x: 1, delta_y: 2, delta_z: 3, yaw: 10, pitch: 20 }
    );
    assert_eq!(
        movement_packet(Some(9), -3, 0, -1, 100, 200, 300, 10, 20),
        ServerPacket::EntityLookAndRelativeMove { entity_id: 9, delta_x: 0xFD, delta_y: 0, delta_z: 0xFF, yaw: 10, pitch: 20 }
    );
    assert_eq!(
        movement_packet(None, 4, 0, 0, 100, 200, 300, 10, 20),
        ServerPacket::EntityTeleport { entity_id: 0, x: 100, y: 200, z: 300, yaw: 10, pitch: 20 }
    );
    assert_eq!(
        movement_packet(None, 0, -4, 0, 100, 200, 300, 10, 20),
        ServerPacket::EntityTeleport { entity_id: 0, x: 100, y: 200, z: 300, yaw: 10, pitch: 20 }
    );
    // A large move is a teleport whether or not the player turned.
    assert_eq!(
        movement_packet(Some(9), 40, 0, 0, 100, 200, 300, 64, 20),
        ServerPacket::EntityTeleport { entity_id: 9, x: 100, y: 200, z: 300, yaw: 64, pitch: 20 }
    );
    assert_eq!(look_packet(None, 3, 4), ServerPacket::EntityLook { entity_id: 0, yaw: 3, pitch: 4 });
}

#[test]
fn chunk_after_move_reports_crossing() {
    let origin = ChunkPos::new(0, 0);
    assert_eq!(chunk_after_move(origin, 15, 0), (origin, false));
    assert_eq!(chunk_after_move(origin, 16, 3), (ChunkPos::new(1, 0), true));
    assert_eq!(chunk_after_move(origin, -1, 0), (ChunkPos::new(-1, 0), true));
    assert_eq!(chunk_after_move(ChunkPos::new(-1, -2), -16, -17), (ChunkPos::new(-1, -2), false));
}

#[test]
fn login_packets() {
    assert_eq!(
        login_response(),
        ServerPacket::LoginResponse {
            entity_id: 1,
            level_type: String::new(),
            map_seed: 1234,
            game_mode: 0,
            dimension: 0,
            difficulty: 1,
            world_height: 127,
            max_players: 20
        }
    );
    assert_eq!(spawn_position_packet(), ServerPacket::SpawnPosition { x: 0, y: 64, z: 0 });
    assert_eq!(spawn_chunk(), ChunkPos::new(0, 0));
    let chunks = initial_chunks();
    assert_eq!(chunks.len(), 81);
    assert_eq!(chunks[0], ChunkPos::new(-4, -4));
    assert_eq!(
        spawn_look_packet(),
        ServerPacket::PlayerPositionAndLook {
            x: 0.5f64.to_bits(),
            y: 65.0f64.to_bits(),
            stance: 66.62f64.to_bits(),
            z: 0.5f64.to_bits(),
            yaw: 0.0f32.to_bits(),
            pitch: 0.0f32.to_bits(),
            on_ground: false
        }
    );
    assert_eq!(
        named_entity_spawn(Some(3), "Al".to_string(), 0, 65, 0),
        ServerPacket::NamedEntitySpawn { entity_id: 3, username: "Al".to_string(), x: 0, y: 65, z: 0, yaw: 0, pitch: 0, current_item: 0 }
    );
}

#[test]
fn chunk_stream_packets() {
    assert_eq!(pre_chunk_packet(ChunkPos::new(1, 2), true), ServerPacket::PreChunk { x: 1, z: 2, mode: true });
    assert_eq!(
        map_chunk_packet(-1, 2, vec![1, 2]),
        ServerPacket::MapChunk { x: -16, y: 0, z: 32, size_x: 15, size_y: 127, size_z: 15, compressed_data: vec![1, 2] }
    );
    let packets = unload_packets(ChunkPos::new(0, 0), ChunkPos::new(1, 0));
    assert_eq!(packets.len(), 9);
    assert_eq!(packets[0], ServerPacket::PreChunk { x: -4, z: -4, mode: false });
    assert_eq!(packets[8], ServerPacket::PreChunk { x: -4, z: 4, mode: false });
}

#[test]
fn player_list_entries() {
    let mut p = Player::new();
    assert_eq!(player_list_packet(&p), None);
    p.set_username("Al".to_string());
    assert_eq!(
        player_list_packet(&p),
        Some(ServerPacket::PlayerListItem { username: "Al".to_string(), online: true, ping: 0 })
    );
}

/// Reads `stream` in pieces cut at `cuts`, decoding after each piece as a
/// connection does; gives the packets and what stays in the buffer.
fn read_in_pieces(stream: &[u8], cuts: &[usize]) -> (Vec<ClientPacket>, Vec<u8>) {
    let mut buffer: Vec<u8> = Vec::new();
    let mut packets = Vec::new();
    let mut start = 0;
    let mut ends: Vec<usize> = cuts.to_vec();
    ends.push(stream.len());
    for end in ends {
        buffer.extend_from_slice(&stream[start..end]);
        start = end;
        let (read, used) = decode_stream(&buffer);
        packets.extend(read);
        buffer.drain(..used);
    }
    (packets, buffer)
}

#[test]
fn decode_stream_same_packets_however_cut() {
    let mut stream = ServerPacket::KeepAlive(7).to_bytes().to_vec();
    stream.extend_from_slice(&ServerPacket::Handshake("Al\u{e9}".to_string()).to_bytes());
    stream.extend_from_slice(&[0x0B]);
    for v in [1.0f64, 2.0, 3.5, 4.0] {
        stream.extend_from_slice(&v.to_be_bytes());
    }
    stream.push(1);
    stream.extend_from_slice(&[0x00, 0x00]);
    let (whole, used) = decode_stream(&stream);
    assert_eq!(
        whole,
        vec![
            ClientPacket::KeepAlive(7),
            ClientPacket::Handshake("Al\u{e9}".to_string()),
            ClientPacket::PlayerPosition {
                x: 1.0f64.to_bits(),
                y: 2.0f64.to_bits(),
                stance: 3.5f64.to_bits(),
                z: 4.0f64.to_bits(),
                on_ground: true,
            },
        ]
    );
    assert_eq!(used, stream.len() - 2);
    for a in 0..=stream.len() {
        for b in a..=stream.len() {
            let (packets, left) = read_in_pieces(&stream, &[a, b]);
            assert_eq!(packets, whole);
            assert_eq!(left, vec![0x00, 0x00]);
        }
    }
}

#[test]
fn login_steps_in_order() {
    let steps = login_steps();
    assert_eq!(steps.len(), 2 + 81 + 7);
    assert_eq!(steps[0], LoginStep::SendLoginResponse);
    assert_eq!(steps[1], LoginStep::SendSpawnPosition);
    assert_eq!(steps[2], LoginStep::SendChunk(ChunkPos::new(-4, -4)));
    assert_eq!(steps[3], LoginStep::SendChunk(ChunkPos::new(-4, -3)));
    assert_eq!(steps[82], LoginStep::SendChunk(ChunkPos::new(4, 4)));
    assert_eq!(
        &steps[83..],
        &[
            LoginStep::PlaceAtSpawn,
            LoginStep::StartPrefetch,
            LoginStep::SendSpawnLook,
            LoginStep::AssignEntityId,
            LoginStep::ShowOtherPlayers,
            LoginStep::Register,
            LoginStep::BroadcastSpawn,
        ]
    );
}
