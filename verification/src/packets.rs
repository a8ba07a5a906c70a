//! The packets of the protocol: those a client sends and those the server sends.
//!
//! Floating-point fields are carried as their IEEE-754 bit patterns: the
//! library only moves them between the wire and its callers.

use vstd::prelude::*;

use bytes::BytesMut;

use crate::buffer::{bytes_mut_contents, bytes_mut_extend, bytes_mut_new};
use crate::codec::{be_i16, be_i32, be_i64, be_u16, be_u32, be_u64, i16_to_be, i32_to_be, i64_to_be, u16_to_be, u32_to_be, u64_to_be};
use crate::packet_ids;
use crate::text::{encode_utf16, utf16_encode};

verus! {

/// Packets sent from the client to the server.
#[derive(Debug, Clone, PartialEq, Eq)]
pub enum ClientPacket {
    KeepAlive(i32),
    Handshake(String),
    LoginRequest { protocol_version: i32, username: String, map_seed: i64, dimension: i8 },
    ChatMessage(String),
    Player { on_ground: bool },
    /// `x`, `y`, `stance`, `z`: bits of `f64` values.
    PlayerPosition { x: u64, y: u64, stance: u64, z: u64, on_ground: bool },
    /// `yaw`, `pitch`: bits of `f32` values.
    PlayerLook { yaw: u32, pitch: u32, on_ground: bool },
    /// `x`, `y`, `stance`, `z`: bits of `f64` values; `yaw`, `pitch`: bits of `f32` values.
    PlayerPositionAndLook {
        x: u64,
        y: u64,
        stance: u64,
        z: u64,
        yaw: u32,
        pitch: u32,
        on_ground: bool,
    },
    PlayerDigging { status: i8, x: i32, y: i8, z: i32, face: i8 },
    PlayerBlockPlacement { x: i32, y: i8, z: i32, direction: i8, held_item: i16 },
    HoldingChange { slot: i16 },
    Animation { entity_id: i32, animation: i8 },
    EntityAction { entity_id: i32, action: i8 },
    Disconnect(String),
}

/// A client packet with its text as sequences of characters.
pub enum ClientPacketView {
    KeepAlive(i32),
    Handshake(Seq<char>),
    LoginRequest { protocol_version: i32, username: Seq<char>, map_seed: i64, dimension: i8 },
    ChatMessage(Seq<char>),
    Player { on_ground: bool },
    PlayerPosition { x: u64, y: u64, stance: u64, z: u64, on_ground: bool },
    PlayerLook { yaw: u32, pitch: u32, on_ground: bool },
    PlayerPositionAndLook {
        x: u64,
        y: u64,
        stance: u64,
        z: u64,
        yaw: u32,
        pitch: u32,
        on_ground: bool,
    },
    PlayerDigging { status: i8, x: i32, y: i8, z: i32, face: i8 },
    PlayerBlockPlacement { x: i32, y: i8, z: i32, direction: i8, held_item: i16 },
    HoldingChange { slot: i16 },
    Animation { entity_id: i32, animation: i8 },
    EntityAction { entity_id: i32, action: i8 },
    Disconnect(Seq<char>),
}

impl View for ClientPacket {
    type V = ClientPacketView;

    open spec fn view(&self) -> ClientPacketView {
        match self {
            ClientPacket::KeepAlive(v) => ClientPacketView::KeepAlive(*v),
            ClientPacket::Handshake(s) => ClientPacketView::Handshake(s@),
            ClientPacket::LoginRequest { protocol_version, username, map_seed, dimension } =>
                ClientPacketView::LoginRequest {
                protocol_version: *protocol_version,
                username: username@,
                map_seed: *map_seed,
                dimension: *dimension,
            },
            ClientPacket::ChatMessage(s) => ClientPacketView::ChatMessage(s@),
            ClientPacket::Player { on_ground } => ClientPacketView::Player { on_ground: *on_ground },
            ClientPacket::PlayerPosition { x, y, stance, z, on_ground } =>
                ClientPacketView::PlayerPosition {
                x: *x,
                y: *y,
                stance: *stance,
                z: *z,
                on_ground: *on_ground,
            },
            ClientPacket::PlayerLook { yaw, pitch, on_ground } => ClientPacketView::PlayerLook {
                yaw: *yaw,
                pitch: *pitch,
                on_ground: *on_ground,
            },
            ClientPacket::PlayerPositionAndLook { x, y, stance, z, yaw, pitch, on_ground } =>
                ClientPacketView::PlayerPositionAndLook {
                x: *x,
                y: *y,
                stance: *stance,
                z: *z,
                yaw: *yaw,
                pitch: *pitch,
                on_ground: *on_ground,
            },
            ClientPacket::PlayerDigging { status, x, y, z, face } =>
                ClientPacketView::PlayerDigging {
                status: *status,
                x: *x,
                y: *y,
                z: *z,
                face: *face,
            },
            ClientPacket::PlayerBlockPlacement { x, y, z, direction, held_item } =>
                ClientPacketView::PlayerBlockPlacement {
                x: *x,
                y: *y,
                z: *z,
                direction: *direction,
                held_item: *held_item,
            },
            ClientPacket::HoldingChange { slot } => ClientPacketView::HoldingChange { slot: *slot },
            ClientPacket::Animation { entity_id, animation } => ClientPacketView::Animation {
                entity_id: *entity_id,
                animation: *animation,
            },
            ClientPacket::EntityAction { entity_id, action } => ClientPacketView::EntityAction {
                entity_id: *entity_id,
                action: *action,
            },
            ClientPacket::Disconnect(s) => ClientPacketView::Disconnect(s@),
        }
    }
}


/// Packets sent from the server to the client.
#[derive(Debug, Clone, PartialEq, Eq)]
pub enum ServerPacket {
    KeepAlive(i32),
    Handshake(String),
    LoginResponse {
        entity_id: u32,
        level_type: String,
        map_seed: i64,
        game_mode: i32,
        dimension: u8,
        difficulty: u8,
        world_height: i8,
        max_players: i8,
    },
    SpawnPosition { x: i32, y: i32, z: i32 },
    /// Forces the client to update the player's position and look (e.g. after
    /// teleportation). `x`, `y`, `stance`, `z`: bits of `f64` values; `yaw`,
    /// `pitch`: bits of `f32` values.
    PlayerPositionAndLook {
        x: u64,
        y: u64,
        stance: u64,
        z: u64,
        yaw: u32,
        pitch: u32,
        on_ground: bool,
    },
    PreChunk { x: i32, z: i32, mode: bool },
    MapChunk {
        x: i32,
        y: i16,
        z: i32,
        size_x: u8,
        size_y: u8,
        size_z: u8,
        compressed_data: Vec<u8>,
    },
    ChatMessage(String),
    PlayerListItem { username: String, online: bool, ping: i16 },
    BlockChange { x: i32, y: i8, z: i32, block_id: u8 },
    NamedEntitySpawn {
        entity_id: i32,
        username: String,
        x: i32,
        y: i32,
        z: i32,
        yaw: u8,
        pitch: u8,
        current_item: i16,
    },
    Entity(i32),
    EntityRelativeMove { entity_id: i32, delta_x: u8, delta_y: u8, delta_z: u8 },
    EntityLook { entity_id: i32, yaw: u8, pitch: u8 },
    EntityLookAndRelativeMove {
        entity_id: i32,
        delta_x: u8,
        delta_y: u8,
        delta_z: u8,
        yaw: u8,
        pitch: u8,
    },
    EntityTeleport { entity_id: i32, x: i32, y: i32, z: i32, yaw: u8, pitch: u8 },
}

/// The big-endian bytes of each code unit, in order.
pub open spec fn units_be(u: Seq<u16>) -> Seq<u8> {
    Seq::new(
        2 * u.len(),
        |i: int| if i % 2 == 0 { (u[i / 2] / 0x100) as u8 } else { (u[i / 2] % 0x100) as u8 },
    )
}

/// A text field on the wire: the number of UTF-16 code units of the text
/// (modulo 2^16, as a big-endian 16-bit value), then each unit big-endian.
pub open spec fn text_field(s: Seq<char>) -> Seq<u8> {
    let u = utf16_encode(s);
    be_u16((u.len() % 0x10000) as u16) + units_be(u)
}

/// One byte for a boolean: 1 for true, 0 for false.
pub open spec fn bool_byte(b: bool) -> u8 {
    if b { 1u8 } else { 0u8 }
}

/// The bytes that stand for a server packet on the wire.
pub open spec fn server_packet_bytes(p: ServerPacket) -> Seq<u8> {
    match p {
        ServerPacket::KeepAlive(value) => seq![packet_ids::KEEP_ALIVE] + be_i32(value),
        ServerPacket::Handshake(hash) => seq![packet_ids::HANDSHAKE] + text_field(hash@),
        ServerPacket::LoginResponse {
            entity_id,
            level_type,
            map_seed,
            game_mode,
            dimension,
            difficulty,
            world_height,
            max_players,
        } => seq![packet_ids::LOGIN_REQUEST] + be_u32(entity_id) + text_field(level_type@)
            + be_i64(map_seed) + be_i32(game_mode) + seq![
            dimension,
            difficulty,
            world_height as u8,
            max_players as u8,
        ],
        ServerPacket::SpawnPosition { x, y, z } => seq![packet_ids::SPAWN_POSITION] + be_i32(x)
            + be_i32(y) + be_i32(z),
        ServerPacket::PlayerPositionAndLook { x, y, stance, z, yaw, pitch, on_ground } =>
            seq![packet_ids::PLAYER_POSITION_AND_LOOK] + be_u64(x) + be_u64(y) + be_u64(stance)
            + be_u64(z) + be_u32(yaw) + be_u32(pitch) + seq![bool_byte(on_ground)],
        ServerPacket::PreChunk { x, z, mode } => seq![packet_ids::PRE_CHUNK] + be_i32(x) + be_i32(
            z,
        ) + seq![bool_byte(mode)],
        ServerPacket::MapChunk { x, y, z, size_x, size_y, size_z, compressed_data } =>
            seq![packet_ids::MAP_CHUNK] + be_i32(x) + be_i16(y) + be_i32(z) + seq![
            size_x,
            size_y,
            size_z,
        ] + be_i32(compressed_data@.len() as i32) + compressed_data@,
        ServerPacket::ChatMessage(message) => seq![packet_ids::CHAT_MESSAGE] + text_field(
            message@,
        ),
        ServerPacket::PlayerListItem { username, online, ping } => seq![packet_ids::PLAYER_LIST_ITEM]
            + text_field(username@) + seq![bool_byte(online)] + be_i16(ping),
        ServerPacket::BlockChange { x, y, z, block_id } => seq![packet_ids::BLOCK_CHANGE] + be_i32(
            x,
        ) + seq![y as u8] + be_i32(z) + seq![block_id, 0u8],
        ServerPacket::Entity(entity_id) => seq![packet_ids::ENTITY] + be_i32(entity_id),
        ServerPacket::EntityRelativeMove { entity_id, delta_x, delta_y, delta_z } =>
            seq![packet_ids::ENTITY_RELATIVE_MOVE] + be_i32(entity_id) + seq![
            delta_x,
            delta_y,
            delta_z,
        ],
        ServerPacket::EntityLook { entity_id, yaw, pitch } => seq![packet_ids::ENTITY_LOOK]
            + be_i32(entity_id) + seq![yaw, pitch],
        ServerPacket::EntityLookAndRelativeMove {
            entity_id,
            delta_x,
            delta_y,
            delta_z,
            yaw,
            pitch,
        } => seq![packet_ids::ENTITY_LOOK_AND_RELATIVE_MOVE] + be_i32(entity_id) + seq![
            delta_x,
            delta_y,
            delta_z,
            yaw,
            pitch,
        ],
        ServerPacket::EntityTeleport { entity_id, x, y, z, yaw, pitch } =>
            seq![packet_ids::ENTITY_TELEPORT] + be_i32(entity_id) + be_i32(x) + be_i32(y) + be_i32(
            z,
        ) + seq![yaw, pitch],
        ServerPacket::NamedEntitySpawn { entity_id, username, x, y, z, yaw, pitch, current_item } =>
            seq![packet_ids::NAMED_ENTITY_SPAWN] + be_i32(entity_id) + text_field(username@)
            + be_i32(x) + be_i32(y) + be_i32(z) + seq![yaw, pitch] + be_i16(current_item),
    }
}

/// Helper function to write UTF-16 strings in Minecraft protocol format: the
/// count of UTF-16 code units, then the units, big-endian.
pub fn write_utf16_string(buffer: &mut BytesMut, s: &str)
    requires
        bytes_mut_contents(*old(buffer)).len() + text_field(s@).len() <= isize::MAX,
    ensures
        bytes_mut_contents(*final(buffer)) == bytes_mut_contents(*old(buffer)) + text_field(s@),
{
    let units = encode_utf16(s);
    let n = units.len();
    let count = n as u16;
    assert(count == (n % 0x10000) as u16) by (bit_vector)
        requires
            count == n as u16,
    ;
    let ghost start = bytes_mut_contents(*buffer);
    bytes_mut_extend(buffer, &u16_to_be(count));
    let mut i: usize = 0;
    while i < n
        invariant
            i <= n,
            n == units@.len(),
            units@ == utf16_encode(s@),
            start.len() + 2 + 2 * n <= isize::MAX,
            bytes_mut_contents(*buffer) == start + be_u16(count) + units_be(units@.take(i as int)),
        decreases n - i,
    {
        let unit = units[i];
        bytes_mut_extend(buffer, &u16_to_be(unit));
        assert(units_be(units@.take(i + 1)) =~= units_be(units@.take(i as int)) + be_u16(unit));
        i = i + 1;
    }
    assert(units@.take(n as int) =~= units@);
}

impl ServerPacket {
    /// Serialize packet to bytes for network transmission.
    #[verifier::rlimit(40)]
    pub fn to_bytes(&self) -> (bytes: BytesMut)
        requires
            server_packet_bytes(*self).len() <= isize::MAX,
        ensures
            bytes_mut_contents(bytes) == server_packet_bytes(*self),
    {
        let mut bytes = bytes_mut_new();
        match self {
            ServerPacket::KeepAlive(value) => {
                bytes_mut_extend(&mut bytes, &[packet_ids::KEEP_ALIVE]);
                bytes_mut_extend(&mut bytes, &i32_to_be(*value));
            },
            ServerPacket::Handshake(hash) => {
                bytes_mut_extend(&mut bytes, &[packet_ids::HANDSHAKE]);
                write_utf16_string(&mut bytes, hash.as_str());
            },
            ServerPacket::LoginResponse {
                entity_id,
                level_type,
                map_seed,
                game_mode,
                dimension,
                difficulty,
                world_height,
                max_players,
            } => {
                bytes_mut_extend(&mut bytes, &[packet_ids::LOGIN_REQUEST]);
                bytes_mut_extend(&mut bytes, &u32_to_be(*entity_id));
                // Write level type as UTF-16 string
                write_utf16_string(&mut bytes, level_type.as_str());
                // Write map_seed (between length and string content)
                bytes_mut_extend(&mut bytes, &i64_to_be(*map_seed));
                bytes_mut_extend(&mut bytes, &i32_to_be(*game_mode));
                bytes_mut_extend(
                    &mut bytes,
                    &[*dimension, *difficulty, *world_height as u8, *max_players as u8],
                );
            },
            ServerPacket::SpawnPosition { x, y, z } => {
                bytes_mut_extend(&mut bytes, &[packet_ids::SPAWN_POSITION]);
                bytes_mut_extend(&mut bytes, &i32_to_be(*x));
                bytes_mut_extend(&mut bytes, &i32_to_be(*y));
                bytes_mut_extend(&mut bytes, &i32_to_be(*z));
            },
            ServerPacket::PlayerPositionAndLook { x, y, stance, z, yaw, pitch, on_ground } => {
                bytes_mut_extend(&mut bytes, &[packet_ids::PLAYER_POSITION_AND_LOOK]);
                bytes_mut_extend(&mut bytes, &u64_to_be(*x));
                bytes_mut_extend(&mut bytes, &u64_to_be(*y));
                bytes_mut_extend(&mut bytes, &u64_to_be(*stance));
                bytes_mut_extend(&mut bytes, &u64_to_be(*z));
                bytes_mut_extend(&mut bytes, &u32_to_be(*yaw));
                bytes_mut_extend(&mut bytes, &u32_to_be(*pitch));
                bytes_mut_extend(
                    &mut bytes,
                    &[
                        if *on_ground {
                            1
                        } else {
                            0
                        },
                    ],
                );
            },
            ServerPacket::PreChunk { x, z, mode } => {
                bytes_mut_extend(&mut bytes, &[packet_ids::PRE_CHUNK]);
                bytes_mut_extend(&mut bytes, &i32_to_be(*x));
                bytes_mut_extend(&mut bytes, &i32_to_be(*z));
                bytes_mut_extend(
                    &mut bytes,
                    &[
                        if *mode {
                            1
                        } else {
                            0
                        },
                    ],
                );
            },
            ServerPacket::MapChunk { x, y, z, size_x, size_y, size_z, compressed_data } => {
                bytes_mut_extend(&mut bytes, &[packet_ids::MAP_CHUNK]);
                bytes_mut_extend(&mut bytes, &i32_to_be(*x));
                bytes_mut_extend(&mut bytes, &i16_to_be(*y));
                bytes_mut_extend(&mut bytes, &i32_to_be(*z));
                bytes_mut_extend(&mut bytes, &[*size_x]);
                bytes_mut_extend(&mut bytes, &[*size_y]);
                bytes_mut_extend(&mut bytes, &[*size_z]);
                #[verifier::truncate]
                let data_len = compressed_data.len() as i32;
                bytes_mut_extend(&mut bytes, &i32_to_be(data_len));
                bytes_mut_extend(&mut bytes, compressed_data.as_slice());
            },
            ServerPacket::ChatMessage(message) => {
                bytes_mut_extend(&mut bytes, &[packet_ids::CHAT_MESSAGE]);
                write_utf16_string(&mut bytes, message.as_str());
            },
            ServerPacket::PlayerListItem { username, online, ping } => {
                bytes_mut_extend(&mut bytes, &[packet_ids::PLAYER_LIST_ITEM]);
                write_utf16_string(&mut bytes, username.as_str());
                bytes_mut_extend(
                    &mut bytes,
                    &[
                        if *online {
                            1
                        } else {
                            0
                        },
                    ],
                );
                bytes_mut_extend(&mut bytes, &i16_to_be(*ping));
            },
            ServerPacket::BlockChange { x, y, z, block_id } => {
                bytes_mut_extend(&mut bytes, &[packet_ids::BLOCK_CHANGE]);
                bytes_mut_extend(&mut bytes, &i32_to_be(*x));
                bytes_mut_extend(&mut bytes, &[*y as u8]);
                bytes_mut_extend(&mut bytes, &i32_to_be(*z));
                bytes_mut_extend(&mut bytes, &[*block_id]);
                // metadata (nibble)
                bytes_mut_extend(&mut bytes, &[0]);
            },
            ServerPacket::Entity(entity_id) => {
                bytes_mut_extend(&mut bytes, &[packet_ids::ENTITY]);
                bytes_mut_extend(&mut bytes, &i32_to_be(*entity_id));
            },
            ServerPacket::EntityRelativeMove { entity_id, delta_x, delta_y, delta_z } => {
                bytes_mut_extend(&mut bytes, &[packet_ids::ENTITY_RELATIVE_MOVE]);
                bytes_mut_extend(&mut bytes, &i32_to_be(*entity_id));
                bytes_mut_extend(&mut bytes, &[*delta_x]);
                bytes_mut_extend(&mut bytes, &[*delta_y]);
                bytes_mut_extend(&mut bytes, &[*delta_z]);
            },
            ServerPacket::EntityLook { entity_id, yaw, pitch } => {
                bytes_mut_extend(&mut bytes, &[packet_ids::ENTITY_LOOK]);
                bytes_mut_extend(&mut bytes, &i32_to_be(*entity_id));
                bytes_mut_extend(&mut bytes, &[*yaw]);
                bytes_mut_extend(&mut bytes, &[*pitch]);
            },
            ServerPacket::EntityLookAndRelativeMove {
                entity_id,
                delta_x,
                delta_y,
                delta_z,
                yaw,
                pitch,
            } => {
                bytes_mut_extend(&mut bytes, &[packet_ids::ENTITY_LOOK_AND_RELATIVE_MOVE]);
                bytes_mut_extend(&mut bytes, &i32_to_be(*entity_id));
                bytes_mut_extend(&mut bytes, &[*delta_x]);
                bytes_mut_extend(&mut bytes, &[*delta_y]);
                bytes_mut_extend(&mut bytes, &[*delta_z]);
                bytes_mut_extend(&mut bytes, &[*yaw]);
                bytes_mut_extend(&mut bytes, &[*pitch]);
            },
            ServerPacket::EntityTeleport { entity_id, x, y, z, yaw, pitch } => {
                bytes_mut_extend(&mut bytes, &[packet_ids::ENTITY_TELEPORT]);
                bytes_mut_extend(&mut bytes, &i32_to_be(*entity_id));
                bytes_mut_extend(&mut bytes, &i32_to_be(*x));
                bytes_mut_extend(&mut bytes, &i32_to_be(*y));
                bytes_mut_extend(&mut bytes, &i32_to_be(*z));
                bytes_mut_extend(&mut bytes, &[*yaw]);
                bytes_mut_extend(&mut bytes, &[*pitch]);
            },
            ServerPacket::NamedEntitySpawn {
                entity_id,
                username,
                x,
                y,
                z,
                yaw,
                pitch,
                current_item,
            } => {
                bytes_mut_extend(&mut bytes, &[packet_ids::NAMED_ENTITY_SPAWN]);
                bytes_mut_extend(&mut bytes, &i32_to_be(*entity_id));
                write_utf16_string(&mut bytes, username.as_str());
                bytes_mut_extend(&mut bytes, &i32_to_be(*x));
                bytes_mut_extend(&mut bytes, &i32_to_be(*y));
                bytes_mut_extend(&mut bytes, &i32_to_be(*z));
                bytes_mut_extend(&mut bytes, &[*yaw]);
                bytes_mut_extend(&mut bytes, &[*pitch]);
                bytes_mut_extend(&mut bytes, &i16_to_be(*current_item));
            },
        }
        assert(bytes_mut_contents(bytes) =~= server_packet_bytes(*self));
        bytes
    }
}

} // verus!
