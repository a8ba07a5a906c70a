//! Where each field of a server packet lies in its bytes: reading the bytes
//! back, as a client does, gives the fields that the packet was made from.

use vstd::prelude::*;

use crate::codec::{be_i16, be_i32, be_i64, be_u32, u16_of_be, u32_of_be, u64_of_be};
use crate::packets::{server_packet_bytes, ServerPacket};
use crate::protocol::{lemma_text_field_reads_back, lemma_u16_at, lemma_u32_at, lemma_u64_at, spec_read_string};
use crate::text::utf16_encode;

verus! {

proof fn lemma_i32_at(s: Seq<u8>, k: int, v: i32)
    requires
        0 <= k,
        k + 4 <= s.len(),
        s.subrange(k, k + 4) == be_i32(v),
    ensures
        u32_of_be(s.skip(k)) as i32 == v,
{
    lemma_u32_at(s, k, v as u32);
    assert((v as u32) as i32 == v) by (bit_vector);
}

proof fn lemma_i16_at(s: Seq<u8>, k: int, v: i16)
    requires
        0 <= k,
        k + 2 <= s.len(),
        s.subrange(k, k + 2) == be_i16(v),
    ensures
        u16_of_be(s.skip(k)) as i16 == v,
{
    lemma_u16_at(s, k, v as u16);
    assert((v as u16) as i16 == v) by (bit_vector);
}

/// A text field is the number of the text's UTF-16 code units as two
/// big-endian bytes, then each unit as two big-endian bytes, in order.
pub proof fn lemma_text_field_layout(s: Seq<char>, i: int)
    requires
        utf16_encode(s).len() < 0x10000,
    ensures
        ({
            let u = utf16_encode(s);
            let tf = crate::packets::text_field(s);
            &&& tf.len() == 2 + 2 * u.len()
            &&& u16_of_be(tf) == u.len()
            &&& 0 <= i < u.len() ==> u16_of_be(tf.skip(2 + 2 * i)) == u[i]
        }),
{
    let u = utf16_encode(s);
    let tf = crate::packets::text_field(s);
    let n = u.len() as int;
    assert((n % 0x10000) as u16 == n as u16);
    assert(tf.subrange(0, 2) =~= crate::codec::be_u16(n as u16));
    lemma_u16_at(tf, 0, n as u16);
    assert(tf.skip(0) =~= tf);
    if 0 <= i < n {
        assert(tf.subrange(2 + 2 * i, 4 + 2 * i) =~= crate::codec::be_u16(u[i]));
        lemma_u16_at(tf, 2 + 2 * i, u[i]);
    }
}

/// A spawn position is 0x06 and x, y, z as four big-endian bytes each.
pub proof fn lemma_spawn_position_fields(x: i32, y: i32, z: i32)
    ensures
        ({
            let b = server_packet_bytes(ServerPacket::SpawnPosition { x, y, z });
            &&& b.len() == 13 && b[0] == 0x06
            &&& u32_of_be(b.skip(1)) as i32 == x
            &&& u32_of_be(b.skip(5)) as i32 == y
            &&& u32_of_be(b.skip(9)) as i32 == z
        }),
{
    let b = server_packet_bytes(ServerPacket::SpawnPosition { x, y, z });
    assert(b.subrange(1, 5) =~= be_i32(x));
    assert(b.subrange(5, 9) =~= be_i32(y));
    assert(b.subrange(9, 13) =~= be_i32(z));
    lemma_i32_at(b, 1, x);
    lemma_i32_at(b, 5, y);
    lemma_i32_at(b, 9, z);
}

/// A pre-chunk is 0x32, x and z as four big-endian bytes each, then 1 to
/// load the column or 0 to unload it.
pub proof fn lemma_pre_chunk_fields(x: i32, z: i32, mode: bool)
    ensures
        ({
            let b = server_packet_bytes(ServerPacket::PreChunk { x, z, mode });
            &&& b.len() == 10 && b[0] == 0x32
            &&& u32_of_be(b.skip(1)) as i32 == x
            &&& u32_of_be(b.skip(5)) as i32 == z
            &&& b[9] == (if mode { 1u8 } else { 0u8 })
        }),
{
    let b = server_packet_bytes(ServerPacket::PreChunk { x, z, mode });
    assert(b.subrange(1, 5) =~= be_i32(x));
    assert(b.subrange(5, 9) =~= be_i32(z));
    lemma_i32_at(b, 1, x);
    lemma_i32_at(b, 5, z);
}

/// A map chunk is 0x33, x (four bytes), y (two), z (four), the three sizes
/// (one byte each), the length of the compressed data (four), then the data.
pub proof fn lemma_map_chunk_fields(
    x: i32,
    y: i16,
    z: i32,
    size_x: u8,
    size_y: u8,
    size_z: u8,
    compressed_data: Vec<u8>,
)
    requires
        compressed_data@.len() <= i32::MAX,
    ensures
        ({
            let b = server_packet_bytes(
                ServerPacket::MapChunk { x, y, z, size_x, size_y, size_z, compressed_data },
            );
            &&& b.len() == 18 + compressed_data@.len() && b[0] == 0x33
            &&& u32_of_be(b.skip(1)) as i32 == x
            &&& u16_of_be(b.skip(5)) as i16 == y
            &&& u32_of_be(b.skip(7)) as i32 == z
            &&& b[11] == size_x && b[12] == size_y && b[13] == size_z
            &&& u32_of_be(b.skip(14)) == compressed_data@.len()
            &&& b.skip(18) == compressed_data@
        }),
{
    let b = server_packet_bytes(
        ServerPacket::MapChunk { x, y, z, size_x, size_y, size_z, compressed_data },
    );
    let n = compressed_data@.len() as i32;
    assert(b.subrange(1, 5) =~= be_i32(x));
    assert(b.subrange(5, 7) =~= be_i16(y));
    assert(b.subrange(7, 11) =~= be_i32(z));
    assert(b.subrange(14, 18) =~= be_i32(n));
    lemma_i32_at(b, 1, x);
    lemma_i16_at(b, 5, y);
    lemma_i32_at(b, 7, z);
    lemma_u32_at(b, 14, n as u32);
    assert(b.skip(18) =~= compressed_data@);
}

/// A chat message is the identifier 0x03 and the text as a text field.
pub proof fn lemma_chat_message_fields(message: String)
    requires
        utf16_encode(message@).len() < 0x10000,
    ensures
        ({
            let b = server_packet_bytes(ServerPacket::ChatMessage(message));
            let t: int = 2 + 2 * (utf16_encode(message@).len() as int);
            &&& b.len() == 1 + t && b[0] == 0x03
            &&& spec_read_string(b.skip(1)) == Some((t, message@))
        }),
{
    let b = server_packet_bytes(ServerPacket::ChatMessage(message));
    lemma_text_field_reads_back(message@, Seq::empty());
    assert(b.skip(1) =~= crate::packets::text_field(message@) + Seq::<u8>::empty());
}

/// A player-list entry is 0xC9, the name as a text field, 1 when the player
/// is online or 0, then the ping as two big-endian bytes.
pub proof fn lemma_player_list_item_fields(username: String, online: bool, ping: i16)
    requires
        utf16_encode(username@).len() < 0x10000,
    ensures
        ({
            let b = server_packet_bytes(ServerPacket::PlayerListItem { username, online, ping });
            let t: int = 2 + 2 * (utf16_encode(username@).len() as int);
            &&& b.len() == 4 + t && b[0] == 0xC9
            &&& spec_read_string(b.skip(1)) == Some((t, username@))
            &&& b[1 + t] == (if online { 1u8 } else { 0u8 })
            &&& u16_of_be(b.skip(2 + t)) as i16 == ping
        }),
{
    let b = server_packet_bytes(ServerPacket::PlayerListItem { username, online, ping });
    let tf = crate::packets::text_field(username@);
    let tail = seq![crate::packets::bool_byte(online)] + be_i16(ping);
    lemma_text_field_reads_back(username@, tail);
    assert(b.skip(1) =~= tf + tail);
    let t = tf.len() as int;
    assert(b.subrange(2 + t, 4 + t) =~= be_i16(ping));
    lemma_i16_at(b, 2 + t, ping);
}

/// A block change is 0x35, x (four bytes), y (one), z (four), the block id,
/// and a zero metadata byte.
pub proof fn lemma_block_change_fields(x: i32, y: i8, z: i32, block_id: u8)
    ensures
        ({
            let b = server_packet_bytes(ServerPacket::BlockChange { x, y, z, block_id });
            &&& b.len() == 12 && b[0] == 0x35
            &&& u32_of_be(b.skip(1)) as i32 == x
            &&& b[5] as i8 == y
            &&& u32_of_be(b.skip(6)) as i32 == z
            &&& b[10] == block_id && b[11] == 0
        }),
{
    let b = server_packet_bytes(ServerPacket::BlockChange { x, y, z, block_id });
    assert(b.subrange(1, 5) =~= be_i32(x));
    assert(b.subrange(6, 10) =~= be_i32(z));
    lemma_i32_at(b, 1, x);
    lemma_i32_at(b, 6, z);
    assert((y as u8) as i8 == y) by (bit_vector);
}

/// A named-entity spawn is 0x14, the entity id (four bytes), the name as a
/// text field, x, y and z (four bytes each, in that order), yaw, pitch, and
/// the held item (two bytes).
pub proof fn lemma_named_entity_spawn_fields(
    entity_id: i32,
    username: String,
    x: i32,
    y: i32,
    z: i32,
    yaw: u8,
    pitch: u8,
    current_item: i16,
)
    requires
        utf16_encode(username@).len() < 0x10000,
    ensures
        ({
            let b = server_packet_bytes(
                ServerPacket::NamedEntitySpawn { entity_id, username, x, y, z, yaw, pitch, current_item },
            );
            let t: int = 2 + 2 * (utf16_encode(username@).len() as int);
            &&& b.len() == 21 + t && b[0] == 0x14
            &&& u32_of_be(b.skip(1)) as i32 == entity_id
            &&& spec_read_string(b.skip(5)) == Some((t, username@))
            &&& u32_of_be(b.skip(5 + t)) as i32 == x
            &&& u32_of_be(b.skip(9 + t)) as i32 == y
            &&& u32_of_be(b.skip(13 + t)) as i32 == z
            &&& b[17 + t] == yaw && b[18 + t] == pitch
            &&& u16_of_be(b.skip(19 + t)) as i16 == current_item
        }),
{
    let b = server_packet_bytes(
        ServerPacket::NamedEntitySpawn { entity_id, username, x, y, z, yaw, pitch, current_item },
    );
    let tf = crate::packets::text_field(username@);
    let tail = be_i32(x) + be_i32(y) + be_i32(z) + seq![yaw, pitch] + be_i16(current_item);
    lemma_text_field_reads_back(username@, tail);
    assert(b.subrange(1, 5) =~= be_i32(entity_id));
    lemma_i32_at(b, 1, entity_id);
    assert(b.skip(5) =~= tf + tail);
    let t = tf.len() as int;
    assert(b.subrange(5 + t, 9 + t) =~= be_i32(x));
    assert(b.subrange(9 + t, 13 + t) =~= be_i32(y));
    assert(b.subrange(13 + t, 17 + t) =~= be_i32(z));
    assert(b.subrange(19 + t, 21 + t) =~= be_i16(current_item));
    lemma_i32_at(b, 5 + t, x);
    lemma_i32_at(b, 9 + t, y);
    lemma_i32_at(b, 13 + t, z);
    lemma_i16_at(b, 19 + t, current_item);
}

/// An entity packet is 0x1E and the entity id (four bytes).
pub proof fn lemma_entity_fields(entity_id: i32)
    ensures
        ({
            let b = server_packet_bytes(ServerPacket::Entity(entity_id));
            &&& b.len() == 5 && b[0] == 0x1E
            &&& u32_of_be(b.skip(1)) as i32 == entity_id
        }),
{
    let b = server_packet_bytes(ServerPacket::Entity(entity_id));
    assert(b.subrange(1, 5) =~= be_i32(entity_id));
    lemma_i32_at(b, 1, entity_id);
}

/// A relative move is 0x1F, the entity id (four bytes), then the x, y and z
/// deltas, one byte each.
pub proof fn lemma_entity_relative_move_fields(entity_id: i32, delta_x: u8, delta_y: u8, delta_z: u8)
    ensures
        ({
            let b = server_packet_bytes(
                ServerPacket::EntityRelativeMove { entity_id, delta_x, delta_y, delta_z },
            );
            &&& b.len() == 8 && b[0] == 0x1F
            &&& u32_of_be(b.skip(1)) as i32 == entity_id
            &&& b[5] == delta_x && b[6] == delta_y && b[7] == delta_z
        }),
{
    let b = server_packet_bytes(ServerPacket::EntityRelativeMove { entity_id, delta_x, delta_y, delta_z });
    assert(b.subrange(1, 5) =~= be_i32(entity_id));
    lemma_i32_at(b, 1, entity_id);
}

/// A look is 0x20, the entity id (four bytes), yaw and pitch.
pub proof fn lemma_entity_look_fields(entity_id: i32, yaw: u8, pitch: u8)
    ensures
        ({
            let b = server_packet_bytes(ServerPacket::EntityLook { entity_id, yaw, pitch });
            &&& b.len() == 7 && b[0] == 0x20
            &&& u32_of_be(b.skip(1)) as i32 == entity_id
            &&& b[5] == yaw && b[6] == pitch
        }),
{
    let b = server_packet_bytes(ServerPacket::EntityLook { entity_id, yaw, pitch });
    assert(b.subrange(1, 5) =~= be_i32(entity_id));
    lemma_i32_at(b, 1, entity_id);
}

/// A look and relative move is 0x21, the entity id (four bytes), the x, y
/// and z deltas, yaw and pitch, one byte each.
pub proof fn lemma_entity_look_and_relative_move_fields(
    entity_id: i32,
    delta_x: u8,
    delta_y: u8,
    delta_z: u8,
    yaw: u8,
    pitch: u8,
)
    ensures
        ({
            let b = server_packet_bytes(
                ServerPacket::EntityLookAndRelativeMove { entity_id, delta_x, delta_y, delta_z, yaw, pitch },
            );
            &&& b.len() == 10 && b[0] == 0x21
            &&& u32_of_be(b.skip(1)) as i32 == entity_id
            &&& b[5] == delta_x && b[6] == delta_y && b[7] == delta_z
            &&& b[8] == yaw && b[9] == pitch
        }),
{
    let b = server_packet_bytes(
        ServerPacket::EntityLookAndRelativeMove { entity_id, delta_x, delta_y, delta_z, yaw, pitch },
    );
    assert(b.subrange(1, 5) =~= be_i32(entity_id));
    lemma_i32_at(b, 1, entity_id);
}

/// A teleport is 0x22, the entity id, x, y and z (four bytes each, in that
/// order), yaw and pitch.
pub proof fn lemma_entity_teleport_fields(entity_id: i32, x: i32, y: i32, z: i32, yaw: u8, pitch: u8)
    ensures
        ({
            let b = server_packet_bytes(ServerPacket::EntityTeleport { entity_id, x, y, z, yaw, pitch });
            &&& b.len() == 19 && b[0] == 0x22
            &&& u32_of_be(b.skip(1)) as i32 == entity_id
            &&& u32_of_be(b.skip(5)) as i32 == x
            &&& u32_of_be(b.skip(9)) as i32 == y
            &&& u32_of_be(b.skip(13)) as i32 == z
            &&& b[17] == yaw && b[18] == pitch
        }),
{
    let b = server_packet_bytes(ServerPacket::EntityTeleport { entity_id, x, y, z, yaw, pitch });
    assert(b.subrange(1, 5) =~= be_i32(entity_id));
    assert(b.subrange(5, 9) =~= be_i32(x));
    assert(b.subrange(9, 13) =~= be_i32(y));
    assert(b.subrange(13, 17) =~= be_i32(z));
    lemma_i32_at(b, 1, entity_id);
    lemma_i32_at(b, 5, x);
    lemma_i32_at(b, 9, y);
    lemma_i32_at(b, 13, z);
}

/// A login response is 0x01, the entity id (four bytes), the level type as a
/// text field, the map seed (eight bytes), the game mode (four), then the
/// dimension, difficulty, world height and player limit, one byte each.
pub proof fn lemma_login_response_fields(
    entity_id: u32,
    level_type: String,
    map_seed: i64,
    game_mode: i32,
    dimension: u8,
    difficulty: u8,
    world_height: i8,
    max_players: i8,
)
    requires
        utf16_encode(level_type@).len() < 0x10000,
    ensures
        ({
            let b = server_packet_bytes(
                ServerPacket::LoginResponse {
                    entity_id,
                    level_type,
                    map_seed,
                    game_mode,
                    dimension,
                    difficulty,
                    world_height,
                    max_players,
                },
            );
            let t: int = 2 + 2 * (utf16_encode(level_type@).len() as int);
            &&& b.len() == 21 + t && b[0] == 0x01
            &&& u32_of_be(b.skip(1)) == entity_id
            &&& spec_read_string(b.skip(5)) == Some((t, level_type@))
            &&& u64_of_be(b.skip(5 + t)) as i64 == map_seed
            &&& u32_of_be(b.skip(13 + t)) as i32 == game_mode
            &&& b[17 + t] == dimension && b[18 + t] == difficulty
            &&& b[19 + t] as i8 == world_height && b[20 + t] as i8 == max_players
        }),
{
    let b = server_packet_bytes(
        ServerPacket::LoginResponse {
            entity_id,
            level_type,
            map_seed,
            game_mode,
            dimension,
            difficulty,
            world_height,
            max_players,
        },
    );
    let tf = crate::packets::text_field(level_type@);
    let tail = be_i64(map_seed) + be_i32(game_mode) + seq![
        dimension,
        difficulty,
        world_height as u8,
        max_players as u8,
    ];
    lemma_text_field_reads_back(level_type@, tail);
    assert(b.subrange(1, 5) =~= be_u32(entity_id));
    lemma_u32_at(b, 1, entity_id);
    assert(b.skip(5) =~= tf + tail);
    let t = tf.len() as int;
    assert(b.subrange(5 + t, 13 + t) =~= be_i64(map_seed));
    lemma_u64_at(b, 5 + t, map_seed as u64);
    assert((map_seed as u64) as i64 == map_seed) by (bit_vector);
    assert(b.subrange(13 + t, 17 + t) =~= be_i32(game_mode));
    lemma_i32_at(b, 13 + t, game_mode);
    assert((world_height as u8) as i8 == world_height) by (bit_vector);
    assert((max_players as u8) as i8 == max_players) by (bit_vector);
}

} // verus!
