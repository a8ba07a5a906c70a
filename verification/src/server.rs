//! The server's decisions on a connection: splitting the byte stream into
//! packets, answering each packet, and the packets of login, movement and
//! chunk streaming. The caller performs the sends, broadcasts and waits.

use vstd::prelude::*;
use vstd::string::StringExecFns;

use crate::chunk_manager::{
    lemma_view_distance_fits, radius_fits, square_around, square_side, spec_chunks_to_unload, ChunkPos,
    CHUNK_SIZE_X_U8, CHUNK_SIZE_Y_U8, CHUNK_SIZE_Z_U8, VIEW_DISTANCE,
};
use crate::packets::{ClientPacket, ClientPacketView, ServerPacket};
use crate::player::{spec_answer, Player};
use crate::codec::{be_i32, be_i64};
use crate::packets::text_field;
use crate::text::utf16_encode;
use crate::protocol::{lemma_login_request_parses, lemma_parse_packet_prefix_stable, parse_packet, spec_parse_packet, ParseError};

verus! {

/// The packets at the front of a receive buffer, in order, and how many bytes
/// to drop from it: those of the packets read, or all of them when the buffer
/// holds a packet that cannot be read (the buffer is then cleared). A packet
/// that is not complete yet stays in the buffer.
pub open spec fn spec_decode_stream(s: Seq<u8>) -> (Seq<ClientPacketView>, int)
    decreases s.len(),
{
    if s.len() == 0 {
        (Seq::empty(), 0)
    } else {
        match spec_parse_packet(s) {
            Ok((n, p)) => if 0 < n <= s.len() {
                let (rest, m) = spec_decode_stream(s.skip(n));
                (seq![p] + rest, n + m)
            } else {
                (Seq::empty(), 0)
            },
            Err(ParseError::Incomplete) => (Seq::empty(), 0),
            Err(ParseError::UnknownPacketId(_)) => (Seq::empty(), s.len() as int),
        }
    }
}

/// Decoding never drops more bytes than the buffer holds, and drops bytes
/// whenever it reads a packet.
pub proof fn lemma_decode_stream_bounds(s: Seq<u8>)
    ensures
        0 <= spec_decode_stream(s).1 <= s.len(),
        spec_decode_stream(s).0.len() > 0 ==> spec_decode_stream(s).1 > 0,
    decreases s.len(),
{
    if s.len() > 0 {
        if let Ok((n, p)) = spec_parse_packet(s) {
            if 0 < n <= s.len() {
                lemma_decode_stream_bounds(s.skip(n));
            }
        }
    }
}

/// Every packet that decoding reaches in `s` has an identifier that is read:
/// the stream holds complete packets, and perhaps the start of one more.
pub open spec fn stream_readable(s: Seq<u8>) -> bool
    decreases s.len(),
{
    if s.len() == 0 {
        true
    } else {
        match spec_parse_packet(s) {
            Ok((n, _)) => if 0 < n <= s.len() {
                stream_readable(s.skip(n))
            } else {
                true
            },
            Err(ParseError::Incomplete) => true,
            Err(ParseError::UnknownPacketId(_)) => false,
        }
    }
}

/// What a connection reads from a stream that arrives in `reads`, one piece
/// after another, starting with `buffer` held: after each piece arrives, the
/// packets at the front of the buffer are read and their bytes dropped. Gives
/// the packets in order and what the buffer holds at the end.
pub open spec fn decode_reads(buffer: Seq<u8>, reads: Seq<Seq<u8>>) -> (Seq<ClientPacketView>, Seq<u8>)
    decreases reads.len(),
{
    if reads.len() == 0 {
        (Seq::empty(), buffer)
    } else {
        let b = buffer + reads[0];
        let (packets, used) = spec_decode_stream(b);
        let (more, rest) = decode_reads(b.skip(used), reads.drop_first());
        (packets + more, rest)
    }
}

/// Decoding a stream in two pieces, keeping what the first piece left
/// unread in front of the second, gives the packets and the count of bytes
/// of decoding the whole stream at once, when the stream is readable; what
/// the first piece leaves unread holds no packet that can be read yet.
pub proof fn lemma_decode_split(s1: Seq<u8>, s2: Seq<u8>)
    requires
        stream_readable(s1 + s2),
    ensures
        ({
            let (p1, c1) = spec_decode_stream(s1);
            let (p2, c2) = spec_decode_stream(s1.skip(c1) + s2);
            &&& 0 <= c1 <= s1.len()
            &&& spec_decode_stream(s1 + s2).0 == p1 + p2
            &&& spec_decode_stream(s1 + s2).1 == c1 + c2
            &&& stream_readable(s1)
            &&& stream_readable(s1.skip(c1) + s2)
            &&& spec_decode_stream(s1.skip(c1)).0.len() == 0
            &&& spec_decode_stream(s1.skip(c1)).1 == 0
        }),
    decreases s1.len(),
{
    lemma_decode_stream_bounds(s1);
    if s1.len() == 0 {
        assert(s1.skip(0) =~= s1);
        assert(s1.skip(0) + s2 =~= s1 + s2);
        assert(Seq::<ClientPacketView>::empty() + spec_decode_stream(s1 + s2).0 =~= spec_decode_stream(
            s1 + s2,
        ).0);
    } else {
        let st = s1 + s2;
        assert(st.len() > 0);
        match spec_parse_packet(s1) {
            Ok((n, p)) => {
                lemma_parse_packet_prefix_stable(s1, s2);
                assert(st.skip(n) =~= s1.skip(n) + s2);
                lemma_decode_split(s1.skip(n), s2);
                let m1 = spec_decode_stream(s1.skip(n)).1;
                assert(s1.skip(n).skip(m1) =~= s1.skip(n + m1));
                let r1 = spec_decode_stream(s1.skip(n)).0;
                let p2 = spec_decode_stream(s1.skip(n + m1) + s2).0;
                assert(seq![p] + (r1 + p2) =~= (seq![p] + r1) + p2);
            },
            Err(ParseError::Incomplete) => {
                assert(s1.skip(0) =~= s1);
                assert(s1.skip(0) + s2 =~= s1 + s2);
                assert(Seq::<ClientPacketView>::empty() + spec_decode_stream(s1 + s2).0
                    =~= spec_decode_stream(s1 + s2).0);
            },
            Err(ParseError::UnknownPacketId(_)) => {
                lemma_parse_packet_prefix_stable(s1, s2);
            },
        }
    }
}

proof fn lemma_decode_reads_from(buffer: Seq<u8>, reads: Seq<Seq<u8>>)
    requires
        stream_readable(buffer + reads.flatten()),
        spec_decode_stream(buffer).0.len() == 0,
        spec_decode_stream(buffer).1 == 0,
    ensures
        decode_reads(buffer, reads).0 == spec_decode_stream(buffer + reads.flatten()).0,
        decode_reads(buffer, reads).1 == (buffer + reads.flatten()).skip(
            spec_decode_stream(buffer + reads.flatten()).1,
        ),
    decreases reads.len(),
{
    if reads.len() == 0 {
        assert(buffer + reads.flatten() =~= buffer);
        assert(buffer.skip(0) =~= buffer);
        assert(spec_decode_stream(buffer).0 =~= Seq::<ClientPacketView>::empty());
    } else {
        let b = buffer + reads[0];
        let f = reads.drop_first().flatten();
        assert(buffer + reads.flatten() =~= b + f);
        lemma_decode_split(b, f);
        let c1 = spec_decode_stream(b).1;
        lemma_decode_reads_from(b.skip(c1), reads.drop_first());
        let c2 = spec_decode_stream(b.skip(c1) + f).1;
        lemma_decode_stream_bounds(b.skip(c1) + f);
        assert((b + f).skip(c1 + c2) =~= (b.skip(c1) + f).skip(c2));
    }
}

/// However a readable stream is cut into pieces as it arrives, reading the
/// packets after each piece gives the packets of the whole stream, in order,
/// and leaves in the buffer the bytes that decoding the whole stream leaves.
pub proof fn lemma_decode_reads_any_cut(reads: Seq<Seq<u8>>)
    requires
        stream_readable(reads.flatten()),
    ensures
        decode_reads(Seq::empty(), reads).0 == spec_decode_stream(reads.flatten()).0,
        decode_reads(Seq::empty(), reads).1 == reads.flatten().skip(
            spec_decode_stream(reads.flatten()).1,
        ),
{
    assert(Seq::<u8>::empty() + reads.flatten() =~= reads.flatten());
    lemma_decode_reads_from(Seq::empty(), reads);
}

/// Decoding keeps every packet it reads: when the front of a buffer holds a
/// whole packet, the first packet decoded is that packet, the rest are those
/// decoded from the bytes after it, and the bytes dropped are its own and
/// those dropped after it. A buffer that holds exactly one packet decodes to
/// that packet alone and is dropped whole.
pub proof fn lemma_decode_keeps_front_packet(s: Seq<u8>)
    ensures
        match spec_parse_packet(s) {
            Ok((n, p)) => {
                &&& 0 < n <= s.len()
                &&& spec_decode_stream(s).0 == seq![p] + spec_decode_stream(s.skip(n)).0
                &&& spec_decode_stream(s).1 == n + spec_decode_stream(s.skip(n)).1
                &&& spec_decode_stream(s).0.len() >= 1 && spec_decode_stream(s).0[0] == p
                &&& n == s.len() ==> spec_decode_stream(s).0 == seq![p] && spec_decode_stream(s).1 == n
            },
            Err(ParseError::Incomplete) => spec_decode_stream(s).0.len() == 0 && spec_decode_stream(s).1
                == 0,
            Err(ParseError::UnknownPacketId(_)) => spec_decode_stream(s).0.len() == 0
                && spec_decode_stream(s).1 == s.len(),
        },
{
    if s.len() == 0 {
        reveal(spec_parse_packet);
    }
    if let Ok((n, p)) = spec_parse_packet(s) {
        lemma_parse_packet_prefix_stable(s, Seq::empty());
        assert(s + Seq::<u8>::empty() =~= s);
        if n == s.len() {
            assert(s.skip(n).len() == 0);
            assert(seq![p] + Seq::<ClientPacketView>::empty() =~= seq![p]);
        }
    }
}

/// A buffer that holds the bytes of one login request decodes to that
/// request, and all its bytes are dropped: the player is handed on to log in.
pub proof fn lemma_decode_login_request(
    protocol_version: i32,
    username: Seq<char>,
    map_seed: i64,
    dimension: i8,
)
    requires
        utf16_encode(username).len() < 0x10000,
    ensures
        ({
            let bytes = seq![0x01u8] + be_i32(protocol_version) + text_field(username) + be_i64(map_seed)
                + seq![dimension as u8];
            &&& spec_decode_stream(bytes).0 == seq![
                ClientPacketView::LoginRequest { protocol_version, username, map_seed, dimension },
            ]
            &&& spec_decode_stream(bytes).1 == bytes.len()
        }),
{
    let bytes = seq![0x01u8] + be_i32(protocol_version) + text_field(username) + be_i64(map_seed)
        + seq![dimension as u8];
    lemma_login_request_parses(protocol_version, username, map_seed, dimension, Seq::empty());
    assert(bytes + Seq::<u8>::empty() =~= bytes);
    lemma_decode_keeps_front_packet(bytes);
}

/// Decoding drops no packet that it reads: the packets decoded are exactly
/// as many as the whole packets whose bytes are dropped, one for each, in
/// order, so a buffer of several packets decodes to all of them.
pub proof fn lemma_decode_two_packets(s: Seq<u8>)
    requires
        spec_parse_packet(s) is Ok,
    ensures
        match spec_parse_packet(s) {
            Ok((n, p)) => match spec_parse_packet(s.skip(n)) {
                Ok((m, q)) => spec_decode_stream(s).0.len() >= 2 && spec_decode_stream(s).0[0] == p
                    && spec_decode_stream(s).0[1] == q && spec_decode_stream(s).1 >= n + m,
                Err(_) => true,
            },
            Err(_) => true,
        },
{
    lemma_decode_keeps_front_packet(s);
    if let Ok((n, p)) = spec_parse_packet(s) {
        lemma_decode_keeps_front_packet(s.skip(n));
        if let Ok((m, q)) = spec_parse_packet(s.skip(n)) {
            lemma_decode_stream_bounds(s.skip(n).skip(m));
        }
    }
}

/// Reads the packets at the front of a receive buffer: the packets, in
/// order, and how many bytes of the buffer to drop.
pub fn decode_stream(buffer: &[u8]) -> (r: (Vec<ClientPacket>, usize))
    ensures
        r.0@.map_values(|p: ClientPacket| p@) == spec_decode_stream(buffer@).0,
        r.1 == spec_decode_stream(buffer@).1,
{
    let mut packets: Vec<ClientPacket> = Vec::new();
    let mut pos: usize = 0;
    let len = buffer.len();
    assert(buffer@.skip(0) =~= buffer@);
    while pos < len
        invariant
            pos <= len,
            len == buffer@.len(),
            spec_decode_stream(buffer@).0 == packets@.map_values(|p: ClientPacket| p@)
                + spec_decode_stream(buffer@.skip(pos as int)).0,
            spec_decode_stream(buffer@).1 == pos + spec_decode_stream(buffer@.skip(pos as int)).1,
        decreases len - pos,
    {
        let rest = &buffer[pos..len];
        assert(rest@ =~= buffer@.skip(pos as int));
        match parse_packet(rest) {
            Ok((n, packet)) => {
                proof {
                    lemma_parse_packet_prefix_stable(rest@, Seq::empty());
                    assert(rest@ + Seq::<u8>::empty() =~= rest@);
                    assert(rest@.skip(n as int) =~= buffer@.skip(pos + n));
                }
                let ghost before = packets@;
                packets.push(packet);
                assert(packets@.map_values(|p: ClientPacket| p@) =~= before.map_values(
                    |p: ClientPacket| p@,
                ).push(packet@));
                pos = pos + n;
            },
            Err(ParseError::Incomplete) => {
                // Need more data
                return (packets, pos);
            },
            Err(ParseError::UnknownPacketId(_)) => {
                // Unreadable data: the whole buffer is dropped
                return (packets, len);
            },
        }
    }
    assert(buffer@.skip(pos as int).len() == 0);
    assert(packets@.map_values(|p: ClientPacket| p@) + Seq::<ClientPacketView>::empty()
        =~= packets@.map_values(|p: ClientPacket| p@));
    (packets, pos)
}

/// What the server does about one packet from the client.
#[derive(Debug, Clone, PartialEq, Eq)]
pub enum Reply {
    /// Nothing to send.
    Ignore,
    /// Send the packet to this client.
    Send(ServerPacket),
    /// Send the packet to the logged-in players, this one too when `include_self`.
    Broadcast { packet: ServerPacket, include_self: bool },
    /// Run the login sequence for this player.
    Login,
    /// The player turned: `yaw`, `pitch` are bits of `f32` values.
    Look { yaw: u32, pitch: u32 },
    /// The player moved and turned: `x`, `y`, `z` are bits of `f64` values,
    /// `yaw`, `pitch` bits of `f32` values.
    Move { x: u64, y: u64, z: u64, yaw: u32, pitch: u32 },
    /// Drop the player from the registry and close the connection.
    Disconnect,
}

/// A chat line as others see it: the sender's name, a colon, a space, the message.
pub open spec fn spec_chat_line(username: Option<Seq<char>>, message: Seq<char>) -> Seq<char> {
    let name = match username {
        Some(name) => name,
        None => Seq::empty(),
    };
    name + seq![':', ' '] + message
}

/// A chat line starts with the sender's name (nothing before login),
/// continues with ':' and ' ', and ends with the message as it was sent.
pub proof fn lemma_chat_line_parts(username: Option<Seq<char>>, message: Seq<char>)
    ensures
        ({
            let line = spec_chat_line(username, message);
            let name = match username {
                Some(n) => n,
                None => Seq::<char>::empty(),
            };
            &&& line.len() == name.len() + 2 + message.len()
            &&& line.take(name.len() as int) == name
            &&& line[name.len() as int] == ':' && line[name.len() as int + 1] == ' '
            &&& line.skip(name.len() as int + 2) == message
        }),
{
    let line = spec_chat_line(username, message);
    let name = match username {
        Some(n) => n,
        None => Seq::<char>::empty(),
    };
    assert(line.take(name.len() as int) =~= name);
    assert(line.skip(name.len() as int + 2) =~= message);
}

/// A chat line as others see it: the sender's name (empty before login),
/// a colon, a space, the message.
pub fn chat_line(username: &Option<String>, message: &str) -> (line: String)
    ensures
        line@ == spec_chat_line(
            match username {
                Some(s) => Some(s@),
                None => None,
            },
            message@,
        ),
{
    let mut line = String::new();
    match username {
        Some(name) => line.append(name.as_str()),
        None => {},
    }
    line.append(": ");
    line.append(message);
    proof {
        reveal_strlit(": ");
    }
    assert(line@ =~= spec_chat_line(
        match username {
            Some(s) => Some(s@),
            None => None,
        },
        message@,
    ));
    line
}

/// Decides what to do about a packet from the client, received at
/// `now_ms`, and updates the player's state: keep-alive answers measure
/// latency, a login request records the name.
pub fn respond_to_packet(player: &mut Player, packet: &ClientPacket, now_ms: u64) -> (r: Reply)
    ensures
        match *packet {
            ClientPacket::KeepAlive(value) => {
                &&& r == Reply::Ignore
                &&& final(player).keep_alive() == spec_answer(old(player).keep_alive(), value, now_ms).0
                &&& final(player).spec_username() == old(player).spec_username()
                &&& final(player).entity_id == old(player).entity_id
                &&& final(player).current_chunk_pos == old(player).current_chunk_pos
            },
            ClientPacket::Handshake(_) => {
                &&& r matches Reply::Send(ServerPacket::Handshake(hash)) && hash@ == seq!['-']
                &&& *final(player) == *old(player)
            },
            ClientPacket::LoginRequest { username, .. } => {
                &&& r == Reply::Login
                &&& final(player).spec_username() == Some(username@)
                &&& final(player).keep_alive() == old(player).keep_alive()
                &&& final(player).entity_id == old(player).entity_id
                &&& final(player).current_chunk_pos == old(player).current_chunk_pos
            },
            ClientPacket::ChatMessage(message) => {
                &&& r matches Reply::Broadcast { packet: ServerPacket::ChatMessage(line), include_self }
                    && include_self && line@ == spec_chat_line(old(player).spec_username(), message@)
                &&& *final(player) == *old(player)
            },
            ClientPacket::PlayerLook { yaw, pitch, .. } => {
                &&& r == (Reply::Look { yaw, pitch })
                &&& *final(player) == *old(player)
            },
            ClientPacket::PlayerPositionAndLook { x, y, z, yaw, pitch, .. } => {
                &&& r == (Reply::Move { x, y, z, yaw, pitch })
                &&& *final(player) == *old(player)
            },
            ClientPacket::PlayerDigging { status, x, y, z, .. } => {
                &&& r == if status == 0 {
                    Reply::Send(ServerPacket::BlockChange { x, y, z, block_id: 0 })
                } else {
                    Reply::Ignore
                }
                &&& *final(player) == *old(player)
            },
            ClientPacket::Disconnect(_) => {
                &&& r == Reply::Disconnect
                &&& *final(player) == *old(player)
            },
            _ => {
                &&& r == Reply::Ignore
                &&& *final(player) == *old(player)
            },
        },
{
    match packet {
        ClientPacket::KeepAlive(value) => {
            let _ = player.answer_keepalive(*value, now_ms);
            Reply::Ignore
        },
        ClientPacket::Handshake(_) => {
            let mut hash = String::new();
            hash.push('-');
            Reply::Send(ServerPacket::Handshake(hash))
        },
        ClientPacket::LoginRequest { username, .. } => {
            player.set_username(username.clone());
            Reply::Login
        },
        ClientPacket::ChatMessage(message) => {
            let line = chat_line(&player.username, message.as_str());
            Reply::Broadcast { packet: ServerPacket::ChatMessage(line), include_self: true }
        },
        ClientPacket::PlayerLook { yaw, pitch, .. } => Reply::Look { yaw: *yaw, pitch: *pitch },
        ClientPacket::PlayerPositionAndLook { x, y, z, yaw, pitch, .. } => Reply::Move {
            x: *x,
            y: *y,
            z: *z,
            yaw: *yaw,
            pitch: *pitch,
        },
        ClientPacket::PlayerDigging { status, x, y, z, .. } => {
            // Status: 0=start digging, 1=cancel digging, 2=finish digging, 4=drop item, 5=shoot arrow
            if *status == 0 {
                // For simplicity, the block turns to air at once
                Reply::Send(ServerPacket::BlockChange { x: *x, y: *y, z: *z, block_id: 0 })
            } else {
                Reply::Ignore
            }
        },
        ClientPacket::Disconnect(_) => Reply::Disconnect,
        _ => Reply::Ignore,
    }
}


/// Moves of fewer than this many 1/32 blocks along every axis are sent as
/// relative moves, which the client interpolates.
pub const POSITION_THRESHOLD: i8 = 4;

/// The packet that tells the other players that a player moved: a relative
/// move and look when the move is under `POSITION_THRESHOLD` 1/32 blocks
/// along every axis, a teleport otherwise. The deltas are signed, in 1/32
/// blocks, and travel as their two's-complement bytes; positions are in 1/32
/// blocks, angles in 1/256 turns; an unknown entity is 0.
pub fn movement_packet(
    entity_id: Option<i32>,
    delta_x: i8,
    delta_y: i8,
    delta_z: i8,
    x: i32,
    y: i32,
    z: i32,
    yaw: u8,
    pitch: u8,
) -> (p: ServerPacket)
    ensures
        ({
            let id = match entity_id {
                Some(id) => id,
                None => 0,
            };
            let small = -POSITION_THRESHOLD < delta_x < POSITION_THRESHOLD
                && -POSITION_THRESHOLD < delta_y < POSITION_THRESHOLD
                && -POSITION_THRESHOLD < delta_z < POSITION_THRESHOLD;
            p == if small {
                ServerPacket::EntityLookAndRelativeMove {
                    entity_id: id,
                    delta_x: delta_x as u8,
                    delta_y: delta_y as u8,
                    delta_z: delta_z as u8,
                    yaw,
                    pitch,
                }
            } else {
                ServerPacket::EntityTeleport { entity_id: id, x, y, z, yaw, pitch }
            }
        }),
{
    let entity_id = match entity_id {
        Some(id) => id,
        None => 0,
    };
    let small_position_change = -POSITION_THRESHOLD < delta_x && delta_x < POSITION_THRESHOLD
        && -POSITION_THRESHOLD < delta_y && delta_y < POSITION_THRESHOLD
        && -POSITION_THRESHOLD < delta_z && delta_z < POSITION_THRESHOLD;
    if small_position_change {
        ServerPacket::EntityLookAndRelativeMove {
            entity_id,
            delta_x: delta_x as u8,
            delta_y: delta_y as u8,
            delta_z: delta_z as u8,
            yaw,
            pitch,
        }
    } else {
        ServerPacket::EntityTeleport { entity_id, x, y, z, yaw, pitch }
    }
}

/// The chunk that a player at world block coordinates (x, z) stands in, and
/// whether it differs from `old_chunk`, the chunk the player stood in before
/// the move: when it does, chunks are streamed for the crossing.
pub fn chunk_after_move(old_chunk: ChunkPos, x: i32, z: i32) -> (r: (ChunkPos, bool))
    ensures
        r.0 == (ChunkPos { x: (x as int / 16) as i32, z: (z as int / 16) as i32 }),
        r.1 == (r.0 != old_chunk),
{
    let new_chunk = ChunkPos::from_world_pos(x, z);
    let crossed = !(new_chunk == old_chunk);
    (new_chunk, crossed)
}

/// The packet that tells the other players that a player turned.
pub fn look_packet(entity_id: Option<i32>, yaw: u8, pitch: u8) -> (p: ServerPacket)
    ensures
        p == (ServerPacket::EntityLook {
            entity_id: match entity_id {
                Some(id) => id,
                None => 0,
            },
            yaw,
            pitch,
        }),
{
    let entity_id = match entity_id {
        Some(id) => id,
        None => 0,
    };
    ServerPacket::EntityLook { entity_id, yaw, pitch }
}

/// Block coordinates of the spawn point.
pub const SPAWN_BLOCK_X: i32 = 0;
pub const SPAWN_BLOCK_Y: i32 = 65;
pub const SPAWN_BLOCK_Z: i32 = 0;

/// The spawn point as `f64` bits: x 0.5, y 65.0, z 0.5; and the stance 66.62.
pub const SPAWN_X_BITS: u64 = 0x3FE0_0000_0000_0000;
pub const SPAWN_Y_BITS: u64 = 0x4050_4000_0000_0000;
pub const SPAWN_Z_BITS: u64 = 0x3FE0_0000_0000_0000;
pub const SPAWN_STANCE_BITS: u64 = 0x4050_A7AE_147A_E148;

/// The answer to a login request.
pub fn login_response() -> (p: ServerPacket)
    ensures
        p matches ServerPacket::LoginResponse {
            entity_id,
            level_type,
            map_seed,
            game_mode,
            dimension,
            difficulty,
            world_height,
            max_players,
        } && entity_id == 1 && level_type@ == Seq::<char>::empty() && map_seed == 1234 && game_mode
            == 0 && dimension == 0 && difficulty == 1 && world_height == 127 && max_players == 20,
{
    ServerPacket::LoginResponse {
        entity_id: 1,
        level_type: String::new(),
        map_seed: 1234,
        game_mode: 0,
        dimension: 0,
        difficulty: 1,
        world_height: 127,
        max_players: 20,
    }
}

/// The compass target that a new player is given.
pub fn spawn_position_packet() -> (p: ServerPacket)
    ensures
        p == (ServerPacket::SpawnPosition { x: 0, y: 64, z: 0 }),
{
    ServerPacket::SpawnPosition { x: 0, y: 64, z: 0 }
}

/// The chunk that holds the spawn point.
pub fn spawn_chunk() -> (c: ChunkPos)
    ensures
        c == (ChunkPos { x: 0, z: 0 }),
{
    ChunkPos::from_world_pos(SPAWN_BLOCK_X, SPAWN_BLOCK_Z)
}

/// The chunks that a new player is sent: those within the view distance of
/// the spawn chunk.
pub fn initial_chunks() -> (chunks: Vec<ChunkPos>)
    ensures
        chunks@ == square_around(ChunkPos { x: 0, z: 0 }, VIEW_DISTANCE),
{
    let center = spawn_chunk();
    proof {
        lemma_view_distance_fits(center);
    }
    ChunkPos::chunks_in_radius(center, VIEW_DISTANCE)
}

/// One step of the login sequence.
#[derive(Debug, Clone, Copy, PartialEq, Eq)]
pub enum LoginStep {
    /// Send `login_response()`.
    SendLoginResponse,
    /// Send `spawn_position_packet()`.
    SendSpawnPosition,
    /// Send the pre-chunk packet that announces the chunk, then the chunk.
    SendChunk(ChunkPos),
    /// Place the player at the spawn point, in the spawn chunk.
    PlaceAtSpawn,
    /// Start loading the chunks around the player's chunk ahead of need.
    StartPrefetch,
    /// Send `spawn_look_packet()`.
    SendSpawnLook,
    /// Give the player an entity id.
    AssignEntityId,
    /// Show every other logged-in player to the new player.
    ShowOtherPlayers,
    /// Add the player to the logged-in players.
    Register,
    /// Show the new player, at the spawn block, to the others.
    BroadcastSpawn,
}

/// The login sequence, in order: the login response and the compass target,
/// each chunk around the spawn chunk, then the player is placed, prefetching
/// starts, the player is told where it stands, is given an entity id, sees
/// the others, joins them and is shown to them.
pub open spec fn spec_login_steps() -> Seq<LoginStep> {
    seq![LoginStep::SendLoginResponse, LoginStep::SendSpawnPosition] + square_around(
        ChunkPos { x: 0, z: 0 },
        VIEW_DISTANCE,
    ).map_values(|p: ChunkPos| LoginStep::SendChunk(p)) + seq![
        LoginStep::PlaceAtSpawn,
        LoginStep::StartPrefetch,
        LoginStep::SendSpawnLook,
        LoginStep::AssignEntityId,
        LoginStep::ShowOtherPlayers,
        LoginStep::Register,
        LoginStep::BroadcastSpawn,
    ]
}

/// The login sequence has 90 steps: the login response, the compass target,
/// the 81 chunks around the spawn chunk in the order they are listed, then
/// placing the player, prefetching, the spawn look, the entity id, showing
/// the others, joining them and being shown to them.
pub proof fn lemma_login_steps_order(k: int)
    ensures
        ({
            let s = spec_login_steps();
            &&& s.len() == 90
            &&& s[0] == LoginStep::SendLoginResponse && s[1] == LoginStep::SendSpawnPosition
            &&& 0 <= k < 81 ==> s[2 + k] == LoginStep::SendChunk(square_around(ChunkPos { x: 0, z: 0 }, VIEW_DISTANCE)[k])
            &&& s[83] == LoginStep::PlaceAtSpawn && s[84] == LoginStep::StartPrefetch
            &&& s[85] == LoginStep::SendSpawnLook && s[86] == LoginStep::AssignEntityId
            &&& s[87] == LoginStep::ShowOtherPlayers && s[88] == LoginStep::Register
            &&& s[89] == LoginStep::BroadcastSpawn
        }),
{
    assert(square_side(VIEW_DISTANCE) == 9);
    assert(square_around(ChunkPos { x: 0, z: 0 }, VIEW_DISTANCE).len() == 81);
}

/// The steps of the login sequence, in the order they are taken.
pub fn login_steps() -> (steps: Vec<LoginStep>)
    ensures
        steps@ == spec_login_steps(),
{
    let chunks = initial_chunks();
    let mut steps: Vec<LoginStep> = Vec::new();
    steps.push(LoginStep::SendLoginResponse);
    steps.push(LoginStep::SendSpawnPosition);
    let ghost head = steps@;
    let mut i: usize = 0;
    while i < chunks.len()
        invariant
            i <= chunks@.len(),
            head == seq![LoginStep::SendLoginResponse, LoginStep::SendSpawnPosition],
            steps@ == head + chunks@.take(i as int).map_values(|p: ChunkPos| LoginStep::SendChunk(p)),
        decreases chunks@.len() - i,
    {
        let ghost before = steps@;
        steps.push(LoginStep::SendChunk(chunks[i]));
        assert(chunks@.take(i + 1).map_values(|p: ChunkPos| LoginStep::SendChunk(p)) =~= chunks@.take(
            i as int,
        ).map_values(|p: ChunkPos| LoginStep::SendChunk(p)).push(LoginStep::SendChunk(chunks@[i as int])));
        assert(steps@ =~= head + chunks@.take(i + 1).map_values(|p: ChunkPos| LoginStep::SendChunk(p)));
        i = i + 1;
    }
    assert(chunks@.take(chunks@.len() as int) =~= chunks@);
    steps.push(LoginStep::PlaceAtSpawn);
    steps.push(LoginStep::StartPrefetch);
    steps.push(LoginStep::SendSpawnLook);
    steps.push(LoginStep::AssignEntityId);
    steps.push(LoginStep::ShowOtherPlayers);
    steps.push(LoginStep::Register);
    steps.push(LoginStep::BroadcastSpawn);
    assert(steps@ =~= spec_login_steps());
    steps
}

/// The position and look that a new player is placed at, once its chunks are sent.
pub fn spawn_look_packet() -> (p: ServerPacket)
    ensures
        p == (ServerPacket::PlayerPositionAndLook {
            x: SPAWN_X_BITS,
            y: SPAWN_Y_BITS,
            stance: SPAWN_STANCE_BITS,
            z: SPAWN_Z_BITS,
            yaw: 0,
            pitch: 0,
            on_ground: false,
        }),
{
    ServerPacket::PlayerPositionAndLook {
        x: SPAWN_X_BITS,
        y: SPAWN_Y_BITS,
        stance: SPAWN_STANCE_BITS,
        z: SPAWN_Z_BITS,
        yaw: 0,
        pitch: 0,
        on_ground: false,
    }
}

/// The packet that shows a player to another one, standing at block
/// coordinates (x, y, z), facing north, holding nothing; an unknown entity is 0.
pub fn named_entity_spawn(entity_id: Option<i32>, username: String, x: i32, y: i32, z: i32) -> (p: ServerPacket)
    ensures
        p matches ServerPacket::NamedEntitySpawn {
            entity_id: id,
            username: name,
            x: px,
            y: py,
            z: pz,
            yaw,
            pitch,
            current_item,
        } && id == (match entity_id {
            Some(id) => id,
            None => 0,
        }) && name@ == username@ && px == x && py == y && pz == z && yaw == 0 && pitch == 0
            && current_item == 0,
{
    let entity_id = match entity_id {
        Some(id) => id,
        None => 0,
    };
    ServerPacket::NamedEntitySpawn {
        entity_id,
        username,
        x,
        y,
        z,
        yaw: 0,
        pitch: 0,
        current_item: 0,
    }
}

/// The packet that tells the client to prepare (`load`) or forget a chunk.
pub fn pre_chunk_packet(pos: ChunkPos, load: bool) -> (p: ServerPacket)
    ensures
        p == (ServerPacket::PreChunk { x: pos.x, z: pos.z, mode: load }),
{
    ServerPacket::PreChunk { x: pos.x, z: pos.z, mode: load }
}

/// The packet that carries a chunk's compressed data: its lowest block
/// corner, and its size minus one along each axis.
pub fn map_chunk_packet(chunk_x: i32, chunk_z: i32, compressed_data: Vec<u8>) -> (p: ServerPacket)
    requires
        i32::MIN <= chunk_x * 16 <= i32::MAX,
        i32::MIN <= chunk_z * 16 <= i32::MAX,
    ensures
        p matches ServerPacket::MapChunk { x, y, z, size_x, size_y, size_z, compressed_data: data }
            && x == chunk_x * 16 && y == 0 && z == chunk_z * 16 && size_x == 15 && size_y == 127
            && size_z == 15 && data@ == compressed_data@,
{
    ServerPacket::MapChunk {
        x: chunk_x * 16,
        y: 0,
        z: chunk_z * 16,
        size_x: CHUNK_SIZE_X_U8 - 1,
        size_y: CHUNK_SIZE_Y_U8 - 1,
        size_z: CHUNK_SIZE_Z_U8 - 1,
        compressed_data,
    }
}

/// The forget packets of a move of the view from `old_chunk` to `new_chunk`,
/// one for each chunk to unload, in order.
pub fn unload_packets(old_chunk: ChunkPos, new_chunk: ChunkPos) -> (packets: Vec<ServerPacket>)
    requires
        radius_fits(old_chunk, VIEW_DISTANCE),
        radius_fits(new_chunk, VIEW_DISTANCE),
    ensures
        packets@.len() == spec_chunks_to_unload(old_chunk, new_chunk, VIEW_DISTANCE).len(),
        forall|i: int|
            0 <= i < packets@.len() ==> #[trigger] packets@[i] == (ServerPacket::PreChunk {
                x: spec_chunks_to_unload(old_chunk, new_chunk, VIEW_DISTANCE)[i].x,
                z: spec_chunks_to_unload(old_chunk, new_chunk, VIEW_DISTANCE)[i].z,
                mode: false,
            }),
{
    let chunks = ChunkPos::chunks_to_unload(old_chunk, new_chunk, VIEW_DISTANCE);
    let mut packets: Vec<ServerPacket> = Vec::new();
    let mut i: usize = 0;
    while i < chunks.len()
        invariant
            i <= chunks@.len(),
            chunks@ == spec_chunks_to_unload(old_chunk, new_chunk, VIEW_DISTANCE),
            packets@.len() == i,
            forall|k: int|
                0 <= k < i ==> #[trigger] packets@[k] == (ServerPacket::PreChunk {
                    x: chunks@[k].x,
                    z: chunks@[k].z,
                    mode: false,
                }),
        decreases chunks@.len() - i,
    {
        packets.push(pre_chunk_packet(chunks[i], false));
        i = i + 1;
    }
    packets
}

/// The player-list entry of a logged-in player, with its ping; `None`
/// before it logged in.
pub fn player_list_packet(player: &Player) -> (p: Option<ServerPacket>)
    ensures
        match player.spec_username() {
            Some(name) => p matches Some(ServerPacket::PlayerListItem { username, online, ping })
                && username@ == name && online && ping == crate::player::spec_ping(
                player.keep_alive(),
            ),
            None => p is None,
        },
{
    match player.get_username() {
        Some(username) => Some(
            ServerPacket::PlayerListItem { username, online: true, ping: player.ping() },
        ),
        None => None,
    }
}

} // verus!
