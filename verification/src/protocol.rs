//! The grammar of client packets: functions on bytes that read one field or
//! one packet from the front of a buffer that may not hold all of it yet.

use vstd::prelude::*;

use crate::codec::{lemma_i32_roundtrip, lemma_u16_roundtrip, lemma_u32_roundtrip, lemma_u64_roundtrip, be_i32, be_i64, be_u16, be_u32, be_u64, u16_of_be, u16_from_be, u32_of_be, u32_from_be, u64_of_be, u64_from_be};
use crate::packet_ids;
use crate::packets::{server_packet_bytes, text_field, units_be, ClientPacket, ClientPacketView, ServerPacket};
use crate::text::{lemma_utf16_roundtrip, utf16_encode, utf16_lossy};

verus! {

/// Why no value could be read from the front of a buffer.
#[derive(Debug, Clone, Copy, PartialEq, Eq, Structural)]
pub enum ParseError {
    /// The buffer ends before the value does: more bytes are needed.
    Incomplete,
    /// The packet starts with an identifier that this server does not read.
    UnknownPacketId(u8),
}

/// Reading `n` bytes of fixed-width content: how many bytes were consumed.
pub open spec fn fixed_read(s: Seq<u8>, n: int) -> Result<int, ParseError> {
    if s.len() >= n {
        Ok(n)
    } else {
        Err(ParseError::Incomplete)
    }
}

/// The UTF-16 code units that `b` holds, two big-endian bytes each.
pub open spec fn utf16_units(b: Seq<u8>) -> Seq<u16> {
    Seq::new(b.len() / 2, |i: int| u16_of_be(b.subrange(2 * i, 2 * i + 2)))
}

/// A string on the wire: a big-endian 16-bit count of code units, then the units.
/// The bytes it takes and the text it holds.
pub open spec fn spec_read_string(s: Seq<u8>) -> Option<(int, Seq<char>)> {
    if s.len() < 2 {
        None
    } else {
        let n = u16_of_be(s) as int;
        if s.len() < 2 + 2 * n {
            None
        } else {
            Some((2 + 2 * n, utf16_lossy(utf16_units(s.subrange(2, 2 + 2 * n)))))
        }
    }
}

/// Parse a 32-bit big-endian integer.
pub fn parse_i32(input: &[u8]) -> (r: Result<(usize, i32), ParseError>)
    ensures
        r == (if input@.len() >= 4 {
            Ok::<(usize, i32), ParseError>((4usize, u32_of_be(input@) as i32))
        } else {
            Err(ParseError::Incomplete)
        }),
{
    if input.len() < 4 {
        return Err(ParseError::Incomplete);
    }
    Ok((4, u32_from_be(input) as i32))
}


/// Parse a 64-bit big-endian integer.
pub fn parse_i64(input: &[u8]) -> (r: Result<(usize, i64), ParseError>)
    ensures
        r == (if input@.len() >= 8 {
            Ok::<(usize, i64), ParseError>((8usize, u64_of_be(input@) as i64))
        } else {
            Err(ParseError::Incomplete)
        }),
{
    if input.len() < 8 {
        return Err(ParseError::Incomplete);
    }
    Ok((8, u64_from_be(input) as i64))
}

/// Parse a 32-bit big-endian float: its IEEE-754 bits.
pub fn parse_f32(input: &[u8]) -> (r: Result<(usize, u32), ParseError>)
    ensures
        r == (if input@.len() >= 4 {
            Ok::<(usize, u32), ParseError>((4usize, u32_of_be(input@)))
        } else {
            Err(ParseError::Incomplete)
        }),
{
    if input.len() < 4 {
        return Err(ParseError::Incomplete);
    }
    Ok((4, u32_from_be(input)))
}

/// Parse a 64-bit big-endian float: its IEEE-754 bits.
pub fn parse_f64(input: &[u8]) -> (r: Result<(usize, u64), ParseError>)
    ensures
        r == (if input@.len() >= 8 {
            Ok::<(usize, u64), ParseError>((8usize, u64_of_be(input@)))
        } else {
            Err(ParseError::Incomplete)
        }),
{
    if input.len() < 8 {
        return Err(ParseError::Incomplete);
    }
    Ok((8, u64_from_be(input)))
}

/// Parse a boolean value: one byte, true when it is not zero.
pub fn parse_bool(input: &[u8]) -> (r: Result<(usize, bool), ParseError>)
    ensures
        r == (if input@.len() >= 1 {
            Ok::<(usize, bool), ParseError>((1usize, input@[0] != 0))
        } else {
            Err(ParseError::Incomplete)
        }),
{
    if input.len() < 1 {
        return Err(ParseError::Incomplete);
    }
    Ok((1, input[0] != 0))
}

/// Parse a UTF-16 encoded string (a count of code units, then the units).
pub fn parse_utf16_string(input: &[u8]) -> (r: Result<(usize, String), ParseError>)
    ensures
        match r {
            Ok((n, text)) => spec_read_string(input@) == Some((n as int, text@)),
            Err(e) => spec_read_string(input@) is None && e == ParseError::Incomplete,
        },
{
    if input.len() < 2 {
        return Err(ParseError::Incomplete);
    }
    let string_len = u16_from_be(input) as usize;
    if input.len() - 2 < string_len * 2 {
        return Err(ParseError::Incomplete);
    }
    let string_bytes = &input[2..2 + string_len * 2];
    assert(string_bytes@ =~= input@.subrange(2, 2 + string_len * 2));
    let mut units: Vec<u16> = Vec::with_capacity(string_len);
    let mut i: usize = 0;
    while i < string_len
        invariant
            i <= string_len,
            string_bytes@.len() == 2 * string_len,
            2 * string_len <= usize::MAX,
            units@.len() == i,
            forall|k: int| 0 <= k < i ==> #[trigger] units@[k] == utf16_units(string_bytes@)[k],
        decreases string_len - i,
    {
        let pair = &string_bytes[2 * i..2 * i + 2];
        let unit = u16_from_be(pair);
        units.push(unit);
        i = i + 1;
    }
    assert(units@ =~= utf16_units(string_bytes@));
    let text = String::from_utf16_lossy(units.as_slice());
    Ok((2 + string_len * 2, text))
}


/// The packet that the front of `s` holds, and how many bytes it takes.
/// Proofs about what a given buffer parses to call `reveal(spec_parse_packet)`.
#[verifier::opaque]
pub open spec fn spec_parse_packet(s: Seq<u8>) -> Result<(int, ClientPacketView), ParseError> {
    if s.len() == 0 {
        Err(ParseError::Incomplete)
    } else {
        let id = s[0];
        let b = s.drop_first();
        if id == packet_ids::KEEP_ALIVE {
            if b.len() >= 4 {
                Ok((5, ClientPacketView::KeepAlive(u32_of_be(b) as i32)))
            } else {
                Err(ParseError::Incomplete)
            }
        } else if id == packet_ids::HANDSHAKE {
            match spec_read_string(b) {
                Some((n, text)) => Ok((1 + n, ClientPacketView::Handshake(text))),
                None => Err(ParseError::Incomplete),
            }
        } else if id == packet_ids::LOGIN_REQUEST {
            if b.len() < 4 {
                Err(ParseError::Incomplete)
            } else {
                match spec_read_string(b.skip(4)) {
                    Some((n, name)) => if b.len() >= 4 + n + 9 {
                        Ok(
                            (
                                1 + 4 + n + 9,
                                ClientPacketView::LoginRequest {
                                    protocol_version: u32_of_be(b) as i32,
                                    username: name,
                                    map_seed: u64_of_be(b.skip(4 + n)) as i64,
                                    dimension: b[4 + n + 8] as i8,
                                },
                            ),
                        )
                    } else {
                        Err(ParseError::Incomplete)
                    },
                    None => Err(ParseError::Incomplete),
                }
            }
        } else if id == packet_ids::PLAYER_POSITION {
            if b.len() >= 33 {
                Ok(
                    (
                        34,
                        ClientPacketView::PlayerPosition {
                            x: u64_of_be(b),
                            y: u64_of_be(b.skip(8)),
                            stance: u64_of_be(b.skip(16)),
                            z: u64_of_be(b.skip(24)),
                            on_ground: b[32] != 0,
                        },
                    ),
                )
            } else {
                Err(ParseError::Incomplete)
            }
        } else if id == packet_ids::PLAYER_POSITION_AND_LOOK {
            if b.len() >= 41 {
                Ok(
                    (
                        42,
                        ClientPacketView::PlayerPositionAndLook {
                            x: u64_of_be(b),
                            y: u64_of_be(b.skip(8)),
                            stance: u64_of_be(b.skip(16)),
                            z: u64_of_be(b.skip(24)),
                            yaw: u32_of_be(b.skip(32)),
                            pitch: u32_of_be(b.skip(36)),
                            on_ground: b[40] != 0,
                        },
                    ),
                )
            } else {
                Err(ParseError::Incomplete)
            }
        } else {
            Err(ParseError::UnknownPacketId(id))
        }
    }
}

/// The bytes of `input` from `start` on.
fn rest(input: &[u8], start: usize) -> (r: &[u8])
    requires
        start <= input@.len(),
    ensures
        r@ == input@.skip(start as int),
{
    &input[start..input.len()]
}

/// Parse a client packet from raw bytes: the bytes it took and the packet.
pub fn parse_packet(input: &[u8]) -> (r: Result<(usize, ClientPacket), ParseError>)
    ensures
        match r {
            Ok((n, p)) => spec_parse_packet(input@) == Ok::<(int, ClientPacketView), ParseError>(
                (n as int, p@),
            ),
            Err(e) => spec_parse_packet(input@) == Err::<(int, ClientPacketView), ParseError>(e),
        },
{
    proof {
        reveal(spec_parse_packet);
    }
    if input.len() < 1 {
        return Err(ParseError::Incomplete);
    }
    let packet_id = input[0];
    let body = rest(input, 1);
    assert(body@ =~= input@.drop_first());
    if packet_id == packet_ids::KEEP_ALIVE {
        let (_, keep_alive_value) = parse_i32(body)?;
        Ok((5, ClientPacket::KeepAlive(keep_alive_value)))
    } else if packet_id == packet_ids::HANDSHAKE {
        let (n, username) = parse_utf16_string(body)?;
        Ok((1 + n, ClientPacket::Handshake(username)))
    } else if packet_id == packet_ids::LOGIN_REQUEST {
        let (_, protocol_version) = parse_i32(body)?;
        let after_version = rest(body, 4);
        let (n, username) = parse_utf16_string(after_version)?;
        let after_name = rest(body, 4 + n);
        assert(after_name@ =~= body@.skip(4 + n));
        let (_, map_seed) = parse_i64(after_name)?;
        let after_seed = rest(body, 4 + n + 8);
        let (_, dimension) = parse_byte(after_seed)?;
        Ok(
            (
                1 + 4 + n + 9,
                ClientPacket::LoginRequest {
                    protocol_version,
                    username,
                    map_seed,
                    dimension: dimension as i8,
                },
            ),
        )
    } else if packet_id == packet_ids::PLAYER_POSITION {
        if body.len() < 33 {
            return Err(ParseError::Incomplete);
        }
        let (_, x) = parse_f64(body)?;
        let (_, y) = parse_f64(rest(body, 8))?;
        let (_, stance) = parse_f64(rest(body, 16))?;
        let (_, z) = parse_f64(rest(body, 24))?;
        let (_, on_ground) = parse_bool(rest(body, 32))?;
        Ok((34, ClientPacket::PlayerPosition { x, y, stance, z, on_ground }))
    } else if packet_id == packet_ids::PLAYER_POSITION_AND_LOOK {
        if body.len() < 41 {
            return Err(ParseError::Incomplete);
        }
        let (_, x) = parse_f64(body)?;
        let (_, y) = parse_f64(rest(body, 8))?;
        let (_, stance) = parse_f64(rest(body, 16))?;
        let (_, z) = parse_f64(rest(body, 24))?;
        let (_, yaw) = parse_f32(rest(body, 32))?;
        let (_, pitch) = parse_f32(rest(body, 36))?;
        let (_, on_ground) = parse_bool(rest(body, 40))?;
        Ok((42, ClientPacket::PlayerPositionAndLook { x, y, stance, z, yaw, pitch, on_ground }))
    } else {
        Err(ParseError::UnknownPacketId(packet_id))
    }
}

/// Read one raw byte.
fn parse_byte(input: &[u8]) -> (r: Result<(usize, u8), ParseError>)
    ensures
        r == (if input@.len() >= 1 {
            Ok::<(usize, u8), ParseError>((1usize, input@[0]))
        } else {
            Err(ParseError::Incomplete)
        }),
{
    if input.len() < 1 {
        return Err(ParseError::Incomplete);
    }
    Ok((1, input[0]))
}


proof fn lemma_read_string_extend(s: Seq<u8>, t: Seq<u8>)
    requires
        spec_read_string(s) is Some,
    ensures
        spec_read_string(s + t) == spec_read_string(s),
        spec_read_string(s).unwrap().0 <= s.len(),
{
    let n = u16_of_be(s) as int;
    assert((s + t)[0] == s[0] && (s + t)[1] == s[1]);
    assert((s + t).subrange(2, 2 + 2 * n) =~= s.subrange(2, 2 + 2 * n));
}

proof fn lemma_u64_of_be_extend(b: Seq<u8>, t: Seq<u8>, k: int)
    requires
        0 <= k,
        k + 8 <= b.len(),
    ensures
        u64_of_be((b + t).skip(k)) == u64_of_be(b.skip(k)),
        u32_of_be((b + t).skip(k)) == u32_of_be(b.skip(k)),
{
    assert((b + t).skip(k).take(4) =~= b.skip(k).take(4));
    assert((b + t).skip(k).subrange(4, 8) =~= b.skip(k).subrange(4, 8));
    assert((b + t).skip(k)[0] == b.skip(k)[0]);
    assert((b + t).skip(k)[1] == b.skip(k)[1]);
    assert((b + t).skip(k)[2] == b.skip(k)[2]);
    assert((b + t).skip(k)[3] == b.skip(k)[3]);
}

/// Once the front of a buffer holds a whole packet, or starts with an
/// identifier that is not read, the bytes that follow change nothing: the
/// same packet is read, and it takes no more bytes than the buffer holds.
pub proof fn lemma_parse_packet_prefix_stable(s: Seq<u8>, t: Seq<u8>)
    requires
        spec_parse_packet(s) != Err::<(int, ClientPacketView), ParseError>(ParseError::Incomplete),
    ensures
        spec_parse_packet(s + t) == spec_parse_packet(s),
        spec_parse_packet(s) matches Ok((n, _)) ==> 0 < n <= s.len(),
{
    reveal(spec_parse_packet);
    let st = s + t;
    let b = s.drop_first();
    assert(st.drop_first() =~= b + t);
    assert(st[0] == s[0]);
    let id = s[0];
    if id == packet_ids::KEEP_ALIVE {
        lemma_u32_of_be_extend(b, t);
    } else if id == packet_ids::HANDSHAKE {
        lemma_read_string_extend(b, t);
    } else if id == packet_ids::LOGIN_REQUEST {
        lemma_u32_of_be_extend(b, t);
        assert((b + t).skip(4) =~= b.skip(4) + t);
        lemma_read_string_extend(b.skip(4), t);
        let n = spec_read_string(b.skip(4)).unwrap().0;
        lemma_u64_of_be_extend(b, t, 4 + n);
        assert((b + t)[4 + n + 8] == b[4 + n + 8]);
    } else if id == packet_ids::PLAYER_POSITION {
        lemma_u64_of_be_extend(b, t, 0);
        lemma_u64_of_be_extend(b, t, 8);
        lemma_u64_of_be_extend(b, t, 16);
        lemma_u64_of_be_extend(b, t, 24);
        assert(b.skip(0) =~= b);
        assert((b + t).skip(0) =~= b + t);
        assert((b + t)[32] == b[32]);
    } else if id == packet_ids::PLAYER_POSITION_AND_LOOK {
        lemma_u64_of_be_extend(b, t, 0);
        lemma_u64_of_be_extend(b, t, 8);
        lemma_u64_of_be_extend(b, t, 16);
        lemma_u64_of_be_extend(b, t, 24);
        lemma_u64_of_be_extend(b, t, 32);
        lemma_u32_of_be_extend_at(b, t, 36);
        assert(b.skip(0) =~= b);
        assert((b + t).skip(0) =~= b + t);
        assert((b + t)[40] == b[40]);
    }
}

proof fn lemma_u32_of_be_extend(b: Seq<u8>, t: Seq<u8>)
    requires
        b.len() >= 4,
    ensures
        u32_of_be(b + t) == u32_of_be(b),
{
    assert((b + t)[0] == b[0] && (b + t)[1] == b[1] && (b + t)[2] == b[2] && (b + t)[3] == b[3]);
}

proof fn lemma_u32_of_be_extend_at(b: Seq<u8>, t: Seq<u8>, k: int)
    requires
        0 <= k,
        k + 4 <= b.len(),
    ensures
        u32_of_be((b + t).skip(k)) == u32_of_be(b.skip(k)),
{
    assert((b + t).skip(k)[0] == b.skip(k)[0]);
    assert((b + t).skip(k)[1] == b.skip(k)[1]);
    assert((b + t).skip(k)[2] == b.skip(k)[2]);
    assert((b + t).skip(k)[3] == b.skip(k)[3]);
}


/// The packet that a client sends in the same form as a server packet, for
/// the packets that the server and the client write alike: keep-alives,
/// handshakes, and position-and-look updates.
pub open spec fn echoed_packet(p: ServerPacket) -> Option<ClientPacketView> {
    match p {
        ServerPacket::KeepAlive(value) => Some(ClientPacketView::KeepAlive(value)),
        ServerPacket::Handshake(hash) => Some(ClientPacketView::Handshake(hash@)),
        ServerPacket::PlayerPositionAndLook { x, y, stance, z, yaw, pitch, on_ground } => Some(
            ClientPacketView::PlayerPositionAndLook { x, y, stance, z, yaw, pitch, on_ground },
        ),
        _ => None,
    }
}

/// A text field fits its 16-bit count of code units.
pub open spec fn text_fits(p: ServerPacket) -> bool {
    match p {
        ServerPacket::Handshake(hash) => utf16_encode(hash@).len() < 0x10000,
        _ => true,
    }
}

/// Eight bytes written big-endian read back as the value they were written from.
pub proof fn lemma_u64_at(s: Seq<u8>, k: int, v: u64)
    requires
        0 <= k,
        k + 8 <= s.len(),
        s.subrange(k, k + 8) == be_u64(v),
    ensures
        u64_of_be(s.skip(k)) == v,
{
    lemma_u64_roundtrip(v);
    let t = s.skip(k);
    assert(t.take(4) =~= be_u64(v).take(4));
    assert(t.subrange(4, 8) =~= be_u64(v).subrange(4, 8));
}

/// Four bytes written big-endian read back as the value they were written from.
pub proof fn lemma_u32_at(s: Seq<u8>, k: int, v: u32)
    requires
        0 <= k,
        k + 4 <= s.len(),
        s.subrange(k, k + 4) == be_u32(v),
    ensures
        u32_of_be(s.skip(k)) == v,
{
    lemma_u32_roundtrip(v);
    let t = s.skip(k);
    assert(t[0] == be_u32(v)[0] && t[1] == be_u32(v)[1] && t[2] == be_u32(v)[2] && t[3] == be_u32(v)[3]);
}

/// Two bytes written big-endian read back as the value they were written from.
pub proof fn lemma_u16_at(s: Seq<u8>, k: int, v: u16)
    requires
        0 <= k,
        k + 2 <= s.len(),
        s.subrange(k, k + 2) == be_u16(v),
    ensures
        u16_of_be(s.skip(k)) == v,
{
    lemma_u16_roundtrip(v);
    let t = s.skip(k);
    assert(t[0] == be_u16(v)[0] && t[1] == be_u16(v)[1]);
}

/// A text field that the server writes, whatever follows it, is read back by
/// the string reader as the same text, taking exactly the bytes written: the
/// count of UTF-16 code units and two bytes for each unit.
#[verifier::spinoff_prover]
#[verifier::rlimit(40)]
pub proof fn lemma_text_field_reads_back(s: Seq<char>, rest: Seq<u8>)
    requires
        utf16_encode(s).len() < 0x10000,
    ensures
        text_field(s).len() == 2 + 2 * utf16_encode(s).len(),
        spec_read_string(text_field(s) + rest) == Some((text_field(s).len() as int, s)),
{
    let u = utf16_encode(s);
    let n = u.len() as int;
    let b = text_field(s) + rest;
    assert((n % 0x10000) as u16 == n as u16);
    lemma_u16_roundtrip(n as u16);
    assert(b[0] == be_u16(n as u16)[0] && b[1] == be_u16(n as u16)[1]);
    assert(b.subrange(2, 2 + 2 * n) =~= units_be(u));
    lemma_units_roundtrip(u);
    lemma_utf16_roundtrip(s);
}

/// The code units that a text field holds read back as the units written.
#[verifier::spinoff_prover]
#[verifier::rlimit(40)]
proof fn lemma_units_roundtrip(u: Seq<u16>)
    ensures
        utf16_units(units_be(u)) == u,
{
    let b = units_be(u);
    assert forall|i: int| 0 <= i < u.len() implies #[trigger] utf16_units(b)[i] == u[i] by {
        let pair = b.subrange(2 * i, 2 * i + 2);
        assert(pair =~= be_u16(u[i]));
        lemma_u16_roundtrip(u[i]);
    }
    assert(utf16_units(b) =~= u);
}

proof fn lemma_keep_alive_parses(value: i32)
    ensures
        ({
            let p = ServerPacket::KeepAlive(value);
            spec_parse_packet(server_packet_bytes(p)) == Ok::<(int, ClientPacketView), ParseError>(
                (server_packet_bytes(p).len() as int, echoed_packet(p).unwrap()),
            )
        }),
{
    reveal(spec_parse_packet);
    let bytes = server_packet_bytes(ServerPacket::KeepAlive(value));
    assert(bytes.drop_first() =~= be_i32(value));
    lemma_i32_roundtrip(value);
}

proof fn lemma_handshake_parses(hash: String)
    requires
        utf16_encode(hash@).len() < 0x10000,
    ensures
        ({
            let p = ServerPacket::Handshake(hash);
            spec_parse_packet(server_packet_bytes(p)) == Ok::<(int, ClientPacketView), ParseError>(
                (server_packet_bytes(p).len() as int, echoed_packet(p).unwrap()),
            )
        }),
{
    reveal(spec_parse_packet);
    let bytes = server_packet_bytes(ServerPacket::Handshake(hash));
    let b = bytes.drop_first();
    let u = utf16_encode(hash@);
    let n = u.len() as int;
    assert(b =~= be_u16(n as u16) + units_be(u));
    lemma_u16_roundtrip(n as u16);
    assert(b[0] == be_u16(n as u16)[0] && b[1] == be_u16(n as u16)[1]);
    assert(b.subrange(2, 2 + 2 * n) =~= units_be(u));
    lemma_units_roundtrip(u);
    lemma_utf16_roundtrip(hash@);
}

#[verifier::spinoff_prover]
#[verifier::rlimit(40)]
proof fn lemma_position_and_look_parses(
    x: u64,
    y: u64,
    stance: u64,
    z: u64,
    yaw: u32,
    pitch: u32,
    on_ground: bool,
)
    ensures
        ({
            let p = ServerPacket::PlayerPositionAndLook { x, y, stance, z, yaw, pitch, on_ground };
            spec_parse_packet(server_packet_bytes(p)) == Ok::<(int, ClientPacketView), ParseError>(
                (server_packet_bytes(p).len() as int, echoed_packet(p).unwrap()),
            )
        }),
{
    let bytes = server_packet_bytes(
        ServerPacket::PlayerPositionAndLook { x, y, stance, z, yaw, pitch, on_ground },
    );
    let b = bytes.drop_first();
    assert(b.subrange(0, 8) =~= be_u64(x));
    assert(b.subrange(8, 16) =~= be_u64(y));
    assert(b.subrange(16, 24) =~= be_u64(stance));
    assert(b.subrange(24, 32) =~= be_u64(z));
    assert(b.subrange(32, 36) =~= be_u32(yaw));
    assert(b.subrange(36, 40) =~= be_u32(pitch));
    lemma_u64_at(b, 0, x);
    lemma_u64_at(b, 8, y);
    lemma_u64_at(b, 16, stance);
    lemma_u64_at(b, 24, z);
    lemma_u32_at(b, 32, yaw);
    lemma_u32_at(b, 36, pitch);
    reveal(spec_parse_packet);
    assert(b.skip(0) =~= b);
    assert(b[40] == crate::packets::bool_byte(on_ground));
}

/// A login request as a client writes it (identifier 0x01, the protocol
/// version, the name as a text field, the map seed and the dimension),
/// followed by any bytes, is read as that request, taking exactly its bytes.
#[verifier::spinoff_prover]
#[verifier::rlimit(40)]
pub proof fn lemma_login_request_parses(
    protocol_version: i32,
    username: Seq<char>,
    map_seed: i64,
    dimension: i8,
    rest: Seq<u8>,
)
    requires
        utf16_encode(username).len() < 0x10000,
    ensures
        ({
            let bytes = seq![0x01u8] + be_i32(protocol_version) + text_field(username) + be_i64(map_seed)
                + seq![dimension as u8];
            spec_parse_packet(bytes + rest) == Ok::<(int, ClientPacketView), ParseError>(
                (
                    bytes.len() as int,
                    ClientPacketView::LoginRequest { protocol_version, username, map_seed, dimension },
                ),
            )
        }),
{
    reveal(spec_parse_packet);
    let tf = text_field(username);
    let tail = be_i64(map_seed) + seq![dimension as u8] + rest;
    let bytes = seq![0x01u8] + be_i32(protocol_version) + tf + be_i64(map_seed) + seq![dimension as u8];
    let s = bytes + rest;
    let b = s.drop_first();
    assert(b =~= be_i32(protocol_version) + tf + tail);
    assert(b.subrange(0, 4) =~= be_u32(protocol_version as u32));
    lemma_u32_at(b, 0, protocol_version as u32);
    assert(b.skip(0) =~= b);
    assert((protocol_version as u32) as i32 == protocol_version) by (bit_vector);
    assert(b.skip(4) =~= tf + tail);
    lemma_text_field_reads_back(username, tail);
    let n = tf.len() as int;
    assert(b.subrange(4 + n, 12 + n) =~= be_u64(map_seed as u64));
    lemma_u64_at(b, 4 + n, map_seed as u64);
    assert((map_seed as u64) as i64 == map_seed) by (bit_vector);
    assert(b[12 + n] == dimension as u8);
    assert((dimension as u8) as i8 == dimension) by (bit_vector);
}

/// A player-position packet as a client writes it (identifier 0x0B, x, y,
/// stance and z as eight big-endian bytes each, then the on-ground byte),
/// followed by any bytes, is read as those values, taking 34 bytes; the
/// player is on the ground exactly when that byte is not zero.
#[verifier::spinoff_prover]
#[verifier::rlimit(40)]
pub proof fn lemma_player_position_parses(x: u64, y: u64, stance: u64, z: u64, ground: u8, rest: Seq<u8>)
    ensures
        spec_parse_packet(
            seq![0x0Bu8] + be_u64(x) + be_u64(y) + be_u64(stance) + be_u64(z) + seq![ground] + rest,
        ) == Ok::<(int, ClientPacketView), ParseError>(
            (34, ClientPacketView::PlayerPosition { x, y, stance, z, on_ground: ground != 0 }),
        ),
{
    let s = seq![0x0Bu8] + be_u64(x) + be_u64(y) + be_u64(stance) + be_u64(z) + seq![ground] + rest;
    let b = s.drop_first();
    assert(b.subrange(0, 8) =~= be_u64(x));
    assert(b.subrange(8, 16) =~= be_u64(y));
    assert(b.subrange(16, 24) =~= be_u64(stance));
    assert(b.subrange(24, 32) =~= be_u64(z));
    lemma_u64_at(b, 0, x);
    lemma_u64_at(b, 8, y);
    lemma_u64_at(b, 16, stance);
    lemma_u64_at(b, 24, z);
    reveal(spec_parse_packet);
    assert(b.skip(0) =~= b);
    assert(b[32] == ground);
}

/// A position-and-look packet as a client writes it (identifier 0x0D, x, y,
/// stance and z as eight big-endian bytes each, yaw and pitch as four, then
/// the on-ground byte), followed by any bytes, is read as those values,
/// taking 42 bytes; the player is on the ground exactly when that byte is not
/// zero.
#[verifier::spinoff_prover]
#[verifier::rlimit(40)]
pub proof fn lemma_position_and_look_bytes_parse(
    x: u64,
    y: u64,
    stance: u64,
    z: u64,
    yaw: u32,
    pitch: u32,
    ground: u8,
    rest: Seq<u8>,
)
    ensures
        spec_parse_packet(
            seq![0x0Du8] + be_u64(x) + be_u64(y) + be_u64(stance) + be_u64(z) + be_u32(yaw) + be_u32(
                pitch,
            ) + seq![ground] + rest,
        ) == Ok::<(int, ClientPacketView), ParseError>(
            (
                42,
                ClientPacketView::PlayerPositionAndLook {
                    x,
                    y,
                    stance,
                    z,
                    yaw,
                    pitch,
                    on_ground: ground != 0,
                },
            ),
        ),
{
    let s = seq![0x0Du8] + be_u64(x) + be_u64(y) + be_u64(stance) + be_u64(z) + be_u32(yaw) + be_u32(
        pitch,
    ) + seq![ground] + rest;
    let b = s.drop_first();
    assert(b.subrange(0, 8) =~= be_u64(x));
    assert(b.subrange(8, 16) =~= be_u64(y));
    assert(b.subrange(16, 24) =~= be_u64(stance));
    assert(b.subrange(24, 32) =~= be_u64(z));
    assert(b.subrange(32, 36) =~= be_u32(yaw));
    assert(b.subrange(36, 40) =~= be_u32(pitch));
    lemma_u64_at(b, 0, x);
    lemma_u64_at(b, 8, y);
    lemma_u64_at(b, 16, stance);
    lemma_u64_at(b, 24, z);
    lemma_u32_at(b, 32, yaw);
    lemma_u32_at(b, 36, pitch);
    reveal(spec_parse_packet);
    assert(b.skip(0) =~= b);
    assert(b[40] == ground);
}

/// A keep-alive as a client writes it (identifier 0x00 and the value as four
/// big-endian bytes), followed by any bytes, is read as that value, taking 5
/// bytes.
pub proof fn lemma_keep_alive_bytes_parse(value: i32, rest: Seq<u8>)
    ensures
        spec_parse_packet(seq![0x00u8] + be_i32(value) + rest) == Ok::<(int, ClientPacketView), ParseError>(
            (5, ClientPacketView::KeepAlive(value)),
        ),
{
    reveal(spec_parse_packet);
    let s = seq![0x00u8] + be_i32(value) + rest;
    let b = s.drop_first();
    assert(b.subrange(0, 4) =~= be_u32(value as u32));
    lemma_u32_at(b, 0, value as u32);
    assert(b.skip(0) =~= b);
    assert((value as u32) as i32 == value) by (bit_vector);
}

/// A handshake as a client writes it (identifier 0x02 and the text as a text
/// field), followed by any bytes, is read as that text, taking exactly its
/// bytes.
pub proof fn lemma_handshake_bytes_parse(text: Seq<char>, rest: Seq<u8>)
    requires
        utf16_encode(text).len() < 0x10000,
    ensures
        spec_parse_packet(seq![0x02u8] + text_field(text) + rest) == Ok::<(int, ClientPacketView), ParseError>(
            ((1 + text_field(text).len()) as int, ClientPacketView::Handshake(text)),
        ),
{
    reveal(spec_parse_packet);
    let s = seq![0x02u8] + text_field(text) + rest;
    assert(s.drop_first() =~= text_field(text) + rest);
    lemma_text_field_reads_back(text, rest);
}

/// An empty buffer asks for more bytes, and a buffer that starts with an
/// identifier other than those of keep-alive (0x00), login request (0x01),
/// handshake (0x02), player position (0x0B) and position-and-look (0x0D) is
/// unreadable, whatever follows.
pub proof fn lemma_parse_packet_ids(s: Seq<u8>)
    ensures
        s.len() == 0 ==> spec_parse_packet(s) == Err::<(int, ClientPacketView), ParseError>(
            ParseError::Incomplete,
        ),
        s.len() > 0 && s[0] != 0x00 && s[0] != 0x01 && s[0] != 0x02 && s[0] != 0x0B && s[0] != 0x0D
            ==> spec_parse_packet(s) == Err::<(int, ClientPacketView), ParseError>(
            ParseError::UnknownPacketId(s[0]),
        ),
{
    reveal(spec_parse_packet);
}

/// What the server writes of a keep-alive, a handshake or a position-and-look
/// update, followed by any bytes, is read by the client-packet parser as the
/// same packet, taking exactly the bytes written. A handshake's text comes
/// back as it was, whatever characters it holds, when it has fewer than 2^16
/// UTF-16 code units.
pub proof fn lemma_server_packet_roundtrip(p: ServerPacket, rest: Seq<u8>)
    requires
        echoed_packet(p) is Some,
        text_fits(p),
    ensures
        spec_parse_packet(server_packet_bytes(p) + rest) == Ok::<(int, ClientPacketView), ParseError>(
            (server_packet_bytes(p).len() as int, echoed_packet(p).unwrap()),
        ),
{
    match p {
        ServerPacket::KeepAlive(value) => lemma_keep_alive_parses(value),
        ServerPacket::Handshake(hash) => lemma_handshake_parses(hash),
        ServerPacket::PlayerPositionAndLook { x, y, stance, z, yaw, pitch, on_ground } =>
            lemma_position_and_look_parses(x, y, stance, z, yaw, pitch, on_ground),
        _ => {},
    }
    lemma_parse_packet_prefix_stable(server_packet_bytes(p), rest);
}

/// A packet that is cut short is reported as incomplete, never as
/// unreadable: every proper prefix of the bytes of a packet that the parser
/// reads asks for more bytes.
pub proof fn lemma_parse_packet_proper_prefix_incomplete(s: Seq<u8>, k: int)
    requires
        match spec_parse_packet(s) {
            Ok((n, _)) => 0 <= k < n,
            Err(_) => false,
        },
    ensures
        spec_parse_packet(s.take(k)) == Err::<(int, ClientPacketView), ParseError>(ParseError::Incomplete),
{
    reveal(spec_parse_packet);
    lemma_parse_packet_prefix_stable(s, Seq::empty());
    assert(s + Seq::<u8>::empty() =~= s);
    if k > 0 {
        let t = s.take(k);
        let b = s.drop_first();
        let tb = t.drop_first();
        assert(tb =~= b.take(k - 1));
        assert(t[0] == s[0]);
        let id = s[0];
        if id == packet_ids::HANDSHAKE {
            if tb.len() >= 2 {
                assert(tb[0] == b[0] && tb[1] == b[1]);
            }
        } else if id == packet_ids::LOGIN_REQUEST {
            if tb.len() >= 6 {
                let bs = b.skip(4);
                let ts = tb.skip(4);
                assert(ts =~= bs.take(k - 5));
                assert(ts[0] == bs[0] && ts[1] == bs[1]);
            }
        }
    }
}

} // verus!
