//! Terrain layout and chunk compression.

use vstd::prelude::*;

use vstd::string::StringExecFns;

use crate::chunk_manager::filled;

verus! {

/// Why world data could not be produced.
#[derive(Debug, Clone, PartialEq, Eq)]
pub enum WorldError {
    CompressionFailed(String),
}

impl From<String> for WorldError {
    fn from(s: String) -> (e: Self) {
        WorldError::CompressionFailed(s)
    }
}

impl vstd::std_specs::convert::FromSpecImpl<String> for WorldError {
    open spec fn obeys_from_spec() -> bool {
        true
    }

    open spec fn from_spec(s: String) -> Self {
        WorldError::CompressionFailed(s)
    }
}

pub const WORLD_SEED: u32 = 781378172;

// Block IDs
pub const AIR: u8 = 0;
pub const STONE: u8 = 1;
pub const GRASS: u8 = 2;
pub const DIRT: u8 = 3;
pub const WATER: u8 = 9;
pub const SAND: u8 = 12;

/// The height below which open columns fill with water.
pub const SEA_LEVEL: usize = 54;

/// The lowest ground level, and how far below the surface caves may open.
pub const MIN_GROUND_LEVEL: isize = 5;
pub const CAVE_MIN_DEPTH: isize = 8;

/// The ground level of a column: the raw height clamped to `5 ..= size_y - 1`.
pub open spec fn spec_ground_level(raw: isize, size_y: u8) -> int {
    if raw < 5 {
        5
    } else if raw > size_y - 1 {
        size_y - 1
    } else {
        raw as int
    }
}

/// `a - b`, or 0 when `b` is larger.
pub open spec fn saturating_sub(a: int, b: int) -> int {
    if a >= b {
        a - b
    } else {
        0
    }
}

/// The block at height `y` of a column whose ground level is `ground`, before
/// caves are carved: stone, then dirt, then grass up to the ground level; water
/// above it up to sea level where the ground lies below sea level; air above.
pub open spec fn spec_terrain_block(ground: int, y: int) -> u8 {
    let below_sea = ground < SEA_LEVEL;
    if y < ground {
        if below_sea {
            if y < saturating_sub(ground, 4) {
                STONE
            } else {
                DIRT
            }
        } else if y < saturating_sub(ground, 4) {
            STONE
        } else if y < saturating_sub(ground, 1) {
            DIRT
        } else {
            GRASS
        }
    } else if below_sea && y < SEA_LEVEL {
        WATER
    } else if below_sea && ground == SEA_LEVEL - 1 && y == ground {
        SAND
    } else {
        AIR
    }
}

/// The block after cave carving: solid blocks more than 8 blocks below the
/// surface become air where the cave noise opens a cave.
pub open spec fn spec_carved_block(ground: int, y: int, cave_open: bool) -> u8 {
    let block = spec_terrain_block(ground, y);
    if block != AIR && block != WATER && cave_open && ground - y > CAVE_MIN_DEPTH {
        AIR
    } else {
        block
    }
}

/// Caves never open near the surface: within 8 blocks below the ground level
/// a column keeps its layered block, and carving never removes water.
pub proof fn lemma_no_caves_near_surface(ground: int, y: int, cave_open: bool)
    ensures
        ground - y <= CAVE_MIN_DEPTH ==> spec_carved_block(ground, y, cave_open) == spec_terrain_block(
            ground,
            y,
        ),
        spec_terrain_block(ground, y) == WATER ==> spec_carved_block(ground, y, cave_open) == WATER,
        !cave_open ==> spec_carved_block(ground, y, cave_open) == spec_terrain_block(ground, y),
{
}

/// Below the ground level a column is solid (stone, dirt or grass) before
/// caves are carved; from the ground level up it holds only water or air.
pub proof fn lemma_solid_below_ground(ground: int, y: int)
    requires
        5 <= ground,
        0 <= y,
    ensures
        y < ground ==> (spec_terrain_block(ground, y) == STONE || spec_terrain_block(ground, y) == DIRT
            || spec_terrain_block(ground, y) == GRASS),
        y >= ground ==> (spec_terrain_block(ground, y) == WATER || spec_terrain_block(ground, y) == AIR),
{
}

/// The ground level of a column: the raw height clamped to `5 ..= size_y - 1`.
pub fn ground_level(raw: isize, size_y: u8) -> (g: usize)
    requires
        size_y >= 6,
    ensures
        g == spec_ground_level(raw, size_y),
{
    let top = size_y as isize - 1;
    if raw < MIN_GROUND_LEVEL {
        MIN_GROUND_LEVEL as usize
    } else if raw > top {
        top as usize
    } else {
        raw as usize
    }
}

/// The block at height `y` of a column whose ground level is `ground`,
/// with caves carved where `cave_open` holds.
pub fn carved_block(ground: usize, y: usize, cave_open: bool) -> (b: u8)
    requires
        ground < 256,
        y < 256,
    ensures
        b == spec_carved_block(ground as int, y as int, cave_open),
{
    let below_sea = ground < SEA_LEVEL;
    let block = if y < ground {
        if below_sea {
            if y < ground.saturating_sub(4) {
                STONE
            } else {
                DIRT
            }
        } else {
            if y < ground.saturating_sub(4) {
                STONE
            } else if y < ground.saturating_sub(1) {
                DIRT
            } else {
                GRASS
            }
        }
    } else if below_sea && y < SEA_LEVEL {
        WATER
    } else if below_sea && ground == (SEA_LEVEL - 1) && y == ground {
        SAND
    } else {
        AIR
    };
    if block != AIR && block != WATER {
        let surface_distance = ground as isize - y as isize;
        if cave_open && surface_distance > CAVE_MIN_DEPTH {
            AIR
        } else {
            block
        }
    } else {
        block
    }
}

/// The blocks of a generated chunk, x-major then z then y, followed by the
/// metadata, block light and sky light arrays of `(blocks + 1) / 2` bytes each.
pub open spec fn spec_terrain_data(size_y: u8, raw_ground: Seq<isize>, cave_open: Seq<bool>) -> Seq<u8> {
    let n = cave_open.len();
    let m = ((n + 1) / 2) as nat;
    Seq::new(
        n,
        |i: int| spec_carved_block(spec_ground_level(raw_ground[i / size_y as int], size_y), i % size_y as int, cave_open[i]),
    ) + Seq::new(m, |i: int| 0u8) + Seq::new(m, |i: int| 0u8) + Seq::new(m, |i: int| 0xFFu8)
}

/// What each block of a generated chunk is. Block `i` lies in column
/// `i / size_y` at height `y = i % size_y`; the column's ground level `g` is
/// its raw height clamped to `5 ..= size_y - 1`. Below the ground the column
/// is stone up to four blocks under the ground, then dirt, with grass as the
/// top block where the ground is at or above sea level (54); a cave opens,
/// leaving air, where the cave noise opens more than 8 blocks below the
/// ground, and nowhere else. From the ground up there is water below sea
/// level where the ground is below it, and air otherwise. After the blocks
/// come two arrays of zeros and one of 0xFF, of `(n + 1) / 2` bytes each.
pub proof fn lemma_terrain_layout(size_y: u8, raw_ground: Seq<isize>, cave_open: Seq<bool>, i: int)
    requires
        size_y >= 6,
        raw_ground.len() * size_y == cave_open.len(),
    ensures
        ({
            let data = spec_terrain_data(size_y, raw_ground, cave_open);
            let n = cave_open.len() as int;
            let m = (n + 1) / 2;
            let raw = raw_ground[i / size_y as int];
            let g: int = if raw < 5 {
                5
            } else if raw > size_y - 1 {
                size_y - 1
            } else {
                raw as int
            };
            let y = i % size_y as int;
            let carved = cave_open[i] && g - y > 8;
            &&& data.len() == n + 3 * m
            &&& 0 <= i < n && y < g && carved ==> data[i] == AIR
            &&& 0 <= i < n && y < g - 4 && !carved ==> data[i] == STONE
            &&& 0 <= i < n && g - 4 <= y < g && g < 54 && !carved ==> data[i] == DIRT
            &&& 0 <= i < n && g - 4 <= y < g - 1 && g >= 54 && !carved ==> data[i] == DIRT
            &&& 0 <= i < n && y == g - 1 && g >= 54 && !carved ==> data[i] == GRASS
            &&& 0 <= i < n && y >= g && g < 54 && y < 54 ==> data[i] == WATER
            &&& 0 <= i < n && y >= g && !(g < 54 && y < 54) ==> data[i] == AIR
            &&& n <= i < n + 2 * m ==> data[i] == 0
            &&& n + 2 * m <= i < n + 3 * m ==> data[i] == 0xFF
        }),
{
    let n = cave_open.len() as int;
    if 0 <= i < n {
        let c = i / size_y as int;
        vstd::arithmetic::div_mod::lemma_fundamental_div_mod(i, size_y as int);
        vstd::arithmetic::div_mod::lemma_mod_bound(i, size_y as int);
        assert(0 <= c < raw_ground.len()) by (nonlinear_arith)
            requires
                i == size_y * c + i % (size_y as int),
                0 <= i % (size_y as int) < size_y,
                0 <= i < n,
                raw_ground.len() * size_y == n,
                size_y >= 6,
        ;
    }
}

/// Lays out a generated chunk of `size_x` x `size_y` x `size_z` blocks from
/// the raw ground height of each column (`x * size_z + z`) and from whether
/// the cave noise opens a cave at each block (`(x * size_z + z) * size_y + y`).
pub fn assemble_terrain(size_x: u8, size_y: u8, size_z: u8, raw_ground: &[isize], cave_open: &[bool]) -> (data: Vec<u8>)
    requires
        size_x > 0,
        size_y >= 6,
        size_z > 0,
        raw_ground@.len() == size_x * size_z,
        cave_open@.len() == size_x * size_z * size_y,
    ensures
        data@ == spec_terrain_data(size_y, raw_ground@, cave_open@),
{
    let sy = size_y as usize;
    let block_count = cave_open.len();
    assert(block_count <= 255 * 255 * 255) by (nonlinear_arith)
        requires
            block_count == size_x * size_z * size_y,
            size_x <= 255,
            size_y <= 255,
            size_z <= 255,
    ;
    let meta_size = (block_count + 1) / 2;
    let mut data: Vec<u8> = Vec::with_capacity(block_count + 3 * meta_size);
    let mut i: usize = 0;
    while i < block_count
        invariant
            i <= block_count,
            block_count == cave_open@.len(),
            block_count == size_x * size_z * size_y,
            raw_ground@.len() == size_x * size_z,
            sy == size_y,
            sy >= 6,
            data@ =~= Seq::new(
                i as nat,
                |k: int| spec_carved_block(spec_ground_level(raw_ground@[k / size_y as int], size_y), k % size_y as int, cave_open@[k]),
            ),
        decreases block_count - i,
    {
        let column = i / sy;
        let y = i % sy;
        assert(column < raw_ground@.len()) by (nonlinear_arith)
            requires
                column == i / sy,
                i < size_x * size_z * size_y,
                sy == size_y,
                sy > 0,
                raw_ground@.len() == size_x * size_z,
        ;
        let ground = ground_level(raw_ground[column], size_y);
        let block = carved_block(ground, y, cave_open[i]);
        data.push(block);
        i = i + 1;
    }
    data.extend_from_slice(filled(0u8, meta_size).as_slice());
    data.extend_from_slice(filled(0u8, meta_size).as_slice());
    data.extend_from_slice(filled(0xFFu8, meta_size).as_slice());
    assert(data@ =~= spec_terrain_data(size_y, raw_ground@, cave_open@));
    data
}

/// Verify that compressed data is in valid zlib format: at least six bytes,
/// the deflate method byte 0x78, and a flag byte of one of the usual levels.
pub fn verify_zlib_format(data: &[u8]) -> (ok: bool)
    ensures
        ok == (data@.len() >= 6 && data@[0] == 0x78 && (data@[1] == 0x01 || data@[1] == 0x9C
            || data@[1] == 0xDA)),
{
    if data.len() < 6 {
        return false;
    }
    data[0] == 0x78 && (data[1] == 0x01 || data[1] == 0x9C || data[1] == 0xDA)
}


/// What `zlib_rs::compress_slice` produces with the default configuration
/// from `input` into an output buffer of `capacity` bytes: the compressed
/// bytes and the number of its return code.
pub uninterp spec fn zlib_compress_slice(input: Seq<u8>, capacity: nat) -> (Seq<u8>, i32);

/// The number of return code `BufError`: the output buffer was too small.
pub const BUF_ERROR: i32 = -5;

/// `zlib_rs::compress_bound(len)`: an output of this many bytes is always
/// large enough for the compressed form of `len` bytes of input.
pub open spec fn zlib_compress_bound(len: nat) -> nat {
    len + (if len == 0 { 1nat } else { 0nat }) + (if len < 9 { 1nat } else { 0nat }) + (len + 7) / 8
        + 3 + 6
}

/// `zlib_rs::compress_slice(output, input, DeflateConfig::default())`.
/// It compresses `input` into `output` and returns the front of `output` that
/// it filled and a `ReturnCode`; here a copy of those bytes and the code's
/// number (`Ok` is 0, `BufError`, too small an output, is -5). Stated: the
/// result depends only on the input and the output's length, the bytes fit in
/// the output, the output keeps its length, and, as the documentation of
/// `compress_bound` says, an output of at least `compress_bound(input.len())`
/// bytes never gives `BufError` (the bound is taken for inputs short enough
/// that its 32-bit rounding on some targets cannot matter). What the
/// compressed bytes are, and whether compression fails otherwise (a failed
/// allocation gives `MemError`), are left unsaid.
#[verifier::external_body]
fn compress_slice_default(output: &mut [u8], input: &[u8]) -> (r: (Vec<u8>, i32))
    ensures
        (r.0@, r.1) == zlib_compress_slice(input@, old(output)@.len()),
        r.0@.len() <= old(output)@.len(),
        final(output)@.len() == old(output)@.len(),
        input@.len() + 7 < 0x1_0000_0000 && old(output)@.len() >= zlib_compress_bound(input@.len())
            ==> r.1 != BUF_ERROR,
{
    let (compressed, rc) = zlib_rs::compress_slice(output, input, zlib_rs::DeflateConfig::default());
    (compressed.to_vec(), rc as i32)
}

/// The name of a zlib return code, as its `Debug` form prints it.
pub open spec fn return_code_name(code: i32) -> Seq<char> {
    if code == 0 {
        "Ok"@
    } else if code == 1 {
        "StreamEnd"@
    } else if code == 2 {
        "NeedDict"@
    } else if code == -1 {
        "ErrNo"@
    } else if code == -2 {
        "StreamError"@
    } else if code == -3 {
        "DataError"@
    } else if code == -4 {
        "MemError"@
    } else if code == -5 {
        "BufError"@
    } else {
        "VersionError"@
    }
}

fn return_code_str(code: i32) -> (name: &'static str)
    ensures
        name@ == return_code_name(code),
{
    if code == 0 {
        "Ok"
    } else if code == 1 {
        "StreamEnd"
    } else if code == 2 {
        "NeedDict"
    } else if code == -1 {
        "ErrNo"
    } else if code == -2 {
        "StreamError"
    } else if code == -3 {
        "DataError"
    } else if code == -4 {
        "MemError"
    } else if code == -5 {
        "BufError"
    } else {
        "VersionError"
    }
}

/// The outcome of a compression from the bytes that zlib filled and its
/// return code: the bytes when the code is `Ok`, otherwise an error that
/// names the code.
pub fn compression_result(compressed: Vec<u8>, status: i32) -> (r: Result<Vec<u8>, WorldError>)
    ensures
        r is Ok <==> status == 0,
        r matches Ok(v) ==> v@ == compressed@,
        r matches Err(WorldError::CompressionFailed(message)) ==> message@
            == "Compression failed with status: "@ + return_code_name(status),
{
    if status != 0 {
        let mut message = String::from_str("Compression failed with status: ");
        message.append(return_code_str(status));
        return Err(WorldError::from(message));
    }
    Ok(compressed)
}

/// Compress chunk data using zlib format, into a buffer twice the size of
/// the data. Fails, naming zlib's return code, when zlib does not return `Ok`;
/// from 11 bytes on the buffer is never too small.
pub fn compress_chunk_data(data: &[u8]) -> (r: Result<Vec<u8>, WorldError>)
    requires
        data@.len() * 2 <= usize::MAX,
    ensures
        ({
            let (compressed, code) = zlib_compress_slice(data@, (data@.len() * 2) as nat);
            &&& r is Ok <==> code == 0
            &&& r matches Ok(v) ==> v@ == compressed
            &&& r matches Err(WorldError::CompressionFailed(message)) ==> message@
                == "Compression failed with status: "@ + return_code_name(code)
            &&& 11 <= data@.len() && data@.len() + 7 < 0x1_0000_0000 ==> code != BUF_ERROR
        }),
{
    let mut compress_buffer: Vec<u8> = filled(0u8, data.len() * 2);
    let (compressed_data, status) = compress_slice_default(compress_buffer.as_mut_slice(), data);
    proof {
        let n = data@.len();
        if 11 <= n {
            let q = (n + 7) / 8;
            vstd::arithmetic::div_mod::lemma_fundamental_div_mod((n + 7) as int, 8);
            vstd::arithmetic::div_mod::lemma_mod_bound((n + 7) as int, 8);
            assert(q + 9 <= n);
        }
    }
    compression_result(compressed_data, status)
}

} // verus!
