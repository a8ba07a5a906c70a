use mincraft_server::config::{Biome, OreSettings, OresConfig, WorldSettings};
use mincraft_server::world::{
    assemble_terrain, carved_block, compress_chunk_data, compression_result, ground_level,
    verify_zlib_format,
    WorldError, AIR, DIRT, GRASS, STONE, WATER, WORLD_SEED,
};

#[test]
fn zlib_format_check() {
    assert!(verify_zlib_format(&[0x78, 0x9C, 0, 0, 0, 0]));
    assert!(verify_zlib_format(&[0x78, 0x01, 1, 2, 3, 4, 5]));
    assert!(verify_zlib_format(&[0x78, 0xDA, 0, 0, 0, 0]));
    assert!(!verify_zlib_format(&[0x78, 0x9C, 0, 0, 0]));
    assert!(!verify_zlib_format(&[0x79, 0x9C, 0, 0, 0, 0]));
    assert!(!verify_zlib_format(&[0x78, 0x5E, 0, 0, 0, 0]));
}

#[test]
fn compress_round_trips_through_zlib() {
    let data: Vec<u8> = (0..4096u32).map(|i| (i % 7) as u8).collect();
    let compressed = compress_chunk_data(&data).unwrap();
    assert!(verify_zlib_format(&compressed));
    let mut out = vec![0u8; data.len()];
    let (plain, rc) = zlib_rs::decompress_slice(&mut out, &compressed, zlib_rs::InflateConfig::default());
    assert_eq!(rc, zlib_rs::ReturnCode::Ok);
    assert_eq!(plain, &data[..]);
}

#[test]
fn compress_fails_without_room() {
    assert_eq!(
        compress_chunk_data(&[]),
        Err(WorldError::CompressionFailed("Compression failed with status: BufError".to_string()))
    );
    assert_eq!(WorldError::from("x".to_string()), WorldError::CompressionFailed("x".to_string()));
}

#[test]
fn compression_result_checks_status() {
    assert_eq!(compression_result(vec![7, 8], 0), Ok(vec![7, 8]));
    assert_eq!(
        compression_result(vec![], -5),
        Err(WorldError::CompressionFailed("Compression failed with status: BufError".to_string()))
    );
    assert_eq!(
        compression_result(vec![1], -4),
        Err(WorldError::CompressionFailed("Compression failed with status: MemError".to_string()))
    );
}

#[test]
fn compress_succeeds_from_eleven_bytes() {
    for n in 11..64usize {
        let data: Vec<u8> = (0..n).map(|i| (i * 37 % 251) as u8).collect();
        assert!(compress_chunk_data(&data).is_ok(), "length {}", n);
    }
}

#[test]
fn ground_level_clamps() {
    assert_eq!(ground_level(-3, 128), 5);
    assert_eq!(ground_level(4, 128), 5);
    assert_eq!(ground_level(60, 128), 60);
    assert_eq!(ground_level(127, 128), 127);
    assert_eq!(ground_level(500, 128), 127);
}

#[test]
fn column_layers_above_sea() {
    // ground level 60: stone below 56, dirt 56..59, grass at 59, air from 60
    assert_eq!(carved_block(60, 0, false), STONE);
    assert_eq!(carved_block(60, 55, false), STONE);
    assert_eq!(carved_block(60, 56, false), DIRT);
    assert_eq!(carved_block(60, 58, false), DIRT);
    assert_eq!(carved_block(60, 59, false), GRASS);
    assert_eq!(carved_block(60, 60, false), AIR);
}

#[test]
fn column_layers_below_sea() {
    // ground level 50: stone below 46, dirt 46..50, water 50..54, air above
    assert_eq!(carved_block(50, 45, false), STONE);
    assert_eq!(carved_block(50, 46, false), DIRT);
    assert_eq!(carved_block(50, 49, false), DIRT);
    assert_eq!(carved_block(50, 50, false), WATER);
    assert_eq!(carved_block(50, 53, false), WATER);
    assert_eq!(carved_block(50, 54, false), AIR);
    assert_eq!(carved_block(53, 53, false), WATER);
}

#[test]
fn caves_open_only_deep() {
    assert_eq!(carved_block(60, 51, true), AIR);
    assert_eq!(carved_block(60, 52, true), STONE);
    assert_eq!(carved_block(60, 59, true), GRASS);
    assert_eq!(carved_block(50, 51, true), WATER);
    assert_eq!(carved_block(60, 10, false), STONE);
}

#[test]
fn assemble_small_chunk() {
    let raw = vec![60isize, 2];
    let caves = vec![false; 2 * 8];
    let data = assemble_terrain(1, 8, 2, &raw, &caves);
    // block count 16, three arrays of 8 bytes each
    assert_eq!(data.len(), 16 + 3 * 8);
    // column 0: ground clamped to 7, below sea level -> stone below 3, dirt 3..7, water at 7
    assert_eq!(&data[0..8], &[STONE, STONE, STONE, DIRT, DIRT, DIRT, DIRT, WATER]);
    // column 1: ground 5, below sea: stone 0, dirt 1..5, water 5..8
    assert_eq!(&data[8..16], &[STONE, DIRT, DIRT, DIRT, DIRT, WATER, WATER, WATER]);
    assert_eq!(&data[16..32], &[0u8; 16]);
    assert_eq!(&data[32..40], &[0xFFu8; 8]);
}

#[test]
fn world_seed_value() {
    assert_eq!(WORLD_SEED, 781378172);
}

#[test]
fn biome_blocks() {
    assert_eq!(Biome::Desert.surface_block(), 12);
    assert_eq!(Biome::Beach.subsurface_block(), 12);
    assert_eq!(Biome::Swamp.surface_block(), 13);
    assert_eq!(Biome::Swamp.subsurface_block(), 13);
    assert_eq!(Biome::Plains.surface_block(), 2);
    assert_eq!(Biome::Forest.subsurface_block(), 3);
}

#[test]
fn biome_flags() {
    let all = [
        Biome::Plains,
        Biome::Desert,
        Biome::Forest,
        Biome::Mountains,
        Biome::Ocean,
        Biome::Beach,
        Biome::Taiga,
        Biome::Swamp,
    ];
    let trees: Vec<bool> = all.iter().map(|b| b.has_trees()).collect();
    assert_eq!(trees, vec![false, false, true, false, false, false, true, true]);
    let snow: Vec<bool> = all.iter().map(|b| b.has_snow()).collect();
    assert_eq!(snow, vec![false, false, false, true, false, false, true, false]);
    let warm: Vec<bool> = all.iter().map(|b| b.is_warm()).collect();
    assert_eq!(warm, vec![true, true, false, false, false, false, false, false]);
}

#[test]
fn plain_settings_hold_values() {
    let coal = OreSettings { block_id: 16, vein_size: 8, attempts_per_chunk: 15, min_height: 5, max_height: 128 };
    let ores = OresConfig { enabled: true, coal, iron: coal, gold: coal, diamond: coal };
    assert_eq!(ores.coal.block_id, 16);
    assert_eq!(WorldSettings { seed: 7 }.seed, 7);
}
