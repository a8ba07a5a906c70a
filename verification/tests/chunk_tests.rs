use mincraft_server::chunk_manager::{Chunk, ChunkManager, ChunkPos, BLOCK_COUNT, VIEW_DISTANCE};

#[test]
fn chunk_pos_new_and_world_pos() {
    assert_eq!(ChunkPos::new(3, -4), ChunkPos { x: 3, z: -4 });
    assert_eq!(ChunkPos::from_world_pos(0, 15), ChunkPos { x: 0, z: 0 });
    assert_eq!(ChunkPos::from_world_pos(16, 31), ChunkPos { x: 1, z: 1 });
    assert_eq!(ChunkPos::from_world_pos(-1, -16), ChunkPos { x: -1, z: -1 });
    assert_eq!(ChunkPos::from_world_pos(-17, i32::MIN), ChunkPos { x: -2, z: i32::MIN / 16 });
}

#[test]
fn chunk_pos_filename() {
    assert_eq!(ChunkPos::new(3, -12).filename(), "chunk_3_-12.bin");
    assert_eq!(ChunkPos::new(0, 0).filename(), "chunk_0_0.bin");
    assert_eq!(
        ChunkPos::new(i32::MIN, i32::MAX).filename(),
        "chunk_-2147483648_2147483647.bin"
    );
}

#[test]
fn chunk_pos_block_pos() {
    assert_eq!(ChunkPos::new(2, -3).get_block_pos(), (32, -48));
}

#[test]
fn chunks_in_radius_order() {
    let c = ChunkPos::new(10, 20);
    let v = ChunkPos::chunks_in_radius(c, 1);
    assert_eq!(v.len(), 9);
    assert_eq!(v[0], ChunkPos::new(9, 19));
    assert_eq!(v[1], ChunkPos::new(9, 20));
    assert_eq!(v[3], ChunkPos::new(10, 19));
    assert_eq!(v[8], ChunkPos::new(11, 21));
    assert_eq!(ChunkPos::chunks_in_radius(c, 0), vec![c]);
    assert!(ChunkPos::chunks_in_radius(c, -1).is_empty());
    assert_eq!(ChunkPos::chunks_in_radius(c, VIEW_DISTANCE).len(), 81);
}

#[test]
fn chunks_to_load_and_unload() {
    let old = ChunkPos::new(0, 0);
    let new = ChunkPos::new(1, 0);
    let load = ChunkPos::chunks_to_load(old, new, 1);
    assert_eq!(load, vec![ChunkPos::new(2, -1), ChunkPos::new(2, 0), ChunkPos::new(2, 1)]);
    let unload = ChunkPos::chunks_to_unload(old, new, 1);
    assert_eq!(unload, vec![ChunkPos::new(-1, -1), ChunkPos::new(-1, 0), ChunkPos::new(-1, 1)]);
    assert_eq!(ChunkPos::chunks_to_unload(new, old, 1), load);
    assert!(ChunkPos::chunks_to_load(old, old, 4).is_empty());
    assert!(ChunkPos::chunks_to_unload(old, old, 4).is_empty());
    let far = ChunkPos::new(100, 100);
    assert_eq!(ChunkPos::chunks_to_load(old, far, 4).len(), 81);
    let diagonal = ChunkPos::chunks_to_load(old, ChunkPos::new(1, 1), 4);
    assert_eq!(diagonal.len(), 17);
}

#[test]
fn chunk_blocks() {
    let mut c = Chunk::new(ChunkPos::new(1, 2));
    assert_eq!(c.blocks.len(), BLOCK_COUNT);
    assert!(!c.modified);
    assert_eq!(Chunk::index(0, 0, 0), 0);
    assert_eq!(Chunk::index(1, 2, 3), 2 + 3 * 128 + 2048);
    assert_eq!(Chunk::index(15, 127, 15), BLOCK_COUNT - 1);
    c.set_block(1, 2, 3, 0);
    assert!(!c.modified);
    c.set_block(1, 2, 3, 7);
    assert!(c.modified);
    assert_eq!(c.get_block(1, 2, 3), 7);
    assert_eq!(c.get_block(1, 3, 3), 0);
}

#[test]
fn chunk_network_data_layout() {
    let mut c = Chunk::new(ChunkPos::new(0, 0));
    c.set_block(0, 0, 0, 1);
    let data = c.to_network_data();
    assert_eq!(data.len(), BLOCK_COUNT + 3 * 16385);
    assert_eq!(data[0], 1);
    assert_eq!(data[BLOCK_COUNT], 0);
    assert_eq!(data[BLOCK_COUNT + 2 * 16385 - 1], 0);
    assert_eq!(data[BLOCK_COUNT + 2 * 16385], 0xFF);
    assert_eq!(data[data.len() - 1], 0xFF);
}

#[test]
fn chunk_compressed_data_is_zlib() {
    let c = Chunk::new(ChunkPos::new(0, 0));
    let compressed = c.compressed_network_data().unwrap();
    assert!(mincraft_server::world::verify_zlib_format(&compressed));
    assert!(compressed.len() < c.to_network_data().len());
}

#[test]
fn manager_insert_and_get() {
    let mut m = ChunkManager::new("world".to_string());
    assert_eq!(m.world_dir(), "world");
    assert_eq!(m.loaded_chunk_count(), 0);
    let pos = ChunkPos::new(0, 0);
    assert!(m.get_chunk(pos).is_none());
    assert!(!m.is_chunk_loaded(pos));
    let mut first = Chunk::new(pos);
    first.set_block(0, 0, 0, 5);
    let stored = m.insert_if_absent(first);
    assert_eq!(stored.get_block(0, 0, 0), 5);
    // A second chunk at the same position does not replace the first.
    let second = Chunk::new(pos);
    let stored = m.insert_if_absent(second);
    assert_eq!(stored.get_block(0, 0, 0), 5);
    assert_eq!(m.loaded_chunk_count(), 1);
    assert!(m.is_chunk_loaded(pos));
    assert_eq!(m.get_chunk(pos).unwrap().get_block(0, 0, 0), 5);
}

#[test]
fn manager_set_block_and_save() {
    let mut m = ChunkManager::new("w".to_string());
    m.insert_if_absent(Chunk::new(ChunkPos::new(0, 0)));
    m.insert_if_absent(Chunk::new(ChunkPos::new(1, -1)));
    assert_eq!(m.modified_chunk_count(), 0);
    // Block (17, 5, -3) lies in chunk (1, -1) at local (1, 5, 13); not loaded: (2, 0)
    assert!(m.set_block(ChunkPos::new(0, 0), 17, 5, (-3i32) as usize, 9));
    assert!(!m.set_block(ChunkPos::new(0, 0), 33, 5, 0, 9));
    let c = m.get_chunk(ChunkPos::new(1, -1)).unwrap();
    assert_eq!(c.get_block(1, 5, 13), 9);
    assert!(c.modified);
    assert_eq!(m.modified_chunk_count(), 1);
    let modified = m.modified_chunks();
    assert_eq!(modified.len(), 1);
    assert_eq!(modified[0].pos, ChunkPos::new(1, -1));
    m.mark_saved(ChunkPos::new(1, -1));
    assert_eq!(m.modified_chunk_count(), 0);
    assert_eq!(m.get_chunk(ChunkPos::new(1, -1)).unwrap().get_block(1, 5, 13), 9);
}

#[test]
fn manager_prefetch_batch() {
    let mut m = ChunkManager::new("w".to_string());
    let center = ChunkPos::new(0, 0);
    let batch = m.chunks_to_prefetch(center);
    assert_eq!(batch, vec![
        ChunkPos::new(-4, -4),
        ChunkPos::new(-4, -3),
        ChunkPos::new(-4, -2),
        ChunkPos::new(-4, -1)
    ]);
    m.insert_if_absent(Chunk::new(ChunkPos::new(-4, -3)));
    let batch = m.chunks_to_prefetch(center);
    assert_eq!(batch, vec![
        ChunkPos::new(-4, -4),
        ChunkPos::new(-4, -2),
        ChunkPos::new(-4, -1),
        ChunkPos::new(-4, 0)
    ]);
}

#[test]
fn manager_deserialize_and_generate() {
    let pos = ChunkPos::new(2, 3);
    let short = vec![1u8; 100];
    assert!(ChunkManager::deserialize_chunk(pos, &short).is_none());
    let generated = ChunkManager::generate_chunk(pos, &short);
    assert_eq!(generated.get_block(0, 0, 0), 0);
    let mut long = vec![4u8; BLOCK_COUNT + 10];
    long[1] = 6;
    let c = ChunkManager::deserialize_chunk(pos, &long).unwrap();
    assert_eq!(c.pos, pos);
    assert_eq!(c.blocks.len(), BLOCK_COUNT);
    assert_eq!(c.get_block(0, 1, 0), 6);
    assert!(!c.modified);
    let g = ChunkManager::generate_chunk(pos, &long);
    assert_eq!(g.get_block(15, 127, 15), 4);
}

#[test]
fn square_has_no_duplicates_and_matches_distance() {
    let c = ChunkPos::new(-7, 3);
    let v = ChunkPos::chunks_in_radius(c, VIEW_DISTANCE);
    for i in 0..v.len() {
        for j in 0..v.len() {
            if i != j {
                assert_ne!(v[i], v[j]);
            }
        }
        assert!((v[i].x - c.x).abs() <= VIEW_DISTANCE && (v[i].z - c.z).abs() <= VIEW_DISTANCE);
    }
    let new = ChunkPos::new(-5, 4);
    for p in ChunkPos::chunks_to_load(c, new, VIEW_DISTANCE) {
        assert!((p.x - new.x).abs() <= VIEW_DISTANCE && (p.z - new.z).abs() <= VIEW_DISTANCE);
        assert!((p.x - c.x).abs() > VIEW_DISTANCE || (p.z - c.z).abs() > VIEW_DISTANCE);
    }
    let unload = ChunkPos::chunks_to_unload(c, new, VIEW_DISTANCE);
    for p in ChunkPos::chunks_to_load(c, new, VIEW_DISTANCE) {
        assert!(!unload.contains(&p));
    }
}

#[test]
fn load_and_unload_counts_match() {
    let centers = [
        ChunkPos::new(0, 0),
        ChunkPos::new(1, 0),
        ChunkPos::new(1, 1),
        ChunkPos::new(-3, 2),
        ChunkPos::new(9, -9),
        ChunkPos::new(100, 100),
    ];
    for a in centers {
        for b in centers {
            for r in 0..=VIEW_DISTANCE {
                let load = ChunkPos::chunks_to_load(a, b, r);
                let unload = ChunkPos::chunks_to_unload(a, b, r);
                assert_eq!(load.len(), unload.len());
            }
        }
    }
}

#[test]
fn manager_set_block_leaves_other_chunks() {
    let mut m = ChunkManager::new("w".to_string());
    m.insert_if_absent(Chunk::new(ChunkPos::new(0, 0)));
    m.insert_if_absent(Chunk::new(ChunkPos::new(1, 0)));
    assert!(m.set_block(ChunkPos::new(0, 0), 18, 64, 3, 4));
    assert!(m.set_block(ChunkPos::new(0, 0), 18, 64, 3, 4));
    let changed = m.get_chunk(ChunkPos::new(1, 0)).unwrap();
    assert_eq!(changed.get_block(2, 64, 3), 4);
    assert_eq!(changed.blocks.iter().filter(|b| **b != 0).count(), 1);
    let other = m.get_chunk(ChunkPos::new(0, 0)).unwrap();
    assert!(other.blocks.iter().all(|b| *b == 0));
    assert!(!other.modified);
    assert_eq!(m.loaded_chunk_count(), 2);
}

#[test]
fn prefetch_step_only_when_center_moves() {
    let mut m = ChunkManager::new("w".to_string());
    m.insert_if_absent(Chunk::new(ChunkPos::new(-4, -4)));
    let center = ChunkPos::new(0, 0);
    let (last, batch) = m.prefetch_step(None, center);
    assert_eq!(last, Some(center));
    assert_eq!(
        batch,
        vec![
            ChunkPos::new(-4, -3),
            ChunkPos::new(-4, -2),
            ChunkPos::new(-4, -1),
            ChunkPos::new(-4, 0),
        ]
    );
    let (again, none) = m.prefetch_step(last, center);
    assert_eq!(again, Some(center));
    assert!(none.is_empty());
    let (moved, batch) = m.prefetch_step(last, ChunkPos::new(1, 0));
    assert_eq!(moved, Some(ChunkPos::new(1, 0)));
    assert_eq!(batch.len(), 4);
}

#[test]
fn manager_modified_chunks_each_once() {
    let mut m = ChunkManager::new("w".to_string());
    for (x, z) in [(0, 0), (1, 0), (-1, 5), (i32::MIN, i32::MAX), (i32::MAX, -1)] {
        m.insert_if_absent(Chunk::new(ChunkPos::new(x, z)));
    }
    assert_eq!(m.loaded_chunk_count(), 5);
    assert!(m.is_chunk_loaded(ChunkPos::new(i32::MIN, i32::MAX)));
    assert!(!m.is_chunk_loaded(ChunkPos::new(i32::MAX, i32::MIN)));
    assert!(m.set_block(ChunkPos::new(0, 0), 1, 1, 1, 3));
    assert!(m.set_block(ChunkPos::new(0, 0), (-16i32) as usize, 0, 80, 3));
    assert!(m.set_block(ChunkPos::new(0, 0), (-16i32) as usize, 0, 81, 3));
    let mut positions: Vec<(i32, i32)> = m.modified_chunks().iter().map(|c| (c.pos.x, c.pos.z)).collect();
    positions.sort();
    assert_eq!(positions, vec![(-1, 5), (0, 0)]);
    assert_eq!(m.modified_chunk_count(), 2);
    m.mark_saved(ChunkPos::new(-1, 5));
    m.mark_saved(ChunkPos::new(7, 7));
    assert_eq!(m.modified_chunk_count(), 1);
    assert_eq!(m.loaded_chunk_count(), 5);
}
