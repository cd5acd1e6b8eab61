use voxel_world::{
    chunk_voxel_position, decode_key, encode_key, ChunkData, ChunkEvent, ChunkMap, IVec3,
    ModifiedVoxels, VoxelAabb, VoxelWorld, VoxelWriteBuffer, WorldVoxel,
};

fn v(x: i32, y: i32, z: i32) -> IVec3 {
    IVec3::new(x, y, z)
}

/// A world whose chunks in the given range of chunk `y` at chunk column
/// `(0, 0)` are loaded and filled with `fill`.
fn column_world(lo: i32, hi: i32, fill: WorldVoxel) -> VoxelWorld {
    let mut w = VoxelWorld::new();
    for cy in lo..=hi {
        w.insert_chunk(ChunkData::filled(v(0, cy, 0), fill));
    }
    w
}

#[test]
fn key_encoding_exact_values() {
    assert_eq!(encode_key(v(-4096, -32, -4096)), 0);
    assert_eq!(encode_key(v(4095, 31, 4095)), u32::MAX);
    assert_eq!(encode_key(v(0, 0, 0)), (4096 * 8192 + 4096) * 64 + 32);
    assert_eq!(encode_key(v(1, 0, 0)) - encode_key(v(0, 0, 0)), 8192 * 64);
    assert_eq!(encode_key(v(0, 0, 1)) - encode_key(v(0, 0, 0)), 64);
    assert_eq!(encode_key(v(0, 1, 0)) - encode_key(v(0, 0, 0)), 1);
}

#[test]
fn key_encoding_round_trip() {
    for p in [v(-4096, -32, -4096), v(4095, 31, 4095), v(-7, 3, 12), v(100, -1, -100)] {
        assert_eq!(decode_key(encode_key(p)), p);
    }
    assert_eq!(decode_key(0), v(-4096, -32, -4096));
    assert_ne!(encode_key(v(1, 2, 3)), encode_key(v(3, 2, 1)));
}

#[test]
fn chunk_position_floors_negative_coordinates() {
    assert_eq!(chunk_voxel_position(v(-1, 33, 0)), (v(-1, 1, 0), v(31, 1, 0)));
    assert_eq!(chunk_voxel_position(v(-32, -33, 31)), (v(-1, -2, 0), v(0, 31, 31)));
    assert_eq!(chunk_voxel_position(v(i32::MIN, i32::MAX, 64)), (v(-0x400_0000, 0x3ff_ffff, 2), v(0, 31, 0)));
}

#[test]
fn chunk_data_set_and_empty_flag() {
    let mut c = ChunkData::filled(v(1, 2, 3), WorldVoxel::Air);
    assert!(c.is_empty());
    assert_eq!(c.position(), v(1, 2, 3));
    c.set_voxel(v(4, 5, 6), WorldVoxel::Solid(7));
    assert!(!c.is_empty());
    assert_eq!(c.get_voxel(v(4, 5, 6)), WorldVoxel::Solid(7));
    assert_eq!(c.get_voxel(v(6, 5, 4)), WorldVoxel::Air);
    assert!(c.encloses(v(32, 64, 96)));
    assert!(!c.encloses(v(31, 64, 96)));
}

#[test]
fn chunk_map_insert_remove_bounds() {
    let mut m = ChunkMap::new();
    assert_eq!(m.len(), 0);
    assert!(m.world_bounds().is_none());
    m.insert(ChunkData::filled(v(0, 0, 0), WorldVoxel::Air));
    m.insert(ChunkData::filled(v(-2, 1, 3), WorldVoxel::Solid(1)));
    m.insert(ChunkData::filled(v(0, 0, 0), WorldVoxel::Solid(2)));
    assert_eq!(m.len(), 2);
    assert_eq!(m.get(v(0, 0, 0)).unwrap().get_voxel(v(0, 0, 0)), WorldVoxel::Solid(2));
    assert_eq!(
        m.world_bounds(),
        Some(VoxelAabb { min_x: -64, min_y: 0, min_z: 0, max_x: 32, max_y: 64, max_z: 128 })
    );
    m.remove(v(-2, 1, 3));
    assert!(m.get(v(-2, 1, 3)).is_none());
    assert_eq!(
        m.world_bounds(),
        Some(VoxelAabb { min_x: 0, min_y: 0, min_z: 0, max_x: 32, max_y: 32, max_z: 32 })
    );
    m.remove(v(0, 0, 0));
    assert_eq!(m.len(), 0);
    assert!(m.world_bounds().is_none());
}

#[test]
fn write_buffer_and_overlay_lookups() {
    let mut b = VoxelWriteBuffer::new();
    b.push(v(1, 1, 1), WorldVoxel::Solid(1));
    b.push(v(1, 1, 1), WorldVoxel::Solid(9));
    assert_eq!(b.len(), 2);
    assert_eq!(b.get(v(1, 1, 1)), Some(WorldVoxel::Solid(1)));
    assert_eq!(b.get(v(0, 1, 1)), None);
    let mut o = ModifiedVoxels::new();
    o.set_voxel(v(2, 2, 2), WorldVoxel::Air);
    o.set_voxel(v(2, 2, 2), WorldVoxel::Solid(4));
    assert_eq!(o.get_voxel(v(2, 2, 2)), Some(WorldVoxel::Solid(4)));
    assert_eq!(o.get_voxel(v(2, 2, 3)), None);
}

#[test]
fn composition_precedence() {
    let p = v(3, 4, 5);
    let mut w = VoxelWorld::new();
    assert_eq!(w.get_voxel(p), WorldVoxel::Unset);
    w.insert_chunk(ChunkData::filled(v(0, 0, 0), WorldVoxel::Solid(3)));
    assert_eq!(w.get_voxel(p), WorldVoxel::Solid(3));
    w.set_modified_voxel(p, WorldVoxel::Solid(4));
    assert_eq!(w.get_voxel(p), WorldVoxel::Solid(4));
    w.set_voxel(p, WorldVoxel::Solid(5));
    assert_eq!(w.get_voxel(p), WorldVoxel::Solid(5));
    assert_eq!(w.get_voxel(v(3, 4, 6)), WorldVoxel::Solid(3));
    assert_eq!(w.get_voxel(v(32, 4, 5)), WorldVoxel::Unset);
}

#[test]
fn overlay_survives_chunk_reload() {
    let p = v(1, 1, 1);
    let mut w = VoxelWorld::new();
    w.insert_chunk(ChunkData::filled(v(0, 0, 0), WorldVoxel::Solid(3)));
    w.set_modified_voxel(p, WorldVoxel::Air);
    w.remove_chunk(v(0, 0, 0));
    w.insert_chunk(ChunkData::filled(v(0, 0, 0), WorldVoxel::Solid(8)));
    assert_eq!(w.get_voxel(p), WorldVoxel::Air);
    assert_eq!(w.get_voxel(v(1, 1, 2)), WorldVoxel::Solid(8));
}

#[test]
fn reads_are_idempotent() {
    let mut w = column_world(0, 0, WorldVoxel::Air);
    w.set_voxel(v(2, 2, 2), WorldVoxel::Solid(6));
    for p in [v(2, 2, 2), v(0, 0, 0), v(100, 0, 0)] {
        let first = w.get_voxel(p);
        let second = w.get_voxel(p);
        assert_eq!(first, second);
        let resolver = w.get_voxel_fn();
        assert_eq!(resolver.get(p), resolver.get(p));
        assert_eq!(resolver.get(p), first);
    }
}

#[test]
fn buffered_write_overrides_terrain() {
    let p = v(5, 6, 7);
    let mut w = column_world(0, 0, WorldVoxel::Air);
    assert_eq!(w.get_voxel(p), WorldVoxel::Air);
    w.set_voxel(p, WorldVoxel::Solid(2));
    assert_eq!(w.get_voxel(p), WorldVoxel::Solid(2));
}

#[test]
fn duplicate_buffered_writes_first_wins() {
    let p = v(5, 6, 7);
    let mut w = column_world(0, 0, WorldVoxel::Air);
    w.set_voxel(p, WorldVoxel::Solid(1));
    w.set_voxel(p, WorldVoxel::Solid(9));
    assert_eq!(w.get_voxel(p), WorldVoxel::Solid(1));
}

#[test]
fn surface_search_stops_at_floor() {
    let w = column_world(-10, 0, WorldVoxel::Air);
    assert_eq!(w.get_voxel(v(0, -300, 0)), WorldVoxel::Air);
    assert_eq!(w.get_closest_surface_voxel(v(0, 10, 0)), None);
    let mut below_floor = column_world(-10, 0, WorldVoxel::Air);
    below_floor.set_voxel(v(0, -257, 0), WorldVoxel::Solid(1));
    assert_eq!(below_floor.get_closest_surface_voxel(v(0, 10, 0)), None);
    let mut at_floor = column_world(-10, 0, WorldVoxel::Air);
    at_floor.set_voxel(v(0, -256, 0), WorldVoxel::Solid(1));
    assert_eq!(
        at_floor.get_closest_surface_voxel(v(0, 10, 0)),
        Some((v(0, -256, 0), WorldVoxel::Solid(1)))
    );
}

#[test]
fn surface_search_finds_top_of_terrain() {
    let mut w = column_world(0, 1, WorldVoxel::Air);
    for y in 0..5 {
        w.set_voxel(v(3, y, 4), WorldVoxel::Solid(2));
    }
    assert_eq!(w.get_closest_surface_voxel(v(3, 40, 4)), Some((v(3, 4, 4), WorldVoxel::Solid(2))));
    assert_eq!(w.get_closest_surface_voxel(v(3, 2, 4)), None);
    assert_eq!(w.get_surface_voxel_at_2d_pos(3, 4), Some((v(3, 4, 4), WorldVoxel::Solid(2))));
    assert_eq!(w.get_closest_surface_voxel(v(3, 5, 4)), Some((v(3, 4, 4), WorldVoxel::Solid(2))));
}

#[test]
fn unset_above_counts_as_empty() {
    let mut w = VoxelWorld::new();
    w.set_voxel(v(0, 0, 0), WorldVoxel::Solid(1));
    assert_eq!(w.get_closest_surface_voxel(v(0, 3, 0)), Some((v(0, 0, 0), WorldVoxel::Solid(1))));
}

#[test]
fn surface_from_sample_rejects_outside_hemisphere() {
    let mut w = column_world(0, 0, WorldVoxel::Air);
    for x in 0..10 {
        for z in 0..10 {
            w.set_voxel(v(x, 0, z), WorldVoxel::Solid(1));
        }
    }
    let c = v(5, 3, 5);
    assert_eq!(w.surface_from_sample(c, 3, 0, -1, 0), None);
    assert_eq!(w.surface_from_sample(c, 3, 2, 2, 2), None);
    assert_eq!(w.surface_from_sample(c, 3, 1, 1, 1), Some((v(6, 0, 6), WorldVoxel::Solid(1))));
    assert_eq!(w.surface_from_sample(c, 3, 0, 3, 0), Some((v(5, 0, 5), WorldVoxel::Solid(1))));
}

#[test]
fn random_surface_voxel_within_radius() {
    let mut w = column_world(0, 0, WorldVoxel::Air);
    for x in 0..32 {
        for z in 0..32 {
            w.set_voxel(v(x, 0, z), WorldVoxel::Solid(1));
        }
    }
    let mut seen_off_center = false;
    for _ in 0..20 {
        let (p, vox) = w.get_random_surface_voxel(v(16, 2, 16), 5).unwrap();
        assert_eq!(p.y, 0);
        assert_eq!(vox, WorldVoxel::Solid(1));
        assert!((p.x - 16).abs() <= 5 && (p.z - 16).abs() <= 5);
        if p.x != 16 || p.z != 16 {
            seen_off_center = true;
        }
    }
    assert!(seen_off_center);
    let empty = VoxelWorld::new();
    assert_eq!(empty.get_random_surface_voxel(v(0, 0, 0), 4), None);
}

#[test]
fn chunk_event_copy() {
    let e = ChunkEvent::new(v(1, -2, 3), 42);
    let f = e.clone();
    assert_eq!(e, f);
    assert_eq!(f.chunk_key, v(1, -2, 3));
    assert_eq!(f.entity, 42);
}

#[test]
fn random_surface_with_zero_radius_searches_center() {
    let mut w = column_world(0, 0, WorldVoxel::Air);
    w.set_voxel(v(7, 2, 9), WorldVoxel::Solid(3));
    assert_eq!(
        w.get_random_surface_voxel(v(7, 20, 9), 0),
        Some((v(7, 2, 9), WorldVoxel::Solid(3)))
    );
    assert_eq!(w.get_random_surface_voxel(v(8, 20, 9), 0), None);
    assert_eq!(w.get_random_surface_voxel(v(7, 2, 9), 0), None);
}

#[test]
fn surface_at_top_of_grid() {
    let mut w = VoxelWorld::new();
    w.set_voxel(v(0, i32::MAX, 0), WorldVoxel::Solid(1));
    assert_eq!(w.get_closest_surface_voxel(v(0, i32::MAX, 0)), None);
    let mut top = VoxelWorld::new();
    top.set_voxel(v(0, i32::MAX - 1, 0), WorldVoxel::Solid(1));
    assert_eq!(
        top.get_closest_surface_voxel(v(0, i32::MAX, 0)),
        Some((v(0, i32::MAX - 1, 0), WorldVoxel::Solid(1)))
    );
}
