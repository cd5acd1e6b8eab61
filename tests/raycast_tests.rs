use voxel_world::{
    hit_normal, meets_cube, next_cell, origin_cell, AcceptAll, ChunkData, FilterFn, I64Vec3,
    IVec3, Ray, RejectMaterial, VoxelWorld, WorldVoxel,
};

fn v(x: i32, y: i32, z: i32) -> IVec3 {
    IVec3::new(x, y, z)
}

fn l(x: i64, y: i64, z: i64) -> I64Vec3 {
    I64Vec3 { x, y, z }
}

fn single_voxel_world() -> VoxelWorld {
    let mut w = VoxelWorld::new();
    let mut c = ChunkData::filled(v(0, 0, 0), WorldVoxel::Air);
    c.set_voxel(v(0, 0, 0), WorldVoxel::Solid(5));
    w.insert_chunk(c);
    w
}

/// A floor of material 1 at `y = 0`, a pillar of material 2 floating one
/// voxel above it and a block of material 3, over eight loaded chunks.
fn scene() -> VoxelWorld {
    let mut w = VoxelWorld::new();
    for cx in -1..=0 {
        for cy in -1..=0 {
            for cz in -1..=0 {
                let mut c = ChunkData::filled(v(cx, cy, cz), WorldVoxel::Air);
                if cy == 0 {
                    for x in 0..32 {
                        for z in 0..32 {
                            c.set_voxel(v(x, 0, z), WorldVoxel::Solid(1));
                        }
                    }
                }
                w.insert_chunk(c);
            }
        }
    }
    for y in 2..9 {
        w.set_voxel(v(4, y, 4), WorldVoxel::Solid(2));
    }
    w.set_modified_voxel(v(-6, 3, 2), WorldVoxel::Solid(3));
    w.set_modified_voxel(v(-6, 4, 2), WorldVoxel::Solid(3));
    w
}

#[test]
fn direct_hit_from_above() {
    let w = single_voxel_world();
    let ray = Ray::new(l(1, 20, 1), 2, l(0, -1, 0)).unwrap();
    let hit = w.raycast(&ray, &AcceptAll).unwrap();
    assert_eq!(hit.voxel_pos(), v(0, 0, 0));
    assert_eq!(hit.voxel_normal(), Some(v(0, 1, 0)));
    assert_eq!(hit.voxel, WorldVoxel::Solid(5));
    let stepped = w.old_raycast(&ray, &AcceptAll, 64).unwrap();
    assert_eq!(stepped.position, v(0, 0, 0));
    assert_eq!(stepped.normal, Some(v(0, 1, 0)));
    assert_eq!(stepped.voxel, WorldVoxel::Solid(5));
}

#[test]
fn empty_world_has_no_hit() {
    let w = VoxelWorld::new();
    assert!(w.chunk_map().world_bounds().is_none());
    for ray in [
        Ray::new(l(1, 20, 1), 2, l(0, -1, 0)).unwrap(),
        Ray::new(l(0, 0, 0), 1, l(1, 1, 1)).unwrap(),
    ] {
        assert_eq!(w.raycast(&ray, &AcceptAll), None);
        assert_eq!(w.raycast_fn().cast(&ray, &AcceptAll), None);
        assert_eq!(w.old_raycast(&ray, &AcceptAll, 16), None);
    }
}

#[test]
fn empty_world_ignores_buffered_solid() {
    let mut w = VoxelWorld::new();
    w.set_voxel(v(0, 0, 0), WorldVoxel::Solid(1));
    let ray = Ray::new(l(1, 20, 1), 2, l(0, -1, 0)).unwrap();
    assert_eq!(w.raycast(&ray, &AcceptAll), None);
}

#[test]
fn side_hit_normals() {
    let w = single_voxel_world();
    let from_pos_x = Ray::new(l(21, 1, 1), 2, l(-1, 0, 0)).unwrap();
    assert_eq!(w.raycast(&from_pos_x, &AcceptAll).unwrap().normal, Some(v(1, 0, 0)));
    let from_neg_z = Ray::new(l(1, 1, -40), 2, l(0, 0, 1)).unwrap();
    let hit = w.raycast(&from_neg_z, &AcceptAll).unwrap();
    assert_eq!(hit.position, v(0, 0, 0));
    assert_eq!(hit.normal, Some(v(0, 0, -1)));
}

#[test]
fn start_inside_solid_has_no_normal() {
    let w = single_voxel_world();
    let ray = Ray::new(l(1, 1, 1), 2, l(0, 1, 0)).unwrap();
    let hit = w.raycast(&ray, &AcceptAll).unwrap();
    assert_eq!(hit.position, v(0, 0, 0));
    assert_eq!(hit.normal, None);
}

#[test]
fn ray_missing_loaded_space() {
    let w = single_voxel_world();
    let away = Ray::new(l(1, 20, 1), 2, l(0, 1, 0)).unwrap();
    assert_eq!(w.raycast(&away, &AcceptAll), None);
    let beside = Ray::new(l(80, 20, 1), 2, l(0, -1, 0)).unwrap();
    assert_eq!(w.raycast(&beside, &AcceptAll), None);
}

#[test]
fn ray_from_outside_enters_bounds() {
    let w = single_voxel_world();
    let ray = Ray::new(l(1, 200, 1), 2, l(0, -1, 0)).unwrap();
    let hit = w.raycast(&ray, &AcceptAll).unwrap();
    assert_eq!(hit.position, v(0, 0, 0));
    assert_eq!(hit.normal, Some(v(0, 1, 0)));
}

#[test]
fn filter_rejection_continues_traversal() {
    let mut w = single_voxel_world();
    w.set_voxel(v(0, 3, 0), WorldVoxel::Solid(7));
    let ray = Ray::new(l(1, 20, 1), 2, l(0, -1, 0)).unwrap();
    assert_eq!(w.raycast(&ray, &AcceptAll).unwrap().position, v(0, 3, 0));
    let hit = w.raycast(&ray, &RejectMaterial { material: 7 }).unwrap();
    assert_eq!(hit.position, v(0, 0, 0));
    assert_eq!(hit.voxel, WorldVoxel::Solid(5));
    assert_eq!(w.raycast(&ray, &RejectMaterial { material: 5 }).unwrap().position, v(0, 3, 0));
    let stepped = w.old_raycast(&ray, &RejectMaterial { material: 7 }, 64).unwrap();
    assert_eq!(stepped.position, v(0, 0, 0));
}

#[test]
fn ray_construction_rejects_bad_input() {
    assert!(Ray::new(l(0, 0, 0), 1, l(0, 0, 0)).is_none());
    assert!(Ray::new(l(0, 0, 0), 0, l(1, 0, 0)).is_none());
    assert!(Ray::new(l(0, 0, 0), -3, l(1, 0, 0)).is_none());
    assert!(Ray::new(l(0, 0, 0), 1, l(0x10_0001, 0, 0)).is_none());
    assert!(Ray::new(l(0x100_0000_0001, 0, 0), 1, l(1, 0, 0)).is_none());
    assert!(Ray::new(l(-5, 7, 9), 3, l(0, 0, -1)).is_some());
}

#[test]
fn stepped_reports_top_face() {
    let mut w = VoxelWorld::new();
    let mut c = ChunkData::filled(v(0, 0, 0), WorldVoxel::Air);
    for y in 0..4 {
        c.set_voxel(v(2, y, 2), WorldVoxel::Solid(9));
    }
    w.insert_chunk(c);
    let ray = Ray::new(l(25, 200, 25), 10, l(0, -10, 0)).unwrap();
    let hit = w.old_raycast(&ray, &AcceptAll, 64).unwrap();
    assert_eq!(hit.position, v(2, 3, 2));
    assert_eq!(hit.normal, Some(v(0, 1, 0)));
    assert_eq!(w.old_raycast_fn(64).cast(&ray, &AcceptAll), Some(hit));
    assert_eq!(w.raycast(&ray, &AcceptAll).unwrap().position, v(2, 3, 2));
}

#[test]
fn stepped_skips_chunks_flagged_empty() {
    let mut w = VoxelWorld::new();
    w.insert_chunk(ChunkData::filled(v(0, 0, 0), WorldVoxel::Air));
    w.set_voxel(v(0, 0, 0), WorldVoxel::Solid(1));
    let ray = Ray::new(l(1, 20, 1), 2, l(0, -1, 0)).unwrap();
    assert_eq!(w.old_raycast(&ray, &AcceptAll, 64), None);
    assert_eq!(w.raycast(&ray, &AcceptAll).unwrap().position, v(0, 0, 0));
}

fn agree<F: FilterFn>(w: &VoxelWorld, ray: &Ray, filter: &F) -> Option<IVec3> {
    let dda = w.raycast(ray, filter).map(|h| (h.position, h.voxel));
    let stepped = w.old_raycast(ray, filter, 128).map(|h| (h.position, h.voxel));
    assert_eq!(dda, stepped, "ray {:?}", ray);
    dda.map(|(p, _)| p)
}

#[test]
fn algorithms_agree_on_non_grazing_rays() {
    let w = scene();
    let rays = [
        (l(437, 1013, 451), 100, l(0, -100, 0)),
        (l(437, 1013, 451), 100, l(37, -87, 25)),
        (l(-1103, 517, 1207), 100, l(58, -57, -59)),
        (l(1931, 377, 1577), 100, l(-72, -29, -58)),
        (l(-333, 1234, -777), 100, l(49, -63, 56)),
        (l(1301, 1711, 2203), 100, l(-31, -51, -73)),
        (l(-2017, 233, 397), 100, l(97, -9, 11)),
        (l(-587, 1131, 247), 100, l(-29, -91, 31)),
        (l(943, 511, 439), 100, l(-97, 13, 7)),
        (l(-1517, 1019, 203), 100, l(91, -41, 3)),
    ];
    let mut hits = 0;
    for (o, s, d) in rays {
        let ray = Ray::new(o, s, d).unwrap();
        if agree(&w, &ray, &AcceptAll).is_some() {
            hits += 1;
        }
        agree(&w, &ray, &RejectMaterial { material: 2 });
        agree(&w, &ray, &RejectMaterial { material: 1 });
    }
    assert!(hits >= 8);
}

#[test]
fn refinement_climbs_at_most_three_voxels() {
    let mut w = VoxelWorld::new();
    let mut c = ChunkData::filled(v(0, 0, 0), WorldVoxel::Air);
    for y in 0..4 {
        c.set_voxel(v(2, y, 2), WorldVoxel::Solid(9));
    }
    for y in 0..12 {
        c.set_voxel(v(6, y, 6), WorldVoxel::Solid(8));
    }
    w.insert_chunk(c);
    let down = Ray::new(l(25, 300, 25), 10, l(0, -10, 0)).unwrap();
    assert_eq!(
        w.refine_hit(&down, v(2, 1, 2), v(0, 1, 0), WorldVoxel::Solid(9)),
        (v(2, 3, 2), v(0, 1, 0), WorldVoxel::Solid(9))
    );
    let down_tall = Ray::new(l(65, 300, 65), 10, l(0, -10, 0)).unwrap();
    assert_eq!(
        w.refine_hit(&down_tall, v(6, 1, 6), v(0, 1, 0), WorldVoxel::Solid(8)),
        (v(6, 4, 6), v(0, 1, 0), WorldVoxel::Solid(8))
    );
}

#[test]
fn slab_normal_and_cube_test() {
    let ray = Ray::new(l(-10, 25, 5), 10, l(10, -2, 0)).unwrap();
    assert_eq!(hit_normal(&ray, v(1, 2, 0)), v(-1, 0, 0));
    assert!(meets_cube(&ray, v(1, 2, 0)));
    assert!(!meets_cube(&ray, v(1, 5, 0)));
    assert!(!meets_cube(&ray, v(1, 2, 1)));
    assert!(!meets_cube(&ray, v(-3, 2, 0)));
    let steep = Ray::new(l(15, 100, 5), 10, l(1, -10, 0)).unwrap();
    assert_eq!(hit_normal(&steep, v(1, 3, 0)), v(0, 1, 0));
}

#[test]
fn diagonal_dda_visits_face_neighbours() {
    let mut w = VoxelWorld::new();
    let mut c = ChunkData::filled(v(0, 0, 0), WorldVoxel::Air);
    c.set_voxel(v(3, 1, 0), WorldVoxel::Solid(4));
    c.set_voxel(v(3, 2, 0), WorldVoxel::Solid(6));
    w.insert_chunk(c);
    let ray = Ray::new(l(5, 5, 5), 10, l(10, 5, 0)).unwrap();
    let hit = w.raycast(&ray, &AcceptAll).unwrap();
    assert_eq!(hit.position, v(3, 1, 0));
    assert_eq!(hit.normal, Some(v(-1, 0, 0)));
    assert_eq!(hit.voxel, WorldVoxel::Solid(4));
    let higher = Ray::new(l(5, 15, 5), 10, l(10, 5, 0)).unwrap();
    let hit_higher = w.raycast(&higher, &AcceptAll).unwrap();
    assert_eq!(hit_higher.position, v(3, 2, 0));
    assert_eq!(hit_higher.voxel, WorldVoxel::Solid(6));
    assert!(meets_cube(&ray, hit.position));
    assert_eq!(origin_cell(&ray), l(0, 0, 0));
    assert_eq!(next_cell(&ray, l(0, 0, 0)), (l(1, 0, 0), v(-1, 0, 0)));
    assert_eq!(next_cell(&ray, l(1, 0, 0)), (l(1, 1, 0), v(0, -1, 0)));
}

#[test]
fn distant_origin_starts_at_box_entry() {
    let w = single_voxel_world();
    let far = Ray::new(l(1, 0x100_0000_0000, 1), 2, l(0, -1, 0)).unwrap();
    let hit = w.raycast(&far, &AcceptAll).unwrap();
    assert_eq!(hit.position, v(0, 0, 0));
    assert_eq!(hit.normal, Some(v(0, 1, 0)));
    let far_diagonal = Ray::new(l(-0xff_0000_0000, 1, 1), 2, l(0x10_0000, 0, 0)).unwrap();
    assert_eq!(far_diagonal.origin.x, -0xff_0000_0000);
    let hit = w.raycast(&far_diagonal, &AcceptAll).unwrap();
    assert_eq!(hit.position, v(0, 0, 0));
    assert_eq!(hit.normal, Some(v(-1, 0, 0)));
}

#[test]
fn ray_passing_beside_box_misses() {
    let w = single_voxel_world();
    let beside = Ray::new(l(-100, 70, 1), 1, l(1, 0, 0)).unwrap();
    assert_eq!(w.raycast(&beside, &AcceptAll), None);
    let skew = Ray::new(l(-100, 10, 1), 1, l(1, 1, 0)).unwrap();
    assert_eq!(w.raycast(&skew, &AcceptAll), None);
}
