//! A sparse, chunked voxel world: layered voxel lookup over pending writes,
//! a persistent modification overlay and chunk-resident terrain, together
//! with exact ray traversal over the voxel grid.

mod chunk;
mod chunk_map;
mod coord_key;
mod edits;
mod entry;
mod marching;
mod random;
mod raycast;
mod voxel;
mod world;

pub use voxel::{ChunkEvent, IVec3, WorldVoxel};
pub use coord_key::{
    coord_of_key, decode_key, encode_key, key_in_range, key_of, lemma_decode_encode,
    lemma_encode_decode, lemma_key_injective, HORIZONTAL_BIAS, HORIZONTAL_BITS, VERTICAL_BIAS,
    VERTICAL_BITS,
};
pub use chunk::{
    chunk_axis, chunk_of, chunk_voxel_position, is_chunk_coord, is_local, local_index, local_of,
    ChunkData, CHUNK_SIZE, CHUNK_VOLUME,
};
pub use chunk_map::{is_world_bounds, ChunkMap, VoxelAabb};
pub use edits::{lemma_lookup_push, lemma_pos_key_injective, pos_key, lookup, lookup_from, ModifiedVoxels, VoxelWriteBuffer};
pub use world::{
    above, below, closest_surface, column_surface, in_upper_hemisphere, is_surface,
    lemma_composition_precedence, lemma_surface_search_floor,
    lemma_surface_search_ignores_depths, offset, radius_fits, resolve,
    VoxelResolver, VoxelWorld, RANDOM_SURFACE_ATTEMPTS, SURFACE_SEARCH_CEILING,
    SURFACE_SEARCH_FLOOR,
};
pub use raycast::{
    abs, axis_done, axis_left, cell_pos, dda_cast, dda_walk, exit_time, hit_at, lemma_world_bounds_unique,
    next_axis, next_cell, no_later, origin_cell, sign, start_cell, step_cell, steps_left,
    walk_done, AcceptAll, FilterFn, I64Vec3, Ray, Raycaster, RejectMaterial, VoxelRaycastResult,
    DIRECTION_LIMIT, ORIGIN_LIMIT,
};
pub use marching::{lemma_walk_in_ray_order, brackets, lemma_entry_cell_meets_ray, lemma_stepped_empty_world, lemma_stepped_skips_dead_chunks, sample_in_live_chunk, 
    enter_time, enters_before, entry_normal, hit_normal, lemma_casts_report_accepted_solids,
    lemma_dda_hit_on_ray, lemma_start_cell_meets_ray, lemma_step_meets_ray, march, meets_cube,
    moved, no_earlier, ray_meets_cell, ray_meets_cube, refine, sample_axis, sample_chunk,
    sample_hit, sample_on_grid, sample_voxel, slab_holds, SteppedRaycaster,
    REFINE_STEPS, STEPS_PER_UNIT,
};
pub use entry::{abs_of, coord_at, entry_axis, entry_start, entry_time, inner_cell, near_box, slab_enter, trace_start};
