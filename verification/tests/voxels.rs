use grahamcraft::voxels::{BlockCoord, BlockUpdate, VoxelWorld};

const SPAWN: (f32, f32, f32) = (24.0, 1.0, 24.0);

/// The client's float query: column of the position, feet height rounded up.
fn ground_y_at(world: &VoxelWorld, x: f32, feet_y: f32, z: f32) -> Option<f32> {
    world
        .ground_y_at(x.floor() as i32, feet_y.ceil() as i32, z.floor() as i32)
        .map(|top| top as f32)
}

fn has_support_at(world: &VoxelWorld, x: f32, z: f32) -> bool {
    world.has_support_at(x.floor() as i32, z.floor() as i32)
}

fn world_with_blocks(blocks: Vec<BlockCoord>) -> VoxelWorld {
    VoxelWorld::from_block_coords(blocks)
}

fn world_with_spawn_hole(size: i32) -> VoxelWorld {
    let mut blocks = Vec::new();
    for x in 0..size {
        for z in 0..size {
            if !((23..=25).contains(&x) && (23..=25).contains(&z)) {
                blocks.push(BlockCoord::new(x, 0, z));
            }
        }
    }
    VoxelWorld::from_block_coords(blocks)
}

#[test]
fn ground_y_at_returns_top_of_highest_block_in_column() {
    let world = world_with_blocks(vec![BlockCoord::new(3, 0, 5), BlockCoord::new(3, 2, 5)]);

    assert_eq!(ground_y_at(&world, 3.4, 10.0, 5.9), Some(3.0));
    assert_eq!(ground_y_at(&world, 99.0, 10.0, 5.0), None);
}

#[test]
fn ground_y_at_finds_floor_while_falling() {
    let world = world_with_blocks(vec![BlockCoord::new(3, 0, 5)]);

    assert_eq!(ground_y_at(&world, 3.4, 10.0, 5.9), Some(1.0));
    assert_eq!(ground_y_at(&world, 3.4, 0.2, 5.9), Some(1.0));
}

#[test]
fn ground_y_at_does_not_step_onto_block_stack() {
    let world = world_with_blocks(vec![BlockCoord::new(3, 0, 5), BlockCoord::new(3, 1, 5)]);

    assert_eq!(ground_y_at(&world, 3.4, 1.0, 5.9), Some(1.0));
}

#[test]
fn ground_y_at_prefers_floor_over_ceiling() {
    let world = world_with_blocks(vec![BlockCoord::new(3, 0, 5), BlockCoord::new(3, 4, 5)]);

    assert_eq!(ground_y_at(&world, 3.4, 1.0, 5.9), Some(1.0));
}

#[test]
fn placement_coord_offsets_along_face_normal() {
    let hit = BlockCoord::new(3, 1, 4);
    let normal = (0.0f32, 0.0f32, -1.0f32);
    let placed = BlockCoord::new(
        hit.x + normal.0 as i32,
        hit.y + normal.1 as i32,
        hit.z + normal.2 as i32,
    );
    assert_eq!(placed, BlockCoord::new(3, 1, 3));
}

#[test]
fn spawn_has_floor_support() {
    let world = VoxelWorld::from_floor(48);
    assert_eq!(
        ground_y_at(&world, SPAWN.0, SPAWN.1, SPAWN.2),
        Some(1.0),
        "server spawn must sit on y=0 floor top"
    );
}

#[test]
fn server_spawn_offsets_have_floor_support() {
    let world = VoxelWorld::from_floor(48);
    for dx in -3..=3 {
        for dz in -3..=3 {
            let x = SPAWN.0 + dx as f32;
            let z = SPAWN.2 + dz as f32;
            assert_eq!(
                ground_y_at(&world, x, SPAWN.1, z),
                Some(1.0),
                "missing floor at spawn offset ({dx}, {dz})"
            );
        }
    }
}

#[test]
fn hole_at_spawn_has_no_grid_ground() {
    let world = world_with_spawn_hole(48);
    assert!(world.block_count() >= 100);
    assert!(!has_support_at(&world, SPAWN.0, SPAWN.2));
    assert_eq!(ground_y_at(&world, SPAWN.0, SPAWN.1, SPAWN.2), None);
}

#[test]
fn apply_places_and_removes_blocks() {
    let mut world = VoxelWorld::new();
    let coord = BlockCoord::new(-4, 7, 1 << 20);
    world.apply(BlockUpdate { coord, block_type: 3 });
    assert!(world.has_block_at(coord));
    assert_eq!(world.block_count(), 1);
    world.apply(BlockUpdate { coord, block_type: 0 });
    assert!(!world.has_block_at(coord));
    assert_eq!(world.block_count(), 0);
    world.apply(BlockUpdate { coord: BlockCoord::new(i32::MIN, i32::MAX, 0), block_type: 1 });
    assert!(world.has_block_at(BlockCoord::new(i32::MIN, i32::MAX, 0)));
    assert!(!world.has_block_at(BlockCoord::new(i32::MAX, i32::MIN, 0)));
}

#[test]
fn from_floor_counts_and_bounds() {
    let world = VoxelWorld::from_floor(48);
    assert_eq!(world.block_count(), 48 * 48);
    assert!(world.has_block_at(BlockCoord::new(47, 0, 47)));
    assert!(!world.has_block_at(BlockCoord::new(48, 0, 0)));
    assert!(!world.has_block_at(BlockCoord::new(0, 1, 0)));
    assert_eq!(VoxelWorld::from_floor(-3).block_count(), 0);
}

#[test]
fn duplicate_coords_are_stored_once() {
    let world = world_with_blocks(vec![BlockCoord::new(1, 1, 1), BlockCoord::new(1, 1, 1)]);
    assert_eq!(world.block_count(), 1);
}

#[test]
fn ground_uses_neighbor_columns_and_edges() {
    let world = world_with_blocks(vec![BlockCoord::new(4, 2, 5), BlockCoord::new(3, 0, 5)]);
    // The neighbouring column x = 4 holds the higher support.
    assert_eq!(ground_y_at(&world, 3.4, 10.0, 5.5), Some(3.0));
    // Feet exactly on a block's top count that block.
    assert_eq!(ground_y_at(&world, 3.4, 3.0, 5.5), Some(3.0));
    // Feet exactly at a block's bottom do not.
    assert_eq!(ground_y_at(&world, 3.4, 2.0, 5.5), Some(1.0));
    assert_eq!(ground_y_at(&world, 3.4, f32::NAN, 5.5), None);
    assert!(has_support_at(&world, 2.0, 4.0));
    assert!(!has_support_at(&world, 1.0, 4.0));
}

#[test]
fn fallback_supports_loaded_world_with_hole() {
    let world = world_with_spawn_hole(48);
    assert_eq!(world.ground_y_with_fallback(24, 1, 24), Some(1));
    let sparse = world_with_blocks(vec![BlockCoord::new(0, 0, 0)]);
    assert_eq!(sparse.ground_y_with_fallback(24, 1, 24), None);
    assert_eq!(sparse.ground_y_with_fallback(0, 5, 0), Some(1));
    // Feet at zero find no block below them, so only the fallback applies.
    assert_eq!(VoxelWorld::from_floor(48).ground_y_with_fallback(24, 0, 24), Some(1));
    assert_eq!(VoxelWorld::new().ground_y_with_fallback(24, 0, 24), None);
}

#[test]
fn support_counts_blocks_at_any_height_in_the_columns() {
    let world = world_with_blocks(vec![BlockCoord::new(24, 3, 24)]);
    assert!(has_support_at(&world, 24.5, 24.5));
    assert!(has_support_at(&world, 25.5, 23.5));
    assert!(!has_support_at(&world, 26.5, 24.5));
    let high = world_with_blocks(vec![BlockCoord::new(10, 200, -5)]);
    assert!(has_support_at(&high, 9.0, -4.0));
    assert!(!has_support_at(&high, 9.0, -3.0));
}

#[test]
fn box_query_finds_blocks_inside_only() {
    let world = world_with_blocks(vec![BlockCoord::new(3, 1, 0), BlockCoord::new(-2, 0, 7)]);
    assert!(world.any_block_in_box(3, 3, 1, 2, 0, 0));
    assert!(world.any_block_in_box(-5, 5, -5, 5, -5, 10));
    assert!(!world.any_block_in_box(3, 3, 2, 3, 0, 0));
    assert!(!world.any_block_in_box(4, 2, 0, 5, 0, 5));
    assert!(!VoxelWorld::new().any_block_in_box(i32::MAX - 1, i32::MAX, 0, 0, 0, 0));
}

#[test]
fn body_box_meets_wall_only_when_it_reaches_it() {
    // The player body of half-width 0.35 and height 2 at (x, 1.0, 0.5), with a
    // wall cell at x = 3: the integer box of the body is floor(min)..=ceil(max)-1.
    let world = world_with_blocks(vec![BlockCoord::new(3, 1, 0)]);
    let body_box = |x: f32| {
        let (min_x, max_x) = (x - 0.35, x + 0.35);
        world.any_block_in_box(
            min_x.floor() as i32,
            max_x.ceil() as i32 - 1,
            1,
            (3.0f32).ceil() as i32 - 1,
            (0.15f32).floor() as i32,
            (0.85f32).ceil() as i32 - 1,
        )
    };
    assert!(!body_box(2.5));
    assert!(body_box(2.7));
    assert!(!body_box(2.65));
}
