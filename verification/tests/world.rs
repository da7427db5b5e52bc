use grahamcraft::block_store::BlockEntry;
use grahamcraft::world::{World, FLOOR_SIZE, WORLD_SIZE_X, WORLD_SIZE_Y, WORLD_SIZE_Z};

#[test]
fn set_and_break_block() {
    let mut world = World::new(4, 4, 4);
    assert!(world.set_block(1, 2, 3, 5));
    assert_eq!(world.get_block(1, 2, 3), Some(5));
    assert_eq!(world.blocks().len(), 1);
    assert!(world.break_block(1, 2, 3));
    assert_eq!(world.get_block(1, 2, 3), Some(0));
    assert!(world.blocks().is_empty());
}

#[test]
fn out_of_bounds_returns_none() {
    let world = World::new(4, 4, 4);
    assert_eq!(world.get_block(-1, 0, 0), None);
    assert_eq!(world.get_block(4, 0, 0), None);
}

#[test]
fn empty_world_stores_nothing() {
    let world = World::new(64, 64, 64);
    assert!(world.blocks().is_empty());
}

#[test]
fn create_initial_seeds_multicolored_floor() {
    let world = World::create_initial();
    assert_eq!(world.blocks().len(), (FLOOR_SIZE * FLOOR_SIZE) as usize);
    assert_eq!(world.get_block(0, 0, 0), Some(1));
    assert_eq!(world.get_block(1, 0, 0), Some(2));
}

#[test]
fn ensure_spawn_pad_restores_missing_floor() {
    let mut world = World::create_initial();
    for dx in -1..=1 {
        for dz in -1..=1 {
            world.break_block(24 + dx, 0, 24 + dz);
        }
    }
    assert_eq!(world.get_block(24, 0, 24), Some(0));

    let placed = world.ensure_spawn_pad((24.0f32).floor() as i32, (24.0f32).floor() as i32);
    assert_eq!(placed.len(), 9);
    assert_ne!(world.get_block(24, 0, 24), Some(0));
}

#[test]
fn set_block_out_of_bounds_returns_false() {
    let mut world = World::new(4, 4, 4);
    assert!(!world.set_block(-1, 0, 0, 1));
    assert!(!world.set_block(4, 0, 0, 1));
}

#[test]
fn set_air_removes_existing_block() {
    let mut world = World::new(4, 4, 4);
    assert!(world.set_block(0, 0, 0, 3));
    assert!(world.set_block(0, 0, 0, 0));
    assert_eq!(world.get_block(0, 0, 0), Some(0));
    assert!(world.blocks().is_empty());
}

#[test]
fn overwrite_block_type() {
    let mut world = World::new(4, 4, 4);
    assert!(world.set_block(1, 1, 1, 2));
    assert!(world.set_block(1, 1, 1, 7));
    assert_eq!(world.get_block(1, 1, 1), Some(7));
    assert_eq!(world.blocks().len(), 1);
}

#[test]
fn blocks_lists_all_placed_voxels() {
    let mut world = World::new(8, 8, 8);
    assert!(world.set_block(0, 0, 0, 1));
    assert!(world.set_block(2, 3, 4, 5));
    let mut entries = world.blocks();
    entries.sort_by_key(|b| (b.x, b.y, b.z));
    assert_eq!(
        entries,
        vec![
            BlockEntry {
                x: 0,
                y: 0,
                z: 0,
                block_type: 1
            },
            BlockEntry {
                x: 2,
                y: 3,
                z: 4,
                block_type: 5
            },
        ]
    );
}

#[test]
fn initial_world_has_default_bounds() {
    let world = World::create_initial();
    assert_eq!(world.size_x(), WORLD_SIZE_X);
    assert_eq!(world.size_y(), WORLD_SIZE_Y);
    assert_eq!(world.size_z(), WORLD_SIZE_Z);
    assert_eq!(world.get_block(0, 1, 0), Some(0));
    assert_eq!(world.get_block(FLOOR_SIZE, 0, 0), Some(0));
}

#[test]
fn floor_colors_cycle_along_diagonals() {
    let world = World::create_initial();
    for x in 0..FLOOR_SIZE {
        for z in 0..FLOOR_SIZE {
            assert_eq!(world.get_block(x, 0, z), Some(1 + (x + z) % 6));
        }
    }
    assert_eq!(world.get_block(5, 0, 0), Some(6));
    assert_eq!(world.get_block(6, 0, 0), Some(1));
    assert_eq!(world.get_block(47, 0, 47), Some(1 + 94 % 6));
}

#[test]
fn ensure_spawn_pad_keeps_existing_blocks() {
    let mut world = World::create_initial();
    assert!(world.set_block(24, 0, 24, 9));
    assert!(world.break_block(23, 0, 25));
    let placed = world.ensure_spawn_pad(24, 24);
    assert_eq!(
        placed,
        vec![BlockEntry {
            x: 23,
            y: 0,
            z: 25,
            block_type: 1 + (23 + 25) % 6
        }]
    );
    assert_eq!(world.get_block(24, 0, 24), Some(9));
    assert_eq!(world.get_block(23, 0, 25), Some(1 + 48 % 6));
}

#[test]
fn ensure_spawn_pad_skips_cells_out_of_bounds() {
    let mut world = World::new(4, 4, 4);
    let placed = world.ensure_spawn_pad(0, 0);
    let mut coords: Vec<(i32, i32)> = placed.iter().map(|b| (b.x, b.z)).collect();
    coords.sort();
    assert_eq!(coords, vec![(0, 0), (0, 1), (1, 0), (1, 1)]);
    assert_eq!(placed[0], BlockEntry { x: 0, y: 0, z: 0, block_type: 1 });
    assert_eq!(world.blocks().len(), 4);
    assert_eq!(world.get_block(1, 0, 1), Some(3));
}

#[test]
fn ensure_spawn_pad_places_in_row_order() {
    let mut world = World::new(8, 8, 8);
    let placed = world.ensure_spawn_pad(3, 3);
    let order: Vec<(i32, i32)> = placed.iter().map(|b| (b.x, b.z)).collect();
    assert_eq!(
        order,
        vec![(2, 2), (2, 3), (2, 4), (3, 2), (3, 3), (3, 4), (4, 2), (4, 3), (4, 4)]
    );
    let again = world.ensure_spawn_pad(3, 3);
    assert!(again.is_empty());
}

#[test]
fn set_block_leaves_other_cells_alone() {
    let mut world = World::new(4, 4, 4);
    assert!(world.set_block(1, 1, 1, 2));
    assert!(world.set_block(2, 1, 1, 3));
    assert!(world.break_block(1, 1, 1));
    assert_eq!(world.get_block(2, 1, 1), Some(3));
    assert!(world.break_block(3, 3, 3));
    assert_eq!(world.blocks().len(), 1);
}

#[test]
fn zero_sized_world_rejects_everything() {
    let mut world = World::new(0, 4, 4);
    assert_eq!(world.get_block(0, 0, 0), None);
    assert!(!world.set_block(0, 0, 0, 1));
    assert!(!world.break_block(0, 0, 0));
    assert!(world.blocks().is_empty());
}

#[test]
fn breaking_a_placed_block_restores_the_world() {
    let mut world = World::create_initial();
    let mut before = world.blocks();
    assert!(world.set_block(10, 5, 10, 4));
    assert_eq!(world.blocks().len(), before.len() + 1);
    assert!(world.break_block(10, 5, 10));
    let mut after = world.blocks();
    before.sort_by_key(|b| (b.x, b.y, b.z));
    after.sort_by_key(|b| (b.x, b.y, b.z));
    assert_eq!(before, after);
}

#[test]
fn second_spawn_pad_restore_changes_nothing() {
    let mut world = World::create_initial();
    for dx in -1..=1 {
        world.break_block(10 + dx, 0, 10);
    }
    let first = world.ensure_spawn_pad(10, 10);
    assert_eq!(first.len(), 3);
    let mut before = world.blocks();
    let second = world.ensure_spawn_pad(10, 10);
    assert!(second.is_empty());
    let mut after = world.blocks();
    before.sort_by_key(|b| (b.x, b.y, b.z));
    after.sort_by_key(|b| (b.x, b.y, b.z));
    assert_eq!(before, after);
}
