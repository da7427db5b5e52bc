use grahamcraft::game_state::{GameEvent, GameState, Player};
use grahamcraft::player_id::new_player_identity;
use grahamcraft::world::{FLOOR_SIZE, WORLD_SIZE_X, WORLD_SIZE_Y, WORLD_SIZE_Z};

const SPAWN: (f32, f32, f32) = (FLOOR_SIZE as f32 / 2.0, 1.0, FLOOR_SIZE as f32 / 2.0);

/// Joins a player the way the server does: a fresh identity, placed at its
/// offset from the spawn point.
fn join(state: &mut GameState, name: &str) -> (Player, GameEvent) {
    let identity = new_player_identity();
    let x = SPAWN.0 + identity.offset_x as f32;
    let z = SPAWN.2 + identity.offset_z as f32;
    state.join(identity.id, name.to_string(), x.to_bits(), SPAWN.1.to_bits(), z.to_bits())
}

fn position(player: &Player) -> (f32, f32, f32) {
    (f32::from_bits(player.x), f32::from_bits(player.y), f32::from_bits(player.z))
}

#[test]
fn join_registers_player_and_broadcasts() {
    let mut state = GameState::new();
    let (player, event) = join(&mut state, "alice");

    assert_eq!(player.name, "alice");
    assert!(state.contains_player(&player.id));

    match event {
        GameEvent::PlayerJoin(joined) => {
            assert_eq!(joined.id, player.id);
            assert_eq!(joined.name, "alice");
        }
        other => panic!("unexpected event: {other:?}"),
    }
}

#[test]
fn join_places_player_near_spawn_position() {
    let mut state = GameState::new();
    let (player, _) = join(&mut state, "spawn");
    let (x, y, z) = position(&player);
    assert_eq!(y, SPAWN.1);
    assert!((x - SPAWN.0).abs() <= 3.0);
    assert!((z - SPAWN.2).abs() <= 3.0);
}

#[test]
fn set_block_updates_world_and_broadcasts() {
    let mut state = GameState::new();
    let event = state.set_block(1, 2, 3, 5);
    assert_eq!(state.world().get_block(1, 2, 3), Some(5));
    match event {
        Some(GameEvent::BlockChange {
            x,
            y,
            z,
            block_type,
        }) => {
            assert_eq!((x, y, z, block_type), (1, 2, 3, 5));
        }
        other => panic!("unexpected event: {other:?}"),
    }
}

#[test]
fn set_block_out_of_bounds_does_not_broadcast() {
    let mut state = GameState::new();
    assert!(state.set_block(-1, 0, 0, 1).is_none());
    assert_eq!(state.world().blocks().len(), (FLOOR_SIZE * FLOOR_SIZE) as usize);
}

#[test]
fn break_block_clears_voxel_and_broadcasts_air() {
    let mut state = GameState::new();
    assert!(state.set_block(4, 5, 6, 2).is_some());

    let event = state.break_block(4, 5, 6);
    assert_eq!(state.world().get_block(4, 5, 6), Some(0));
    match event {
        Some(GameEvent::BlockChange {
            x,
            y,
            z,
            block_type,
        }) => {
            assert_eq!((x, y, z, block_type), (4, 5, 6, 0));
        }
        other => panic!("unexpected event: {other:?}"),
    }
}

#[test]
fn update_position_moves_player_and_broadcasts() {
    let mut state = GameState::new();
    let (player, _) = join(&mut state, "mover");

    let event = state.update_position(&player.id, 1.5f32.to_bits(), 2.5f32.to_bits(), 3.5f32.to_bits());
    let stored = state.player(&player.id).unwrap();
    assert!(position(&stored) == (1.5, 2.5, 3.5));
    assert_eq!(stored.name, "mover");

    match event {
        Some(GameEvent::PlayerMove { player_id, x, y, z }) => {
            assert_eq!(player_id, player.id);
            assert!((f32::from_bits(x), f32::from_bits(y), f32::from_bits(z)) == (1.5, 2.5, 3.5));
        }
        other => panic!("unexpected event: {other:?}"),
    }
}

#[test]
fn update_position_unknown_player_fails() {
    let mut state = GameState::new();
    let zero = 0.0f32.to_bits();
    assert!(state.update_position("missing", zero, zero, zero).is_none());
    assert!(state.player("missing").is_none());
}

#[test]
fn join_returns_player_id_and_world_bounds() {
    let mut state = GameState::new();
    let (player, _) = join(&mut state, "bob");
    let snapshot = state.snapshot();

    assert!(!player.id.is_empty());
    assert_eq!(snapshot.players.len(), 1);
    assert_eq!(snapshot.size_x, WORLD_SIZE_X);
    assert_eq!(snapshot.size_y, WORLD_SIZE_Y);
    assert_eq!(snapshot.size_z, WORLD_SIZE_Z);
    assert_eq!(snapshot.blocks.len(), (FLOOR_SIZE * FLOOR_SIZE) as usize);
}

#[test]
fn set_block_rpc_updates_world() {
    let mut state = GameState::new();
    let _ = join(&mut state, "builder");
    assert!(state.set_block(3, 4, 5, 8).is_some());
    assert_eq!(state.world().get_block(3, 4, 5), Some(8));
}

#[test]
fn break_block_rpc_removes_block() {
    let mut state = GameState::new();
    let _ = join(&mut state, "miner");
    assert!(state.set_block(1, 1, 1, 6).is_some());
    assert!(state.break_block(1, 1, 1).is_some());
    assert_eq!(state.world().get_block(1, 1, 1), Some(0));
}

#[test]
fn update_position_rpc_moves_player() {
    let mut state = GameState::new();
    let (player, _) = join(&mut state, "walker");
    assert!(state
        .update_position(&player.id, 10.0f32.to_bits(), 20.0f32.to_bits(), 30.0f32.to_bits())
        .is_some());
    let stored = state.player(&player.id).unwrap();
    assert!(position(&stored) == (10.0, 20.0, 30.0));
}

#[test]
fn join_includes_existing_blocks_in_snapshot() {
    let mut state = GameState::new();
    assert!(state.set_block(2, 2, 2, 4).is_some());
    let _ = join(&mut state, "latecomer");
    let world = state.snapshot();

    assert_eq!(world.blocks.len(), (FLOOR_SIZE * FLOOR_SIZE + 1) as usize);
    let placed = world
        .blocks
        .iter()
        .find(|block| block.x == 2 && block.y == 2 && block.z == 2)
        .expect("placed block should be in snapshot");
    assert_eq!(placed.block_type, 4);
}

#[test]
fn rejoining_with_same_id_replaces_player() {
    let mut state = GameState::new();
    let bits = 1.0f32.to_bits();
    state.join("p1".to_string(), "first".to_string(), bits, bits, bits);
    state.join("p2".to_string(), "second".to_string(), bits, bits, bits);
    let (again, _) = state.join("p1".to_string(), "renamed".to_string(), 0, 0, 0);
    assert_eq!(again.name, "renamed");
    let snapshot = state.snapshot();
    let names: Vec<&str> = snapshot.players.iter().map(|p| p.name.as_str()).collect();
    assert_eq!(names, vec!["renamed", "second"]);
    assert_eq!(state.player("p1").unwrap().x, 0);
}

#[test]
fn update_position_leaves_other_players_alone() {
    let mut state = GameState::new();
    let bits = 5.0f32.to_bits();
    state.join("a".to_string(), "a".to_string(), bits, bits, bits);
    state.join("b".to_string(), "b".to_string(), bits, bits, bits);
    assert!(state.update_position("a", 0, 0, 0).is_some());
    let b = state.player("b").unwrap();
    assert_eq!((b.x, b.y, b.z), (bits, bits, bits));
}

#[test]
fn cloned_events_are_equal_in_every_field() {
    let mut state = GameState::new();
    let bits = 2.0f32.to_bits();
    let (_, event) = state.join("id".to_string(), "n".to_string(), bits, bits, bits);
    match event.clone() {
        GameEvent::PlayerJoin(p) => {
            assert_eq!((p.id.as_str(), p.name.as_str(), p.x, p.y, p.z), ("id", "n", bits, bits, bits));
        }
        other => panic!("unexpected event: {other:?}"),
    }
    let moved = state.update_position("id", 0, 1, 2).unwrap().clone();
    match moved {
        GameEvent::PlayerMove { player_id, x, y, z } => assert_eq!((player_id.as_str(), x, y, z), ("id", 0, 1, 2)),
        other => panic!("unexpected event: {other:?}"),
    }
}
