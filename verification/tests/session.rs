use grahamcraft::session::{split_join_players, RemotePlayerState};

fn state(id: &str, x: f32) -> RemotePlayerState {
    RemotePlayerState {
        player_id: id.to_string(),
        player_name: format!("name-{id}"),
        x: x.to_bits(),
        y: 1.0f32.to_bits(),
        z: 2.0f32.to_bits(),
    }
}

#[test]
fn join_answer_splits_into_spawn_and_others() {
    let players = vec![state("a", 1.0), state("me", 24.0), state("b", 3.0)];
    let (spawn, others) = split_join_players("me", &players);
    assert_eq!(spawn, (24.0f32.to_bits(), 1.0f32.to_bits(), 2.0f32.to_bits()));
    let ids: Vec<&str> = others.iter().map(|p| p.player_id.as_str()).collect();
    assert_eq!(ids, vec!["a", "b"]);
    assert_eq!(others[1].player_name, "name-b");
    assert_eq!(others[1].x, 3.0f32.to_bits());
}

#[test]
fn missing_local_player_spawns_at_origin() {
    let players = vec![state("a", 1.0)];
    let (spawn, others) = split_join_players("me", &players);
    assert_eq!(spawn, (0, 0, 0));
    assert_eq!(others.len(), 1);
    let (spawn, others) = split_join_players("me", &Vec::new());
    assert_eq!(spawn, (0.0f32.to_bits(), 0.0f32.to_bits(), 0.0f32.to_bits()));
    assert!(others.is_empty());
}

#[test]
fn last_local_entry_wins() {
    let players = vec![state("me", 5.0), state("me", 6.0)];
    let (spawn, others) = split_join_players("me", &players);
    assert_eq!(spawn.0, 6.0f32.to_bits());
    assert!(others.is_empty());
}
