use grahamcraft::remote_players::RemotePlayers;

#[test]
fn local_player_events_are_ignored() {
    let mut roster: RemotePlayers<u32> = RemotePlayers::new();
    roster.set_local_player("me".to_string());
    assert!(!roster.apply_join("me"));
    assert!(!roster.apply_move_maybe_spawn("me", (1, 2, 3)));
    assert!(roster.target_of("me").is_none());
    assert!(roster.apply_join("you"));
}

#[test]
fn move_spawns_once_and_leave_forgets() {
    let mut roster: RemotePlayers<u32> = RemotePlayers::new();
    roster.set_local_player("me".to_string());
    assert!(roster.apply_move_maybe_spawn("bob", (1, 2, 3)));
    assert_eq!(roster.take_figure("bob"), None);
    roster.record_avatar("bob".to_string(), (1, 2, 3), 7);
    assert!(!roster.apply_move_maybe_spawn("bob", (4, 5, 6)));
    assert_eq!(roster.target_of("bob"), Some((4, 5, 6)));
    assert_eq!(roster.figures().len(), 1);

    assert_eq!(roster.take_figure("bob"), Some(7));
    roster.record_avatar("bob".to_string(), (0, 0, 0), 8);
    assert_eq!(roster.figures().clone(), vec![("bob".to_string(), 8)]);

    assert_eq!(roster.apply_leave("bob"), Some(8));
    assert!(roster.target_of("bob").is_none());
    assert!(roster.figures().is_empty());
    assert_eq!(roster.apply_leave("bob"), None);
}
