use grahamcraft::player_id::{new_player_identity, player_identity, spawn_offset};

#[test]
fn identity_text_is_hyphenated_lowercase_hex() {
    let bytes: [u8; 16] = [
        0x00, 0x01, 0x02, 0x03, 0x04, 0x05, 0x06, 0x07, 0x08, 0x09, 0x0a, 0x0b, 0xbc, 0xde, 0xef,
        0xff,
    ];
    let identity = player_identity(bytes);
    assert_eq!(identity.id, "00010203-0405-0607-0809-0a0bbcdeefff");
    assert_eq!(identity.uuid, bytes);
    assert_eq!((identity.offset_x, identity.offset_z), (-3, -2));
}

#[test]
fn spawn_offsets_stay_within_three_blocks() {
    for b0 in 0..=255u8 {
        let mut bytes = [0u8; 16];
        bytes[0] = b0;
        bytes[1] = 255 - b0;
        let (dx, dz) = spawn_offset(&bytes);
        assert_eq!(dx, (b0 % 7) as i32 - 3);
        assert_eq!(dz, ((255 - b0) % 7) as i32 - 3);
        assert!((-3..=3).contains(&dx) && (-3..=3).contains(&dz));
    }
}

#[test]
fn new_identities_are_version_four_and_distinct() {
    let a = new_player_identity();
    let b = new_player_identity();
    assert_ne!(a.id, b.id);
    assert_eq!(a.id.len(), 36);
    assert_eq!(a.uuid[6] >> 4, 4);
    assert_eq!(a.uuid[8] >> 6, 2);
    assert_eq!(a.id.as_bytes()[14], b'4');
    let hyphens: Vec<usize> = a.id.char_indices().filter(|(_, c)| *c == '-').map(|(i, _)| i).collect();
    assert_eq!(hyphens, vec![8, 13, 18, 23]);
}
