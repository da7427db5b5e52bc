//! Player identities: random version-4 UUIDs, their text form, and the spawn
//! offset each one picks.

use vstd::prelude::*;

verus! {

/// The lowercase hexadecimal digit for `n` in `0..16`.
pub open spec fn hex_digit(n: int) -> char {
    if n < 10 {
        (48 + n) as char
    } else {
        (87 + n) as char
    }
}

/// Two lowercase hexadecimal digits per byte, most significant first.
pub open spec fn hex_bytes(bs: Seq<u8>) -> Seq<char>
    decreases bs.len(),
{
    if bs.len() == 0 {
        Seq::empty()
    } else {
        hex_bytes(bs.drop_last()) + seq![hex_digit(bs.last() as int / 16), hex_digit(bs.last() as int % 16)]
    }
}

/// The hyphenated text form of a UUID's 16 bytes, grouped 4-2-2-2-6.
pub open spec fn uuid_text(b: Seq<u8>) -> Seq<char> {
    hex_bytes(b.subrange(0, 4)) + seq!['-'] + hex_bytes(b.subrange(4, 6)) + seq!['-'] + hex_bytes(
        b.subrange(6, 8),
    ) + seq!['-'] + hex_bytes(b.subrange(8, 10)) + seq!['-'] + hex_bytes(b.subrange(10, 16))
}

/// The spawn offset a UUID picks: each horizontal component is in `-3..=3`.
pub open spec fn spawn_offset_spec(b: Seq<u8>) -> (int, int) {
    ((b[0] as int % 7) - 3, (b[1] as int % 7) - 3)
}

/// Calls `uuid::Uuid::new_v4` and returns the new UUID's bytes. They are
/// random; the version nibble (high half of byte 6) is 4 and the variant bits
/// (top two bits of byte 8) are `10`, which `new_v4` sets after drawing the
/// random value. Like `new_v4`, it panics when the operating system cannot
/// supply random bytes; the contract does not speak of that case.
#[verifier::external_body]
fn random_uuid_bytes() -> (b: [u8; 16])
    ensures
        b@[6] / 16 == 4,
        b@[8] / 64 == 2,
{
    *uuid::Uuid::new_v4().as_bytes()
}

/// Formats a UUID with `uuid::Uuid`'s `Display` (through `to_string`), which
/// writes the lowercase hyphenated form.
#[verifier::external_body]
fn uuid_to_string(bytes: [u8; 16]) -> (s: String)
    ensures
        s@ == uuid_text(bytes@),
{
    uuid::Uuid::from_bytes(bytes).to_string()
}

/// A freshly drawn player identity.
pub struct PlayerIdentity {
    /// The UUID's bytes.
    pub uuid: [u8; 16],
    /// The UUID's text form, used as the player id.
    pub id: String,
    /// Offset of the player's spawn column from the default spawn point.
    pub offset_x: i32,
    pub offset_z: i32,
}

/// The spawn offset for a UUID, in `-3..=3` along x and z.
pub fn spawn_offset(bytes: &[u8; 16]) -> (r: (i32, i32))
    ensures
        r.0 == spawn_offset_spec(bytes@).0,
        r.1 == spawn_offset_spec(bytes@).1,
        -3 <= r.0 <= 3,
        -3 <= r.1 <= 3,
{
    let offset_x = (bytes[0] % 7) as i32 - 3;
    let offset_z = (bytes[1] % 7) as i32 - 3;
    (offset_x, offset_z)
}

/// The identity that a UUID gives a player: its text form and spawn offset.
pub fn player_identity(uuid: [u8; 16]) -> (p: PlayerIdentity)
    ensures
        p.uuid == uuid,
        p.id@ == uuid_text(uuid@),
        p.offset_x == spawn_offset_spec(uuid@).0,
        p.offset_z == spawn_offset_spec(uuid@).1,
        -3 <= p.offset_x <= 3,
        -3 <= p.offset_z <= 3,
{
    let id = uuid_to_string(uuid);
    let (offset_x, offset_z) = spawn_offset(&uuid);
    PlayerIdentity { uuid, id, offset_x, offset_z }
}

/// Draws a random version-4 UUID and derives the player identity from it.
pub fn new_player_identity() -> (p: PlayerIdentity)
    ensures
        p.id@ == uuid_text(p.uuid@),
        p.offset_x == spawn_offset_spec(p.uuid@).0,
        p.offset_z == spawn_offset_spec(p.uuid@).1,
        -3 <= p.offset_x <= 3,
        -3 <= p.offset_z <= 3,
        p.uuid@[6] / 16 == 4,
        p.uuid@[8] / 64 == 2,
{
    let bytes = random_uuid_bytes();
    player_identity(bytes)
}

/// A UUID's text form is 36 characters long.
pub proof fn law_uuid_text_length(b: Seq<u8>)
    requires
        b.len() == 16,
    ensures
        uuid_text(b).len() == 36,
{
    assert forall|s: Seq<u8>| #[trigger] hex_bytes(s).len() == 2 * s.len() by {
        lemma_hex_bytes_len(s);
    }
}

proof fn lemma_hex_bytes_len(s: Seq<u8>)
    ensures
        hex_bytes(s).len() == 2 * s.len(),
    decreases s.len(),
{
    if s.len() > 0 {
        lemma_hex_bytes_len(s.drop_last());
    }
}

} // verus!
