//! Block colours by palette slot, and the avatar colours a player id picks.

use sha2::{Digest, Sha256};
use vstd::prelude::*;

verus! {

/// Number of colours in the block palette.
pub const PALETTE_SIZE: usize = 10;

/// The palette slot of a block type: types `1..=10` take slots `0..=9` and
/// the palette repeats in both directions.
pub open spec fn palette_index_spec(block_type: int) -> int {
    (block_type - 1) % 10
}

/// The SHA-256 digest of `data`.
pub uninterp spec fn sha256_digest(data: Seq<u8>) -> Seq<u8>;

/// Computes `sha2::Sha256::digest` (through the `Digest` trait) of `data`.
#[verifier::external_body]
fn sha256(data: &[u8]) -> (d: [u8; 32])
    ensures
        d@ == sha256_digest(data@),
{
    Sha256::digest(data).into()
}

/// The palette slot of a block type.
pub fn palette_index(block_type: i32) -> (i: usize)
    ensures
        i == palette_index_spec(block_type as int),
        i < PALETTE_SIZE,
{
    // 2147483650 is a multiple of 10 above 2^31, so the sum is positive and
    // congruent to `block_type - 1`.
    let shifted = (block_type as i64 - 1 + 2147483650) as u64;
    (shifted % 10) as usize
}

/// The palette slots of a player's avatar, derived from the SHA-256 digest of
/// the UTF-8 bytes of the id: the body from the digest's first byte and the
/// limbs from its second.
pub open spec fn avatar_slots_spec(player_id: Seq<char>) -> (int, int) {
    let d = sha256_digest(vstd::utf8::encode_utf8(player_id));
    (
        palette_index_spec((d[0] as int % PALETTE_SIZE as int) + 1),
        palette_index_spec((d[1] as int % PALETTE_SIZE as int) + 1),
    )
}

/// The palette slots (body, limbs) of the avatar of player `player_id`.
pub fn avatar_palette_indices(player_id: &str) -> (r: (usize, usize))
    ensures
        r.0 == avatar_slots_spec(player_id@).0,
        r.1 == avatar_slots_spec(player_id@).1,
        r.0 < PALETTE_SIZE,
        r.1 < PALETTE_SIZE,
{
    let digest = sha256(player_id.as_bytes());
    let body = palette_index((digest[0] as i32 % PALETTE_SIZE as i32) + 1);
    let limbs = palette_index((digest[1] as i32 % PALETTE_SIZE as i32) + 1);
    (body, limbs)
}

/// An avatar's palette slots are the digest bytes taken modulo the palette
/// size.
pub proof fn law_avatar_slots_from_digest(player_id: Seq<char>)
    ensures
        avatar_slots_spec(player_id).0 == sha256_digest(vstd::utf8::encode_utf8(player_id))[0]
            as int % 10,
        avatar_slots_spec(player_id).1 == sha256_digest(vstd::utf8::encode_utf8(player_id))[1]
            as int % 10,
{
}

/// The palette repeats every `PALETTE_SIZE` block types, and block types
/// `1..=10` take the slots `0..=9` in order.
pub proof fn law_palette_cycles(block_type: int, k: int)
    ensures
        palette_index_spec(block_type + 10) == palette_index_spec(block_type),
        0 <= palette_index_spec(block_type) < PALETTE_SIZE,
        0 <= k < 10 ==> palette_index_spec(k + 1) == k,
{
}

} // verus!
