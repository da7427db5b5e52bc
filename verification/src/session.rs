//! What the client takes from the server's answer to its join request.
//!
//! Positions are the IEEE-754 bit patterns of `f32` coordinates.

use vstd::prelude::*;

verus! {

/// Position and identity of a connected player, as the server reports it.
#[derive(Debug)]
pub struct RemotePlayerState {
    pub player_id: String,
    pub player_name: String,
    pub x: u32,
    pub y: u32,
    pub z: u32,
}

/// The bit pattern of the `f32` zero, the spawn position used when the
/// server's answer does not list the local player.
pub const ZERO_BITS: u32 = 0;

/// The plain values of a player's state.
pub struct RemotePlayerView {
    pub player_id: Seq<char>,
    pub player_name: Seq<char>,
    pub x: u32,
    pub y: u32,
    pub z: u32,
}

impl View for RemotePlayerState {
    type V = RemotePlayerView;

    open spec fn view(&self) -> RemotePlayerView {
        RemotePlayerView {
            player_id: self.player_id@,
            player_name: self.player_name@,
            x: self.x,
            y: self.y,
            z: self.z,
        }
    }
}

impl Clone for RemotePlayerState {
    fn clone(&self) -> (r: Self)
        ensures
            r == *self,
    {
        RemotePlayerState {
            player_id: self.player_id.clone(),
            player_name: self.player_name.clone(),
            x: self.x,
            y: self.y,
            z: self.z,
        }
    }
}

/// The views of a sequence of player states.
pub open spec fn remote_views(ps: Seq<RemotePlayerState>) -> Seq<RemotePlayerView> {
    ps.map_values(|p: RemotePlayerState| p@)
}

/// Whether a player state belongs to someone other than `own_id`.
pub open spec fn is_other(own_id: Seq<char>) -> spec_fn(RemotePlayerView) -> bool {
    |p: RemotePlayerView| p.player_id != own_id
}

/// Splits the players of a join answer into the local player's spawn
/// position and the other players, in their order. When several entries carry
/// the local id the last one gives the spawn position; when none does the
/// spawn position is the origin.
pub fn split_join_players(own_id: &str, players: &Vec<RemotePlayerState>) -> (r: (
    (u32, u32, u32),
    Vec<RemotePlayerState>,
))
    ensures
        (forall|i: int| 0 <= i < players@.len() ==> (#[trigger] players@[i]).player_id@ != own_id@)
            ==> r.0 == (ZERO_BITS, ZERO_BITS, ZERO_BITS),
        forall|i: int|
            0 <= i < players@.len() && (#[trigger] players@[i]).player_id@ == own_id@ && (forall|
                j: int,
            | i < j < players@.len() ==> (#[trigger] players@[j]).player_id@ != own_id@) ==> r.0 == (
                players@[i].x,
                players@[i].y,
                players@[i].z,
            ),
        remote_views(r.1@) == remote_views(players@).filter(is_other(own_id@)),
        forall|k: int|
            0 <= k < r.1@.len() ==> (#[trigger] r.1@[k]).player_id@ != own_id@ && exists|i: int|
                0 <= i < players@.len() && (#[trigger] players@[i])@ == r.1@[k]@,
        forall|i: int|
            0 <= i < players@.len() && (#[trigger] players@[i]).player_id@ != own_id@ ==> exists|
                k: int,
            | 0 <= k < r.1@.len() && (#[trigger] r.1@[k])@ == players@[i]@,
{
    let own = own_id.to_owned();
    let mut spawn: (u32, u32, u32) = (ZERO_BITS, ZERO_BITS, ZERO_BITS);
    let mut others: Vec<RemotePlayerState> = Vec::new();
    let ghost all = remote_views(players@);
    let ghost keep = is_other(own_id@);
    let ghost mut last: int = -1;
    let mut i: usize = 0;
    while i < players.len()
        invariant
            own@ == own_id@,
            all == remote_views(players@),
            keep == is_other(own_id@),
            i <= players@.len(),
            remote_views(others@) == all.subrange(0, i as int).filter(keep),
            -1 <= last < i,
            last == -1 ==> spawn == (ZERO_BITS, ZERO_BITS, ZERO_BITS) && forall|k: int|
                0 <= k < i ==> (#[trigger] players@[k]).player_id@ != own_id@,
            last >= 0 ==> players@[last].player_id@ == own_id@ && spawn == (
                players@[last].x,
                players@[last].y,
                players@[last].z,
            ) && forall|k: int| last < k < i ==> (#[trigger] players@[k]).player_id@ != own_id@,
        decreases players@.len() - i,
    {
        let p = &players[i];
        proof {
            assert(all.subrange(0, i + 1) =~= all.subrange(0, i as int).push(all[i as int]));
            all.subrange(0, i as int).lemma_filter_push(all[i as int], keep);
        }
        if p.player_id == own {
            spawn = (p.x, p.y, p.z);
            proof {
                last = i as int;
            }
        } else {
            let ghost before = others@;
            let q = p.clone();
            others.push(q);
            proof {
                assert(remote_views(others@) =~= remote_views(before).push(q@));
            }
        }
        i = i + 1;
    }
    assert(all.subrange(0, i as int) =~= all);
    proof {
        law_split_keeps_exactly_the_others(own_id@, all, remote_views(others@));
        assert forall|k: int| 0 <= k < others@.len() implies (#[trigger] others@[k]).player_id@
            != own_id@ && exists|i: int|
            0 <= i < players@.len() && (#[trigger] players@[i])@ == others@[k]@ by {
            assert(remote_views(others@)[k] == others@[k]@);
            let i = choose|i: int| 0 <= i < all.len() && all[i] == remote_views(others@)[k];
            assert(all[i] == players@[i]@);
        }
        assert forall|i: int|
            0 <= i < players@.len() && (#[trigger] players@[i]).player_id@ != own_id@ implies exists|
            k: int,
        | 0 <= k < others@.len() && (#[trigger] others@[k])@ == players@[i]@ by {
            assert(all[i] == players@[i]@);
            let k = choose|k: int|
                0 <= k < remote_views(others@).len() && remote_views(others@)[k] == all[i];
            assert(remote_views(others@)[k] == others@[k]@);
        }
    }
    (spawn, others)
}

/// Splitting a join answer keeps exactly the other players: every player
/// whose id differs from the local one is kept, and everything kept is a
/// listed player whose id differs from the local one.
pub proof fn law_split_keeps_exactly_the_others(
    own_id: Seq<char>,
    players: Seq<RemotePlayerView>,
    others: Seq<RemotePlayerView>,
)
    requires
        others == players.filter(is_other(own_id)),
    ensures
        forall|i: int|
            0 <= i < players.len() && (#[trigger] players[i]).player_id != own_id ==> exists|k: int|
                0 <= k < others.len() && others[k] == players[i],
        forall|k: int|
            0 <= k < others.len() ==> (#[trigger] others[k]).player_id != own_id && exists|i: int|
                0 <= i < players.len() && players[i] == others[k],
{
    broadcast use vstd::seq_lib::group_filter_ensures;

    assert forall|i: int|
        0 <= i < players.len() && (#[trigger] players[i]).player_id != own_id implies exists|k: int|
        0 <= k < others.len() && others[k] == players[i] by {
        players.lemma_filter_contains(is_other(own_id), i);
    }
    assert forall|k: int| 0 <= k < others.len() implies (#[trigger] others[k]).player_id != own_id
        && exists|i: int| 0 <= i < players.len() && players[i] == others[k] by {
        players.lemma_filter_pred(is_other(own_id), k);
        assert(is_other(own_id)(others[k]));
        assert(others.contains(others[k]));
        players.lemma_filter_contains_rev(is_other(own_id), others[k]);
        assert(players.contains(others[k]));
        let i = choose|i: int| 0 <= i < players.len() && players[i] == others[k];
        assert(0 <= i < players.len() && players[i] == others[k]);
    }
}

} // verus!
