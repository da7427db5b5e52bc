//! Which other players the client shows, and where each avatar is heading.
//!
//! Avatars are entities of the client's scene; this roster is generic over
//! their handle type `E`. Target positions are the IEEE-754 bit patterns of
//! `f32` coordinates.

use crate::keyed_list::KeyedList;
use vstd::prelude::*;

verus! {

/// A target position as `f32` bit patterns.
pub type TargetBits = (u32, u32, u32);

/// The avatars of remote players and their target positions.
pub struct RemotePlayers<E> {
    local_player_id: String,
    figures: KeyedList<E>,
    targets: KeyedList<TargetBits>,
}

impl<E: Copy> RemotePlayers<E> {
    /// The id of the local player, whose own events are ignored.
    pub closed spec fn local_id(&self) -> Seq<char> {
        self.local_player_id@
    }

    /// The avatar shown for each remote player.
    pub closed spec fn figures_view(&self) -> Map<Seq<char>, E> {
        self.figures@
    }

    /// The position each remote player's avatar moves towards.
    pub closed spec fn targets_view(&self) -> Map<Seq<char>, TargetBits> {
        self.targets@
    }

    pub closed spec fn wf(&self) -> bool {
        self.figures.wf() && self.targets.wf()
    }

    /// No avatars yet, and an empty local id.
    pub fn new() -> (r: Self)
        ensures
            r.wf(),
            r.local_id() == Seq::<char>::empty(),
            r.figures_view() == Map::<Seq<char>, E>::empty(),
            r.targets_view() == Map::<Seq<char>, TargetBits>::empty(),
    {
        RemotePlayers {
            local_player_id: String::new(),
            figures: KeyedList::new(),
            targets: KeyedList::new(),
        }
    }

    /// Sets the id of the local player.
    pub fn set_local_player(&mut self, player_id: String)
        requires
            old(self).wf(),
        ensures
            final(self).wf(),
            final(self).local_id() == player_id@,
            final(self).figures_view() == old(self).figures_view(),
            final(self).targets_view() == old(self).targets_view(),
    {
        self.local_player_id = player_id;
    }

    /// Whether `player_id` is the local player.
    pub fn is_local(&self, player_id: &str) -> (r: bool)
        ensures
            r == (player_id@ == self.local_id()),
    {
        let id = player_id.to_owned();
        self.local_player_id == id
    }

    /// Whether a join event for `player_id` needs an avatar, snapped to the
    /// ground: every player but the local one does.
    pub fn apply_join(&self, player_id: &str) -> (spawn: bool)
        ensures
            spawn == (player_id@ != self.local_id()),
    {
        !self.is_local(player_id)
    }

    /// Records a move of `player_id` towards `target` and returns whether the
    /// player has no avatar yet, so that one must be spawned there. Moves of
    /// the local player are ignored.
    pub fn apply_move_maybe_spawn(&mut self, player_id: &str, target: TargetBits) -> (spawn: bool)
        requires
            old(self).wf(),
        ensures
            final(self).wf(),
            final(self).local_id() == old(self).local_id(),
            final(self).figures_view() == old(self).figures_view(),
            player_id@ == old(self).local_id() ==> !spawn && final(self).targets_view() == old(
                self,
            ).targets_view(),
            player_id@ != old(self).local_id() ==> spawn == !old(self).figures_view().contains_key(
                player_id@,
            ) && final(self).targets_view() == old(self).targets_view().insert(
                player_id@,
                target,
            ),
    {
        if self.is_local(player_id) {
            return false;
        }
        self.targets.insert(player_id.to_owned(), target);
        match self.figures.get(player_id) {
            Some(_) => false,
            None => true,
        }
    }

    /// Forgets `player_id`, returning its avatar for despawning.
    pub fn apply_leave(&mut self, player_id: &str) -> (r: Option<E>)
        requires
            old(self).wf(),
        ensures
            final(self).wf(),
            final(self).local_id() == old(self).local_id(),
            r == (if old(self).figures_view().contains_key(player_id@) {
                Some(old(self).figures_view()[player_id@])
            } else {
                None::<E>
            }),
            final(self).figures_view() == old(self).figures_view().remove(player_id@),
            final(self).targets_view() == old(self).targets_view().remove(player_id@),
    {
        self.targets.remove(player_id);
        self.figures.remove(player_id)
    }

    /// Detaches the avatar of `player_id` before a new one replaces it,
    /// returning the old one for despawning.
    pub fn take_figure(&mut self, player_id: &str) -> (r: Option<E>)
        requires
            old(self).wf(),
        ensures
            final(self).wf(),
            final(self).local_id() == old(self).local_id(),
            r == (if old(self).figures_view().contains_key(player_id@) {
                Some(old(self).figures_view()[player_id@])
            } else {
                None::<E>
            }),
            final(self).figures_view() == old(self).figures_view().remove(player_id@),
            final(self).targets_view() == old(self).targets_view(),
    {
        self.figures.remove(player_id)
    }

    /// Records the new avatar of `player_id` and the target it starts at.
    pub fn record_avatar(&mut self, player_id: String, target: TargetBits, figure: E)
        requires
            old(self).wf(),
        ensures
            final(self).wf(),
            final(self).local_id() == old(self).local_id(),
            final(self).figures_view() == old(self).figures_view().insert(player_id@, figure),
            final(self).targets_view() == old(self).targets_view().insert(player_id@, target),
    {
        self.targets.insert(player_id.clone(), target);
        self.figures.insert(player_id, figure);
    }

    /// The target of `player_id`, if it has one.
    pub fn target_of(&self, player_id: &str) -> (r: Option<TargetBits>)
        requires
            self.wf(),
        ensures
            r == (if self.targets_view().contains_key(player_id@) {
                Some(self.targets_view()[player_id@])
            } else {
                None::<TargetBits>
            }),
    {
        self.targets.get(player_id)
    }

    /// Every avatar with its player id, each once, in no particular order.
    pub fn figures(&self) -> (r: &Vec<(String, E)>)
        requires
            self.wf(),
        ensures
            r@.len() == self.figures_view().dom().len(),
            forall|i: int|
                0 <= i < r@.len() ==> self.figures_view().contains_key((#[trigger] r@[i]).0@)
                    && self.figures_view()[r@[i].0@] == r@[i].1,
            forall|i: int, j: int|
                0 <= i < j < r@.len() ==> (#[trigger] r@[i]).0@ != (#[trigger] r@[j]).0@,
            forall|id: Seq<char>|
                #[trigger] self.figures_view().contains_key(id) ==> exists|i: int|
                    0 <= i < r@.len() && (#[trigger] r@[i]).0@ == id,
    {
        self.figures.entries()
    }
}

} // verus!
