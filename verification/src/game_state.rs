//! The server's shared game state: the world and the connected players, with
//! the decisions that each request makes and the event it broadcasts.
//!
//! Player positions are carried as the IEEE-754 bit patterns of `f32`
//! coordinates (`f32::to_bits`): this state stores and forwards them but never
//! computes with them.

use crate::block_store::{entry_coord, BlockEntry, Coord};
use crate::world::{initial_floor, World, FLOOR_SIZE, WORLD_SIZE_X, WORLD_SIZE_Y, WORLD_SIZE_Z};
use vstd::prelude::*;

verus! {

/// A connected player's id, display name and position.
#[derive(Debug)]
pub struct Player {
    pub id: String,
    pub name: String,
    /// Bit pattern of the `f32` x coordinate.
    pub x: u32,
    /// Bit pattern of the `f32` y coordinate.
    pub y: u32,
    /// Bit pattern of the `f32` z coordinate.
    pub z: u32,
}

/// A player as plain values.
pub struct PlayerView {
    pub id: Seq<char>,
    pub name: Seq<char>,
    pub x: u32,
    pub y: u32,
    pub z: u32,
}

impl View for Player {
    type V = PlayerView;

    open spec fn view(&self) -> PlayerView {
        PlayerView { id: self.id@, name: self.name@, x: self.x, y: self.y, z: self.z }
    }
}

impl Clone for Player {
    fn clone(&self) -> (r: Self)
        ensures
            r == *self,
    {
        Player { id: self.id.clone(), name: self.name.clone(), x: self.x, y: self.y, z: self.z }
    }
}

/// Events broadcast to all subscribed clients.
#[allow(inconsistent_fields)]
#[derive(Debug)]
pub enum GameEvent {
    BlockChange { x: i32, y: i32, z: i32, block_type: i32 },
    PlayerMove { player_id: String, x: u32, y: u32, z: u32 },
    PlayerJoin(Player),
    PlayerLeave { player_id: String },
}

impl Clone for GameEvent {
    fn clone(&self) -> (r: Self)
        ensures
            r == *self,
    {
        match self {
            GameEvent::BlockChange { x, y, z, block_type } => GameEvent::BlockChange {
                x: *x,
                y: *y,
                z: *z,
                block_type: *block_type,
            },
            GameEvent::PlayerMove { player_id, x, y, z } => GameEvent::PlayerMove {
                player_id: player_id.clone(),
                x: *x,
                y: *y,
                z: *z,
            },
            GameEvent::PlayerJoin(p) => GameEvent::PlayerJoin(p.clone()),
            GameEvent::PlayerLeave { player_id } => GameEvent::PlayerLeave {
                player_id: player_id.clone(),
            },
        }
    }
}

/// The world and its size as they are sent to a joining client, with every
/// connected player.
pub struct WorldSnapshot {
    pub size_x: i32,
    pub size_y: i32,
    pub size_z: i32,
    pub blocks: Vec<BlockEntry>,
    pub players: Vec<Player>,
}

/// The views of a sequence of players.
pub open spec fn player_views(ps: Seq<Player>) -> Seq<PlayerView> {
    ps.map_values(|p: Player| p@)
}

/// The position of the player with id `id` in `ps`, if one has it.
pub open spec fn index_of_id(ps: Seq<PlayerView>, id: Seq<char>) -> Option<int> {
    if exists|i: int| 0 <= i < ps.len() && ps[i].id == id {
        Some(choose|i: int| 0 <= i < ps.len() && ps[i].id == id)
    } else {
        None
    }
}

/// The player with id `id` in `ps`, if one has it.
pub open spec fn player_with_id(ps: Seq<PlayerView>, id: Seq<char>) -> Option<PlayerView> {
    match index_of_id(ps, id) {
        Some(i) => Some(ps[i]),
        None => None,
    }
}

/// No two players share an id.
pub open spec fn ids_distinct(ps: Seq<PlayerView>) -> bool {
    forall|i: int, j: int| 0 <= i < j < ps.len() ==> #[trigger] ps[i].id != #[trigger] ps[j].id
}

/// Shared game state: the world and the connected players, in the order in
/// which they joined.
pub struct GameState {
    world: World,
    players: Vec<Player>,
}

impl GameState {
    /// The connected players.
    pub closed spec fn players_view(&self) -> Seq<PlayerView> {
        player_views(self.players@)
    }

    /// The world.
    pub closed spec fn world_spec(&self) -> World {
        self.world
    }

    /// The world is well formed and player ids are distinct.
    pub closed spec fn wf(&self) -> bool {
        self.world.wf() && ids_distinct(self.players_view())
    }

    /// The well-formedness that `wf` stands for.
    pub proof fn lemma_wf(&self)
        requires
            self.wf(),
        ensures
            self.world_spec().wf(),
            ids_distinct(self.players_view()),
    {
    }

    /// The world.
    pub fn world(&self) -> (w: &World)
        ensures
            *w == self.world_spec(),
    {
        &self.world
    }

    /// The initial world with no players.
    pub fn new() -> (s: Self)
        ensures
            s.wf(),
            s.world_spec()@ == initial_floor(),
            s.world_spec().spec_size_x() == WORLD_SIZE_X,
            s.world_spec().spec_size_y() == WORLD_SIZE_Y,
            s.world_spec().spec_size_z() == WORLD_SIZE_Z,
            s.players_view() == Seq::<PlayerView>::empty(),
    {
        let s = GameState { world: World::create_initial(), players: Vec::new() };
        assert(s.players_view() =~= Seq::<PlayerView>::empty());
        s
    }

    /// The index of the player with id `id`.
    fn find(&self, id: &String) -> (r: Option<usize>)
        requires
            self.wf(),
        ensures
            r matches Some(i) ==> i < self.players_view().len() && self.players_view()[i as int].id
                == id@,
            r is None ==> forall|i: int|
                0 <= i < self.players_view().len() ==> #[trigger] self.players_view()[i].id != id@,
    {
        let mut i: usize = 0;
        while i < self.players.len()
            invariant
                i <= self.players@.len(),
                self.players_view().len() == self.players@.len(),
                forall|j: int| 0 <= j < i ==> #[trigger] self.players_view()[j].id != id@,
            decreases self.players@.len() - i,
        {
            if self.players[i].id == *id {
                return Some(i);
            }
            i = i + 1;
        }
        None
    }

    /// Whether a player with id `id` is connected.
    pub fn contains_player(&self, id: &str) -> (r: bool)
        requires
            self.wf(),
        ensures
            r == index_of_id(self.players_view(), id@) is Some,
    {
        let key = id.to_owned();
        match self.find(&key) {
            Some(_) => true,
            None => false,
        }
    }

    /// The connected player with id `id`, if any.
    pub fn player(&self, id: &str) -> (r: Option<Player>)
        requires
            self.wf(),
        ensures
            match index_of_id(self.players_view(), id@) {
                Some(i) => r matches Some(p) && p@ == self.players_view()[i],
                None => r is None,
            },
    {
        let key = id.to_owned();
        match self.find(&key) {
            Some(i) => {
                proof {
                    let k = index_of_id(self.players_view(), id@)->0;
                    if k != i {
                        assert(self.players_view()[k].id == self.players_view()[i as int].id);
                    }
                }
                Some(self.players[i].clone())
            },
            None => None,
        }
    }

    /// Registers a player under the given id (replacing any player that had
    /// it) and returns the player and the join event to broadcast.
    pub fn join(&mut self, id: String, name: String, x: u32, y: u32, z: u32) -> (r: (
        Player,
        GameEvent,
    ))
        requires
            old(self).wf(),
        ensures
            final(self).wf(),
            final(self).world_spec() == old(self).world_spec(),
            r.0@ == (PlayerView { id: id@, name: name@, x, y, z }),
            r.1 matches GameEvent::PlayerJoin(p) && p@ == r.0@,
            final(self).players_view() == (match index_of_id(old(self).players_view(), id@) {
                Some(i) => old(self).players_view().update(i, r.0@),
                None => old(self).players_view().push(r.0@),
            }),
    {
        let player = Player { id, name, x, y, z };
        let ghost before = self.players_view();
        let found = self.find(&player.id);
        match found {
            Some(i) => {
                proof {
                    let k = index_of_id(before, player.id@)->0;
                    if k != i {
                        assert(before[k].id == before[i as int].id);
                    }
                }
                self.players.set(i, player.clone());
                assert(self.players_view() =~= before.update(i as int, player@));
            },
            None => {
                self.players.push(player.clone());
                assert(self.players_view() =~= before.push(player@));
            },
        }
        let event = GameEvent::PlayerJoin(player.clone());
        (player, event)
    }

    /// Places a block; on success returns the block-change event to
    /// broadcast, and out of bounds returns `None` and changes nothing.
    pub fn set_block(&mut self, x: i32, y: i32, z: i32, block_type: i32) -> (r: Option<GameEvent>)
        requires
            old(self).wf(),
        ensures
            final(self).wf(),
            final(self).players_view() == old(self).players_view(),
            final(self).world_spec().spec_size_x() == old(self).world_spec().spec_size_x(),
            final(self).world_spec().spec_size_y() == old(self).world_spec().spec_size_y(),
            final(self).world_spec().spec_size_z() == old(self).world_spec().spec_size_z(),
            r is Some <==> old(self).world_spec().contains_coord((x, y, z)),
            r is Some <==> (0 <= x < old(self).world_spec().spec_size_x() && 0 <= y < old(
                self,
            ).world_spec().spec_size_y() && 0 <= z < old(self).world_spec().spec_size_z()),
            r is Some ==> r == Some(GameEvent::BlockChange { x, y, z, block_type }),
            final(self).world_spec()@ == (if r is None {
                old(self).world_spec()@
            } else if block_type == 0 {
                old(self).world_spec()@.remove((x, y, z))
            } else {
                old(self).world_spec()@.insert((x, y, z), block_type)
            }),
    {
        if !self.world.set_block(x, y, z, block_type) {
            return None;
        }
        Some(GameEvent::BlockChange { x, y, z, block_type })
    }

    /// Breaks a block; on success returns the block-change event (to air) to
    /// broadcast, and out of bounds returns `None` and changes nothing.
    pub fn break_block(&mut self, x: i32, y: i32, z: i32) -> (r: Option<GameEvent>)
        requires
            old(self).wf(),
        ensures
            final(self).wf(),
            final(self).players_view() == old(self).players_view(),
            final(self).world_spec().spec_size_x() == old(self).world_spec().spec_size_x(),
            final(self).world_spec().spec_size_y() == old(self).world_spec().spec_size_y(),
            final(self).world_spec().spec_size_z() == old(self).world_spec().spec_size_z(),
            r is Some <==> old(self).world_spec().contains_coord((x, y, z)),
            r is Some <==> (0 <= x < old(self).world_spec().spec_size_x() && 0 <= y < old(
                self,
            ).world_spec().spec_size_y() && 0 <= z < old(self).world_spec().spec_size_z()),
            r is Some ==> r == Some(GameEvent::BlockChange { x, y, z, block_type: 0 }),
            final(self).world_spec()@ == (if r is None {
                old(self).world_spec()@
            } else {
                old(self).world_spec()@.remove((x, y, z))
            }),
    {
        if !self.world.break_block(x, y, z) {
            return None;
        }
        Some(GameEvent::BlockChange { x, y, z, block_type: 0 })
    }

    /// Moves a connected player; returns the move event to broadcast, or
    /// `None`, changing nothing, when no player has the id.
    pub fn update_position(&mut self, player_id: &str, x: u32, y: u32, z: u32) -> (r: Option<
        GameEvent,
    >)
        requires
            old(self).wf(),
        ensures
            final(self).wf(),
            final(self).world_spec() == old(self).world_spec(),
            r is Some <==> index_of_id(old(self).players_view(), player_id@) is Some,
            r is None ==> final(self).players_view() == old(self).players_view(),
            r is Some ==> {
                let i = index_of_id(old(self).players_view(), player_id@)->0;
                let p = old(self).players_view()[i];
                &&& final(self).players_view() == old(self).players_view().update(
                    i,
                    PlayerView { id: p.id, name: p.name, x, y, z },
                )
                &&& r matches Some(GameEvent::PlayerMove { player_id: pid, x: ex, y: ey, z: ez })
                    && pid@ == player_id@ && ex == x && ey == y && ez == z
            },
    {
        let key = player_id.to_owned();
        let ghost before = self.players_view();
        match self.find(&key) {
            None => None,
            Some(i) => {
                proof {
                    let k = index_of_id(before, player_id@)->0;
                    if k != i {
                        assert(before[k].id == before[i as int].id);
                    }
                }
                self.players[i].x = x;
                self.players[i].y = y;
                self.players[i].z = z;
                proof {
                    let p = before[i as int];
                    assert(self.players_view() =~= before.update(
                        i as int,
                        PlayerView { id: p.id, name: p.name, x, y, z },
                    ));
                }
                Some(GameEvent::PlayerMove { player_id: key, x, y, z })
            },
        }
    }

    /// The world's size and blocks and every connected player, as sent to a
    /// joining client.
    pub fn snapshot(&self) -> (s: WorldSnapshot)
        requires
            self.wf(),
        ensures
            s.size_x == self.world_spec().spec_size_x(),
            s.size_y == self.world_spec().spec_size_y(),
            s.size_z == self.world_spec().spec_size_z(),
            player_views(s.players@) == self.players_view(),
            s.blocks@.len() == self.world_spec()@.dom().len(),
            forall|i: int, j: int|
                0 <= i < j < s.blocks@.len() ==> entry_coord(#[trigger] s.blocks@[i]) != entry_coord(
                    #[trigger] s.blocks@[j],
                ),
            forall|i: int|
                0 <= i < s.blocks@.len() ==> #[trigger] self.world_spec()@.contains_key(
                    entry_coord(s.blocks@[i]),
                ) && self.world_spec()@[entry_coord(s.blocks@[i])] == s.blocks@[i].block_type,
            forall|c: Coord|
                #[trigger] self.world_spec()@.contains_key(c) ==> exists|i: int|
                    0 <= i < s.blocks@.len() && entry_coord(#[trigger] s.blocks@[i]) == c,
    {
        let mut players: Vec<Player> = Vec::new();
        let mut i: usize = 0;
        while i < self.players.len()
            invariant
                i <= self.players@.len(),
                players@.len() == i,
                player_views(players@) == self.players_view().subrange(0, i as int),
            decreases self.players@.len() - i,
        {
            let ghost prev = players@;
            let p = self.players[i].clone();
            players.push(p);
            proof {
                assert(players@ == prev.push(p));
                assert forall|j: int| 0 <= j <= i implies #[trigger] player_views(players@)[j]
                    == self.players_view()[j] by {
                    if j < i {
                        assert(players@[j] == prev[j]);
                        assert(player_views(prev)[j] == self.players_view().subrange(0, i as int)[j]);
                    }
                }
            }
            i = i + 1;
            assert(player_views(players@) =~= self.players_view().subrange(0, i as int));
        }
        assert(self.players_view().subrange(0, i as int) =~= self.players_view());
        let blocks = self.world.blocks();
        let snapshot = WorldSnapshot {
            size_x: self.world.size_x(),
            size_y: self.world.size_y(),
            size_z: self.world.size_z(),
            blocks,
            players,
        };
        assert forall|c: Coord| #[trigger] self.world@.contains_key(c) implies exists|i: int|
            0 <= i < snapshot.blocks@.len() && entry_coord(#[trigger] snapshot.blocks@[i]) == c by {
            let i = choose|i: int| 0 <= i < blocks@.len() && entry_coord(#[trigger] blocks@[i]) == c;
            assert(entry_coord(snapshot.blocks@[i]) == c);
        }
        snapshot
    }
}

/// With distinct ids, the player found under an id is the one at its index.
pub proof fn lemma_index_of_id(ps: Seq<PlayerView>, i: int)
    requires
        ids_distinct(ps),
        0 <= i < ps.len(),
    ensures
        index_of_id(ps, ps[i].id) == Some(i),
{
    let k = index_of_id(ps, ps[i].id)->0;
    if k != i {
        assert(ps[k].id == ps[i].id);
    }
}

/// Joining registers the player: afterwards the id finds exactly the joined
/// player, ids stay distinct, and every other id finds what it found before.
pub proof fn law_join_then_lookup(
    before: Seq<PlayerView>,
    after: Seq<PlayerView>,
    p: PlayerView,
    other: Seq<char>,
)
    requires
        ids_distinct(before),
        after == (match index_of_id(before, p.id) {
            Some(i) => before.update(i, p),
            None => before.push(p),
        }),
    ensures
        ids_distinct(after),
        player_with_id(after, p.id) == Some(p),
        other != p.id ==> player_with_id(after, other) == player_with_id(before, other),
{
    match index_of_id(before, p.id) {
        Some(i) => {
            assert(0 <= i < before.len() && before[i].id == p.id);
        },
        None => {},
    }
    assert(ids_distinct(after)) by {
        assert forall|a: int, b: int| 0 <= a < b < after.len() implies #[trigger] after[a].id
            != #[trigger] after[b].id by {
            if index_of_id(before, p.id) is None && b == before.len() {
                assert(before[a].id != p.id);
            }
        }
    }
    let j = choose|j: int| 0 <= j < after.len() && after[j] == p;
    match index_of_id(before, p.id) {
        Some(i) => {
            assert(after[i] == p);
            lemma_index_of_id(after, i);
        },
        None => {
            assert(after[before.len() as int] == p);
            lemma_index_of_id(after, before.len() as int);
        },
    }
    if other != p.id {
        match index_of_id(before, other) {
            Some(k) => {
                assert(after[k] == before[k]);
                lemma_index_of_id(after, k);
            },
            None => {
                assert forall|k: int| 0 <= k < after.len() implies after[k].id != other by {
                    if k < before.len() {
                        if after[k].id == other {
                            assert(before[k].id == other);
                        }
                    }
                }
            },
        }
    }
}

/// Moving a connected player changes only that player's position: afterwards
/// the id finds the player with the new position and the same name, and every
/// other id finds what it found before.
pub proof fn law_update_then_lookup(
    before: Seq<PlayerView>,
    after: Seq<PlayerView>,
    id: Seq<char>,
    x: u32,
    y: u32,
    z: u32,
    other: Seq<char>,
)
    requires
        ids_distinct(before),
        index_of_id(before, id) is Some,
        after == before.update(
            index_of_id(before, id)->0,
            PlayerView {
                id: before[index_of_id(before, id)->0].id,
                name: before[index_of_id(before, id)->0].name,
                x,
                y,
                z,
            },
        ),
    ensures
        ids_distinct(after),
        player_with_id(after, id) == Some(
            PlayerView { id, name: player_with_id(before, id)->0.name, x, y, z },
        ),
        other != id ==> player_with_id(after, other) == player_with_id(before, other),
{
    let i = index_of_id(before, id)->0;
    assert(before[i].id == id);
    assert(ids_distinct(after)) by {
        assert forall|a: int, b: int| 0 <= a < b < after.len() implies #[trigger] after[a].id
            != #[trigger] after[b].id by {
            assert(after[a].id == before[a].id);
            assert(after[b].id == before[b].id);
        }
    }
    lemma_index_of_id(after, i);
    if other != id {
        match index_of_id(before, other) {
            Some(k) => {
                assert(k != i);
                assert(after[k] == before[k]);
                lemma_index_of_id(after, k);
            },
            None => {
                assert forall|k: int| 0 <= k < after.len() implies after[k].id != other by {
                    assert(after[k].id == before[k].id);
                }
            },
        }
    }
}

} // verus!
