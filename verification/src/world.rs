//! The server's voxel world: fixed bounds and the non-air blocks inside them.

use crate::block_store::{entry_coord, BlockEntry, BlockStore, Coord};
use vstd::prelude::*;

verus! {

/// World bounds of the default playable world.
pub const WORLD_SIZE_X: i32 = 64;

pub const WORLD_SIZE_Y: i32 = 64;

pub const WORLD_SIZE_Z: i32 = 64;

/// Side length of the square floor seeded at `y = 0`.
pub const FLOOR_SIZE: i32 = 48;

/// Number of floor colours, which are the block types `1..=FLOOR_COLOR_COUNT`.
pub const FLOOR_COLOR_COUNT: i32 = 6;

/// Whether `c` lies inside a world of the given size.
pub open spec fn in_bounds_spec(size_x: int, size_y: int, size_z: int, c: Coord) -> bool {
    0 <= c.0 < size_x && 0 <= c.1 < size_y && 0 <= c.2 < size_z
}

/// The floor colour of column `(x, z)`: the block types cycle through
/// `1..=6` along the diagonals.
pub open spec fn floor_color_spec(x: int, z: int) -> int {
    1 + (x + z) % 6
}

/// The floor that `create_initial` seeds: a `FLOOR_SIZE` square at `y = 0`.
pub open spec fn initial_floor() -> Map<Coord, i32> {
    Map::new(
        |c: Coord| 0 <= c.0 < FLOOR_SIZE && c.1 == 0 && 0 <= c.2 < FLOOR_SIZE,
        |c: Coord| floor_color_spec(c.0 as int, c.2 as int) as i32,
    )
}

/// The `i`-th cell (`0 <= i < 9`) of the 3×3 pad at `y = 0` around column
/// `(cx, cz)`, in the order `dx = -1, 0, 1` then `dz = -1, 0, 1`.
pub open spec fn pad_cell(cx: i32, cz: i32, i: int) -> Coord {
    ((cx + i / 3 - 1) as i32, 0, (cz + i % 3 - 1) as i32)
}

/// Whether `c` is one of the nine pad cells around `(cx, cz)`.
pub open spec fn in_pad(cx: i32, cz: i32, c: Coord) -> bool {
    c.1 == 0 && cx - 1 <= c.0 <= cx + 1 && cz - 1 <= c.2 <= cz + 1
}

/// The blocks that restoring the spawn pad places, among its first `n` cells,
/// in placement order: every in-bounds pad cell that holds air gets its floor
/// colour.
pub open spec fn pad_placements(
    cells: Map<Coord, i32>,
    size_x: i32,
    size_y: i32,
    size_z: i32,
    cx: i32,
    cz: i32,
    n: nat,
) -> Seq<BlockEntry>
    decreases n,
{
    if n == 0 {
        Seq::empty()
    } else {
        let prev = pad_placements(cells, size_x, size_y, size_z, cx, cz, (n - 1) as nat);
        let c = pad_cell(cx, cz, n - 1);
        if in_bounds_spec(size_x as int, size_y as int, size_z as int, c) && !cells.contains_key(
            c,
        ) {
            prev.push(
                BlockEntry {
                    x: c.0,
                    y: c.1,
                    z: c.2,
                    block_type: floor_color_spec(c.0 as int, c.2 as int) as i32,
                },
            )
        } else {
            prev
        }
    }
}

/// The blocks after writing `block_type` at `c`: air removes the block.
pub open spec fn written(cells: Map<Coord, i32>, c: Coord, block_type: i32) -> Map<Coord, i32> {
    if block_type == 0 {
        cells.remove(c)
    } else {
        cells.insert(c, block_type)
    }
}

/// A 3D voxel world storing only non-air blocks.
pub struct World {
    size_x: i32,
    size_y: i32,
    size_z: i32,
    blocks: BlockStore,
}

impl View for World {
    type V = Map<Coord, i32>;

    /// The non-air blocks, as a map from coordinate to block type.
    closed spec fn view(&self) -> Map<Coord, i32> {
        self.blocks@
    }
}

impl World {
    /// The stored blocks are non-air and lie inside the bounds.
    pub closed spec fn wf(&self) -> bool {
        &&& self.blocks.wf()
        &&& forall|c: Coord| #[trigger]
            self.blocks@.contains_key(c) ==> in_bounds_spec(
                self.size_x as int,
                self.size_y as int,
                self.size_z as int,
                c,
            )
    }

    pub closed spec fn spec_size_x(&self) -> i32 {
        self.size_x
    }

    pub closed spec fn spec_size_y(&self) -> i32 {
        self.size_y
    }

    pub closed spec fn spec_size_z(&self) -> i32 {
        self.size_z
    }

    /// Whether `c` lies inside this world's bounds.
    pub open spec fn contains_coord(&self, c: Coord) -> bool {
        in_bounds_spec(
            self.spec_size_x() as int,
            self.spec_size_y() as int,
            self.spec_size_z() as int,
            c,
        )
    }

    /// What `get_block` reads at `c`: `None` out of bounds, 0 for air.
    pub open spec fn block_at(&self, c: Coord) -> Option<i32> {
        if !self.contains_coord(c) {
            None
        } else if self@.contains_key(c) {
            Some(self@[c])
        } else {
            Some(0)
        }
    }

    /// Whether `other` has the same bounds as `self`.
    pub open spec fn same_bounds(&self, other: &World) -> bool {
        &&& self.spec_size_x() == other.spec_size_x()
        &&& self.spec_size_y() == other.spec_size_y()
        &&& self.spec_size_z() == other.spec_size_z()
    }

    /// The world holds finitely many blocks, all non-air and in bounds.
    pub proof fn lemma_wf(&self)
        requires
            self.wf(),
        ensures
            self@.dom().finite(),
            forall|c: Coord| #[trigger]
                self@.contains_key(c) ==> self@[c] != 0 && self.contains_coord(c),
    {
        self.blocks.lemma_wf_view();
    }

    /// Creates an empty world with the given bounds. Air blocks are not stored.
    pub fn new(size_x: i32, size_y: i32, size_z: i32) -> (w: Self)
        ensures
            w.wf(),
            w@ == Map::<Coord, i32>::empty(),
            w.spec_size_x() == size_x,
            w.spec_size_y() == size_y,
            w.spec_size_z() == size_z,
    {
        World { size_x, size_y, size_z, blocks: BlockStore::new() }
    }

    /// Creates the default playable world with a multicolored floor.
    pub fn create_initial() -> (w: Self)
        ensures
            w.wf(),
            w@ == initial_floor(),
            w@.dom().len() == (FLOOR_SIZE * FLOOR_SIZE) as nat,
            w.spec_size_x() == WORLD_SIZE_X,
            w.spec_size_y() == WORLD_SIZE_Y,
            w.spec_size_z() == WORLD_SIZE_Z,
    {
        let mut world = Self::new(WORLD_SIZE_X, WORLD_SIZE_Y, WORLD_SIZE_Z);
        world.seed_floor();
        world
    }

    /// Fills the `FLOOR_SIZE` square at `y = 0` with floor colours.
    fn seed_floor(&mut self)
        requires
            old(self).wf(),
            old(self)@ == Map::<Coord, i32>::empty(),
            old(self).spec_size_x() >= FLOOR_SIZE,
            old(self).spec_size_y() >= 1,
            old(self).spec_size_z() >= FLOOR_SIZE,
        ensures
            final(self).wf(),
            final(self)@ == initial_floor(),
            final(self)@.dom().len() == (FLOOR_SIZE * FLOOR_SIZE) as nat,
            final(self).spec_size_x() == old(self).spec_size_x(),
            final(self).spec_size_y() == old(self).spec_size_y(),
            final(self).spec_size_z() == old(self).spec_size_z(),
    {
        let ghost sx = self.size_x;
        let ghost sy = self.size_y;
        let ghost sz = self.size_z;
        let mut z: i32 = 0;
        while z < FLOOR_SIZE
            invariant
                0 <= z <= FLOOR_SIZE,
                self.wf(),
                self.spec_size_x() == sx,
                self.spec_size_y() == sy,
                self.spec_size_z() == sz,
                sx >= FLOOR_SIZE,
                sy >= 1,
                sz >= FLOOR_SIZE,
                self@.dom().len() == (z * FLOOR_SIZE) as nat,
                forall|c: Coord| #[trigger]
                    self@.contains_key(c) <==> (0 <= c.0 < FLOOR_SIZE && c.1 == 0 && 0 <= c.2 < z),
                forall|c: Coord| #[trigger]
                    self@.contains_key(c) ==> self@[c] == floor_color_spec(c.0 as int, c.2 as int),
            decreases FLOOR_SIZE - z,
        {
            let mut x: i32 = 0;
            while x < FLOOR_SIZE
                invariant
                    0 <= z < FLOOR_SIZE,
                    0 <= x <= FLOOR_SIZE,
                    self.wf(),
                    self.spec_size_x() == sx,
                    self.spec_size_y() == sy,
                    self.spec_size_z() == sz,
                    sx >= FLOOR_SIZE,
                    sy >= 1,
                    sz >= FLOOR_SIZE,
                    self@.dom().len() == (z * FLOOR_SIZE + x) as nat,
                    forall|c: Coord| #[trigger]
                        self@.contains_key(c) <==> (0 <= c.0 < FLOOR_SIZE && c.1 == 0 && (0 <= c.2
                            < z || (c.2 == z && 0 <= c.0 < x))),
                    forall|c: Coord| #[trigger]
                        self@.contains_key(c) ==> self@[c] == floor_color_spec(
                            c.0 as int,
                            c.2 as int,
                        ),
                decreases FLOOR_SIZE - x,
            {
                let block_type = floor_color(x, z);
                proof {
                    self.lemma_wf();
                    assert(!self@.contains_key((x, 0, z)));
                }
                let placed = self.set_block(x, 0, z, block_type);
                assert(placed);
                x = x + 1;
            }
            z = z + 1;
        }
        assert(self@ =~= initial_floor());
    }

    /// Restores a walkable 3×3 floor pad at `y = 0` around column `(cx, cz)`
    /// where blocks are missing, and returns the blocks it placed.
    ///
    /// The column is the one holding the spawn point (the caller takes the
    /// floor of its horizontal coordinates). The pad's neighbouring columns,
    /// and the colour index `x + z` of each pad cell that is not solid, must
    /// fit in an `i32`.
    pub fn ensure_spawn_pad(&mut self, cx: i32, cz: i32) -> (placed: Vec<BlockEntry>)
        requires
            old(self).wf(),
            i32::MIN < cx < i32::MAX,
            i32::MIN < cz < i32::MAX,
            forall|i: int|
                0 <= i < 9 && !old(self)@.contains_key(#[trigger] pad_cell(cx, cz, i))
                    ==> i32::MIN <= pad_cell(cx, cz, i).0 + pad_cell(cx, cz, i).2 <= i32::MAX,
        ensures
            final(self).wf(),
            spawn_pad_restored(*old(self), *final(self), cx, cz),
            forall|i: int|
                0 <= i < placed@.len() ==> {
                    let e = #[trigger] placed@[i];
                    &&& e.y == 0
                    &&& cx - 1 <= e.x <= cx + 1
                    &&& cz - 1 <= e.z <= cz + 1
                    &&& 0 <= e.x < old(self).spec_size_x()
                    &&& 0 < old(self).spec_size_y()
                    &&& 0 <= e.z < old(self).spec_size_z()
                    &&& !old(self)@.contains_key(entry_coord(e))
                    &&& e.block_type == 1 + (e.x + e.z) % 6
                    &&& final(self)@.contains_key(entry_coord(e))
                    &&& final(self)@[entry_coord(e)] == e.block_type
                },
            forall|c: Coord|
                c.1 == 0 && cx - 1 <= c.0 <= cx + 1 && cz - 1 <= c.2 <= cz + 1 && 0 <= c.0
                    < old(self).spec_size_x() && 0 < old(self).spec_size_y() && 0 <= c.2
                    < old(self).spec_size_z() && !#[trigger] old(self)@.contains_key(c) ==> exists|
                    i: int,
                | 0 <= i < placed@.len() && entry_coord(#[trigger] placed@[i]) == c,
            placed@ == pad_placements(
                old(self)@,
                old(self).spec_size_x(),
                old(self).spec_size_y(),
                old(self).spec_size_z(),
                cx,
                cz,
                9,
            ),
    {
        let ghost old_cells = self@;
        let ghost sx = self.size_x;
        let ghost sy = self.size_y;
        let ghost sz = self.size_z;
        let mut placed: Vec<BlockEntry> = Vec::new();
        let mut i: i32 = 0;
        while i < 9
            invariant
                0 <= i <= 9,
                i32::MIN < cx < i32::MAX,
                i32::MIN < cz < i32::MAX,
                self.wf(),
                self.spec_size_x() == sx,
                self.spec_size_y() == sy,
                self.spec_size_z() == sz,
                placed@ == pad_placements(old_cells, sx, sy, sz, cx, cz, i as nat),
                forall|c: Coord| #[trigger]
                    self@.contains_key(c) <==> (old_cells.contains_key(c) || (exists|j: int|
                        0 <= j < i && #[trigger] pad_cell(cx, cz, j) == c) && in_bounds_spec(
                        sx as int,
                        sy as int,
                        sz as int,
                        c,
                    )),
                forall|c: Coord| #[trigger]
                    self@.contains_key(c) ==> self@[c] == (if old_cells.contains_key(c) {
                        old_cells[c] as int
                    } else {
                        floor_color_spec(c.0 as int, c.2 as int)
                    }),
            decreases 9 - i,
        {
            let dx = i / 3 - 1;
            let dz = i % 3 - 1;
            let bx = cx + dx;
            let bz = cz + dz;
            let ghost c: Coord = (bx, 0, bz);
            assert(c == pad_cell(cx, cz, i as int));
            proof {
                assert forall|j: int| 0 <= j < i implies pad_cell(cx, cz, j) != c by {
                    assert(j / 3 != i / 3 || j % 3 != i % 3);
                }
            }
            proof {
                self.lemma_wf();
            }
            let current = self.get_block(bx, 0, bz);
            let solid = match current {
                Some(t) => t != 0,
                None => false,
            };
            if !solid && Self::in_bounds(self.size_x, self.size_y, self.size_z, bx, 0, bz) {
                proof {
                    assert(!self@.contains_key(c));
                }
                let block_type = floor_color(bx, bz);
                let ok = self.set_block(bx, 0, bz, block_type);
                assert(ok);
                placed.push(BlockEntry { x: bx, y: 0, z: bz, block_type });
                assert(placed@ == pad_placements(old_cells, sx, sy, sz, cx, cz, (i + 1) as nat));
            } else {
                proof {
                    self.lemma_wf();
                    if in_bounds_spec(sx as int, sy as int, sz as int, c) {
                        assert(self@.contains_key(c));
                        assert(old_cells.contains_key(c));
                    }
                }
                assert(placed@ == pad_placements(old_cells, sx, sy, sz, cx, cz, (i + 1) as nat));
            }
            i = i + 1;
        }
        proof {
            assert forall|c: Coord| (exists|j: int| 0 <= j < 9 && #[trigger] pad_cell(cx, cz, j) == c)
                <==> in_pad(cx, cz, c) by {
                if in_pad(cx, cz, c) {
                    let j = (c.0 - cx + 1) * 3 + (c.2 - cz + 1);
                    assert(pad_cell(cx, cz, j) == c);
                }
            }
            lemma_pad_placements_facts(old_cells, sx, sy, sz, cx, cz, 9);
            assert forall|c: Coord|
                c.1 == 0 && cx - 1 <= c.0 <= cx + 1 && cz - 1 <= c.2 <= cz + 1 && 0 <= c.0 < sx && 0
                    < sy && 0 <= c.2 < sz && !#[trigger] old_cells.contains_key(c) implies exists|
                    i: int,
                | 0 <= i < placed@.len() && entry_coord(#[trigger] placed@[i]) == c by {
                let j = (c.0 - cx + 1) * 3 + (c.2 - cz + 1);
                assert(pad_cell(cx, cz, j) == c);
            }
        }
        placed
    }

    /// The world's extent along x.
    #[verifier::when_used_as_spec(spec_size_x)]
    pub fn size_x(&self) -> (r: i32)
        ensures
            r == self.spec_size_x(),
    {
        self.size_x
    }

    /// The world's extent along y.
    #[verifier::when_used_as_spec(spec_size_y)]
    pub fn size_y(&self) -> (r: i32)
        ensures
            r == self.spec_size_y(),
    {
        self.size_y
    }

    /// The world's extent along z.
    #[verifier::when_used_as_spec(spec_size_z)]
    pub fn size_z(&self) -> (r: i32)
        ensures
            r == self.spec_size_z(),
    {
        self.size_z
    }

    /// Returns all non-air blocks currently in the world, each exactly once,
    /// in no particular order.
    pub fn blocks(&self) -> (v: Vec<BlockEntry>)
        requires
            self.wf(),
        ensures
            v@.len() == self@.dom().len(),
            forall|i: int, j: int|
                0 <= i < j < v@.len() ==> entry_coord(#[trigger] v@[i]) != entry_coord(
                    #[trigger] v@[j],
                ),
            forall|i: int|
                0 <= i < v@.len() ==> #[trigger] self@.contains_key(entry_coord(v@[i]))
                    && self@[entry_coord(v@[i])] == v@[i].block_type,
            forall|c: Coord|
                #[trigger] self@.contains_key(c) ==> exists|i: int|
                    0 <= i < v@.len() && entry_coord(#[trigger] v@[i]) == c,
    {
        self.blocks.entries()
    }

    /// Returns the block type at the given coordinate (0 for air), or `None`
    /// if it is out of bounds.
    pub fn get_block(&self, x: i32, y: i32, z: i32) -> (r: Option<i32>)
        requires
            self.wf(),
        ensures
            r == self.block_at((x, y, z)),
            r is None <==> !(0 <= x < self.spec_size_x() && 0 <= y < self.spec_size_y() && 0 <= z
                < self.spec_size_z()),
    {
        if !Self::in_bounds(self.size_x, self.size_y, self.size_z, x, y, z) {
            return None;
        }
        match self.blocks.get(x, y, z) {
            Some(t) => Some(t),
            None => Some(0),
        }
    }

    /// Places a block at the given coordinate; air removes the entry.
    /// Returns false, changing nothing, if the coordinate is out of bounds.
    pub fn set_block(&mut self, x: i32, y: i32, z: i32, block_type: i32) -> (ok: bool)
        requires
            old(self).wf(),
        ensures
            final(self).wf(),
            ok == old(self).contains_coord((x, y, z)),
            ok == (0 <= x < old(self).spec_size_x() && 0 <= y < old(self).spec_size_y() && 0 <= z
                < old(self).spec_size_z()),
            final(self).same_bounds(&*old(self)),
            final(self)@ == (if ok {
                written(old(self)@, (x, y, z), block_type)
            } else {
                old(self)@
            }),
    {
        if !Self::in_bounds(self.size_x, self.size_y, self.size_z, x, y, z) {
            return false;
        }
        self.blocks.put(x, y, z, block_type);
        true
    }

    /// Removes the block at the given coordinate. Returns false, changing
    /// nothing, if the coordinate is out of bounds.
    pub fn break_block(&mut self, x: i32, y: i32, z: i32) -> (ok: bool)
        requires
            old(self).wf(),
        ensures
            final(self).wf(),
            ok == old(self).contains_coord((x, y, z)),
            ok == (0 <= x < old(self).spec_size_x() && 0 <= y < old(self).spec_size_y() && 0 <= z
                < old(self).spec_size_z()),
            final(self).same_bounds(&*old(self)),
            final(self)@ == (if ok {
                written(old(self)@, (x, y, z), 0)
            } else {
                old(self)@
            }),
    {
        self.set_block(x, y, z, 0)
    }

    fn in_bounds(size_x: i32, size_y: i32, size_z: i32, x: i32, y: i32, z: i32) -> (r: bool)
        ensures
            r == in_bounds_spec(size_x as int, size_y as int, size_z as int, (x, y, z)),
    {
        x >= 0 && y >= 0 && z >= 0 && x < size_x && y < size_y && z < size_z
    }
}

/// `after` is `before` with its spawn pad around `(cx, cz)` restored: the
/// same bounds, every block of `before` kept, and every in-bounds pad cell
/// that held air now holding its floor colour.
pub open spec fn spawn_pad_restored(before: World, after: World, cx: i32, cz: i32) -> bool {
    &&& after.same_bounds(&before)
    &&& forall|c: Coord| #[trigger]
        after@.contains_key(c) <==> (before@.contains_key(c) || (in_pad(cx, cz, c)
            && before.contains_coord(c)))
    &&& forall|c: Coord| #[trigger]
        after@.contains_key(c) ==> after@[c] == (if before@.contains_key(c) {
            before@[c] as int
        } else {
            floor_color_spec(c.0 as int, c.2 as int)
        })
}

/// A read gives back what a write wrote: once `block_type` is written at an
/// in-bounds `c` (air being type 0), `get_block` at `c` returns it, and every
/// other coordinate reads as it did before.
pub proof fn law_get_after_set(
    before: World,
    after: World,
    c: Coord,
    block_type: i32,
    other: Coord,
)
    requires
        before.wf(),
        after.same_bounds(&before),
        before.contains_coord(c),
        after@ == written(before@, c, block_type),
    ensures
        after.block_at(c) == Some(block_type),
        other != c ==> after.block_at(other) == before.block_at(other),
{
}

/// Writing out of bounds is refused and changes nothing that can be read.
pub proof fn law_out_of_bounds_reads_none(w: World, c: Coord)
    requires
        !w.contains_coord(c),
    ensures
        w.block_at(c) is None,
{
}

/// A world's bounds are the box `0..size_x` × `0..size_y` × `0..size_z`:
/// a read outside it gives `None`, a read inside it gives a block type, and
/// every stored block lies inside it.
pub proof fn law_bounds_are_the_box(w: World, c: Coord)
    ensures
        w.block_at(c) is None <==> !(0 <= c.0 < w.spec_size_x() && 0 <= c.1 < w.spec_size_y() && 0
            <= c.2 < w.spec_size_z()),
        w.wf() && w@.contains_key(c) ==> 0 <= c.0 < w.spec_size_x() && 0 <= c.1 < w.spec_size_y()
            && 0 <= c.2 < w.spec_size_z(),
{
    if w.wf() {
        w.lemma_wf();
    }
}

/// The last write to a coordinate wins.
pub proof fn law_last_write_wins(cells: Map<Coord, i32>, c: Coord, first: i32, second: i32)
    ensures
        written(written(cells, c, first), c, second) == written(cells, c, second),
{
    assert(written(written(cells, c, first), c, second) =~= written(cells, c, second));
}

/// Breaking a block undoes placing it in an air cell: the world is as it
/// was before the placement.
pub proof fn law_break_undoes_place(cells: Map<Coord, i32>, c: Coord, block_type: i32)
    requires
        !cells.contains_key(c),
    ensures
        written(written(cells, c, block_type), c, 0) == cells,
{
    assert(written(written(cells, c, block_type), c, 0) =~= cells);
}

/// Writing a block changes the number of stored blocks by at most one: a
/// solid block in an air cell adds one, air over a solid block removes one,
/// and anything else (an overwrite, or air over air) keeps the count.
pub proof fn law_block_count_after_write(w: World, c: Coord, block_type: i32)
    requires
        w.wf(),
    ensures
        written(w@, c, block_type).dom().len() as int == if !w@.contains_key(c) && block_type != 0 {
            w@.dom().len() as int + 1
        } else if w@.contains_key(c) && block_type == 0 {
            w@.dom().len() as int - 1
        } else {
            w@.dom().len() as int
        },
{
    w.lemma_wf();
    if block_type != 0 && w@.contains_key(c) {
        assert(w@.insert(c, block_type).dom() =~= w@.dom());
    }
    if block_type == 0 && !w@.contains_key(c) {
        assert(w@.remove(c).dom() =~= w@.dom());
    }
}

/// Restoring the spawn pad leaves every in-bounds pad cell solid, so a second
/// restore around the same column is always allowed after the first, places
/// nothing and leaves the world as it was.
pub proof fn law_spawn_pad_idempotent(before: World, after: World, again: World, cx: i32, cz: i32)
    requires
        before.wf(),
        after.wf(),
        i32::MIN < cx < i32::MAX,
        i32::MIN < cz < i32::MAX,
        forall|i: int|
            0 <= i < 9 && !before@.contains_key(#[trigger] pad_cell(cx, cz, i)) ==> i32::MIN
                <= pad_cell(cx, cz, i).0 + pad_cell(cx, cz, i).2 <= i32::MAX,
        spawn_pad_restored(before, after, cx, cz),
        spawn_pad_restored(after, again, cx, cz),
    ensures
        forall|i: int|
            0 <= i < 9 && !after@.contains_key(#[trigger] pad_cell(cx, cz, i)) ==> i32::MIN
                <= pad_cell(cx, cz, i).0 + pad_cell(cx, cz, i).2 <= i32::MAX,
        forall|c: Coord|
            in_pad(cx, cz, c) && before.contains_coord(c) ==> ((#[trigger] after.block_at(c))
                matches Some(t) && t != 0 && (before@.contains_key(c) ==> t == before@[c])),
        pad_placements(
            after@,
            after.spec_size_x(),
            after.spec_size_y(),
            after.spec_size_z(),
            cx,
            cz,
            9,
        ) == Seq::<BlockEntry>::empty(),
        again@ == after@,
        again.same_bounds(&after),
{
    assert forall|n: nat| n <= 9 implies #[trigger] pad_placements(
        after@,
        after.spec_size_x(),
        after.spec_size_y(),
        after.spec_size_z(),
        cx,
        cz,
        n,
    ) == Seq::<BlockEntry>::empty() by {
        lemma_no_placements_when_solid(after, before, cx, cz, n);
    }
    after.lemma_wf();
    assert(again@ =~= after@);
}

/// What every entry of `pad_placements` is: an in-bounds pad cell that held
/// air, with its floor colour; and every such cell among the first `n` is
/// there.
proof fn lemma_pad_placements_facts(
    cells: Map<Coord, i32>,
    sx: i32,
    sy: i32,
    sz: i32,
    cx: i32,
    cz: i32,
    n: nat,
)
    requires
        n <= 9,
        i32::MIN < cx < i32::MAX,
        i32::MIN < cz < i32::MAX,
    ensures
        forall|k: int|
            0 <= k < pad_placements(cells, sx, sy, sz, cx, cz, n).len() ==> {
                let e = #[trigger] pad_placements(cells, sx, sy, sz, cx, cz, n)[k];
                &&& in_pad(cx, cz, entry_coord(e))
                &&& in_bounds_spec(sx as int, sy as int, sz as int, entry_coord(e))
                &&& !cells.contains_key(entry_coord(e))
                &&& e.block_type == floor_color_spec(e.x as int, e.z as int)
            },
        forall|j: int|
            0 <= j < n && in_bounds_spec(sx as int, sy as int, sz as int, #[trigger] pad_cell(cx, cz, j))
                && !cells.contains_key(pad_cell(cx, cz, j)) ==> exists|k: int|
                0 <= k < pad_placements(cells, sx, sy, sz, cx, cz, n).len() && entry_coord(
                    #[trigger] pad_placements(cells, sx, sy, sz, cx, cz, n)[k],
                ) == pad_cell(cx, cz, j),
    decreases n,
{
    if n > 0 {
        lemma_pad_placements_facts(cells, sx, sy, sz, cx, cz, (n - 1) as nat);
        let prev = pad_placements(cells, sx, sy, sz, cx, cz, (n - 1) as nat);
        let cur = pad_placements(cells, sx, sy, sz, cx, cz, n);
        let c = pad_cell(cx, cz, n - 1);
        assert(in_pad(cx, cz, c));
        assert forall|k: int| 0 <= k < prev.len() implies cur[k] == prev[k] by {}
        assert forall|j: int|
            0 <= j < n && in_bounds_spec(sx as int, sy as int, sz as int, #[trigger] pad_cell(cx, cz, j))
                && !cells.contains_key(pad_cell(cx, cz, j)) implies exists|k: int|
            0 <= k < cur.len() && entry_coord(#[trigger] cur[k]) == pad_cell(cx, cz, j) by {
            if j < n - 1 {
                let k = choose|k: int|
                    0 <= k < prev.len() && entry_coord(#[trigger] prev[k]) == pad_cell(cx, cz, j);
                assert(cur[k] == prev[k]);
            } else {
                assert(entry_coord(cur[prev.len() as int]) == c);
            }
        }
    }
}

proof fn lemma_no_placements_when_solid(after: World, before: World, cx: i32, cz: i32, n: nat)
    requires
        n <= 9,
        i32::MIN < cx < i32::MAX,
        i32::MIN < cz < i32::MAX,
        after.same_bounds(&before),
        forall|c: Coord| #[trigger]
            after@.contains_key(c) <==> (before@.contains_key(c) || (in_pad(cx, cz, c)
                && before.contains_coord(c))),
    ensures
        pad_placements(
            after@,
            after.spec_size_x(),
            after.spec_size_y(),
            after.spec_size_z(),
            cx,
            cz,
            n,
        ) == Seq::<BlockEntry>::empty(),
    decreases n,
{
    if n > 0 {
        lemma_no_placements_when_solid(after, before, cx, cz, (n - 1) as nat);
        let c = pad_cell(cx, cz, n - 1);
        assert(in_pad(cx, cz, c));
    }
}

/// The floor colour of column `(x, z)`.
fn floor_color(x: i32, z: i32) -> (t: i32)
    requires
        x >= 0,
        z >= 0,
    ensures
        t == floor_color_spec(x as int, z as int),
        1 <= t <= FLOOR_COLOR_COUNT,
{
    let sum = x as i64 + z as i64;
    (1 + sum % 6) as i32
}

} // verus!
