//! The client's collision grid: which voxels hold a block, kept in step with
//! the server's block updates, and the support and ground queries that the
//! player's physics asks of it.
//!
//! Horizontal positions enter these queries as the column `floor(x)`,
//! `floor(z)` that holds them, and a feet height `feet_y` as the integer
//! `ceil(feet_y)`: a block at height `by` lies below the feet exactly when
//! `by < ceil(feet_y)`.

use crate::block_store::{entry_coord, BlockStore, Coord};
use crate::world::written;
use vstd::prelude::*;

verus! {

/// Highest block layer that ground queries scan.
pub const MAX_GROUND_SCAN_Y: i32 = 64;

/// Surface height assumed when no column under the player has a block but
/// the world is loaded.
pub const FLOOR_TOP_Y: i32 = 1;

/// Number of known blocks from which the world counts as loaded.
pub const MIN_WORLD_BLOCKS: usize = 100;

/// Integer voxel position in the world grid.
#[derive(Clone, Copy, Debug, PartialEq, Eq, Structural, Hash)]
pub struct BlockCoord {
    pub x: i32,
    pub y: i32,
    pub z: i32,
}

impl BlockCoord {
    pub fn new(x: i32, y: i32, z: i32) -> (c: Self)
        ensures
            c == (BlockCoord { x, y, z }),
    {
        BlockCoord { x, y, z }
    }

    /// The coordinate as a triple.
    pub open spec fn coord(self) -> Coord {
        (self.x, self.y, self.z)
    }
}

/// A block placed (non-zero type) or removed (type 0) by the server.
#[derive(Clone, Copy, Debug)]
pub struct BlockUpdate {
    pub coord: BlockCoord,
    pub block_type: i32,
}

/// The top of the highest block in column `(ix, iz)` at a layer in
/// `0..=by` that lies below `limit`, scanning down from `by`.
pub open spec fn column_top(cells: Map<Coord, i32>, ix: i32, iz: i32, limit: int, by: int) -> Option<
    int,
>
    decreases by + 1,
{
    if by < 0 {
        None
    } else if cells.contains_key((ix, by as i32, iz)) && by < limit {
        Some(by + 1)
    } else {
        column_top(cells, ix, iz, limit, by - 1)
    }
}

/// The larger of two optional heights.
pub open spec fn max_top(a: Option<int>, b: Option<int>) -> Option<int> {
    match (a, b) {
        (None, b) => b,
        (Some(x), None) => Some(x),
        (Some(x), Some(y)) => Some(if x >= y { x } else { y }),
    }
}

/// The `i`-th column (`0 <= i < 9`) of the 3×3 neighbourhood of
/// `(base_x, base_z)`, x-major.
pub open spec fn neighbor_column(base_x: i32, base_z: i32, i: int) -> (int, int) {
    (base_x + i / 3 - 1, base_z + i % 3 - 1)
}

/// The highest supporting top among the first `n` neighbourhood columns.
pub open spec fn ground_top(
    cells: Map<Coord, i32>,
    base_x: i32,
    limit: int,
    base_z: i32,
    n: nat,
) -> Option<int>
    decreases n,
{
    if n == 0 {
        None
    } else {
        let col = neighbor_column(base_x, base_z, n - 1);
        max_top(
            ground_top(cells, base_x, limit, base_z, (n - 1) as nat),
            column_top(cells, col.0 as i32, col.1 as i32, limit, MAX_GROUND_SCAN_Y as int),
        )
    }
}

/// Tracks which voxels hold a block, as the client has been told.
pub struct VoxelWorld {
    blocks: BlockStore,
}

impl View for VoxelWorld {
    type V = Map<Coord, i32>;

    /// The known blocks, as a map from coordinate to block type.
    closed spec fn view(&self) -> Map<Coord, i32> {
        self.blocks@
    }
}

impl VoxelWorld {
    pub closed spec fn wf(&self) -> bool {
        self.blocks.wf()
    }

    /// The grid holds finitely many blocks and no air.
    pub proof fn lemma_wf(&self)
        requires
            self.wf(),
        ensures
            self@.dom().finite(),
            forall|c: Coord| #[trigger] self@.contains_key(c) ==> self@[c] != 0,
    {
        self.blocks.lemma_wf_view();
    }

    /// An empty grid.
    pub fn new() -> (w: Self)
        ensures
            w.wf(),
            w@ == Map::<Coord, i32>::empty(),
    {
        VoxelWorld { blocks: BlockStore::new() }
    }

    /// A grid holding a block of type 1 at each given coordinate.
    pub fn from_block_coords(coords: Vec<BlockCoord>) -> (w: Self)
        ensures
            w.wf(),
            forall|c: Coord| #[trigger]
                w@.contains_key(c) <==> exists|i: int|
                    0 <= i < coords@.len() && #[trigger] coords@[i].coord() == c,
            forall|c: Coord| #[trigger] w@.contains_key(c) ==> w@[c] == 1,
    {
        let mut blocks = BlockStore::new();
        let mut i: usize = 0;
        while i < coords.len()
            invariant
                i <= coords@.len(),
                blocks.wf(),
                forall|c: Coord| #[trigger]
                    blocks@.contains_key(c) <==> exists|j: int|
                        0 <= j < i && #[trigger] coords@[j].coord() == c,
                forall|c: Coord| #[trigger] blocks@.contains_key(c) ==> blocks@[c] == 1,
            decreases coords@.len() - i,
        {
            let c = coords[i];
            blocks.put(c.x, c.y, c.z, 1);
            proof {
                assert forall|d: Coord| #[trigger] blocks@.contains_key(d) implies exists|j: int|
                    0 <= j < i + 1 && #[trigger] coords@[j].coord() == d by {
                    if d != c.coord() {
                        let j = choose|j: int| 0 <= j < i && #[trigger] coords@[j].coord() == d;
                        assert(coords@[j].coord() == d);
                    } else {
                        assert(coords@[i as int].coord() == d);
                    }
                }
            }
            i = i + 1;
        }
        VoxelWorld { blocks }
    }

    /// A grid holding the `size`×`size` floor at `y = 0`, each block of type 1.
    pub fn from_floor(size: i32) -> (w: Self)
        ensures
            w.wf(),
            forall|c: Coord| #[trigger]
                w@.contains_key(c) <==> (0 <= c.0 < size && c.1 == 0 && 0 <= c.2 < size),
            forall|c: Coord| #[trigger] w@.contains_key(c) ==> w@[c] == 1,
    {
        let mut blocks = BlockStore::new();
        let mut x: i32 = 0;
        while x < size
            invariant
                0 <= x,
                x <= size || size < 0,
                blocks.wf(),
                forall|c: Coord| #[trigger]
                    blocks@.contains_key(c) <==> (0 <= c.0 < x && c.1 == 0 && 0 <= c.2 < size),
                forall|c: Coord| #[trigger] blocks@.contains_key(c) ==> blocks@[c] == 1,
            decreases size - x,
        {
            let mut z: i32 = 0;
            while z < size
                invariant
                    0 <= x < size,
                    0 <= z <= size,
                    blocks.wf(),
                    forall|c: Coord| #[trigger]
                        blocks@.contains_key(c) <==> (c.1 == 0 && ((0 <= c.0 < x && 0 <= c.2 < size)
                            || (c.0 == x && 0 <= c.2 < z))),
                    forall|c: Coord| #[trigger] blocks@.contains_key(c) ==> blocks@[c] == 1,
                decreases size - z,
            {
                blocks.put(x, 0, z, 1);
                z = z + 1;
            }
            x = x + 1;
        }
        VoxelWorld { blocks }
    }

    /// The number of known blocks.
    pub fn block_count(&self) -> (n: usize)
        requires
            self.wf(),
        ensures
            n == self@.dom().len(),
    {
        self.blocks.len()
    }

    /// Whether a block is known at `coord`.
    pub fn has_block_at(&self, coord: BlockCoord) -> (r: bool)
        requires
            self.wf(),
        ensures
            r == self@.contains_key(coord.coord()),
    {
        self.blocks.contains(coord.x, coord.y, coord.z)
    }

    /// Records a block update: air removes the block, any other type places
    /// it.
    pub fn apply(&mut self, update: BlockUpdate)
        requires
            old(self).wf(),
        ensures
            final(self).wf(),
            final(self)@ == written(old(self)@, update.coord.coord(), update.block_type),
    {
        self.blocks.put(update.coord.x, update.coord.y, update.coord.z, update.block_type);
    }

    /// True when any of the 3×3 columns around `(base_x, base_z)` contains a
    /// block, at any height.
    pub fn has_support_at(&self, base_x: i32, base_z: i32) -> (r: bool)
        requires
            self.wf(),
            i32::MIN < base_x < i32::MAX,
            i32::MIN < base_z < i32::MAX,
        ensures
            r == exists|c: Coord|
                #[trigger] self@.contains_key(c) && base_x - 1 <= c.0 <= base_x + 1 && base_z - 1
                    <= c.2 <= base_z + 1,
    {
        let entries = self.blocks.entries();
        let mut i: usize = 0;
        while i < entries.len()
            invariant
                i <= entries@.len(),
                i32::MIN < base_x < i32::MAX,
                i32::MIN < base_z < i32::MAX,
                forall|j: int|
                    0 <= j < entries@.len() ==> #[trigger] self@.contains_key(
                        entry_coord(entries@[j]),
                    ),
                forall|c: Coord|
                    #[trigger] self@.contains_key(c) ==> exists|j: int|
                        0 <= j < entries@.len() && entry_coord(#[trigger] entries@[j]) == c,
                forall|j: int|
                    0 <= j < i ==> !(base_x - 1 <= (#[trigger] entries@[j]).x <= base_x + 1
                        && base_z - 1 <= entries@[j].z <= base_z + 1),
            decreases entries@.len() - i,
        {
            let e = entries[i];
            if base_x - 1 <= e.x && e.x <= base_x + 1 && base_z - 1 <= e.z && e.z <= base_z + 1 {
                assert(self@.contains_key(entry_coord(entries@[i as int])));
                return true;
            }
            i = i + 1;
        }
        proof {
            assert forall|c: Coord| #[trigger] self@.contains_key(c) implies !(base_x - 1 <= c.0
                <= base_x + 1 && base_z - 1 <= c.2 <= base_z + 1) by {
                let j = choose|j: int| 0 <= j < entries@.len() && entry_coord(#[trigger] entries@[j]) == c;
                assert(!(base_x - 1 <= entries@[j].x <= base_x + 1 && base_z - 1 <= entries@[j].z
                    <= base_z + 1));
            }
        }
        false
    }

    /// True when a block lies in the box of cells `x0..=x1`, `y0..=y1`,
    /// `z0..=z1`.
    pub fn any_block_in_box(&self, x0: i32, x1: i32, y0: i32, y1: i32, z0: i32, z1: i32) -> (r: bool)
        requires
            self.wf(),
        ensures
            r == exists|c: Coord|
                #[trigger] self@.contains_key(c) && x0 <= c.0 <= x1 && y0 <= c.1 <= y1 && z0 <= c.2
                    <= z1,
    {
        let mut bx: i64 = x0 as i64;
        while bx <= x1 as i64
            invariant
                x0 <= bx,
                bx <= x1 + 1 || x1 < x0,
                self.wf(),
                forall|c: Coord|
                    #[trigger] self@.contains_key(c) && x0 <= c.0 < bx && y0 <= c.1 <= y1 && z0 <= c.2
                        <= z1 ==> false,
            decreases x1 - bx + 1,
        {
            let mut by: i64 = y0 as i64;
            while by <= y1 as i64
                invariant
                    x0 <= bx <= x1,
                    y0 <= by,
                    by <= y1 + 1 || y1 < y0,
                    self.wf(),
                    forall|c: Coord|
                        #[trigger] self@.contains_key(c) && y0 <= c.1 <= y1 && z0 <= c.2 <= z1 && (x0
                            <= c.0 < bx || (c.0 == bx && c.1 < by)) ==> false,
                decreases y1 - by + 1,
            {
                let mut bz: i64 = z0 as i64;
                while bz <= z1 as i64
                    invariant
                        x0 <= bx <= x1,
                        y0 <= by <= y1,
                        z0 <= bz,
                        bz <= z1 + 1 || z1 < z0,
                        self.wf(),
                        forall|c: Coord|
                            #[trigger] self@.contains_key(c) && y0 <= c.1 <= y1 && z0 <= c.2 <= z1
                                && (x0 <= c.0 < bx || (c.0 == bx && c.1 < by) || (c.0 == bx && c.1
                                == by && c.2 < bz)) ==> false,
                    decreases z1 - bz + 1,
                {
                    if self.has_block_at(BlockCoord::new(bx as i32, by as i32, bz as i32)) {
                        assert(self@.contains_key((bx as i32, by as i32, bz as i32)));
                        return true;
                    }
                    bz = bz + 1;
                }
                by = by + 1;
            }
            bx = bx + 1;
        }
        false
    }

    /// Top of the highest block in column `(ix, iz)`, among layers
    /// `0..=MAX_GROUND_SCAN_Y`, that lies below the feet (`by < feet_limit`).
    fn column_ground(&self, ix: i32, iz: i32, feet_limit: i32) -> (r: Option<i32>)
        requires
            self.wf(),
        ensures
            match column_top(self@, ix, iz, feet_limit as int, MAX_GROUND_SCAN_Y as int) {
                Some(t) => r == Some(t as i32),
                None => r is None,
            },
    {
        let mut by: i32 = MAX_GROUND_SCAN_Y;
        while by >= 0
            invariant
                -1 <= by <= MAX_GROUND_SCAN_Y,
                self.wf(),
                column_top(self@, ix, iz, feet_limit as int, MAX_GROUND_SCAN_Y as int)
                    == column_top(self@, ix, iz, feet_limit as int, by as int),
            decreases by + 1,
        {
            if self.has_block_at(BlockCoord::new(ix, by, iz)) && by < feet_limit {
                return Some(by + 1);
            }
            by = by - 1;
        }
        None
    }

    /// Walkable surface height (the top of the highest block below the feet)
    /// over the 3×3 columns around `(base_x, base_z)`.
    pub fn ground_y_at(&self, base_x: i32, feet_limit: i32, base_z: i32) -> (r: Option<i32>)
        requires
            self.wf(),
            i32::MIN < base_x < i32::MAX,
            i32::MIN < base_z < i32::MAX,
        ensures
            match ground_top(self@, base_x, feet_limit as int, base_z, 9) {
                Some(t) => r == Some(t as i32),
                None => r is None,
            },
            forall|dx: int, dz: int, b: int|
                -1 <= dx <= 1 && -1 <= dz <= 1 && 0 <= b <= MAX_GROUND_SCAN_Y && b < feet_limit
                    && #[trigger] self@.contains_key(((base_x + dx) as i32, b as i32, (base_z + dz) as i32))
                    ==> (r matches Some(t) && t >= b + 1),
            r matches Some(t) ==> 1 <= t <= MAX_GROUND_SCAN_Y + 1 && t - 1 < feet_limit && exists|
                dx: int,
                dz: int,
            |
                -1 <= dx <= 1 && -1 <= dz <= 1 && #[trigger] self@.contains_key(
                    ((base_x + dx) as i32, (t - 1) as i32, (base_z + dz) as i32),
                ),
    {
        proof {
            assert forall|dx: int, dz: int, b: int|
                -1 <= dx <= 1 && -1 <= dz <= 1 && 0 <= b <= MAX_GROUND_SCAN_Y && b < feet_limit
                    && #[trigger] self@.contains_key(((base_x + dx) as i32, b as i32, (base_z + dz) as i32))
                    implies (ground_top(self@, base_x, feet_limit as int, base_z, 9) matches Some(t)
                && t >= b + 1) by {
                law_ground_covers_neighbourhood(self@, base_x, feet_limit as int, base_z, dx, dz, b);
            }
            law_ground_covers_neighbourhood(self@, base_x, feet_limit as int, base_z, 0, 0, 0);
        }
        let mut best: Option<i32> = None;
        let mut i: i32 = 0;
        while i < 9
            invariant
                0 <= i <= 9,
                i32::MIN < base_x < i32::MAX,
                i32::MIN < base_z < i32::MAX,
                self.wf(),
                match ground_top(self@, base_x, feet_limit as int, base_z, i as nat) {
                    Some(t) => best == Some(t as i32) && 1 <= t <= MAX_GROUND_SCAN_Y + 1,
                    None => best is None,
                },
            decreases 9 - i,
        {
            let ix = base_x + (i / 3 - 1);
            let iz = base_z + (i % 3 - 1);
            proof {
                lemma_column_top_range(self@, ix, iz, feet_limit as int, MAX_GROUND_SCAN_Y as int);
            }
            if let Some(top) = self.column_ground(ix, iz, feet_limit) {
                best = match best {
                    None => Some(top),
                    Some(current) => Some(if current >= top { current } else { top }),
                };
            }
            i = i + 1;
        }
        best
    }
}

impl VoxelWorld {
    /// The ground under the feet as `ground_y_at` finds it or, where it finds
    /// none in a loaded world, the floor top.
    pub fn ground_y_with_fallback(&self, base_x: i32, feet_limit: i32, base_z: i32) -> (r: Option<
        i32,
    >)
        requires
            self.wf(),
            i32::MIN < base_x < i32::MAX,
            i32::MIN < base_z < i32::MAX,
        ensures
            match ground_top(self@, base_x, feet_limit as int, base_z, 9) {
                Some(t) => r == Some(t as i32),
                None => r == (if self@.dom().len() >= MIN_WORLD_BLOCKS {
                    Some(FLOOR_TOP_Y)
                } else {
                    None::<i32>
                }),
            },
            forall|dx: int, dz: int, b: int|
                -1 <= dx <= 1 && -1 <= dz <= 1 && 0 <= b <= MAX_GROUND_SCAN_Y && b < feet_limit
                    && #[trigger] self@.contains_key(((base_x + dx) as i32, b as i32, (base_z + dz) as i32))
                    ==> (r matches Some(t) && t >= b + 1),
    {
        match self.ground_y_at(base_x, feet_limit, base_z) {
            Some(top) => Some(top),
            None => {
                if self.block_count() >= MIN_WORLD_BLOCKS {
                    Some(FLOOR_TOP_Y)
                } else {
                    None
                }
            },
        }
    }
}

/// A column's top is one above a layer in `0..=by`.
pub proof fn lemma_column_top_range(
    cells: Map<Coord, i32>,
    ix: i32,
    iz: i32,
    limit: int,
    by: int,
)
    ensures
        column_top(cells, ix, iz, limit, by) matches Some(t) ==> 1 <= t <= by + 1 && t - 1 < limit
            && cells.contains_key((ix, (t - 1) as i32, iz)),
    decreases by + 1,
{
    if by >= 0 {
        lemma_column_top_range(cells, ix, iz, limit, by - 1);
    }
}

/// A column's top reaches at least one above every block below the limit
/// among the scanned layers.
pub proof fn lemma_column_top_complete(
    cells: Map<Coord, i32>,
    ix: i32,
    iz: i32,
    limit: int,
    by: int,
    b: int,
)
    requires
        0 <= b <= by,
        b < limit,
        cells.contains_key((ix, b as i32, iz)),
    ensures
        column_top(cells, ix, iz, limit, by) matches Some(t) && t >= b + 1,
    decreases by + 1,
{
    if by > b {
        if !(cells.contains_key((ix, by as i32, iz)) && by < limit) {
            lemma_column_top_complete(cells, ix, iz, limit, by - 1, b);
        }
    }
}

/// The ground under a position is the top of the highest block below the feet
/// in the 3×3 neighbourhood: a block that `ground_y_at` reports exists there
/// below the feet, and no block there below the feet rises above it.
pub proof fn law_ground_is_highest_support(
    cells: Map<Coord, i32>,
    base_x: i32,
    limit: int,
    base_z: i32,
    i: int,
    b: int,
)
    requires
        i32::MIN < base_x < i32::MAX,
        i32::MIN < base_z < i32::MAX,
    ensures
        ground_top(cells, base_x, limit, base_z, 9) matches Some(t) ==> exists|j: int|
            0 <= j < 9 && 1 <= t <= MAX_GROUND_SCAN_Y + 1 && t - 1 < limit && cells.contains_key(
                (
                    #[trigger] neighbor_column(base_x, base_z, j).0 as i32,
                    (t - 1) as i32,
                    neighbor_column(base_x, base_z, j).1 as i32,
                ),
            ),
        0 <= i < 9 && 0 <= b <= MAX_GROUND_SCAN_Y && b < limit && cells.contains_key(
            (
                neighbor_column(base_x, base_z, i).0 as i32,
                b as i32,
                neighbor_column(base_x, base_z, i).1 as i32,
            ),
        ) ==> (ground_top(cells, base_x, limit, base_z, 9) matches Some(t) && t >= b + 1),
{
    lemma_ground_top_sound(cells, base_x, limit, base_z, 9);
    if 0 <= i < 9 && 0 <= b <= MAX_GROUND_SCAN_Y && b < limit && cells.contains_key(
        (
            neighbor_column(base_x, base_z, i).0 as i32,
            b as i32,
            neighbor_column(base_x, base_z, i).1 as i32,
        ),
    ) {
        lemma_ground_top_complete(cells, base_x, limit, base_z, 9, i, b);
    }
}

proof fn lemma_ground_top_sound(
    cells: Map<Coord, i32>,
    base_x: i32,
    limit: int,
    base_z: i32,
    n: nat,
)
    requires
        n <= 9,
    ensures
        ground_top(cells, base_x, limit, base_z, n) matches Some(t) ==> exists|j: int|
            0 <= j < n && 1 <= t <= MAX_GROUND_SCAN_Y + 1 && t - 1 < limit && cells.contains_key(
                (
                    #[trigger] neighbor_column(base_x, base_z, j).0 as i32,
                    (t - 1) as i32,
                    neighbor_column(base_x, base_z, j).1 as i32,
                ),
            ),
    decreases n,
{
    if n > 0 {
        lemma_ground_top_sound(cells, base_x, limit, base_z, (n - 1) as nat);
        let col = neighbor_column(base_x, base_z, n - 1);
        lemma_column_top_range(cells, col.0 as i32, col.1 as i32, limit, MAX_GROUND_SCAN_Y as int);
        let prev = ground_top(cells, base_x, limit, base_z, (n - 1) as nat);
        let here = column_top(cells, col.0 as i32, col.1 as i32, limit, MAX_GROUND_SCAN_Y as int);
        if let Some(t) = ground_top(cells, base_x, limit, base_z, n) {
            if here == Some(t) {
                assert(cells.contains_key(
                    (
                        neighbor_column(base_x, base_z, n - 1).0 as i32,
                        (t - 1) as i32,
                        neighbor_column(base_x, base_z, n - 1).1 as i32,
                    ),
                ));
            } else {
                assert(prev == Some(t));
            }
        }
    }
}

proof fn lemma_ground_top_complete(
    cells: Map<Coord, i32>,
    base_x: i32,
    limit: int,
    base_z: i32,
    n: nat,
    i: int,
    b: int,
)
    requires
        n <= 9,
        0 <= i < n,
        0 <= b <= MAX_GROUND_SCAN_Y,
        b < limit,
        cells.contains_key(
            (
                neighbor_column(base_x, base_z, i).0 as i32,
                b as i32,
                neighbor_column(base_x, base_z, i).1 as i32,
            ),
        ),
    ensures
        ground_top(cells, base_x, limit, base_z, n) matches Some(t) && t >= b + 1,
    decreases n,
{
    let col = neighbor_column(base_x, base_z, n - 1);
    if i == n - 1 {
        lemma_column_top_complete(
            cells,
            col.0 as i32,
            col.1 as i32,
            limit,
            MAX_GROUND_SCAN_Y as int,
            b,
        );
    } else {
        lemma_ground_top_complete(cells, base_x, limit, base_z, (n - 1) as nat, i, b);
    }
}

/// `neighbor_column` enumerates the 3×3 columns around `(base_x, base_z)`:
/// offset `(dx, dz)` is column number `3 * (dx + 1) + (dz + 1)`.
proof fn lemma_neighbor_index(base_x: i32, base_z: i32, dx: int, dz: int)
    requires
        -1 <= dx <= 1,
        -1 <= dz <= 1,
    ensures
        neighbor_column(base_x, base_z, 3 * (dx + 1) + (dz + 1)) == (base_x + dx, base_z + dz),
{
    let i = 3 * (dx + 1) + (dz + 1);
    if dx == -1 {
        if dz == -1 { assert(i == 0); } else if dz == 0 { assert(i == 1); } else { assert(i == 2); }
    } else if dx == 0 {
        if dz == -1 { assert(i == 3); } else if dz == 0 { assert(i == 4); } else { assert(i == 5); }
    } else {
        if dz == -1 { assert(i == 6); } else if dz == 0 { assert(i == 7); } else { assert(i == 8); }
    }
}

/// The ground query covers exactly the 3×3 columns around `(base_x, base_z)`:
/// a block below the limit among the scanned layers of any column
/// `(base_x + dx, base_z + dz)` with `dx, dz` in `-1..=1` makes the ground
/// reach at least its top, and any ground found is the top of a block below
/// the limit in one of those columns.
pub proof fn law_ground_covers_neighbourhood(
    cells: Map<Coord, i32>,
    base_x: i32,
    limit: int,
    base_z: i32,
    dx: int,
    dz: int,
    b: int,
)
    requires
        i32::MIN < base_x < i32::MAX,
        i32::MIN < base_z < i32::MAX,
    ensures
        -1 <= dx <= 1 && -1 <= dz <= 1 && 0 <= b <= MAX_GROUND_SCAN_Y && b < limit
            && cells.contains_key(((base_x + dx) as i32, b as i32, (base_z + dz) as i32)) ==> (
        ground_top(cells, base_x, limit, base_z, 9) matches Some(t) && t >= b + 1),
        ground_top(cells, base_x, limit, base_z, 9) matches Some(t) ==> 1 <= t
            <= MAX_GROUND_SCAN_Y + 1 && t - 1 < limit && exists|ex: int, ez: int|
            -1 <= ex <= 1 && -1 <= ez <= 1 && #[trigger] cells.contains_key(
                ((base_x + ex) as i32, (t - 1) as i32, (base_z + ez) as i32),
            ),
{
    if -1 <= dx <= 1 && -1 <= dz <= 1 {
        lemma_neighbor_index(base_x, base_z, dx, dz);
        law_ground_is_highest_support(cells, base_x, limit, base_z, 3 * (dx + 1) + (dz + 1), b);
    }
    law_ground_is_highest_support(cells, base_x, limit, base_z, 0, -1);
    if let Some(t) = ground_top(cells, base_x, limit, base_z, 9) {
        let j = choose|j: int|
            0 <= j < 9 && 1 <= t <= MAX_GROUND_SCAN_Y + 1 && t - 1 < limit && cells.contains_key(
                (
                    #[trigger] neighbor_column(base_x, base_z, j).0 as i32,
                    (t - 1) as i32,
                    neighbor_column(base_x, base_z, j).1 as i32,
                ),
            );
        let ex = j / 3 - 1;
        let ez = j % 3 - 1;
        assert(neighbor_column(base_x, base_z, j) == (base_x + ex, base_z + ez));
        assert(cells.contains_key(((base_x + ex) as i32, (t - 1) as i32, (base_z + ez) as i32)));
    }
}

/// Recording an update makes the grid report a block at its coordinate
/// exactly when the update is not air, and leaves every other voxel as it was.
pub proof fn law_apply_then_query(
    before: Map<Coord, i32>,
    after: Map<Coord, i32>,
    update: BlockUpdate,
    other: Coord,
)
    requires
        after == written(before, update.coord.coord(), update.block_type),
    ensures
        after.contains_key(update.coord.coord()) == (update.block_type != 0),
        other != update.coord.coord() ==> after.contains_key(other) == before.contains_key(other)
            && (after.contains_key(other) ==> after[other] == before[other]),
{
}

} // verus!
