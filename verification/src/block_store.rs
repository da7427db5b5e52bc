//! A finite map from voxel coordinates to non-air block types, stored in a
//! `HashMap` keyed by a packed integer form of the coordinate.

use std::collections::HashMap;
use vstd::prelude::*;

verus! {

broadcast use vstd::std_specs::hash::group_hash_axioms;

/// A placed block: its coordinate and its (non-air) type.
#[derive(Clone, Copy, Debug, PartialEq, Eq, Structural)]
pub struct BlockEntry {
    pub x: i32,
    pub y: i32,
    pub z: i32,
    pub block_type: i32,
}

/// A voxel coordinate as a mathematical triple.
pub type Coord = (i32, i32, i32);

/// The coordinate of a block entry.
pub open spec fn entry_coord(e: BlockEntry) -> Coord {
    (e.x, e.y, e.z)
}

/// Packs a coordinate into one integer: each component is shifted into
/// `[0, 2^32)` and given its own 32-bit digit.
pub open spec fn coord_key(c: Coord) -> u128 {
    ((c.0 + 0x8000_0000) * 0x1_0000_0000_0000_0000 + (c.1 + 0x8000_0000) * 0x1_0000_0000 + (c.2
        + 0x8000_0000)) as u128
}

/// Distinct coordinates have distinct keys.
pub proof fn lemma_coord_key_injective(a: Coord, b: Coord)
    ensures
        coord_key(a) == coord_key(b) <==> a == b,
{
    let ka = (a.0 + 0x8000_0000) * 0x1_0000_0000_0000_0000 + (a.1 + 0x8000_0000) * 0x1_0000_0000
        + (a.2 + 0x8000_0000);
    let kb = (b.0 + 0x8000_0000) * 0x1_0000_0000_0000_0000 + (b.1 + 0x8000_0000) * 0x1_0000_0000
        + (b.2 + 0x8000_0000);
    assert(0 <= ka < 0x1_0000_0000_0000_0000_0000_0000);
    assert(0 <= kb < 0x1_0000_0000_0000_0000_0000_0000);
    if coord_key(a) == coord_key(b) {
        assert(ka == kb);
        assert(a.0 == b.0) by (nonlinear_arith)
            requires
                ka == kb,
                ka == (a.0 + 0x8000_0000) * 0x1_0000_0000_0000_0000 + (a.1 + 0x8000_0000)
                    * 0x1_0000_0000 + (a.2 + 0x8000_0000),
                kb == (b.0 + 0x8000_0000) * 0x1_0000_0000_0000_0000 + (b.1 + 0x8000_0000)
                    * 0x1_0000_0000 + (b.2 + 0x8000_0000),
                -0x8000_0000 <= a.1 < 0x8000_0000,
                -0x8000_0000 <= a.2 < 0x8000_0000,
                -0x8000_0000 <= b.1 < 0x8000_0000,
                -0x8000_0000 <= b.2 < 0x8000_0000,
        ;
        assert(a.1 == b.1) by (nonlinear_arith)
            requires
                (a.1 + 0x8000_0000) * 0x1_0000_0000 + (a.2 + 0x8000_0000) == (b.1 + 0x8000_0000)
                    * 0x1_0000_0000 + (b.2 + 0x8000_0000),
                -0x8000_0000 <= a.2 < 0x8000_0000,
                -0x8000_0000 <= b.2 < 0x8000_0000,
        ;
    }
}

/// Computes `coord_key`.
pub fn key_of(x: i32, y: i32, z: i32) -> (k: u128)
    ensures
        k == coord_key((x, y, z)),
{
    let ux = (x as i64 + 0x8000_0000) as u128;
    let uy = (y as i64 + 0x8000_0000) as u128;
    let uz = (z as i64 + 0x8000_0000) as u128;
    assert(ux * 0x1_0000_0000_0000_0000 + uy * 0x1_0000_0000 + uz
        < 0x1_0000_0000_0000_0000_0000_0000) by (nonlinear_arith)
        requires
            ux < 0x1_0000_0000,
            uy < 0x1_0000_0000,
            uz < 0x1_0000_0000,
    ;
    ux * 0x1_0000_0000_0000_0000 + uy * 0x1_0000_0000 + uz
}

/// Blocks stored by coordinate. Air (type 0) is never stored.
pub struct BlockStore {
    entries: HashMap<u128, BlockEntry>,
}

impl View for BlockStore {
    type V = Map<Coord, i32>;

    /// The stored blocks, as a map from coordinate to block type.
    closed spec fn view(&self) -> Map<Coord, i32> {
        Map::new(
            |c: Coord| self.entries@.contains_key(coord_key(c)),
            |c: Coord| self.entries@[coord_key(c)].block_type,
        )
    }
}

impl BlockStore {
    /// Every entry sits under its own coordinate's key and is not air.
    pub closed spec fn wf(&self) -> bool {
        forall|k: u128|
            #![trigger self.entries@[k]]
            self.entries@.contains_key(k) ==> k == coord_key(entry_coord(self.entries@[k]))
                && self.entries@[k].block_type != 0
    }

    proof fn lemma_view_entry(&self, c: Coord)
        requires
            self.wf(),
            self@.contains_key(c),
        ensures
            self.entries@[coord_key(c)] == (BlockEntry {
                x: c.0,
                y: c.1,
                z: c.2,
                block_type: self@[c],
            }),
    {
        let e = self.entries@[coord_key(c)];
        lemma_coord_key_injective(entry_coord(e), c);
    }

    /// The stored map is finite and never maps a coordinate to air.
    pub proof fn lemma_wf_view(&self)
        requires
            self.wf(),
        ensures
            self@.dom().finite(),
            forall|c: Coord| #[trigger] self@.contains_key(c) ==> self@[c] != 0,
    {
        self.lemma_view_finite();
    }

    /// The stored map is finite and has as many coordinates as stored entries.
    proof fn lemma_view_finite(&self)
        requires
            self.wf(),
        ensures
            self@.dom().finite(),
            self@.dom().len() == self.entries@.len(),
            forall|c: Coord| #[trigger] self@.contains_key(c) ==> self@[c] != 0,
    {
        let f = |k: u128| entry_coord(self.entries@[k]);
        let d = self.entries@.dom();
        assert forall|k1: u128, k2: u128|
            d.contains(k1) && d.contains(k2) && #[trigger] f(k1) == #[trigger] f(k2) implies k1
            == k2 by {
            assert(self.entries@.contains_key(k1));
            assert(self.entries@.contains_key(k2));
        }
        assert forall|c: Coord| #[trigger] d.map(f).contains(c) <==> self@.dom().contains(c) by {
            if d.map(f).contains(c) {
                let k = choose|k: u128| d.contains(k) && f(k) == c;
                assert(self.entries@.contains_key(k));
            }
            if self@.dom().contains(c) {
                self.lemma_view_entry(c);
                assert(d.contains(coord_key(c)));
                assert(f(coord_key(c)) == c);
            }
        }
        assert(d.map(f) =~= self@.dom());
        vstd::set_lib::lemma_map_size(d, self@.dom(), f);
        assert forall|c: Coord| #[trigger] self@.contains_key(c) implies self@[c] != 0 by {
            self.lemma_view_entry(c);
        }
    }

    /// An empty store.
    pub fn new() -> (s: Self)
        ensures
            s.wf(),
            s@ == Map::<Coord, i32>::empty(),
    {
        let s = BlockStore { entries: HashMap::new() };
        assert(s@ =~= Map::<Coord, i32>::empty());
        s
    }

    /// The block type stored at `(x, y, z)`, if any.
    pub fn get(&self, x: i32, y: i32, z: i32) -> (r: Option<i32>)
        requires
            self.wf(),
        ensures
            r == (if self@.contains_key((x, y, z)) {
                Some(self@[(x, y, z)])
            } else {
                None::<i32>
            }),
    {
        let k = key_of(x, y, z);
        match self.entries.get(&k) {
            Some(e) => Some(e.block_type),
            None => None,
        }
    }

    /// Whether a block is stored at `(x, y, z)`.
    pub fn contains(&self, x: i32, y: i32, z: i32) -> (r: bool)
        requires
            self.wf(),
        ensures
            r == self@.contains_key((x, y, z)),
    {
        let k = key_of(x, y, z);
        self.entries.contains_key(&k)
    }

    /// Stores `block_type` at `(x, y, z)`; air removes the block.
    pub fn put(&mut self, x: i32, y: i32, z: i32, block_type: i32)
        requires
            old(self).wf(),
        ensures
            final(self).wf(),
            final(self)@ == (if block_type == 0 {
                old(self)@.remove((x, y, z))
            } else {
                old(self)@.insert((x, y, z), block_type)
            }),
    {
        let k = key_of(x, y, z);
        let ghost c: Coord = (x, y, z);
        if block_type == 0 {
            self.entries.remove(&k);
        } else {
            self.entries.insert(k, BlockEntry { x, y, z, block_type });
        }
        proof {
            assert forall|d: Coord| #[trigger] coord_key(d) == coord_key(c) <==> d == c by {
                lemma_coord_key_injective(d, c);
            }
        }
        if block_type == 0 {
            assert(self@ =~= old(self)@.remove(c));
        } else {
            assert(self@ =~= old(self)@.insert(c, block_type));
        }
    }

    /// The number of stored blocks.
    pub fn len(&self) -> (n: usize)
        requires
            self.wf(),
        ensures
            n == self@.dom().len(),
    {
        proof {
            self.lemma_view_finite();
        }
        self.entries.len()
    }

    /// Every stored block exactly once, in no particular order.
    pub fn entries(&self) -> (v: Vec<BlockEntry>)
        requires
            self.wf(),
        ensures
            v@.len() == self@.dom().len(),
            forall|i: int, j: int|
                0 <= i < j < v@.len() ==> entry_coord(#[trigger] v@[i]) != entry_coord(
                    #[trigger] v@[j],
                ),
            forall|i: int|
                0 <= i < v@.len() ==> #[trigger] self@.contains_key(entry_coord(v@[i]))
                    && self@[entry_coord(v@[i])] == v@[i].block_type,
            forall|c: Coord|
                #[trigger] self@.contains_key(c) ==> exists|i: int|
                    0 <= i < v@.len() && entry_coord(#[trigger] v@[i]) == c,
    {
        proof {
            self.lemma_view_finite();
        }
        let mut v: Vec<BlockEntry> = Vec::new();
        for item in it: self.entries.iter()
            invariant
                self.wf(),
                v@.len() == it.index(),
                forall|i: int|
                    0 <= i < v@.len() ==> #[trigger] v@[i] == *it.seq()[i].1
                        && self.entries@.contains_key(*it.seq()[i].0) && self.entries@[*it.seq()[i].0]
                        == v@[i],
        {
            let (_k, e) = item;
            v.push(*e);
        }
        proof {
            let seq = vstd::std_specs::iter::IteratorSpec::remaining(&vstd::std_specs::hash::spec_hash_map_iter(&self.entries));
            assert(seq.len() == self.entries@.dom().len());
            assert forall|i: int, j: int|
                0 <= i < j < v@.len() implies entry_coord(#[trigger] v@[i]) != entry_coord(
                #[trigger] v@[j],
            ) by {
                let ki = *seq[i].0;
                let kj = *seq[j].0;
                assert(seq.no_duplicates());
                assert(seq[i] != seq[j]);
                assert(self.entries@.contains_key(ki));
                assert(self.entries@.contains_key(kj));
            }
            assert forall|i: int| 0 <= i < v@.len() implies #[trigger] self@.contains_key(
                entry_coord(v@[i]),
            ) && self@[entry_coord(v@[i])] == v@[i].block_type by {
                let k = *seq[i].0;
                assert(self.entries@.contains_key(k));
                assert(k == coord_key(entry_coord(self.entries@[k])));
            }
            assert forall|c: Coord| #[trigger] self@.contains_key(c) implies exists|i: int|
                0 <= i < v@.len() && entry_coord(#[trigger] v@[i]) == c by {
                let k = coord_key(c);
                self.lemma_view_entry(c);
                assert(self.entries@.contains_key(k));
                assert(seq.contains((&k, &self.entries@[k])));
                let i = choose|i: int| 0 <= i < seq.len() && seq[i] == (&k, &self.entries@[k]);
                assert(entry_coord(v@[i]) == c);
            }
        }
        v
    }
}

} // verus!
