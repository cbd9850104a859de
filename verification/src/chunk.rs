//! A chunk: a fixed-size rectangular block of tile slots.

use vstd::prelude::*;
use crate::tile::{MapError, Tile, VisibleTile};

verus! {

/// The mathematical content of a chunk: where it sits in chunk space, its
/// extent, and its slots in row-major order.
pub struct ChunkView {
    pub origin: (int, int),
    pub width: u32,
    pub height: u32,
    pub slots: Seq<Option<Tile>>,
}

impl ChunkView {
    /// The extent is positive and there is one slot per cell.
    pub open spec fn wf(self) -> bool {
        &&& self.width > 0
        &&& self.height > 0
        &&& self.slots.len() == self.width * self.height
    }

    /// Whether `p` addresses a cell of this chunk.
    pub open spec fn in_bounds(self, p: (u32, u32)) -> bool {
        p.0 < self.width && p.1 < self.height
    }

    /// The row-major slot number of cell `p`.
    pub open spec fn slot_index(self, p: (u32, u32)) -> int {
        p.1 * self.width + p.0
    }

    /// The tile at cell `p`, if `p` is inside the chunk and the slot is
    /// populated.
    pub open spec fn get(self, p: (u32, u32)) -> Option<Tile> {
        if self.in_bounds(p) {
            self.slots[self.slot_index(p)]
        } else {
            None
        }
    }

    /// The chunk with the slot of cell `p` overwritten by `tile`.
    pub open spec fn set(self, p: (u32, u32), tile: Tile) -> ChunkView {
        ChunkView { slots: self.slots.update(self.slot_index(p), Some(tile)), ..self }
    }

    /// A chunk of the given place and extent with every slot empty.
    pub open spec fn empty(origin: (int, int), width: u32, height: u32) -> ChunkView {
        ChunkView {
            origin,
            width,
            height,
            slots: Seq::new((width * height) as nat, |i: int| None::<Tile>),
        }
    }

    /// The position in tile space of cell `p` of this chunk.
    pub open spec fn global_of(self, p: (u32, u32)) -> (int, int) {
        (self.origin.0 * self.width + p.0, self.origin.1 * self.height + p.1)
    }

    /// The cell whose row-major slot number is `i`.
    pub open spec fn cell_of(self, i: int) -> (u32, u32) {
        ((i % (self.width as int)) as u32, (i / (self.width as int)) as u32)
    }

    /// Whether a position in tile space fits the coordinate type.
    pub open spec fn addressable(g: (int, int)) -> bool {
        i32::MIN <= g.0 <= i32::MAX && i32::MIN <= g.1 <= i32::MAX
    }

    /// The tile in the slot of cell `p`, if any, records `p` as its own
    /// position and sits at an addressable place in tile space.
    pub open spec fn slot_consistent(self, p: (u32, u32)) -> bool {
        self.get(p) matches Some(t) ==> t.local_position == p && Self::addressable(
            self.global_of(p),
        )
    }

    /// Every populated slot is consistent.
    pub open spec fn consistent(self) -> bool {
        forall|p: (u32, u32)| #[trigger] self.slot_consistent(p)
    }

    /// The tiles in the first `n` slots, in slot order, as a renderer of a
    /// layer at depth `z` sees them.
    pub open spec fn visible_upto(self, z: i32, n: int) -> Seq<VisibleTile>
        decreases n,
    {
        if n <= 0 {
            Seq::empty()
        } else {
            let rest = self.visible_upto(z, n - 1);
            match self.slots[n - 1] {
                Some(tile) => {
                    let g = self.global_of(self.cell_of(n - 1));
                    rest.push(VisibleTile { layer_z: z, global_pos: (g.0 as i32, g.1 as i32), tile })
                },
                None => rest,
            }
        }
    }

    /// All tiles of the chunk, in slot order, as a renderer of a layer at
    /// depth `z` sees them.
    pub open spec fn visible(self, z: i32) -> Seq<VisibleTile> {
        self.visible_upto(z, self.slots.len() as int)
    }

    /// Whether `v` is what a renderer of a layer at depth `z` sees of the
    /// tile in slot `i`.
    pub open spec fn shows(self, z: i32, i: int, v: VisibleTile) -> bool {
        let g = self.global_of(self.cell_of(i));
        &&& self.slots[i] == Some(v.tile)
        &&& v.layer_z == z
        &&& v.global_pos == (g.0 as i32, g.1 as i32)
    }

    /// Whether at least one slot is populated.
    pub open spec fn populated(self) -> bool {
        exists|i: int| 0 <= i < self.slots.len() && (#[trigger] self.slots[i]).is_some()
    }

    /// The number of populated slots.
    pub open spec fn population(self) -> nat {
        count_populated(self.slots)
    }
}

/// How many entries of `slots` hold a tile.
pub open spec fn count_populated(slots: Seq<Option<Tile>>) -> nat
    decreases slots.len(),
{
    if slots.len() == 0 {
        0
    } else {
        count_populated(slots.drop_last()) + if slots.last().is_some() {
            1nat
        } else {
            0nat
        }
    }
}

/// Overwriting one slot changes the number of populated slots by what the
/// slot gains or loses.
pub proof fn lemma_count_update(slots: Seq<Option<Tile>>, i: int, v: Option<Tile>)
    requires
        0 <= i < slots.len(),
    ensures
        count_populated(slots.update(i, v)) + (if slots[i].is_some() {
            1nat
        } else {
            0nat
        }) == count_populated(slots) + (if v.is_some() {
            1nat
        } else {
            0nat
        }),
    decreases slots.len(),
{
    let after = slots.update(i, v);
    if i == slots.len() - 1 {
        assert(after.drop_last() =~= slots.drop_last());
    } else {
        assert(after.drop_last() =~= slots.drop_last().update(i, v));
        lemma_count_update(slots.drop_last(), i, v);
    }
}

/// A grid without a tile has no populated slot.
pub proof fn lemma_count_empty(slots: Seq<Option<Tile>>)
    requires
        forall|i: int| 0 <= i < slots.len() ==> slots[i].is_none(),
    ensures
        count_populated(slots) == 0,
    decreases slots.len(),
{
    if slots.len() > 0 {
        lemma_count_empty(slots.drop_last());
    }
}

/// A cell inside the extent has a slot number inside the grid.
pub proof fn lemma_slot_index_bounds(width: u32, height: u32, p: (u32, u32))
    requires
        p.0 < width,
        p.1 < height,
    ensures
        0 <= p.1 * width <= p.1 * width + p.0 < width * height,
{
    assert(p.1 * width + p.0 < width * height) by (nonlinear_arith)
        requires
            p.0 < width,
            p.1 < height,
            p.0 >= 0,
            p.1 >= 0,
    ;
    assert(0 <= p.1 * width) by (nonlinear_arith)
        requires
            p.1 >= 0,
            width >= 0,
    ;
}

/// Two cells inside the extent share a slot number only if they are the same
/// cell.
pub proof fn lemma_slot_index_injective(width: u32, p: (u32, u32), q: (u32, u32))
    requires
        p.0 < width,
        q.0 < width,
        p.1 * width + p.0 == q.1 * width + q.0,
    ensures
        p == q,
{
    let w = width as int;
    let (px, py, qx, qy) = (p.0 as int, p.1 as int, q.0 as int, q.1 as int);
    assert(py == qy) by (nonlinear_arith)
        requires
            0 <= px < w,
            0 <= qx < w,
            py * w + px == qy * w + qx,
    ;
    assert(px == qx) by (nonlinear_arith)
        requires
            py == qy,
            py * w + px == qy * w + qx,
    ;
}

/// The cell of a slot number lies inside the extent and has that slot number.
pub proof fn lemma_cell_of(c: ChunkView, i: int)
    requires
        c.wf(),
        0 <= i < c.slots.len(),
    ensures
        c.in_bounds(c.cell_of(i)),
        c.slot_index(c.cell_of(i)) == i,
        c.cell_of(i).0 == i % (c.width as int),
        c.cell_of(i).1 == i / (c.width as int),
{
    let w = c.width as int;
    let h = c.height as int;
    vstd::arithmetic::div_mod::lemma_fundamental_div_mod(i, w);
    vstd::arithmetic::div_mod::lemma_mod_bound(i, w);
    let q = i / w;
    let r = i % w;
    assert(0 <= q < h) by (nonlinear_arith)
        requires
            w > 0,
            0 <= i < w * h,
            i == w * q + r,
            0 <= r < w,
    ;
    assert(q * w == w * q) by (nonlinear_arith);
}

/// Every tile a chunk shows carries the depth it was asked to show at.
pub proof fn lemma_visible_depth(c: ChunkView, z: i32, n: int)
    ensures
        forall|i: int|
            0 <= i < c.visible_upto(z, n).len() ==> (#[trigger] c.visible_upto(z, n)[i]).layer_z
                == z,
    decreases n,
{
    if n > 0 {
        lemma_visible_depth(c, z, n - 1);
        let rest = c.visible_upto(z, n - 1);
        let all = c.visible_upto(z, n);
        assert forall|i: int| 0 <= i < all.len() implies (#[trigger] all[i]).layer_z == z by {
            if i < rest.len() {
                assert(all[i] == rest[i]);
            }
        }
    }
}

/// What a chunk shows of its first `n` slots is exactly what those slots
/// hold: each tile once, and nothing else.
pub proof fn lemma_visible_contents(c: ChunkView, z: i32, n: int, v: VisibleTile)
    requires
        0 <= n <= c.slots.len(),
    ensures
        c.visible_upto(z, n).contains(v) <==> exists|i: int| 0 <= i < n && #[trigger] c.shows(z, i, v),
    decreases n,
{
    if n > 0 {
        lemma_visible_contents(c, z, n - 1, v);
        let rest = c.visible_upto(z, n - 1);
        let all = c.visible_upto(z, n);
        if all.contains(v) {
            let j = choose|j: int| 0 <= j < all.len() && all[j] == v;
            if j < rest.len() {
                assert(all[j] == rest[j]);
                assert(rest.contains(v));
                let i = choose|i: int| 0 <= i < n - 1 && #[trigger] c.shows(z, i, v);
                assert(c.shows(z, i, v));
            } else {
                assert(c.shows(z, n - 1, v));
            }
        }
        if exists|i: int| 0 <= i < n && #[trigger] c.shows(z, i, v) {
            let i = choose|i: int| 0 <= i < n && #[trigger] c.shows(z, i, v);
            if i < n - 1 {
                assert(c.shows(z, i, v));
                assert(rest.contains(v));
                let j = choose|j: int| 0 <= j < rest.len() && rest[j] == v;
                assert(all[j] == v);
            } else {
                assert(all[all.len() - 1] == v);
            }
        }
    }
}

/// A cell inside the extent is the cell of its own slot number.
pub proof fn lemma_cell_of_slot(c: ChunkView, p: (u32, u32))
    requires
        c.wf(),
        c.in_bounds(p),
    ensures
        0 <= c.slot_index(p) < c.slots.len(),
        c.cell_of(c.slot_index(p)) == p,
{
    lemma_slot_index_bounds(c.width, c.height, p);
    vstd::arithmetic::div_mod::lemma_fundamental_div_mod_converse(
        c.slot_index(p),
        c.width as int,
        p.1 as int,
        p.0 as int,
    );
}

/// A fixed-size block of tile slots. Its capacity is set when it is made and
/// never changes.
pub struct Chunk {
    origin: (i32, i32),
    width: u32,
    height: u32,
    tiles: Vec<Option<Tile>>,
}

impl View for Chunk {
    type V = ChunkView;

    closed spec fn view(&self) -> ChunkView {
        ChunkView {
            origin: (self.origin.0 as int, self.origin.1 as int),
            width: self.width,
            height: self.height,
            slots: self.tiles@,
        }
    }
}

impl Chunk {
    /// The chunk's invariant: see [`ChunkView::wf`].
    pub open spec fn wf(&self) -> bool {
        self@.wf()
    }

    /// An empty chunk at `origin` in chunk space, `width` by `height` cells.
    pub fn new(origin: (i32, i32), width: u32, height: u32) -> (c: Chunk)
        requires
            width > 0,
            height > 0,
            width * height <= usize::MAX,
        ensures
            c.wf(),
            c@ == ChunkView::empty((origin.0 as int, origin.1 as int), width, height),
    {
        let n: usize = (width as usize) * (height as usize);
        let mut tiles: Vec<Option<Tile>> = Vec::new();
        let mut i: usize = 0;
        while i < n
            invariant
                i <= n,
                tiles@.len() == i,
                forall|j: int| 0 <= j < i ==> tiles@[j] == None::<Tile>,
            decreases n - i,
        {
            tiles.push(None);
            i = i + 1;
        }
        let c = Chunk { origin, width, height, tiles };
        assert(c@.slots =~= ChunkView::empty(
            (origin.0 as int, origin.1 as int),
            width,
            height,
        ).slots);
        c
    }

    /// The row-major slot number of a cell inside the chunk.
    fn slot(&self, local_pos: (u32, u32)) -> (idx: usize)
        requires
            self.wf(),
            self@.in_bounds(local_pos),
        ensures
            idx == self@.slot_index(local_pos),
            idx < self.tiles@.len(),
    {
        proof {
            lemma_slot_index_bounds(self.width, self.height, local_pos);
            assert(self.tiles@.len() == self.tiles.len());
        }
        (local_pos.1 as usize) * (self.width as usize) + (local_pos.0 as usize)
    }

    /// The chunk's coordinate in chunk space.
    pub fn origin(&self) -> (o: (i32, i32))
        ensures
            o.0 == self@.origin.0,
            o.1 == self@.origin.1,
    {
        self.origin
    }

    /// The number of cells along x.
    pub fn width(&self) -> (w: u32)
        ensures
            w == self@.width,
    {
        self.width
    }

    /// The number of cells along y.
    pub fn height(&self) -> (h: u32)
        ensures
            h == self@.height,
    {
        self.height
    }

    /// The tile at `local_pos`: `None` where the slot is empty or the
    /// position lies outside the chunk.
    pub fn get(&self, local_pos: (u32, u32)) -> (r: Option<Tile>)
        requires
            self.wf(),
        ensures
            r == self@.get(local_pos),
    {
        if local_pos.0 < self.width && local_pos.1 < self.height {
            let idx: usize = self.slot(local_pos);
            self.tiles[idx]
        } else {
            None
        }
    }

    /// Writes `tile` to the slot at `local_pos`, replacing whatever was
    /// there. A position outside the chunk is reported as
    /// [`MapError::OutOfBounds`] and changes nothing.
    pub fn set(&mut self, local_pos: (u32, u32), tile: Tile) -> (r: Result<(), MapError>)
        requires
            old(self).wf(),
        ensures
            final(self).wf(),
            old(self)@.in_bounds(local_pos) ==> r == Ok::<(), MapError>(()) && final(self)@ == old(
                self,
            )@.set(local_pos, tile),
            !old(self)@.in_bounds(local_pos) ==> r == Err::<(), MapError>(MapError::OutOfBounds)
                && final(self)@ == old(self)@,
    {
        if local_pos.0 < self.width && local_pos.1 < self.height {
            let idx: usize = self.slot(local_pos);
            self.tiles.set(idx, Some(tile));
            Ok(())
        } else {
            Err(MapError::OutOfBounds)
        }
    }

    /// Appends the chunk's tiles to `out`, in slot order, as a renderer of a
    /// layer at depth `z` sees them.
    pub(crate) fn collect_visible(&self, z: i32, out: &mut Vec<VisibleTile>)
        requires
            self.wf(),
            self@.consistent(),
            ChunkView::addressable(self@.origin),
        ensures
            final(out)@ == old(out)@ + self@.visible(z),
    {
        let n: usize = self.tiles.len();
        let mut i: usize = 0;
        while i < n
            invariant
                self.wf(),
                self@.consistent(),
                ChunkView::addressable(self@.origin),
                n == self.tiles@.len(),
                i <= n,
                out@ == old(out)@ + self@.visible_upto(z, i as int),
            decreases n - i,
        {
            proof {
                lemma_cell_of(self@, i as int);
            }
            match self.tiles[i] {
                Some(tile) => {
                    let x: u32 = (i % (self.width as usize)) as u32;
                    let y: u32 = (i / (self.width as usize)) as u32;
                    proof {
                        assert(self@.cell_of(i as int) == (x, y));
                        assert(self@.slot_consistent((x, y)));
                        assert(self.origin.0 * self.width >= -0x8000_0000 * 0x1_0000_0000
                            && self.origin.0 * self.width <= 0x8000_0000 * 0x1_0000_0000)
                            by (nonlinear_arith)
                            requires
                                -0x8000_0000 <= self.origin.0 <= 0x8000_0000,
                                0 <= self.width <= 0x1_0000_0000,
                        ;
                        assert(self.origin.1 * self.height >= -0x8000_0000 * 0x1_0000_0000
                            && self.origin.1 * self.height <= 0x8000_0000 * 0x1_0000_0000)
                            by (nonlinear_arith)
                            requires
                                -0x8000_0000 <= self.origin.1 <= 0x8000_0000,
                                0 <= self.height <= 0x1_0000_0000,
                        ;
                    }
                    let gx: i64 = (self.origin.0 as i64) * (self.width as i64) + (x as i64);
                    let gy: i64 = (self.origin.1 as i64) * (self.height as i64) + (y as i64);
                    out.push(VisibleTile { layer_z: z, global_pos: (gx as i32, gy as i32), tile });
                },
                None => {},
            }
            i = i + 1;
        }
    }

    /// The number of populated slots.
    pub fn population(&self) -> (n: usize)
        requires
            self.wf(),
        ensures
            n == self@.population(),
    {
        let mut n: usize = 0;
        let mut i: usize = 0;
        while i < self.tiles.len()
            invariant
                i <= self.tiles@.len(),
                n <= i,
                n == count_populated(self.tiles@.take(i as int)),
            decreases self.tiles@.len() - i,
        {
            assert(self.tiles@.take(i + 1).drop_last() =~= self.tiles@.take(i as int));
            if self.tiles[i].is_some() {
                n = n + 1;
            }
            i = i + 1;
        }
        assert(self.tiles@.take(i as int) =~= self.tiles@);
        n
    }
}

} // verus!
