//! A layer: a grid of chunks that share one texture atlas and one z-order.
//! Chunks come into being when the first tile lands inside them.

use vstd::prelude::*;
use crate::chunk::{Chunk, ChunkView};
use crate::coords::{
    chunk_of, lemma_chunk_coord_bounds, lemma_chunk_coord_range, lemma_split_unique, local_of,
    split_axis,
};
use crate::tile::{AtlasHandle, Color, MapError, Tile, TileSpec, VisibleTile};

verus! {

/// What a layer is made with.
#[derive(Clone, Copy, Debug, PartialEq, Eq)]
pub struct LayerSettings {
    /// The extent of each chunk, in tiles.
    pub chunk_size: (u32, u32),
    /// The extent of each tile, in whole pixels.
    pub tile_size: (u32, u32),
    /// The texture atlas the layer's sprites are cut from.
    pub atlas: AtlasHandle,
    /// The depth at which the layer is drawn; lower is further back.
    pub z: i32,
}

impl LayerSettings {
    /// Chunks have a positive extent and their slots can be counted.
    pub open spec fn valid(self) -> bool {
        &&& self.chunk_size.0 > 0
        &&& self.chunk_size.1 > 0
        &&& self.chunk_size.0 * self.chunk_size.1 <= usize::MAX
    }

    /// Settings for chunks of `chunk_size` tiles, each tile `tile_size`
    /// pixels, drawn from `atlas` at depth zero.
    pub fn new(chunk_size: (u32, u32), tile_size: (u32, u32), atlas: AtlasHandle) -> (s:
        LayerSettings)
        ensures
            s == (LayerSettings { chunk_size, tile_size, atlas, z: 0 }),
    {
        LayerSettings { chunk_size, tile_size, atlas, z: 0 }
    }

    /// The same settings at depth `z`.
    pub fn with_z(self, z: i32) -> (s: LayerSettings)
        ensures
            s == (LayerSettings { z, ..self }),
    {
        LayerSettings { z, ..self }
    }

    /// Tests [`LayerSettings::valid`].
    pub fn is_valid(&self) -> (b: bool)
        ensures
            b == self.valid(),
    {
        if self.chunk_size.0 == 0 || self.chunk_size.1 == 0 {
            return false;
        }
        assert(self.chunk_size.0 * self.chunk_size.1 <= 0xffff_ffff_ffff_ffff) by (nonlinear_arith)
            requires
                self.chunk_size.0 <= 0xffff_ffff,
                self.chunk_size.1 <= 0xffff_ffff,
        ;
        let area: u64 = (self.chunk_size.0 as u64) * (self.chunk_size.1 as u64);
        area <= usize::MAX as u64
    }
}

/// The mathematical content of a layer: its configuration and its chunks in
/// the order in which they were created.
pub struct LayerView {
    pub id: u16,
    pub settings: LayerSettings,
    pub chunks: Seq<ChunkView>,
}

impl LayerView {
    /// A layer that holds no tile yet.
    pub open spec fn new(id: u16, settings: LayerSettings) -> LayerView {
        LayerView { id, settings, chunks: Seq::empty() }
    }

    /// Chunk `i` has the layer's extent, an addressable origin, at least one
    /// tile, and only consistent slots.
    pub open spec fn chunk_ok(self, i: int) -> bool {
        let c = self.chunks[i];
        &&& c.wf()
        &&& c.width == self.settings.chunk_size.0
        &&& c.height == self.settings.chunk_size.1
        &&& ChunkView::addressable(c.origin)
        &&& c.populated()
        &&& c.consistent()
    }

    /// The layer's invariant: valid settings, sound chunks, and no two
    /// chunks at the same chunk coordinate.
    pub open spec fn wf(self) -> bool {
        &&& self.settings.valid()
        &&& forall|i: int| 0 <= i < self.chunks.len() ==> #[trigger] self.chunk_ok(i)
        &&& forall|i: int, j: int|
            0 <= i < j < self.chunks.len() ==> (#[trigger] self.chunks[i]).origin != (
            #[trigger] self.chunks[j]).origin
    }

    /// Whether a chunk exists at chunk coordinate `c`.
    pub open spec fn has_chunk(self, c: (int, int)) -> bool {
        exists|i: int| 0 <= i < self.chunks.len() && (#[trigger] self.chunks[i]).origin == c
    }

    /// The place in creation order of the chunk at chunk coordinate `c`.
    pub open spec fn index_of(self, c: (int, int)) -> int {
        choose|i: int| 0 <= i < self.chunks.len() && (#[trigger] self.chunks[i]).origin == c
    }

    /// The tile at position `p` in tile space, if one was inserted there.
    pub open spec fn tile_at(self, p: (int, int)) -> Option<Tile> {
        let c = chunk_of(p, self.settings.chunk_size);
        if self.has_chunk(c) {
            self.chunks[self.index_of(c)].get(local_of(p, self.settings.chunk_size))
        } else {
            None
        }
    }

    /// The tiles of the first `n` chunks as a renderer sees them: chunk after
    /// chunk in creation order, each in slot order.
    pub open spec fn visible_upto(self, n: int) -> Seq<VisibleTile>
        decreases n,
    {
        if n <= 0 {
            Seq::empty()
        } else {
            self.visible_upto(n - 1) + self.chunks[n - 1].visible(self.settings.z)
        }
    }

    /// All tiles of the layer as a renderer sees them.
    pub open spec fn visible(self) -> Seq<VisibleTile> {
        self.visible_upto(self.chunks.len() as int)
    }

    /// The position of cell `k` of a rectangle that starts at `from` and is
    /// `width` cells wide, the cells counted row by row.
    pub open spec fn rect_cell(from: (int, int), width: int, k: int) -> (int, int) {
        (from.0 + k % width, from.1 + k / width)
    }

    /// The layer after `tile` is inserted at the first `n` cells of the
    /// rectangle, row by row.
    pub open spec fn fill_upto(self, from: (int, int), width: int, n: int, tile: TileSpec) -> LayerView
        decreases n,
    {
        if n <= 0 {
            self
        } else {
            self.fill_upto(from, width, n - 1, tile).insert(
                Self::rect_cell(from, width, n - 1),
                tile,
            )
        }
    }

    /// The layer after `tile` is inserted at every cell of the rectangle
    /// that starts at `from` and is `size` cells wide and high.
    pub open spec fn fill(self, from: (int, int), size: (u32, u32), tile: TileSpec) -> LayerView {
        self.fill_upto(from, size.0 as int, size.0 * size.1, tile)
    }

    /// Whether the rectangle lies inside the addressable tile space.
    pub open spec fn rect_addressable(from: (int, int), size: (u32, u32)) -> bool {
        &&& ChunkView::addressable(from)
        &&& from.0 + size.0 - 1 <= i32::MAX
        &&& from.1 + size.1 - 1 <= i32::MAX
    }

    /// Whether `q` lies inside the rectangle.
    pub open spec fn in_rect(from: (int, int), size: (u32, u32), q: (int, int)) -> bool {
        from.0 <= q.0 < from.0 + size.0 && from.1 <= q.1 < from.1 + size.1
    }

    /// The layer after `tile` is inserted at position `p` in tile space: the
    /// chunk that covers `p` gets the tile in the slot of `p`, and is created
    /// after all others first if it does not exist.
    pub open spec fn insert(self, p: (int, int), tile: TileSpec) -> LayerView {
        let c = chunk_of(p, self.settings.chunk_size);
        let l = local_of(p, self.settings.chunk_size);
        if self.has_chunk(c) {
            let i = self.index_of(c);
            LayerView { chunks: self.chunks.update(i, self.chunks[i].set(l, tile.at(l))), ..self }
        } else {
            LayerView {
                chunks: self.chunks.push(
                    ChunkView::empty(
                        c,
                        self.settings.chunk_size.0,
                        self.settings.chunk_size.1,
                    ).set(l, tile.at(l)),
                ),
                ..self
            }
        }
    }
}

/// Inserting a tile at an addressable position keeps a layer sound.
pub proof fn lemma_insert_wf(s: LayerView, p: (int, int), tile: TileSpec)
    requires
        s.wf(),
        ChunkView::addressable(p),
    ensures
        s.insert(p, tile).wf(),
{
    let size = s.settings.chunk_size;
    let c = chunk_of(p, size);
    let l = local_of(p, size);
    let t = tile.at(l);
    let after = s.insert(p, tile);
    lemma_chunk_coord_bounds(p.0, size.0 as int);
    lemma_chunk_coord_bounds(p.1, size.1 as int);
    lemma_chunk_coord_range(p.0, size.0 as int);
    lemma_chunk_coord_range(p.1, size.1 as int);
    let k = if s.has_chunk(c) {
        s.index_of(c)
    } else {
        s.chunks.len() as int
    };
    let base = if s.has_chunk(c) {
        s.chunks[k]
    } else {
        ChunkView::empty(c, size.0, size.1)
    };
    if s.has_chunk(c) {
        assert(s.chunk_ok(k));
    }
    let changed = base.set(l, t);
    assert(after.chunks[k] == changed);
    crate::chunk::lemma_slot_index_bounds(size.0, size.1, l);
    assert(changed.slots[changed.slot_index(l)].is_some());
    assert forall|q: (u32, u32)| #[trigger] changed.slot_consistent(q) by {
        if changed.in_bounds(q) {
            crate::chunk::lemma_slot_index_bounds(size.0, size.1, q);
            if q == l {
            } else {
                if changed.slot_index(q) == changed.slot_index(l) {
                    crate::chunk::lemma_slot_index_injective(size.0, q, l);
                }
                assert(changed.get(q) == base.get(q));
                if s.has_chunk(c) {
                    assert(base.slot_consistent(q));
                }
            }
        }
    }
    assert forall|i: int| 0 <= i < after.chunks.len() implies #[trigger] after.chunk_ok(i) by {
        if i != k {
            assert(s.chunk_ok(i));
            assert(after.chunks[i] == s.chunks[i]);
        }
    }
    assert forall|i: int, j: int| 0 <= i < j < after.chunks.len() implies (
    #[trigger] after.chunks[i]).origin != (#[trigger] after.chunks[j]).origin by {
        assert(after.chunks[i].origin == if i < s.chunks.len() {
            s.chunks[i].origin
        } else {
            c
        });
        assert(after.chunks[j].origin == if j < s.chunks.len() {
            s.chunks[j].origin
        } else {
            c
        });
    }
}

/// Inserting the same tile at the same position a second time changes
/// nothing: the layer is the one the first insertion left.
pub proof fn lemma_insert_idempotent(s: LayerView, p: (int, int), tile: TileSpec)
    requires
        s.wf(),
        ChunkView::addressable(p),
    ensures
        s.insert(p, tile).insert(p, tile) == s.insert(p, tile),
{
    let size = s.settings.chunk_size;
    let c = chunk_of(p, size);
    let l = local_of(p, size);
    let once = s.insert(p, tile);
    lemma_insert_wf(s, p, tile);
    lemma_insert_chunks(s, p, tile);
    let k = once.index_of(c);
    let twice = once.insert(p, tile);
    assert(once.chunk_ok(k));
    crate::chunk::lemma_slot_index_bounds(size.0, size.1, l);
    assert(once.chunks[k].set(l, tile.at(l)).slots =~= once.chunks[k].slots);
    assert(twice.chunks =~= once.chunks);
}

/// After an insertion at `p` the chunk that covers `p` exists, holds the
/// tile in the slot of `p`, and is the only chunk that changed; a chunk
/// exists afterwards exactly if it existed before or covers `p`.
pub proof fn lemma_insert_chunks(s: LayerView, p: (int, int), tile: TileSpec)
    requires
        s.wf(),
        ChunkView::addressable(p),
    ensures
        ({
            let c = chunk_of(p, s.settings.chunk_size);
            let l = local_of(p, s.settings.chunk_size);
            let after = s.insert(p, tile);
            let k = after.index_of(c);
            &&& after.has_chunk(c)
            &&& 0 <= k < after.chunks.len()
            &&& after.chunks[k].origin == c
            &&& after.chunks[k].in_bounds(l)
            &&& after.chunks[k].get(l) == Some(tile.at(l))
            &&& k == (if s.has_chunk(c) {
                s.index_of(c)
            } else {
                s.chunks.len() as int
            })
            &&& after.chunks.len() == s.chunks.len() + (if s.has_chunk(c) {
                0int
            } else {
                1int
            })
            &&& forall|i: int|
                0 <= i < s.chunks.len() && i != k ==> #[trigger] after.chunks[i] == s.chunks[i]
            &&& forall|d: (int, int)| #[trigger]
                after.has_chunk(d) <==> s.has_chunk(d) || d == c
        }),
{
    let size = s.settings.chunk_size;
    let c = chunk_of(p, size);
    let l = local_of(p, size);
    let after = s.insert(p, tile);
    lemma_insert_wf(s, p, tile);
    lemma_chunk_coord_bounds(p.0, size.0 as int);
    lemma_chunk_coord_bounds(p.1, size.1 as int);
    crate::chunk::lemma_slot_index_bounds(size.0, size.1, l);
    let k0 = if s.has_chunk(c) {
        s.index_of(c)
    } else {
        s.chunks.len() as int
    };
    if s.has_chunk(c) {
        assert(s.chunk_ok(k0));
    }
    assert(after.chunks[k0].origin == c);
    let k = after.index_of(c);
    if k != k0 {
        if k < k0 {
            assert(after.chunks[k].origin != after.chunks[k0].origin);
        } else {
            assert(after.chunks[k0].origin != after.chunks[k].origin);
        }
    }
    assert forall|d: (int, int)| #[trigger] after.has_chunk(d) <==> s.has_chunk(d) || d == c by {
        if after.has_chunk(d) {
            let i = after.index_of(d);
            if i != k0 {
                assert(s.chunks[i].origin == d);
            }
        }
        if s.has_chunk(d) {
            let i = s.index_of(d);
            assert(after.chunks[i].origin == d);
        }
    }
}

/// A layer behaves as a map from positions to tiles: after an insertion at
/// `p`, a lookup at `p` finds the inserted tile and a lookup anywhere else
/// finds what it found before.
pub proof fn lemma_insert_tile_at(s: LayerView, p: (int, int), tile: TileSpec, q: (int, int))
    requires
        s.wf(),
        ChunkView::addressable(p),
    ensures
        s.insert(p, tile).tile_at(q) == (if q == p {
            Some(tile.at(local_of(p, s.settings.chunk_size)))
        } else {
            s.tile_at(q)
        }),
{
    let size = s.settings.chunk_size;
    let c = chunk_of(p, size);
    let l = local_of(p, size);
    let d = chunk_of(q, size);
    let m = local_of(q, size);
    let after = s.insert(p, tile);
    lemma_insert_wf(s, p, tile);
    lemma_insert_chunks(s, p, tile);
    lemma_chunk_coord_bounds(p.0, size.0 as int);
    lemma_chunk_coord_bounds(p.1, size.1 as int);
    lemma_chunk_coord_bounds(q.0, size.0 as int);
    lemma_chunk_coord_bounds(q.1, size.1 as int);
    crate::chunk::lemma_slot_index_bounds(size.0, size.1, l);
    crate::chunk::lemma_slot_index_bounds(size.0, size.1, m);
    let k = after.index_of(c);
    assert(after.chunk_ok(k));
    if q != p {
        if d == c {
            // Same chunk, another cell.
            assert(m != l);
            if after.chunks[k].slot_index(m) == after.chunks[k].slot_index(l) {
                crate::chunk::lemma_slot_index_injective(size.0, m, l);
            }
            if s.has_chunk(c) {
                assert(s.chunk_ok(k));
            }
        } else if s.has_chunk(d) {
            // Another chunk, which the insertion left alone.
            let i = s.index_of(d);
            assert(after.chunks[i].origin == d);
            let j = after.index_of(d);
            if i != j {
                if i < j {
                    assert(after.chunks[i].origin != after.chunks[j].origin);
                } else {
                    assert(after.chunks[j].origin != after.chunks[i].origin);
                }
            }
        }
    }
}

/// A layer without insertions has no chunk, and the first insertion creates
/// exactly one chunk, in which exactly the slot of the inserted tile is
/// populated.
pub proof fn lemma_first_insert(id: u16, settings: LayerSettings, p: (int, int), tile: TileSpec)
    requires
        settings.valid(),
        ChunkView::addressable(p),
    ensures
        LayerView::new(id, settings).wf(),
        LayerView::new(id, settings).chunks.len() == 0,
        ({
            let after = LayerView::new(id, settings).insert(p, tile);
            let l = local_of(p, settings.chunk_size);
            &&& after.chunks.len() == 1
            &&& after.chunks[0].origin == chunk_of(p, settings.chunk_size)
            &&& after.chunks[0].population() == 1
            &&& forall|q: (u32, u32)| (#[trigger] after.chunks[0].get(q)).is_some() <==> q == l
        }),
{
    let s = LayerView::new(id, settings);
    let size = settings.chunk_size;
    let c = chunk_of(p, size);
    let l = local_of(p, size);
    let after = s.insert(p, tile);
    lemma_chunk_coord_bounds(p.0, size.0 as int);
    lemma_chunk_coord_bounds(p.1, size.1 as int);
    crate::chunk::lemma_slot_index_bounds(size.0, size.1, l);
    let blank = ChunkView::empty(c, size.0, size.1);
    crate::chunk::lemma_count_empty(blank.slots);
    crate::chunk::lemma_count_update(blank.slots, blank.slot_index(l), Some(tile.at(l)));
    assert forall|q: (u32, u32)| (#[trigger] after.chunks[0].get(q)).is_some() <==> q == l by {
        if after.chunks[0].in_bounds(q) {
            crate::chunk::lemma_slot_index_bounds(size.0, size.1, q);
            if q != l && blank.slot_index(q) == blank.slot_index(l) {
                crate::chunk::lemma_slot_index_injective(size.0, q, l);
            }
        }
    }
}

/// A chunk exists exactly if a tile was inserted somewhere in the range of
/// positions it covers.
pub proof fn lemma_chunk_iff_tile(s: LayerView, c: (int, int))
    requires
        s.wf(),
    ensures
        s.has_chunk(c) <==> exists|p: (int, int)|
            chunk_of(p, s.settings.chunk_size) == c && (#[trigger] s.tile_at(p)).is_some(),
{
    let size = s.settings.chunk_size;
    if s.has_chunk(c) {
        let k = s.index_of(c);
        assert(s.chunk_ok(k));
        let chunk = s.chunks[k];
        let i = choose|i: int| 0 <= i < chunk.slots.len() && (#[trigger] chunk.slots[i]).is_some();
        crate::chunk::lemma_cell_of(chunk, i);
        let cell = chunk.cell_of(i);
        let p = chunk.global_of(cell);
        lemma_split_unique(p.0, size.0 as int, c.0, cell.0 as int);
        lemma_split_unique(p.1, size.1 as int, c.1, cell.1 as int);
        assert(chunk_of(p, size) == c);
        assert(local_of(p, size) == cell);
        assert(s.tile_at(p) == chunk.slots[i]);
    }
}

/// What a layer shows of its first `n` chunks is what those chunks show.
pub proof fn lemma_visible_by_chunk(s: LayerView, n: int, v: VisibleTile)
    requires
        0 <= n <= s.chunks.len(),
    ensures
        s.visible_upto(n).contains(v) <==> exists|k: int|
            0 <= k < n && (#[trigger] s.chunks[k]).visible(s.settings.z).contains(v),
    decreases n,
{
    if n > 0 {
        lemma_visible_by_chunk(s, n - 1, v);
        let rest = s.visible_upto(n - 1);
        let last = s.chunks[n - 1].visible(s.settings.z);
        let all = s.visible_upto(n);
        assert(all == rest + last);
        if all.contains(v) {
            let j = choose|j: int| 0 <= j < all.len() && all[j] == v;
            if j < rest.len() {
                assert(rest[j] == v);
                assert(rest.contains(v));
                let k = choose|k: int|
                    0 <= k < n - 1 && (#[trigger] s.chunks[k]).visible(s.settings.z).contains(v);
                assert(s.chunks[k].visible(s.settings.z).contains(v));
            } else {
                assert(last[j - rest.len()] == v);
                assert(s.chunks[n - 1].visible(s.settings.z).contains(v));
            }
        }
        if exists|k: int|
            0 <= k < n && (#[trigger] s.chunks[k]).visible(s.settings.z).contains(v) {
            let k = choose|k: int|
                0 <= k < n && (#[trigger] s.chunks[k]).visible(s.settings.z).contains(v);
            if k < n - 1 {
                assert(s.chunks[k].visible(s.settings.z).contains(v));
                assert(rest.contains(v));
                let j = choose|j: int| 0 <= j < rest.len() && rest[j] == v;
                assert(all[j] == v);
            } else {
                let j = choose|j: int| 0 <= j < last.len() && last[j] == v;
                assert(all[rest.len() + j] == v);
            }
        }
    }
}

/// A layer shows exactly what it stores: a tile is handed to the renderer
/// at a position if and only if it is the tile stored at that position, and
/// it is handed over at the layer's depth.
pub proof fn lemma_visible_is_stored(s: LayerView, v: VisibleTile)
    requires
        s.wf(),
    ensures
        s.visible().contains(v) <==> v.layer_z == s.settings.z && s.tile_at(
            (v.global_pos.0 as int, v.global_pos.1 as int),
        ) == Some(v.tile),
{
    let size = s.settings.chunk_size;
    let z = s.settings.z;
    let p = (v.global_pos.0 as int, v.global_pos.1 as int);
    lemma_visible_by_chunk(s, s.chunks.len() as int, v);
    if s.visible().contains(v) {
        let k = choose|k: int|
            0 <= k < s.chunks.len() && (#[trigger] s.chunks[k]).visible(z).contains(v);
        let chunk = s.chunks[k];
        assert(s.chunk_ok(k));
        crate::chunk::lemma_visible_contents(chunk, z, chunk.slots.len() as int, v);
        let i = choose|i: int| 0 <= i < chunk.slots.len() && #[trigger] chunk.shows(z, i, v);
        assert(chunk.shows(z, i, v));
        crate::chunk::lemma_cell_of(chunk, i);
        let cell = chunk.cell_of(i);
        assert(chunk.slot_consistent(cell));
        assert(chunk.global_of(cell) == p);
        lemma_split_unique(p.0, size.0 as int, chunk.origin.0, cell.0 as int);
        lemma_split_unique(p.1, size.1 as int, chunk.origin.1, cell.1 as int);
        assert(chunk_of(p, size) == chunk.origin);
        assert(local_of(p, size) == cell);
        let found = s.index_of(chunk.origin);
        if found != k {
            if found < k {
                assert(s.chunks[found].origin != s.chunks[k].origin);
            } else {
                assert(s.chunks[k].origin != s.chunks[found].origin);
            }
        }
        assert(s.tile_at(p) == Some(v.tile));
    }
    if v.layer_z == z && s.tile_at(p) == Some(v.tile) {
        let c = chunk_of(p, size);
        let cell = local_of(p, size);
        let k = s.index_of(c);
        let chunk = s.chunks[k];
        assert(s.chunk_ok(k));
        lemma_chunk_coord_bounds(p.0, size.0 as int);
        lemma_chunk_coord_bounds(p.1, size.1 as int);
        crate::chunk::lemma_cell_of_slot(chunk, cell);
        let i = chunk.slot_index(cell);
        assert(chunk.global_of(cell) == p);
        assert(chunk.shows(z, i, v));
        crate::chunk::lemma_visible_contents(chunk, z, chunk.slots.len() as int, v);
        assert(chunk.visible(z).contains(v));
    }
}

/// Every tile a layer shows carries the layer's depth.
pub proof fn lemma_visible_depth(s: LayerView, n: int)
    ensures
        forall|i: int|
            0 <= i < s.visible_upto(n).len() ==> (#[trigger] s.visible_upto(n)[i]).layer_z
                == s.settings.z,
    decreases n,
{
    if n > 0 {
        lemma_visible_depth(s, n - 1);
        crate::chunk::lemma_visible_depth(
            s.chunks[n - 1],
            s.settings.z,
            s.chunks[n - 1].slots.len() as int,
        );
        let rest = s.visible_upto(n - 1);
        let last = s.chunks[n - 1].visible(s.settings.z);
        let all = s.visible_upto(n);
        assert(all == rest + last);
        assert forall|i: int| 0 <= i < all.len() implies (#[trigger] all[i]).layer_z
            == s.settings.z by {
            if i < rest.len() {
                assert(all[i] == rest[i]);
            } else {
                assert(all[i] == last[i - rest.len()]);
            }
        }
    }
}

/// Cell `y * width + x` of a rectangle is the cell in row `y` and column
/// `x`.
pub proof fn lemma_rect_cell(from: (int, int), width: int, x: int, y: int)
    requires
        0 <= x < width,
        0 <= y,
    ensures
        y * width + x >= 0,
        LayerView::rect_cell(from, width, y * width + x) == (from.0 + x, from.1 + y),
{
    assert(y * width >= 0) by (nonlinear_arith)
        requires
            y >= 0,
            width > 0,
    ;
    vstd::arithmetic::div_mod::lemma_fundamental_div_mod_converse(y * width + x, width, y, x);
}

/// Whether `q` is one of the first `n` cells of a rectangle that starts at
/// `from` and is `width` cells wide, the cells counted row by row.
pub open spec fn among_first(from: (int, int), width: int, n: int, q: (int, int)) -> bool {
    &&& from.0 <= q.0 < from.0 + width
    &&& from.1 <= q.1
    &&& (q.1 - from.1) * width + (q.0 - from.0) < n
}

/// Filling the first `n` cells of a rectangle keeps a layer sound, puts the
/// tile at each of those cells, and leaves every other position as it was.
pub proof fn lemma_fill_upto(
    s: LayerView,
    from: (int, int),
    width: int,
    n: int,
    tile: TileSpec,
    q: (int, int),
)
    requires
        s.wf(),
        width > 0,
        n >= 0,
        ChunkView::addressable(from),
        from.0 + width - 1 <= i32::MAX,
        n > 0 ==> from.1 + (n - 1) / width <= i32::MAX,
    ensures
        s.fill_upto(from, width, n, tile).wf(),
        s.fill_upto(from, width, n, tile).settings == s.settings,
        s.fill_upto(from, width, n, tile).id == s.id,
        s.fill_upto(from, width, n, tile).tile_at(q) == (if among_first(from, width, n, q) {
            Some(tile.at(local_of(q, s.settings.chunk_size)))
        } else {
            s.tile_at(q)
        }),
    decreases n,
{
    if n > 0 {
        let k = n - 1;
        vstd::arithmetic::div_mod::lemma_fundamental_div_mod(k, width);
        vstd::arithmetic::div_mod::lemma_mod_bound(k, width);
        let col = k % width;
        let row = k / width;
        assert(row >= 0) by (nonlinear_arith)
            requires
                k >= 0,
                width > 0,
                k == width * row + col,
                0 <= col < width,
        ;
        if k > 0 {
            assert((k - 1) / width <= row) by {
                vstd::arithmetic::div_mod::lemma_div_is_ordered(k - 1, k, width);
            }
        }
        lemma_fill_upto(s, from, width, k, tile, q);
        let before = s.fill_upto(from, width, k, tile);
        let cell = LayerView::rect_cell(from, width, k);
        assert(cell == (from.0 + col, from.1 + row));
        lemma_insert_wf(before, cell, tile);
        lemma_insert_tile_at(before, cell, tile, q);
        assert(row * width == width * row) by (nonlinear_arith);
        if q == cell {
            assert(among_first(from, width, n, q));
        } else if among_first(from, width, n, q) {
            // `q` is a cell of the rectangle other than the last one filled,
            // so its number is below `k`.
            let qi = (q.1 - from.1) * width + (q.0 - from.0);
            if qi == k {
                vstd::arithmetic::div_mod::lemma_fundamental_div_mod_converse(
                    k,
                    width,
                    q.1 - from.1,
                    q.0 - from.0,
                );
            }
            assert(among_first(from, width, k, q));
        } else {
            assert(!among_first(from, width, k, q));
        }
    }
}

/// Filling a rectangle keeps a layer sound, puts the tile at every position
/// of the rectangle, and leaves every other position as it was.
pub proof fn lemma_fill_tile_at(
    s: LayerView,
    from: (int, int),
    size: (u32, u32),
    tile: TileSpec,
    q: (int, int),
)
    requires
        s.wf(),
        LayerView::rect_addressable(from, size),
    ensures
        s.fill(from, size, tile).wf(),
        s.fill(from, size, tile).settings == s.settings,
        s.fill(from, size, tile).id == s.id,
        s.fill(from, size, tile).tile_at(q) == (if LayerView::in_rect(from, size, q) {
            Some(tile.at(local_of(q, s.settings.chunk_size)))
        } else {
            s.tile_at(q)
        }),
{
    let w = size.0 as int;
    let h = size.1 as int;
    let n = w * h;
    if w == 0 || h == 0 {
        assert(n == 0) by (nonlinear_arith)
            requires
                n == w * h,
                w == 0 || h == 0,
        ;
    } else {
        assert(n > 0 && (n - 1) / w <= h - 1) by {
            assert(n - 1 == w * (h - 1) + (w - 1)) by (nonlinear_arith)
                requires
                    n == w * h,
            ;
            assert(0 <= (h - 1) * w) by (nonlinear_arith)
                requires
                    h >= 1,
                    w >= 1,
            ;
            assert(w * (h - 1) == (h - 1) * w) by (nonlinear_arith);
            vstd::arithmetic::div_mod::lemma_fundamental_div_mod_converse(n - 1, w, h - 1, w - 1);
        }
        lemma_fill_upto(s, from, w, n, tile, q);
        // A position is among all cells exactly if it is inside the
        // rectangle.
        let dx = q.0 - from.0;
        let dy = q.1 - from.1;
        if 0 <= dx < w && 0 <= dy {
            assert((dy * w + dx < w * h) <==> dy < h) by (nonlinear_arith)
                requires
                    0 <= dx < w,
                    0 <= dy,
                    h > 0,
            ;
        }
    }
}

/// A grid of lazily created chunks under one configuration.
pub struct Layer {
    id: u16,
    settings: LayerSettings,
    chunks: Vec<Chunk>,
}

impl View for Layer {
    type V = LayerView;

    closed spec fn view(&self) -> LayerView {
        LayerView {
            id: self.id,
            settings: self.settings,
            chunks: Seq::new(self.chunks@.len(), |i: int| self.chunks@[i]@),
        }
    }
}

impl Layer {
    /// The layer's invariant: see [`LayerView::wf`].
    pub open spec fn wf(&self) -> bool {
        self@.wf()
    }

    /// A layer without chunks.
    pub fn new(id: u16, settings: LayerSettings) -> (l: Layer)
        requires
            settings.valid(),
        ensures
            l.wf(),
            l@ == LayerView::new(id, settings),
    {
        let l = Layer { id, settings, chunks: Vec::new() };
        assert(l@.chunks =~= Seq::empty());
        l
    }

    /// The layer's id inside its map.
    pub fn id(&self) -> (id: u16)
        ensures
            id == self@.id,
    {
        self.id
    }

    /// The layer's configuration.
    pub fn settings(&self) -> (s: LayerSettings)
        ensures
            s == self@.settings,
    {
        self.settings
    }

    /// The depth at which the layer is drawn.
    pub fn z(&self) -> (z: i32)
        ensures
            z == self@.settings.z,
    {
        self.settings.z
    }

    /// The number of chunks that exist.
    pub fn chunk_count(&self) -> (n: usize)
        ensures
            n == self@.chunks.len(),
    {
        self.chunks.len()
    }

    /// The place of the chunk at chunk coordinate `c`, if it exists.
    fn find_chunk(&self, c: (i32, i32)) -> (r: Option<usize>)
        requires
            self.wf(),
        ensures
            match r {
                Some(i) => i < self@.chunks.len() && self@.chunks[i as int].origin == (
                    c.0 as int,
                    c.1 as int,
                ) && self@.index_of((c.0 as int, c.1 as int)) == i,
                None => !self@.has_chunk((c.0 as int, c.1 as int)),
            },
            r.is_some() == self@.has_chunk((c.0 as int, c.1 as int)),
    {
        let mut i: usize = 0;
        while i < self.chunks.len()
            invariant
                self.wf(),
                i <= self.chunks@.len(),
                self@.chunks.len() == self.chunks@.len(),
                forall|j: int| 0 <= j < i ==> (#[trigger] self@.chunks[j]).origin != (
                    c.0 as int,
                    c.1 as int,
                ),
            decreases self.chunks@.len() - i,
        {
            let o = self.chunks[i].origin();
            if o.0 == c.0 && o.1 == c.1 {
                proof {
                    let ci = (c.0 as int, c.1 as int);
                    assert(self@.chunks[i as int].origin == ci);
                    let k = self@.index_of(ci);
                    assert(0 <= k < self@.chunks.len() && self@.chunks[k].origin == ci);
                    if k != i {
                        if k < i {
                            assert(self@.chunks[k].origin != self@.chunks[i as int].origin);
                        } else {
                            assert(self@.chunks[i as int].origin != self@.chunks[k].origin);
                        }
                    }
                }
                return Some(i);
            }
            i = i + 1;
        }
        None
    }

    /// The chunk at chunk coordinate `c`, if it exists.
    pub fn chunk(&self, c: (i32, i32)) -> (r: Option<&Chunk>)
        requires
            self.wf(),
        ensures
            r.is_some() == self@.has_chunk((c.0 as int, c.1 as int)),
            r matches Some(chunk) ==> chunk.wf() && chunk@ == self@.chunks[self@.index_of(
                (c.0 as int, c.1 as int),
            )],
    {
        match self.find_chunk(c) {
            Some(i) => {
                assert(self@.chunk_ok(i as int));
                Some(&self.chunks[i])
            },
            None => None,
        }
    }

    /// The tile at `global_tile_pos`. `None` means that no tile was inserted
    /// there, whether or not a chunk covers the position.
    pub fn get_tile(&self, global_tile_pos: (i32, i32)) -> (r: Option<Tile>)
        requires
            self.wf(),
        ensures
            r == self@.tile_at((global_tile_pos.0 as int, global_tile_pos.1 as int)),
    {
        let (c, l) = self.tile_to_chunk_coord(global_tile_pos);
        match self.find_chunk(c) {
            Some(i) => {
                assert(self@.chunk_ok(i as int));
                self.chunks[i].get(l)
            },
            None => None,
        }
    }

    /// Inserts a tile at `global_tile_pos`, replacing whatever was there. The
    /// chunk that covers the position is created first if it does not exist.
    /// The position inside the chunk is computed, so the chunk never finds it
    /// out of bounds and the insertion always succeeds.
    pub fn insert_tile(
        &mut self,
        global_tile_pos: (i32, i32),
        sprite_index: u32,
        z_order: i32,
        tint: Color,
    ) -> (r: Result<(), MapError>)
        requires
            old(self).wf(),
        ensures
            final(self).wf(),
            r == Ok::<(), MapError>(()),
            final(self)@ == old(self)@.insert(
                (global_tile_pos.0 as int, global_tile_pos.1 as int),
                TileSpec { sprite_index, z_order, tint },
            ),
    {
        let ghost p = (global_tile_pos.0 as int, global_tile_pos.1 as int);
        let ghost before = self@;
        let (c, l) = self.tile_to_chunk_coord(global_tile_pos);
        let tile = Tile { local_position: l, sprite_index, z_order, tint };
        match self.find_chunk(c) {
            Some(i) => {
                assert(before.chunk_ok(i as int));
                let r = self.chunks[i].set(l, tile);
                proof {
                    let after = self@;
                    let expected = before.insert(p, TileSpec { sprite_index, z_order, tint });
                    assert(after.chunks =~= expected.chunks);
                    lemma_insert_wf(before, p, TileSpec { sprite_index, z_order, tint });
                }
                r
            },
            None => {
                let mut chunk = Chunk::new(c, self.settings.chunk_size.0, self.settings.chunk_size.1);
                let r = chunk.set(l, tile);
                self.chunks.push(chunk);
                proof {
                    let after = self@;
                    let expected = before.insert(p, TileSpec { sprite_index, z_order, tint });
                    assert(after.chunks =~= expected.chunks);
                    lemma_insert_wf(before, p, TileSpec { sprite_index, z_order, tint });
                }
                r
            },
        }
    }

    /// Appends the layer's tiles to `out` as a renderer sees them: chunk
    /// after chunk in creation order, each in slot order, all at the layer's
    /// depth.
    pub fn collect_visible(&self, out: &mut Vec<VisibleTile>)
        requires
            self.wf(),
        ensures
            final(out)@ == old(out)@ + self@.visible(),
    {
        let n: usize = self.chunks.len();
        let mut i: usize = 0;
        while i < n
            invariant
                self.wf(),
                n == self.chunks@.len(),
                n == self@.chunks.len(),
                i <= n,
                out@ == old(out)@ + self@.visible_upto(i as int),
            decreases n - i,
        {
            assert(self@.chunk_ok(i as int));
            let ghost before = out@;
            self.chunks[i].collect_visible(self.settings.z, out);
            assert(out@ =~= old(out)@ + self@.visible_upto(i + 1)) by {
                assert(self@.visible_upto(i + 1) == self@.visible_upto(i as int)
                    + self@.chunks[i as int].visible(self@.settings.z));
            }
            i = i + 1;
        }
    }

    /// The layer's tiles as a renderer sees them.
    pub fn visible_tiles(&self) -> (v: Vec<VisibleTile>)
        requires
            self.wf(),
        ensures
            v@ == self@.visible(),
    {
        let mut v: Vec<VisibleTile> = Vec::new();
        self.collect_visible(&mut v);
        assert(v@ =~= self@.visible());
        v
    }

    /// Inserts `tile` at every position of the rectangle that starts at
    /// `from` and is `size` cells wide and high, row by row. A rectangle that
    /// reaches beyond the addressable tile space is reported as
    /// [`MapError::OutOfBounds`] and changes nothing.
    pub fn fill(&mut self, from: (i32, i32), size: (u32, u32), tile: TileSpec) -> (r: Result<
        (),
        MapError,
    >)
        requires
            old(self).wf(),
        ensures
            final(self).wf(),
            LayerView::rect_addressable((from.0 as int, from.1 as int), size) ==> r == Ok::<
                (),
                MapError,
            >(()) && final(self)@ == old(self)@.fill((from.0 as int, from.1 as int), size, tile),
            !LayerView::rect_addressable((from.0 as int, from.1 as int), size) ==> r == Err::<
                (),
                MapError,
            >(MapError::OutOfBounds) && final(self)@ == old(self)@,
    {
        if from.0 as i64 + size.0 as i64 - 1 > i32::MAX as i64 || from.1 as i64 + size.1 as i64 - 1
            > i32::MAX as i64 {
            return Err(MapError::OutOfBounds);
        }
        let ghost origin = (from.0 as int, from.1 as int);
        let ghost w = size.0 as int;
        let mut y: u32 = 0;
        while y < size.1
            invariant
                self.wf(),
                y <= size.1,
                w == size.0,
                origin == (from.0 as int, from.1 as int),
                LayerView::rect_addressable(origin, size),
                self@ == old(self)@.fill_upto(origin, w, y * w, tile),
            decreases size.1 - y,
        {
            let mut x: u32 = 0;
            while x < size.0
                invariant
                    self.wf(),
                    y < size.1,
                    x <= size.0,
                    w == size.0,
                    origin == (from.0 as int, from.1 as int),
                    LayerView::rect_addressable(origin, size),
                    self@ == old(self)@.fill_upto(origin, w, y * w + x, tile),
                decreases size.0 - x,
            {
                let px: i32 = (from.0 as i64 + x as i64) as i32;
                let py: i32 = (from.1 as i64 + y as i64) as i32;
                proof {
                    lemma_rect_cell(origin, w, x as int, y as int);
                    assert(old(self)@.fill_upto(origin, w, y * w + x + 1, tile) == old(
                        self,
                    )@.fill_upto(origin, w, y * w + x, tile).insert(
                        (px as int, py as int),
                        tile,
                    ));
                    assert(tile == (TileSpec {
                        sprite_index: tile.sprite_index,
                        z_order: tile.z_order,
                        tint: tile.tint,
                    }));
                }
                let _ = self.insert_tile((px, py), tile.sprite_index, tile.z_order, tile.tint);
                x = x + 1;
            }
            proof {
                assert(y * w + w == (y + 1) * w) by (nonlinear_arith);
            }
            y = y + 1;
        }
        proof {
            assert(size.1 * w == size.0 * size.1) by (nonlinear_arith)
                requires
                    w == size.0,
            ;
        }
        Ok(())
    }

    /// Points the layer at another texture atlas. This is configuration:
    /// once the layer holds a chunk it is sealed, and the attempt is
    /// reported as [`MapError::LayerSealed`] and changes nothing.
    pub fn set_texture_atlas(&mut self, atlas: AtlasHandle) -> (r: Result<(), MapError>)
        requires
            old(self).wf(),
        ensures
            final(self).wf(),
            old(self)@.chunks.len() == 0 ==> r == Ok::<(), MapError>(()) && final(self)@ == (
            LayerView { settings: LayerSettings { atlas, ..old(self)@.settings }, ..old(self)@ }),
            old(self)@.chunks.len() > 0 ==> r == Err::<(), MapError>(MapError::LayerSealed)
                && final(self)@ == old(self)@,
    {
        if self.chunks.len() > 0 {
            return Err(MapError::LayerSealed);
        }
        self.settings.atlas = atlas;
        assert(self@.chunks =~= old(self)@.chunks);
        Ok(())
    }

    /// Splits a position in tile space into the coordinate of the chunk that
    /// covers it and the cell inside that chunk, by floored division.
    pub fn tile_to_chunk_coord(&self, global_tile_pos: (i32, i32)) -> (r: ((i32, i32), (u32, u32)))
        requires
            self.wf(),
        ensures
            (r.0.0 as int, r.0.1 as int) == chunk_of(
                (global_tile_pos.0 as int, global_tile_pos.1 as int),
                self@.settings.chunk_size,
            ),
            r.1 == local_of(
                (global_tile_pos.0 as int, global_tile_pos.1 as int),
                self@.settings.chunk_size,
            ),
            r.1.0 < self@.settings.chunk_size.0,
            r.1.1 < self@.settings.chunk_size.1,
            r.0.0 * self@.settings.chunk_size.0 + r.1.0 == global_tile_pos.0,
            r.0.1 * self@.settings.chunk_size.1 + r.1.1 == global_tile_pos.1,
    {
        let (cx, lx) = split_axis(global_tile_pos.0, self.settings.chunk_size.0);
        let (cy, ly) = split_axis(global_tile_pos.1, self.settings.chunk_size.1);
        ((cx, cy), (lx, ly))
    }
}

} // verus!
