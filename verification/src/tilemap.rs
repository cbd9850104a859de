//! A tile map: layers kept in drawing order, from the furthest back to the
//! nearest, layers of equal depth in the order in which they were added.

use vstd::prelude::*;
use crate::chunk::ChunkView;
use crate::layer::{Layer, LayerSettings, LayerView};
use crate::tile::{MapError, Tile, TileSpec, VisibleTile};

verus! {

/// How many of the first `n` layers are drawn at depth `z` or further back.
pub open spec fn count_not_above(layers: Seq<LayerView>, z: i32, n: int) -> int
    decreases n,
{
    if n <= 0 {
        0
    } else {
        count_not_above(layers, z, n - 1) + if layers[n - 1].settings.z <= z {
            1int
        } else {
            0int
        }
    }
}

/// The mathematical content of a tile map: its id and its layers in drawing
/// order.
pub struct TileMapView {
    pub id: u16,
    pub layers: Seq<LayerView>,
}

impl TileMapView {
    /// A map without layers.
    pub open spec fn new(id: u16) -> TileMapView {
        TileMapView { id, layers: Seq::empty() }
    }

    /// The map's invariant: sound layers, no layer id twice, and depths that
    /// never decrease along the sequence.
    pub open spec fn wf(self) -> bool {
        &&& forall|i: int| 0 <= i < self.layers.len() ==> (#[trigger] self.layers[i]).wf()
        &&& forall|i: int, j: int|
            0 <= i < j < self.layers.len() ==> (#[trigger] self.layers[i]).id != (
            #[trigger] self.layers[j]).id
        &&& forall|i: int, j: int|
            0 <= i < j < self.layers.len() ==> (#[trigger] self.layers[i]).settings.z <= (
            #[trigger] self.layers[j]).settings.z
    }

    /// Whether a layer with this id exists.
    pub open spec fn has_layer(self, id: u16) -> bool {
        exists|i: int| 0 <= i < self.layers.len() && (#[trigger] self.layers[i]).id == id
    }

    /// The place in drawing order of the layer with this id.
    pub open spec fn index_of(self, id: u16) -> int {
        choose|i: int| 0 <= i < self.layers.len() && (#[trigger] self.layers[i]).id == id
    }

    /// Where a new layer of depth `z` goes: behind it stand exactly the
    /// layers that are not nearer than it.
    pub open spec fn place_for(self, z: i32) -> int {
        count_not_above(self.layers, z, self.layers.len() as int)
    }

    /// The map with a new, empty layer put in its place in drawing order.
    pub open spec fn add_layer(self, id: u16, settings: LayerSettings) -> TileMapView {
        TileMapView {
            layers: self.layers.insert(self.place_for(settings.z), LayerView::new(id, settings)),
            ..self
        }
    }

    /// The map with a tile inserted into the layer with this id.
    pub open spec fn insert_tile(self, layer_id: u16, p: (int, int), tile: TileSpec) -> TileMapView {
        let i = self.index_of(layer_id);
        TileMapView { layers: self.layers.update(i, self.layers[i].insert(p, tile)), ..self }
    }

    /// The map with a rectangle of the layer with this id filled with a
    /// tile.
    pub open spec fn fill(self, layer_id: u16, from: (int, int), size: (u32, u32), tile: TileSpec) -> TileMapView {
        let i = self.index_of(layer_id);
        TileMapView { layers: self.layers.update(i, self.layers[i].fill(from, size, tile)), ..self }
    }

    /// The tile at position `p` of the layer with this id, if there is such a
    /// layer and a tile was inserted there.
    pub open spec fn tile_at(self, layer_id: u16, p: (int, int)) -> Option<Tile> {
        if self.has_layer(layer_id) {
            self.layers[self.index_of(layer_id)].tile_at(p)
        } else {
            None
        }
    }

    /// The tiles of the first `n` layers as a renderer sees them.
    pub open spec fn visible_upto(self, n: int) -> Seq<VisibleTile>
        decreases n,
    {
        if n <= 0 {
            Seq::empty()
        } else {
            self.visible_upto(n - 1) + self.layers[n - 1].visible()
        }
    }

    /// All tiles of the map as a renderer sees them: layer after layer in
    /// drawing order.
    pub open spec fn visible(self) -> Seq<VisibleTile> {
        self.visible_upto(self.layers.len() as int)
    }
}

/// In a sequence of layers whose depths never decrease, the layers not above
/// `z` are exactly a prefix: where the prefix ends, the count stands.
pub proof fn lemma_count_prefix(layers: Seq<LayerView>, z: i32, k: int, n: int)
    requires
        0 <= k <= n <= layers.len(),
        forall|i: int| 0 <= i < k ==> (#[trigger] layers[i]).settings.z <= z,
        forall|i: int| k <= i < n ==> (#[trigger] layers[i]).settings.z > z,
    ensures
        count_not_above(layers, z, n) == k,
    decreases n,
{
    if n > 0 {
        if k == n {
            lemma_count_prefix(layers, z, k - 1, n - 1);
        } else {
            lemma_count_prefix(layers, z, k, n - 1);
        }
    }
}

/// In a sound map the layers not above `z` come first: every layer before
/// the place for `z` is at `z` or further back, every layer from there on is
/// nearer.
pub proof fn lemma_place_for(m: TileMapView, z: i32)
    requires
        m.wf(),
    ensures
        0 <= m.place_for(z) <= m.layers.len(),
        forall|i: int| 0 <= i < m.place_for(z) ==> (#[trigger] m.layers[i]).settings.z <= z,
        forall|i: int|
            m.place_for(z) <= i < m.layers.len() ==> (#[trigger] m.layers[i]).settings.z > z,
{
    lemma_place_for_upto(m, z, m.layers.len() as int);
}

proof fn lemma_place_for_upto(m: TileMapView, z: i32, n: int)
    requires
        m.wf(),
        0 <= n <= m.layers.len(),
    ensures
        0 <= count_not_above(m.layers, z, n) <= n,
        forall|i: int|
            0 <= i < count_not_above(m.layers, z, n) ==> (#[trigger] m.layers[i]).settings.z <= z,
        forall|i: int|
            count_not_above(m.layers, z, n) <= i < n ==> (#[trigger] m.layers[i]).settings.z > z,
    decreases n,
{
    if n > 0 {
        lemma_place_for_upto(m, z, n - 1);
        let k = count_not_above(m.layers, z, n - 1);
        if m.layers[n - 1].settings.z <= z {
            // Every earlier layer is no nearer than the last, so all count.
            if k < n - 1 {
                assert(m.layers[k].settings.z > z);
                assert(m.layers[k].settings.z <= m.layers[n - 1].settings.z);
            }
            assert(k == n - 1);
        }
    }
}

/// Adding a layer under a new id keeps a map sound.
pub proof fn lemma_add_layer_wf(m: TileMapView, id: u16, settings: LayerSettings)
    requires
        m.wf(),
        settings.valid(),
        !m.has_layer(id),
    ensures
        m.add_layer(id, settings).wf(),
        m.add_layer(id, settings).layers.len() == m.layers.len() + 1,
        m.add_layer(id, settings).has_layer(id),
{
    let k = m.place_for(settings.z);
    lemma_place_for(m, settings.z);
    let after = m.add_layer(id, settings);
    let fresh = LayerView::new(id, settings);
    assert(fresh.wf());
    assert forall|i: int| 0 <= i < after.layers.len() implies after.layers[i] == (if i < k {
        m.layers[i]
    } else if i == k {
        fresh
    } else {
        m.layers[i - 1]
    }) by {}
    assert(after.layers[k].id == id);
    assert forall|i: int, j: int| 0 <= i < j < after.layers.len() implies (
    #[trigger] after.layers[i]).id != (#[trigger] after.layers[j]).id by {
        let a = if i < k {
            i
        } else {
            i - 1
        };
        let b = if j < k {
            j
        } else {
            j - 1
        };
        if i != k && j != k {
            assert(m.layers[a].id != m.layers[b].id);
        } else if i == k {
            assert(m.layers[b].id != id);
        } else {
            assert(m.layers[a].id != id);
        }
    }
    assert forall|i: int, j: int| 0 <= i < j < after.layers.len() implies (
    #[trigger] after.layers[i]).settings.z <= (#[trigger] after.layers[j]).settings.z by {
        let a = if i < k {
            i
        } else {
            i - 1
        };
        let b = if j < k {
            j
        } else {
            j - 1
        };
        if i != k && j != k {
            assert(m.layers[a].settings.z <= m.layers[b].settings.z);
        } else if i == k {
            assert(m.layers[b].settings.z > settings.z);
        } else {
            assert(m.layers[a].settings.z <= settings.z);
        }
    }
}

/// Inserting a tile at an addressable position of an existing layer keeps a
/// map sound.
pub proof fn lemma_insert_tile_wf(m: TileMapView, layer_id: u16, p: (int, int), tile: TileSpec)
    requires
        m.wf(),
        m.has_layer(layer_id),
        ChunkView::addressable(p),
    ensures
        m.insert_tile(layer_id, p, tile).wf(),
{
    let i = m.index_of(layer_id);
    crate::layer::lemma_insert_wf(m.layers[i], p, tile);
    let after = m.insert_tile(layer_id, p, tile);
    assert forall|a: int| 0 <= a < after.layers.len() implies (#[trigger] after.layers[a]).id
        == m.layers[a].id && after.layers[a].settings == m.layers[a].settings
        && after.layers[a].wf() by {}
    assert forall|a: int, b: int| 0 <= a < b < after.layers.len() implies (
    #[trigger] after.layers[a]).id != (#[trigger] after.layers[b]).id by {
        assert(m.layers[a].id != m.layers[b].id);
    }
    assert forall|a: int, b: int| 0 <= a < b < after.layers.len() implies (
    #[trigger] after.layers[a]).settings.z <= (#[trigger] after.layers[b]).settings.z by {
        assert(m.layers[a].settings.z <= m.layers[b].settings.z);
    }
}

/// What a map shows of its first `n` layers is what those layers show.
pub proof fn lemma_visible_by_layer(m: TileMapView, n: int, v: VisibleTile)
    requires
        0 <= n <= m.layers.len(),
    ensures
        m.visible_upto(n).contains(v) <==> exists|k: int|
            0 <= k < n && (#[trigger] m.layers[k]).visible().contains(v),
    decreases n,
{
    if n > 0 {
        lemma_visible_by_layer(m, n - 1, v);
        let rest = m.visible_upto(n - 1);
        let last = m.layers[n - 1].visible();
        let all = m.visible_upto(n);
        assert(all == rest + last);
        if all.contains(v) {
            let j = choose|j: int| 0 <= j < all.len() && all[j] == v;
            if j < rest.len() {
                assert(rest[j] == v);
                assert(rest.contains(v));
                let k = choose|k: int|
                    0 <= k < n - 1 && (#[trigger] m.layers[k]).visible().contains(v);
                assert(m.layers[k].visible().contains(v));
            } else {
                assert(last[j - rest.len()] == v);
                assert(m.layers[n - 1].visible().contains(v));
            }
        }
        if exists|k: int| 0 <= k < n && (#[trigger] m.layers[k]).visible().contains(v) {
            let k = choose|k: int| 0 <= k < n && (#[trigger] m.layers[k]).visible().contains(v);
            if k < n - 1 {
                assert(m.layers[k].visible().contains(v));
                assert(rest.contains(v));
                let j = choose|j: int| 0 <= j < rest.len() && rest[j] == v;
                assert(all[j] == v);
            } else {
                let j = choose|j: int| 0 <= j < last.len() && last[j] == v;
                assert(all[rest.len() + j] == v);
            }
        }
    }
}

/// A map shows exactly what its layers store: a tile is handed to the
/// renderer at a depth and a position if and only if some layer of that
/// depth stores it at that position.
pub proof fn lemma_visible_is_stored(m: TileMapView, v: VisibleTile)
    requires
        m.wf(),
    ensures
        m.visible().contains(v) <==> exists|k: int|
            0 <= k < m.layers.len() && (#[trigger] m.layers[k]).settings.z == v.layer_z
                && m.layers[k].tile_at((v.global_pos.0 as int, v.global_pos.1 as int)) == Some(
                v.tile,
            ),
{
    lemma_visible_by_layer(m, m.layers.len() as int, v);
    let p = (v.global_pos.0 as int, v.global_pos.1 as int);
    if m.visible().contains(v) {
        let k = choose|k: int|
            0 <= k < m.layers.len() && (#[trigger] m.layers[k]).visible().contains(v);
        crate::layer::lemma_visible_is_stored(m.layers[k], v);
        assert(m.layers[k].settings.z == v.layer_z && m.layers[k].tile_at(p) == Some(v.tile));
    }
    if exists|k: int|
        0 <= k < m.layers.len() && (#[trigger] m.layers[k]).settings.z == v.layer_z
            && m.layers[k].tile_at(p) == Some(v.tile) {
        let k = choose|k: int|
            0 <= k < m.layers.len() && (#[trigger] m.layers[k]).settings.z == v.layer_z
                && m.layers[k].tile_at(p) == Some(v.tile);
        crate::layer::lemma_visible_is_stored(m.layers[k], v);
        assert(m.layers[k].visible().contains(v));
    }
}

/// What a renderer is handed never steps back in depth: of two tiles, the
/// one handed over later is at the same depth as the other or nearer.
pub proof fn lemma_visible_sorted(m: TileMapView)
    requires
        m.wf(),
    ensures
        forall|a: int, b: int|
            0 <= a <= b < m.visible().len() ==> (#[trigger] m.visible()[a]).layer_z <= (
            #[trigger] m.visible()[b]).layer_z,
{
    lemma_visible_sorted_upto(m, m.layers.len() as int);
}

proof fn lemma_visible_sorted_upto(m: TileMapView, n: int)
    requires
        m.wf(),
        0 <= n <= m.layers.len(),
    ensures
        forall|a: int, b: int|
            0 <= a <= b < m.visible_upto(n).len() ==> (#[trigger] m.visible_upto(n)[a]).layer_z
                <= (#[trigger] m.visible_upto(n)[b]).layer_z,
        forall|a: int, j: int|
            0 <= a < m.visible_upto(n).len() && n - 1 <= j < m.layers.len() && 0 <= j ==> (
            #[trigger] m.visible_upto(n)[a]).layer_z <= (#[trigger] m.layers[j]).settings.z,
    decreases n,
{
    if n > 0 {
        lemma_visible_sorted_upto(m, n - 1);
        let last = m.layers[n - 1];
        crate::layer::lemma_visible_depth(last, last.chunks.len() as int);
        let head = m.visible_upto(n - 1);
        let tail = last.visible();
        let all = m.visible_upto(n);
        assert(all == head + tail);
        assert forall|a: int| 0 <= a < all.len() implies (#[trigger] all[a]).layer_z
            <= last.settings.z by {
            if a < head.len() {
                assert(all[a] == head[a]);
                assert(head[a].layer_z <= m.layers[n - 1].settings.z);
            } else {
                assert(all[a] == tail[a - head.len()]);
            }
        }
        assert forall|a: int, j: int|
            0 <= a < all.len() && n - 1 <= j < m.layers.len() && 0 <= j implies (
        #[trigger] all[a]).layer_z <= (#[trigger] m.layers[j]).settings.z by {
            if j > n - 1 {
                assert(m.layers[n - 1].settings.z <= m.layers[j].settings.z);
            }
        }
        assert forall|a: int, b: int| 0 <= a <= b < all.len() implies (#[trigger] all[a]).layer_z
            <= (#[trigger] all[b]).layer_z by {
            if b < head.len() {
                assert(all[a] == head[a]);
                assert(all[b] == head[b]);
            } else {
                assert(all[b] == tail[b - head.len()]);
                assert(all[b].layer_z == last.settings.z);
            }
        }
    }
}

/// A named collection of layers.
pub struct TileMap {
    id: u16,
    layers: Vec<Layer>,
}

impl View for TileMap {
    type V = TileMapView;

    closed spec fn view(&self) -> TileMapView {
        TileMapView { id: self.id, layers: Seq::new(self.layers@.len(), |i: int| self.layers@[i]@) }
    }
}

impl TileMap {
    /// The map's invariant: see [`TileMapView::wf`].
    pub open spec fn wf(&self) -> bool {
        self@.wf()
    }

    /// A map without layers under the given id.
    pub fn new(id: u16) -> (m: TileMap)
        ensures
            m.wf(),
            m@ == TileMapView::new(id),
    {
        let m = TileMap { id, layers: Vec::new() };
        assert(m@.layers =~= Seq::empty());
        m
    }

    /// The map's id.
    pub fn id(&self) -> (id: u16)
        ensures
            id == self@.id,
    {
        self.id
    }

    /// The number of layers.
    pub fn layer_count(&self) -> (n: usize)
        ensures
            n == self@.layers.len(),
    {
        self.layers.len()
    }

    /// The place in drawing order of the layer with this id, if it exists.
    fn find_layer(&self, id: u16) -> (r: Option<usize>)
        requires
            self.wf(),
        ensures
            match r {
                Some(i) => i < self@.layers.len() && self@.layers[i as int].id == id
                    && self@.index_of(id) == i,
                None => !self@.has_layer(id),
            },
            r.is_some() == self@.has_layer(id),
    {
        let mut i: usize = 0;
        while i < self.layers.len()
            invariant
                self.wf(),
                i <= self.layers@.len(),
                self@.layers.len() == self.layers@.len(),
                forall|j: int| 0 <= j < i ==> (#[trigger] self@.layers[j]).id != id,
            decreases self.layers@.len() - i,
        {
            if self.layers[i].id() == id {
                proof {
                    assert(self@.layers[i as int].id == id);
                    let k = self@.index_of(id);
                    if k != i {
                        if k < i {
                            assert(self@.layers[k].id != self@.layers[i as int].id);
                        } else {
                            assert(self@.layers[i as int].id != self@.layers[k].id);
                        }
                    }
                }
                return Some(i);
            }
            i = i + 1;
        }
        None
    }

    /// Adds an empty layer. It is put behind every layer that is nearer and
    /// in front of every layer that is not, so layers of one depth stay in
    /// the order in which they were added. An id that is already taken is
    /// reported as [`MapError::DuplicateLayerId`] and changes nothing.
    pub fn add_layer(&mut self, id: u16, settings: LayerSettings) -> (r: Result<(), MapError>)
        requires
            old(self).wf(),
            settings.valid(),
        ensures
            final(self).wf(),
            old(self)@.has_layer(id) ==> r == Err::<(), MapError>(MapError::DuplicateLayerId)
                && final(self)@ == old(self)@,
            !old(self)@.has_layer(id) ==> r == Ok::<(), MapError>(()) && final(self)@ == old(
                self,
            )@.add_layer(id, settings),
    {
        if self.find_layer(id).is_some() {
            return Err(MapError::DuplicateLayerId);
        }
        let ghost before = self@;
        let mut k: usize = 0;
        while k < self.layers.len() && self.layers[k].z() <= settings.z
            invariant
                self.wf(),
                self@ == before,
                k <= self.layers@.len(),
                self@.layers.len() == self.layers@.len(),
                forall|j: int| 0 <= j < k ==> (#[trigger] self@.layers[j]).settings.z <= settings.z,
            decreases self.layers@.len() - k,
        {
            k = k + 1;
        }
        proof {
            assert forall|j: int| k <= j < before.layers.len() implies (
            #[trigger] before.layers[j]).settings.z > settings.z by {
                if j > k {
                    assert(before.layers[k as int].settings.z <= before.layers[j].settings.z);
                }
            }
            lemma_count_prefix(before.layers, settings.z, k as int, before.layers.len() as int);
            lemma_add_layer_wf(before, id, settings);
        }
        self.layers.insert(k, Layer::new(id, settings));
        assert(self@.layers =~= before.add_layer(id, settings).layers);
        Ok(())
    }

    /// The layer at place `index` in drawing order, if there are that many.
    pub fn layer_at(&self, index: usize) -> (r: Option<&Layer>)
        requires
            self.wf(),
        ensures
            r.is_some() == (index < self@.layers.len()),
            r matches Some(l) ==> l@ == self@.layers[index as int] && l.wf(),
    {
        if index < self.layers.len() {
            Some(&self.layers[index])
        } else {
            None
        }
    }

    /// The layer with this id, if it exists.
    pub fn layer(&self, id: u16) -> (r: Option<&Layer>)
        requires
            self.wf(),
        ensures
            r.is_some() == self@.has_layer(id),
            r matches Some(l) ==> l@ == self@.layers[self@.index_of(id)] && l.wf(),
    {
        match self.find_layer(id) {
            Some(i) => Some(&self.layers[i]),
            None => None,
        }
    }

    /// Inserts a tile into the layer with this id, replacing whatever was at
    /// that position. A missing layer is reported as
    /// [`MapError::LayerNotFound`] and changes nothing. Because the layer
    /// computes the position inside the chunk, [`MapError::OutOfBounds`]
    /// never comes back from here.
    pub fn insert_tile(&mut self, layer_id: u16, pos: (i32, i32), tile: TileSpec) -> (r: Result<
        (),
        MapError,
    >)
        requires
            old(self).wf(),
        ensures
            final(self).wf(),
            !old(self)@.has_layer(layer_id) ==> r == Err::<(), MapError>(MapError::LayerNotFound)
                && final(self)@ == old(self)@,
            old(self)@.has_layer(layer_id) ==> r == Ok::<(), MapError>(()) && final(self)@ == old(
                self,
            )@.insert_tile(layer_id, (pos.0 as int, pos.1 as int), tile),
    {
        let ghost before = self@;
        match self.find_layer(layer_id) {
            Some(i) => {
                let r = self.layers[i].insert_tile(pos, tile.sprite_index, tile.z_order, tile.tint);
                proof {
                    let p = (pos.0 as int, pos.1 as int);
                    assert(tile == (TileSpec {
                        sprite_index: tile.sprite_index,
                        z_order: tile.z_order,
                        tint: tile.tint,
                    }));
                    assert(self@.layers =~= before.insert_tile(layer_id, p, tile).layers);
                    lemma_insert_tile_wf(before, layer_id, p, tile);
                }
                r
            },
            None => Err(MapError::LayerNotFound),
        }
    }

    /// Inserts `tile` at every position of a rectangle of the layer with
    /// this id: see [`Layer::fill`]. A missing layer is reported as
    /// [`MapError::LayerNotFound`], a rectangle that reaches beyond the
    /// addressable tile space as [`MapError::OutOfBounds`]; either way
    /// nothing changes.
    pub fn fill(&mut self, layer_id: u16, from: (i32, i32), size: (u32, u32), tile: TileSpec) -> (r:
        Result<(), MapError>)
        requires
            old(self).wf(),
        ensures
            final(self).wf(),
            r == (if !old(self)@.has_layer(layer_id) {
                Err::<(), MapError>(MapError::LayerNotFound)
            } else if !LayerView::rect_addressable((from.0 as int, from.1 as int), size) {
                Err::<(), MapError>(MapError::OutOfBounds)
            } else {
                Ok::<(), MapError>(())
            }),
            r is Ok ==> final(self)@ == old(self)@.fill(
                layer_id,
                (from.0 as int, from.1 as int),
                size,
                tile,
            ),
            r is Err ==> final(self)@ == old(self)@,
    {
        let ghost before = self@;
        match self.find_layer(layer_id) {
            Some(i) => {
                let r = self.layers[i].fill(from, size, tile);
                proof {
                    let p = (from.0 as int, from.1 as int);
                    if r is Ok {
                        assert(self@.layers =~= before.fill(layer_id, p, size, tile).layers);
                        crate::layer::lemma_fill_tile_at(before.layers[i as int], p, size, tile, p);
                    } else {
                        assert(self@.layers =~= before.layers);
                    }
                    assert forall|a: int| 0 <= a < self@.layers.len() implies (
                    #[trigger] self@.layers[a]).id == before.layers[a].id && self@.layers[a].settings
                        == before.layers[a].settings && self@.layers[a].wf() by {
                        if a != i {
                            assert(self@.layers[a] == before.layers[a]);
                        }
                    }
                    assert forall|a: int, b: int| 0 <= a < b < self@.layers.len() implies (
                    #[trigger] self@.layers[a]).id != (#[trigger] self@.layers[b]).id by {
                        assert(before.layers[a].id != before.layers[b].id);
                    }
                    assert forall|a: int, b: int| 0 <= a < b < self@.layers.len() implies (
                    #[trigger] self@.layers[a]).settings.z <= (
                    #[trigger] self@.layers[b]).settings.z by {
                        assert(before.layers[a].settings.z <= before.layers[b].settings.z);
                    }
                }
                r
            },
            None => Err(MapError::LayerNotFound),
        }
    }

    /// The tile at `pos` of the layer with this id. `None` means that there
    /// is no such layer or that no tile was inserted there.
    pub fn get_tile(&self, layer_id: u16, pos: (i32, i32)) -> (r: Option<Tile>)
        requires
            self.wf(),
        ensures
            r == self@.tile_at(layer_id, (pos.0 as int, pos.1 as int)),
    {
        match self.find_layer(layer_id) {
            Some(i) => self.layers[i].get_tile(pos),
            None => None,
        }
    }

    /// Every tile of the map with the depth of its layer and its position in
    /// tile space: layer after layer in drawing order, so by ascending depth
    /// and, at one depth, in the order in which the layers were added. Each
    /// call walks the map anew.
    pub fn iter_visible_tiles(&self) -> (v: Vec<VisibleTile>)
        requires
            self.wf(),
        ensures
            v@ == self@.visible(),
    {
        let mut v: Vec<VisibleTile> = Vec::new();
        let n: usize = self.layers.len();
        let mut i: usize = 0;
        while i < n
            invariant
                self.wf(),
                n == self.layers@.len(),
                n == self@.layers.len(),
                i <= n,
                v@ == self@.visible_upto(i as int),
            decreases n - i,
        {
            assert(self@.layers[i as int].wf());
            self.layers[i].collect_visible(&mut v);
            assert(self@.visible_upto(i + 1) == self@.visible_upto(i as int)
                + self@.layers[i as int].visible());
            i = i + 1;
        }
        v
    }
}

} // verus!
