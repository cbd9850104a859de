//! The play phase: the map it is played on and the hook that sets it up.

use vstd::prelude::*;
use crate::entity::{Kind, Entity, EntityRef, VisualStyle, World};
use crate::layer::LayerSettings;
use crate::tile::{AtlasHandle, Color, TileSpec};
use crate::tilemap::{lemma_add_layer_wf, TileMap, TileMapView};

verus! {

/// What the asset collaborator loaded for the play phase.
#[derive(Clone, Copy, Debug, PartialEq, Eq, Structural)]
pub struct GameAssets {
    /// The appearance of the player's sprite.
    pub sprite: VisualStyle,
    /// The atlas the map's tiles are cut from.
    pub atlas: AtlasHandle,
}

/// What the play phase owns while it runs.
pub struct GameData {
    pub map: TileMap,
    pub player: EntityRef,
}

/// The settings of the demonstration map's only layer: chunks of 32 by 32
/// tiles, tiles of 32 by 32 pixels.
pub open spec fn tile_map_settings(atlas: AtlasHandle) -> LayerSettings {
    LayerSettings { chunk_size: (32, 32), tile_size: (32, 32), atlas, z: 0 }
}

/// The demonstration map: one layer that holds a single green tile at
/// (16, 16).
pub open spec fn tile_map_view(atlas: AtlasHandle) -> TileMapView {
    TileMapView::new(0).add_layer(0, tile_map_settings(atlas)).insert_tile(
        0,
        (16, 16),
        TileSpec { sprite_index: 0, z_order: 0, tint: Color { r: 0, g: 255, b: 0, a: 255 } },
    )
}

/// Builds the demonstration map: a map with one layer of 32 by 32 pixel
/// tiles cut from `atlas`, and in it a single tile at (16, 16) that shows
/// sprite 0 at depth 0 with a green tint.
pub fn tile_map(atlas: AtlasHandle) -> (m: TileMap)
    ensures
        m.wf(),
        m@ == tile_map_view(atlas),
{
    let mut tilemap = TileMap::new(0);
    let settings = LayerSettings::new((32, 32), (32, 32), atlas);
    let tile = TileSpec { sprite_index: 0, z_order: 0, tint: Color::green() };
    proof {
        assert(32u32 * 32u32 <= usize::MAX);
        lemma_add_layer_wf(TileMapView::new(0), 0, settings);
    }
    let _ = tilemap.add_layer(0, settings);
    let _ = tilemap.insert_tile(0, (16, 16), tile);
    tilemap
}

/// The settings of the starting map's only layer: chunks of 8 by 8 tiles,
/// tiles of 16 by 16 pixels.
pub open spec fn startup_settings(atlas: AtlasHandle) -> LayerSettings {
    LayerSettings { chunk_size: (8, 8), tile_size: (16, 16), atlas, z: 0 }
}

/// The starting map: one layer, two chunks wide and two chunks high, every
/// cell of it a plain tile.
pub open spec fn startup_view(atlas: AtlasHandle) -> TileMapView {
    TileMapView::new(0).add_layer(0, startup_settings(atlas)).fill(
        0,
        (0, 0),
        (16, 16),
        TileSpec::plain(),
    )
}

/// Builds the starting map: a map with one layer of 16 by 16 pixel tiles cut
/// from `atlas`, in chunks of 8 by 8 tiles, with a plain tile at every
/// position of the two by two chunks at the origin.
pub fn startup(atlas: AtlasHandle) -> (m: TileMap)
    ensures
        m.wf(),
        m@ == startup_view(atlas),
{
    let mut map = TileMap::new(0);
    let settings = LayerSettings::new((8, 8), (16, 16), atlas);
    proof {
        assert(8u32 * 8u32 <= usize::MAX);
        lemma_add_layer_wf(TileMapView::new(0), 0, settings);
    }
    let _ = map.add_layer(0, settings);
    let _ = map.fill(0, (0, 0), (16, 16), TileSpec::default());
    map
}

/// The arena after the play phase's enter hook: one more entity, the
/// player's sprite.
pub open spec fn with_player(w: Seq<Entity>, visual: VisualStyle) -> Seq<Entity> {
    w.push(Entity { alive: true, parent: None, kind: Kind::Movable { visual } })
}

/// The play phase's enter hook: builds a fresh map and spawns the player's
/// sprite.
pub fn setup_game(world: &mut World, assets: &GameAssets) -> (game: GameData)
    requires
        old(world).wf(),
    ensures
        final(world).wf(),
        final(world)@ == with_player(old(world)@, assets.sprite),
        game.player.index == old(world)@.len(),
        game.map.wf(),
        game.map@ == tile_map_view(assets.atlas),
{
    let map = tile_map(assets.atlas);
    let player = world.spawn_root(Kind::Movable { visual: assets.sprite });
    GameData { map, player }
}

} // verus!
