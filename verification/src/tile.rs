//! The cell of a tile map and the small value types it is tagged with.

use vstd::prelude::*;

verus! {

/// A colour with eight bits per channel.
#[derive(Clone, Copy, Debug, PartialEq, Eq, Structural)]
pub struct Color {
    pub r: u8,
    pub g: u8,
    pub b: u8,
    pub a: u8,
}

impl Color {
    /// An opaque colour from its red, green and blue channels.
    pub fn rgb(r: u8, g: u8, b: u8) -> (c: Color)
        ensures
            c == (Color { r, g, b, a: 255 }),
    {
        Color { r, g, b, a: 255 }
    }

    /// Opaque white: the tint that leaves a sprite unchanged.
    pub fn white() -> (c: Color)
        ensures
            c == (Color { r: 255, g: 255, b: 255, a: 255 }),
    {
        Color { r: 255, g: 255, b: 255, a: 255 }
    }

    /// Opaque pure green.
    pub fn green() -> (c: Color)
        ensures
            c == (Color { r: 0, g: 255, b: 0, a: 255 }),
    {
        Color { r: 0, g: 255, b: 0, a: 255 }
    }
}

/// An opaque reference to a texture atlas held by the asset collaborator.
/// The map never looks behind it.
#[derive(Clone, Copy, Debug, PartialEq, Eq, Structural)]
pub struct AtlasHandle {
    pub id: u64,
}

/// One addressed cell: which sprite it shows, at which depth, in which tint,
/// and where inside its chunk it sits.
#[derive(Clone, Copy, Debug, PartialEq, Eq)]
pub struct Tile {
    pub local_position: (u32, u32),
    pub sprite_index: u32,
    pub z_order: i32,
    pub tint: Color,
}

/// What a caller says about a tile when inserting it at a position in tile
/// space: everything but the position.
#[derive(Clone, Copy, Debug, PartialEq, Eq, Structural)]
pub struct TileSpec {
    pub sprite_index: u32,
    pub z_order: i32,
    pub tint: Color,
}

impl TileSpec {
    /// The plain tile: sprite 0 at depth 0, untinted.
    pub open spec fn plain() -> TileSpec {
        TileSpec { sprite_index: 0, z_order: 0, tint: Color { r: 255, g: 255, b: 255, a: 255 } }
    }

    /// The tile this description yields at `local_position`.
    pub open spec fn at(self, local_position: (u32, u32)) -> Tile {
        Tile {
            local_position,
            sprite_index: self.sprite_index,
            z_order: self.z_order,
            tint: self.tint,
        }
    }

    /// Builds the tile this description yields at `local_position`.
    pub fn place(&self, local_position: (u32, u32)) -> (t: Tile)
        ensures
            t == self.at(local_position),
    {
        Tile {
            local_position,
            sprite_index: self.sprite_index,
            z_order: self.z_order,
            tint: self.tint,
        }
    }
}

impl Default for TileSpec {
    /// The plain tile: see [`TileSpec::plain`].
    fn default() -> (s: TileSpec)
        ensures
            s == TileSpec::plain(),
    {
        TileSpec { sprite_index: 0, z_order: 0, tint: Color::white() }
    }
}

/// A tile as the renderer sees it: the depth of its layer, its position in
/// tile space, and the tile itself.
#[derive(Clone, Copy, Debug, PartialEq, Eq)]
pub struct VisibleTile {
    pub layer_z: i32,
    pub global_pos: (i32, i32),
    pub tile: Tile,
}

/// The errors of the tile-map engine. All are recoverable and reported to the
/// caller.
#[derive(Clone, Copy, Debug, PartialEq, Eq, Structural)]
pub enum MapError {
    /// A position lies outside a chunk's fixed extent.
    OutOfBounds,
    /// No layer with the given id exists in the map.
    LayerNotFound,
    /// A layer with the given id already exists in the map.
    DuplicateLayerId,
    /// The layer already holds data and can no longer be reconfigured.
    LayerSealed,
}

} // verus!
