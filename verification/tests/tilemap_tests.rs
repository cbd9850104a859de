use tile_game::chunk::Chunk;
use tile_game::coords::split_axis;
use tile_game::game::{startup, tile_map};
use tile_game::layer::{Layer, LayerSettings};
use tile_game::tile::{AtlasHandle, Color, MapError, Tile, TileSpec, VisibleTile};
use tile_game::tilemap::TileMap;

fn settings(w: u32, h: u32) -> LayerSettings {
    LayerSettings::new((w, h), (16, 16), AtlasHandle { id: 7 })
}

fn spec(sprite_index: u32) -> TileSpec {
    TileSpec { sprite_index, z_order: 0, tint: Color::white() }
}

#[test]
fn split_axis_floors_positive_coordinates() {
    assert_eq!(split_axis(0, 8), (0, 0));
    assert_eq!(split_axis(5, 8), (0, 5));
    assert_eq!(split_axis(7, 8), (0, 7));
    assert_eq!(split_axis(8, 8), (1, 0));
    assert_eq!(split_axis(16, 32), (0, 16));
    assert_eq!(split_axis(100, 32), (3, 4));
}

#[test]
fn split_axis_floors_negative_coordinates() {
    assert_eq!(split_axis(-1, 8), (-1, 7));
    assert_eq!(split_axis(-8, 8), (-1, 0));
    assert_eq!(split_axis(-9, 8), (-2, 7));
    assert_eq!(split_axis(-16, 8), (-2, 0));
    assert_eq!(split_axis(-17, 8), (-3, 7));
}

#[test]
fn split_axis_at_the_ends_of_the_range() {
    assert_eq!(split_axis(i32::MAX, 1), (i32::MAX, 0));
    assert_eq!(split_axis(i32::MIN, 1), (i32::MIN, 0));
    assert_eq!(split_axis(i32::MIN, 2), (-1073741824, 0));
    assert_eq!(split_axis(i32::MAX, u32::MAX), (0, 2147483647));
    assert_eq!(split_axis(-1, u32::MAX), (-1, 4294967294));
    assert_eq!(split_axis(i32::MIN, u32::MAX), (-1, 2147483647));
}

#[test]
fn tile_lies_inside_the_span_of_its_chunk() {
    for size in [1u32, 2, 3, 7, 8, 32] {
        for p in -100i32..100 {
            let (c, l) = split_axis(p, size);
            let start = (c as i64) * (size as i64);
            assert!(start <= p as i64);
            assert!((p as i64) < start + size as i64);
            assert_eq!(start + l as i64, p as i64);
            assert!(l < size);
        }
    }
}

#[test]
fn new_chunk_is_empty() {
    let c = Chunk::new((3, -4), 4, 2);
    assert_eq!(c.origin(), (3, -4));
    assert_eq!(c.width(), 4);
    assert_eq!(c.height(), 2);
    assert_eq!(c.population(), 0);
    for y in 0..2 {
        for x in 0..4 {
            assert_eq!(c.get((x, y)), None);
        }
    }
}

#[test]
fn chunk_set_then_get() {
    let mut c = Chunk::new((0, 0), 4, 2);
    let t = spec(9).place((3, 1));
    assert_eq!(c.set((3, 1), t), Ok(()));
    assert_eq!(c.get((3, 1)), Some(t));
    assert_eq!(c.get((1, 3)), None);
    assert_eq!(c.get((2, 1)), None);
    assert_eq!(c.get((3, 0)), None);
    assert_eq!(c.population(), 1);
}

#[test]
fn chunk_set_out_of_bounds_is_rejected() {
    let mut c = Chunk::new((0, 0), 4, 2);
    let t = spec(1).place((0, 0));
    assert_eq!(c.set((4, 0), t), Err(MapError::OutOfBounds));
    assert_eq!(c.set((0, 2), t), Err(MapError::OutOfBounds));
    assert_eq!(c.set((u32::MAX, u32::MAX), t), Err(MapError::OutOfBounds));
    assert_eq!(c.population(), 0);
    assert_eq!(c.get((4, 0)), None);
}

#[test]
fn chunk_set_overwrites() {
    let mut c = Chunk::new((0, 0), 2, 2);
    let first = spec(1).place((1, 1));
    let second = spec(2).place((1, 1));
    assert_eq!(c.set((1, 1), first), Ok(()));
    assert_eq!(c.set((1, 1), second), Ok(()));
    assert_eq!(c.get((1, 1)), Some(second));
    assert_eq!(c.population(), 1);
}

#[test]
fn settings_validity() {
    assert!(settings(8, 8).is_valid());
    assert!(settings(1, 1).is_valid());
    assert!(!settings(0, 8).is_valid());
    assert!(!settings(8, 0).is_valid());
    assert_eq!(settings(8, 8).with_z(5).z, 5);
    assert_eq!(settings(8, 8).z, 0);
}

#[test]
fn layer_without_insertions_has_no_chunks() {
    let l = Layer::new(3, settings(8, 8));
    assert_eq!(l.id(), 3);
    assert_eq!(l.chunk_count(), 0);
    assert_eq!(l.get_tile((0, 0)), None);
    assert_eq!(l.visible_tiles(), vec![]);
}

#[test]
fn first_insertion_creates_one_chunk_with_one_tile() {
    let mut l = Layer::new(0, settings(8, 8));
    assert_eq!(l.insert_tile((10, -3), 4, 2, Color::green()), Ok(()));
    assert_eq!(l.chunk_count(), 1);
    let expected = Tile { local_position: (2, 5), sprite_index: 4, z_order: 2, tint: Color::green() };
    assert_eq!(l.get_tile((10, -3)), Some(expected));
    let seen = l.visible_tiles();
    assert_eq!(seen, vec![VisibleTile { layer_z: 0, global_pos: (10, -3), tile: expected }]);
}

#[test]
fn inserting_twice_is_inserting_once() {
    let mut once = Layer::new(0, settings(8, 8));
    once.insert_tile((1, 1), 0, 0, Color::white()).unwrap();
    once.insert_tile((-5, 20), 3, 1, Color::green()).unwrap();
    let mut twice = Layer::new(0, settings(8, 8));
    twice.insert_tile((1, 1), 0, 0, Color::white()).unwrap();
    twice.insert_tile((-5, 20), 3, 1, Color::green()).unwrap();
    twice.insert_tile((-5, 20), 3, 1, Color::green()).unwrap();
    assert_eq!(once.chunk_count(), twice.chunk_count());
    assert_eq!(once.visible_tiles(), twice.visible_tiles());
    assert_eq!(once.get_tile((-5, 20)), twice.get_tile((-5, 20)));
}

#[test]
fn layer_tile_to_chunk_coord() {
    let l = Layer::new(0, settings(8, 4));
    assert_eq!(l.tile_to_chunk_coord((0, 0)), ((0, 0), (0, 0)));
    assert_eq!(l.tile_to_chunk_coord((9, 5)), ((1, 1), (1, 1)));
    assert_eq!(l.tile_to_chunk_coord((-1, -1)), ((-1, -1), (7, 3)));
    assert_eq!(l.tile_to_chunk_coord((-8, -4)), ((-1, -1), (0, 0)));
    assert_eq!(l.tile_to_chunk_coord((-9, -5)), ((-2, -2), (7, 3)));
}

#[test]
fn empty_slot_and_missing_chunk_look_alike() {
    let mut l = Layer::new(0, settings(8, 8));
    l.insert_tile((0, 0), 1, 0, Color::white()).unwrap();
    // Same chunk, empty slot.
    assert_eq!(l.get_tile((1, 0)), None);
    // No chunk there at all.
    assert_eq!(l.get_tile((100, 100)), None);
    assert_eq!(l.chunk_count(), 1);
}

#[test]
fn tiles_in_one_chunk_share_it() {
    let mut l = Layer::new(0, settings(8, 8));
    l.insert_tile((0, 0), 1, 0, Color::white()).unwrap();
    l.insert_tile((7, 7), 2, 0, Color::white()).unwrap();
    assert_eq!(l.chunk_count(), 1);
    l.insert_tile((8, 7), 3, 0, Color::white()).unwrap();
    assert_eq!(l.chunk_count(), 2);
    l.insert_tile((-1, 0), 4, 0, Color::white()).unwrap();
    assert_eq!(l.chunk_count(), 3);
    assert_eq!(l.get_tile((7, 7)).unwrap().sprite_index, 2);
    assert_eq!(l.get_tile((8, 7)).unwrap().local_position, (0, 7));
    assert_eq!(l.get_tile((-1, 0)).unwrap().local_position, (7, 0));
}

#[test]
fn insertion_overwrites_in_layer() {
    let mut l = Layer::new(0, settings(8, 8));
    l.insert_tile((3, 3), 1, 0, Color::white()).unwrap();
    l.insert_tile((3, 3), 2, 5, Color::green()).unwrap();
    let t = l.get_tile((3, 3)).unwrap();
    assert_eq!(t.sprite_index, 2);
    assert_eq!(t.z_order, 5);
    assert_eq!(t.tint, Color::green());
    assert_eq!(l.visible_tiles().len(), 1);
}

#[test]
fn insertion_at_the_corners_of_tile_space() {
    let mut l = Layer::new(0, settings(8, 8));
    l.insert_tile((i32::MIN, i32::MIN), 1, 0, Color::white()).unwrap();
    l.insert_tile((i32::MAX, i32::MAX), 2, 0, Color::white()).unwrap();
    assert_eq!(l.get_tile((i32::MIN, i32::MIN)).unwrap().sprite_index, 1);
    assert_eq!(l.get_tile((i32::MAX, i32::MAX)).unwrap().sprite_index, 2);
    let seen = l.visible_tiles();
    assert_eq!(seen[0].global_pos, (i32::MIN, i32::MIN));
    assert_eq!(seen[1].global_pos, (i32::MAX, i32::MAX));
}

#[test]
fn atlas_can_change_until_the_layer_holds_data() {
    let mut l = Layer::new(0, settings(8, 8));
    assert_eq!(l.set_texture_atlas(AtlasHandle { id: 9 }), Ok(()));
    assert_eq!(l.settings().atlas, AtlasHandle { id: 9 });
    l.insert_tile((0, 0), 0, 0, Color::white()).unwrap();
    assert_eq!(l.set_texture_atlas(AtlasHandle { id: 10 }), Err(MapError::LayerSealed));
    assert_eq!(l.settings().atlas, AtlasHandle { id: 9 });
}

#[test]
fn visible_tiles_go_chunk_by_chunk_in_slot_order() {
    let mut l = Layer::new(0, settings(2, 2).with_z(4));
    l.insert_tile((3, 3), 1, 0, Color::white()).unwrap();
    l.insert_tile((0, 1), 2, 0, Color::white()).unwrap();
    l.insert_tile((1, 0), 3, 0, Color::white()).unwrap();
    l.insert_tile((2, 2), 4, 0, Color::white()).unwrap();
    let seen: Vec<((i32, i32), u32, i32)> =
        l.visible_tiles().iter().map(|v| (v.global_pos, v.tile.sprite_index, v.layer_z)).collect();
    assert_eq!(seen, vec![((2, 2), 4, 4), ((3, 3), 1, 4), ((1, 0), 3, 4), ((0, 1), 2, 4)]);
}

#[test]
fn new_map_has_no_layers() {
    let m = TileMap::new(12);
    assert_eq!(m.id(), 12);
    assert_eq!(m.layer_count(), 0);
    assert_eq!(m.iter_visible_tiles(), vec![]);
    assert!(m.layer(0).is_none());
}

#[test]
fn duplicate_layer_id_is_rejected() {
    let mut m = TileMap::new(0);
    assert_eq!(m.add_layer(1, settings(8, 8)), Ok(()));
    assert_eq!(m.add_layer(1, settings(4, 4)), Err(MapError::DuplicateLayerId));
    assert_eq!(m.layer_count(), 1);
    assert_eq!(m.layer(1).unwrap().settings().chunk_size, (8, 8));
    assert_eq!(m.add_layer(2, settings(4, 4)), Ok(()));
    assert_eq!(m.layer_count(), 2);
}

#[test]
fn insert_into_missing_layer_is_rejected() {
    let mut m = TileMap::new(0);
    assert_eq!(m.insert_tile(5, (0, 0), spec(1)), Err(MapError::LayerNotFound));
    m.add_layer(5, settings(8, 8)).unwrap();
    assert_eq!(m.insert_tile(5, (0, 0), spec(1)), Ok(()));
    assert_eq!(m.insert_tile(6, (0, 0), spec(1)), Err(MapError::LayerNotFound));
    assert_eq!(m.get_tile(5, (0, 0)).unwrap().sprite_index, 1);
    assert_eq!(m.get_tile(6, (0, 0)), None);
    assert_eq!(m.get_tile(5, (1, 0)), None);
}

#[test]
fn visible_tiles_ascend_in_depth_then_follow_insertion() {
    let mut m = TileMap::new(0);
    m.add_layer(10, settings(8, 8).with_z(5)).unwrap();
    m.add_layer(11, settings(8, 8).with_z(-2)).unwrap();
    m.add_layer(12, settings(8, 8).with_z(5)).unwrap();
    m.add_layer(13, settings(8, 8).with_z(0)).unwrap();
    m.add_layer(14, settings(8, 8).with_z(5)).unwrap();
    for id in [10u16, 11, 12, 13, 14] {
        m.insert_tile(id, (id as i32, 0), spec(id as u32)).unwrap();
    }
    let seen: Vec<(i32, u32)> =
        m.iter_visible_tiles().iter().map(|v| (v.layer_z, v.tile.sprite_index)).collect();
    assert_eq!(seen, vec![(-2, 11), (0, 13), (5, 10), (5, 12), (5, 14)]);
}

#[test]
fn layers_stand_in_drawing_order() {
    let mut m = TileMap::new(0);
    m.add_layer(10, settings(8, 8).with_z(5)).unwrap();
    m.add_layer(11, settings(8, 8).with_z(-2)).unwrap();
    m.add_layer(12, settings(8, 8).with_z(5)).unwrap();
    let ids: Vec<u16> = (0..m.layer_count()).map(|i| m.layer_at(i).unwrap().id()).collect();
    assert_eq!(ids, vec![11, 10, 12]);
    assert!(m.layer_at(3).is_none());
    assert_eq!(m.layer(12).unwrap().z(), 5);
}

#[test]
fn visible_tiles_can_be_walked_again() {
    let mut m = TileMap::new(0);
    m.add_layer(0, settings(4, 4)).unwrap();
    m.insert_tile(0, (-3, 9), spec(2)).unwrap();
    m.insert_tile(0, (3, 1), spec(3)).unwrap();
    let first = m.iter_visible_tiles();
    let second = m.iter_visible_tiles();
    assert_eq!(first, second);
    assert_eq!(first.len(), 2);
    assert_eq!(first[0].global_pos, (-3, 9));
    assert_eq!(first[1].global_pos, (3, 1));
}

#[test]
fn demonstration_map_holds_one_green_tile() {
    let m = tile_map(AtlasHandle { id: 1 });
    assert_eq!(m.id(), 0);
    assert_eq!(m.layer_count(), 1);
    let layer = m.layer(0).unwrap();
    assert_eq!(layer.settings().tile_size, (32, 32));
    assert_eq!(layer.settings().atlas, AtlasHandle { id: 1 });
    assert_eq!(layer.chunk_count(), 1);
    let t = m.get_tile(0, (16, 16)).unwrap();
    assert_eq!(t.sprite_index, 0);
    assert_eq!(t.z_order, 0);
    assert_eq!(t.tint, Color { r: 0, g: 255, b: 0, a: 255 });
    assert_eq!(m.iter_visible_tiles().len(), 1);
}

#[test]
fn first_insertion_populates_exactly_one_slot() {
    let mut l = Layer::new(0, settings(8, 8));
    assert!(l.chunk((1, -1)).is_none());
    l.insert_tile((10, -3), 4, 2, Color::green()).unwrap();
    let chunk = l.chunk((1, -1)).unwrap();
    assert_eq!(chunk.origin(), (1, -1));
    assert_eq!((chunk.width(), chunk.height()), (8, 8));
    assert_eq!(chunk.population(), 1);
    assert!(chunk.get((2, 5)).is_some());
    assert!(l.chunk((0, 0)).is_none());
}

#[test]
fn fill_covers_the_rectangle_and_nothing_else() {
    let mut l = Layer::new(0, settings(4, 4));
    l.insert_tile((-3, 0), 9, 0, Color::green()).unwrap();
    l.insert_tile((0, 0), 9, 0, Color::green()).unwrap();
    assert_eq!(l.fill((-2, -1), (5, 3), spec(1)), Ok(()));
    for y in -3..5 {
        for x in -5..6 {
            let inside = -2 <= x && x < 3 && -1 <= y && y < 2;
            let found = l.get_tile((x, y)).map(|t| t.sprite_index);
            if inside {
                assert_eq!(found, Some(1));
            } else if (x, y) == (-3, 0) {
                assert_eq!(found, Some(9));
            } else {
                assert_eq!(found, None);
            }
        }
    }
    assert_eq!(l.visible_tiles().len(), 16);
    assert_eq!(l.chunk_count(), 4);
}

#[test]
fn fill_of_an_empty_rectangle_changes_nothing() {
    let mut l = Layer::new(0, settings(4, 4));
    assert_eq!(l.fill((0, 0), (0, 5), spec(1)), Ok(()));
    assert_eq!(l.fill((0, 0), (5, 0), spec(1)), Ok(()));
    assert_eq!(l.chunk_count(), 0);
}

#[test]
fn fill_beyond_tile_space_is_rejected() {
    let mut l = Layer::new(0, settings(4, 4));
    assert_eq!(l.fill((i32::MAX, 0), (2, 1), spec(1)), Err(MapError::OutOfBounds));
    assert_eq!(l.fill((0, i32::MAX - 1), (1, 3), spec(1)), Err(MapError::OutOfBounds));
    assert_eq!(l.chunk_count(), 0);
    assert_eq!(l.fill((i32::MAX, i32::MAX), (1, 1), spec(1)), Ok(()));
    assert_eq!(l.get_tile((i32::MAX, i32::MAX)).unwrap().sprite_index, 1);
}

#[test]
fn map_fill_names_its_errors() {
    let mut m = TileMap::new(0);
    assert_eq!(m.fill(0, (0, 0), (2, 2), spec(1)), Err(MapError::LayerNotFound));
    m.add_layer(0, settings(4, 4)).unwrap();
    assert_eq!(m.fill(0, (i32::MAX, 0), (2, 2), spec(1)), Err(MapError::OutOfBounds));
    assert_eq!(m.fill(1, (i32::MAX, 0), (2, 2), spec(1)), Err(MapError::LayerNotFound));
    assert_eq!(m.fill(0, (0, 0), (2, 2), spec(1)), Ok(()));
    assert_eq!(m.iter_visible_tiles().len(), 4);
}

#[test]
fn starting_map_is_two_by_two_chunks_of_plain_tiles() {
    let m = startup(AtlasHandle { id: 3 });
    assert_eq!(m.id(), 0);
    assert_eq!(m.layer_count(), 1);
    let layer = m.layer(0).unwrap();
    assert_eq!(layer.settings().chunk_size, (8, 8));
    assert_eq!(layer.settings().tile_size, (16, 16));
    assert_eq!(layer.settings().atlas, AtlasHandle { id: 3 });
    assert_eq!(layer.chunk_count(), 4);
    for c in [(0, 0), (1, 0), (0, 1), (1, 1)] {
        assert_eq!(layer.chunk(c).unwrap().population(), 64);
    }
    let seen = m.iter_visible_tiles();
    assert_eq!(seen.len(), 256);
    for v in seen {
        assert_eq!(v.tile.sprite_index, 0);
        assert_eq!(v.tile.tint, Color::white());
        assert!(0 <= v.global_pos.0 && v.global_pos.0 < 16);
        assert!(0 <= v.global_pos.1 && v.global_pos.1 < 16);
    }
    assert_eq!(m.get_tile(0, (16, 0)), None);
    assert_eq!(m.get_tile(0, (-1, 0)), None);
}

#[test]
fn plain_tile() {
    let s = TileSpec::default();
    assert_eq!(s, TileSpec { sprite_index: 0, z_order: 0, tint: Color::white() });
    assert_eq!(s.place((1, 2)).local_position, (1, 2));
}

#[test]
fn colours() {
    assert_eq!(Color::rgb(1, 2, 3), Color { r: 1, g: 2, b: 3, a: 255 });
    assert_eq!(Color::white(), Color { r: 255, g: 255, b: 255, a: 255 });
    assert_eq!(Color::green(), Color { r: 0, g: 255, b: 0, a: 255 });
}
