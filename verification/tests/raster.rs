use samurai_warriors_derusted::tile_data::TileError;
use samurai_warriors_derusted::tile_data::TileTextureData;
use samurai_warriors_derusted::worldgen::Rect;
use samurai_warriors_derusted::worldgen::Room;
use samurai_warriors_derusted::worldgen::RoomGenerator;
use samurai_warriors_derusted::worldgen::TerrainData;

const W: TileTextureData = TileTextureData::Wall {
    connects_north: false,
    connects_south: false,
    connects_east: false,
    connects_west: false,
};
const F: TileTextureData = TileTextureData::Floor;
const E: TileTextureData = TileTextureData::Empty;

fn rect(x: u8, y: u8, width: u8, height: u8) -> Rect {
    Rect::new(x, y, width, height)
}

fn grid_of(tile: TileTextureData, width: usize, height: usize) -> Vec<Vec<TileTextureData>> {
    vec![vec![tile; height]; width]
}

fn map_of(tile: TileTextureData, width: usize, height: usize) -> Vec<Vec<TerrainData>> {
    vec![vec![TerrainData { texture: 7, tile_data: tile }; height]; width]
}

#[test]
fn a_rectangle_renders_as_a_ring_of_walls_around_floor() {
    assert_eq!(
        Room::render_rect(rect(9, 9, 4, 3)),
        vec![vec![W, W, W], vec![W, F, W], vec![W, F, W], vec![W, W, W]]
    );
}

#[test]
fn small_rectangles_render_as_walls_only() {
    assert_eq!(Room::render_rect(rect(0, 0, 1, 1)), vec![vec![W]]);
    assert_eq!(Room::render_rect(rect(0, 0, 2, 2)), vec![vec![W, W], vec![W, W]]);
    assert_eq!(Room::render_rect(rect(0, 0, 3, 1)), vec![vec![W], vec![W], vec![W]]);
    assert_eq!(Room::render_rect(rect(0, 0, 0, 4)), Vec::<Vec<TileTextureData>>::new());
    assert_eq!(
        Room::render_rect(rect(0, 0, 2, 0)),
        vec![Vec::<TileTextureData>::new(), Vec::<TileTextureData>::new()]
    );
}

#[test]
fn a_single_room_renders_as_its_rectangle() {
    let room = Room::Basic { rect: rect(2, 2, 6, 6) };
    let patch = room.render();
    assert_eq!(patch.len(), 6);
    for (x, column) in patch.iter().enumerate() {
        assert_eq!(column.len(), 6);
        for (y, tile) in column.iter().enumerate() {
            let on_ring = x == 0 || x == 5 || y == 0 || y == 5;
            assert_eq!(*tile, if on_ring { W } else { F });
        }
    }
}

#[test]
fn a_merged_room_renders_floor_inside_any_part() {
    let room = Room::Complex {
        rooms: vec![rect(0, 0, 5, 5), rect(3, 3, 5, 5)],
        aabb: rect(0, 0, 8, 8),
    };
    let expected = vec![
        vec![W, W, W, W, W, E, E, E],
        vec![W, F, F, F, W, E, E, E],
        vec![W, F, F, F, W, E, E, E],
        vec![W, F, F, F, W, W, W, W],
        vec![W, W, W, W, F, F, F, W],
        vec![E, E, E, W, F, F, F, W],
        vec![E, E, E, W, F, F, F, W],
        vec![E, E, E, W, W, W, W, W],
    ];
    assert_eq!(room.render(), expected);
}

#[test]
fn a_merged_room_renders_relative_to_its_bounding_box() {
    let room = Room::Complex {
        rooms: vec![rect(10, 20, 3, 3), rect(12, 21, 3, 3)],
        aabb: rect(10, 20, 5, 4),
    };
    let expected = vec![
        vec![W, W, W, E],
        vec![W, F, W, E],
        vec![W, W, W, W],
        vec![E, W, F, W],
        vec![E, W, W, W],
    ];
    assert_eq!(room.render(), expected);
}

#[test]
fn blit_writes_at_the_offset_by_precedence() {
    let mut output = vec![vec![E, F, W, E], vec![F, F, F, F], vec![W, W, W, W]];
    let input = vec![vec![W, W], vec![F, E]];
    assert_eq!(Room::blit(&mut output, input, 1, 1), Ok(()));
    assert_eq!(output, vec![vec![E, F, W, E], vec![F, F, F, F], vec![W, F, E, W]]);
}

#[test]
fn patch_blit_lets_empty_tiles_win() {
    let mut output = grid_of(F, 2, 2);
    assert_eq!(Room::blit(&mut output, vec![vec![E]], 1, 0), Ok(()));
    assert_eq!(output, vec![vec![F, F], vec![E, F]]);
}

#[test]
fn map_blit_passes_over_empty_tiles() {
    let mut output = map_of(F, 2, 2);
    assert_eq!(RoomGenerator::blit(&mut output, vec![vec![E, W], vec![E, E]], 0, 0), Ok(()));
    assert_eq!(output, map_of(F, 2, 2));
    let mut empty = map_of(E, 2, 2);
    assert_eq!(RoomGenerator::blit(&mut empty, vec![vec![E, W], vec![F, E]], 0, 0), Ok(()));
    let tiles: Vec<Vec<TileTextureData>> =
        empty.iter().map(|column| column.iter().map(|cell| cell.tile_data).collect()).collect();
    assert_eq!(tiles, vec![vec![E, W], vec![F, E]]);
    for column in &empty {
        for cell in column {
            assert_eq!(cell.texture, 7);
        }
    }
}

#[test]
fn markers_are_never_overwritten() {
    let mut output = vec![vec![TileTextureData::Entrance, TileTextureData::Exit]];
    for new in [E, F, W, TileTextureData::Corridor { start: true }, TileTextureData::Player] {
        assert_eq!(Room::blit(&mut output, vec![vec![new, new]], 0, 0), Ok(()));
        assert_eq!(output, vec![vec![TileTextureData::Entrance, TileTextureData::Exit]]);
    }
    let mut map = vec![vec![
        TerrainData { texture: 0, tile_data: TileTextureData::Entrance },
        TerrainData { texture: 0, tile_data: TileTextureData::Exit },
    ]];
    assert_eq!(RoomGenerator::blit(&mut map, vec![vec![F, TileTextureData::Enemy]], 0, 0), Ok(()));
    assert_eq!(map[0][0].tile_data, TileTextureData::Entrance);
    assert_eq!(map[0][1].tile_data, TileTextureData::Exit);
}

#[test]
fn writing_a_patch_twice_changes_nothing_the_second_time() {
    let mut output = vec![
        vec![E, F, W, TileTextureData::Entrance],
        vec![TileTextureData::Corridor { start: true }, F, W, E],
        vec![W, W, F, TileTextureData::Exit],
    ];
    let input = vec![
        vec![W, W, F, F],
        vec![TileTextureData::Corridor { start: false }, W, E, W],
        vec![F, E, W, TileTextureData::Entrance],
    ];
    assert_eq!(Room::blit(&mut output, input.clone(), 0, 0), Ok(()));
    let once = output.clone();
    assert_eq!(Room::blit(&mut output, input, 0, 0), Ok(()));
    assert_eq!(output, once);
}

#[test]
fn a_failing_blit_changes_nothing() {
    let before = vec![vec![E, F], vec![W, F]];
    let mut output = before.clone();
    let input = vec![vec![F, F], vec![F, TileTextureData::Enemy]];
    assert_eq!(Room::blit(&mut output, input, 0, 0), Err(TileError::EnemyReplacingNonEntity));
    assert_eq!(output, before);
}

#[test]
fn the_first_failure_in_column_order_is_reported() {
    let mut output = grid_of(F, 2, 2);
    let input = vec![
        vec![F, TileTextureData::Player],
        vec![TileTextureData::Enemy, F],
    ];
    assert_eq!(Room::blit(&mut output, input, 0, 0), Err(TileError::PlayerReplacingNonEntity));
    let mut map = map_of(F, 2, 2);
    let input = vec![
        vec![E, TileTextureData::Enemy],
        vec![TileTextureData::Player, F],
    ];
    assert_eq!(
        RoomGenerator::blit(&mut map, input, 0, 0),
        Err(TileError::EnemyReplacingNonEntity)
    );
    assert_eq!(map, map_of(F, 2, 2));
}

#[test]
fn a_player_displaces_an_enemy_once() {
    let mut output = vec![vec![TileTextureData::Enemy]];
    assert_eq!(Room::blit(&mut output, vec![vec![TileTextureData::Player]], 0, 0), Ok(()));
    assert_eq!(output, vec![vec![TileTextureData::Player]]);
    assert_eq!(
        Room::blit(&mut output, vec![vec![TileTextureData::Player]], 0, 0),
        Err(TileError::PlayerReplacingNonEntity)
    );
    assert_eq!(output, vec![vec![TileTextureData::Player]]);
}
