use samurai_warriors_derusted::tile_data::TileTextureData;
use samurai_warriors_derusted::worldgen::Corridor;

const W: TileTextureData = TileTextureData::Wall {
    connects_north: false,
    connects_south: false,
    connects_east: false,
    connects_west: false,
};
const F: TileTextureData = TileTextureData::Floor;
const E: TileTextureData = TileTextureData::Empty;

fn corridor(from: (usize, usize), to: (usize, usize)) -> Corridor {
    Corridor { from_x: from.0, from_y: from.1, to_x: to.0, to_y: to.1 }
}

#[test]
fn offsets_are_one_before_the_smaller_coordinates() {
    assert_eq!(corridor((2, 7), (5, 4)).get_offsets(), (1, 3));
    assert_eq!(corridor((5, 4), (2, 7)).get_offsets(), (1, 3));
    assert_eq!(corridor((1, 1), (1, 1)).get_offsets(), (0, 0));
}

#[test]
fn extents_span_both_points_and_their_walls() {
    assert_eq!(corridor((2, 7), (5, 4)).get_extents(), (6, 6));
    assert_eq!(corridor((2, 2), (2, 2)).get_extents(), (3, 3));
    assert_eq!(corridor((9, 2), (9, 12)).get_extents(), (3, 13));
}

#[test]
fn validity_of_corridors() {
    assert!(corridor((1, 1), (1, 1)).is_valid());
    assert!(!corridor((0, 1), (1, 1)).is_valid());
    assert!(!corridor((1, 1), (1, 0)).is_valid());
    assert!(!corridor((1, 1), (usize::MAX - 1, 1)).is_valid());
    assert!(corridor((1, 1), (usize::MAX - 2, 1)).is_valid());
}

#[test]
fn a_corridor_along_a_column() {
    let expected = vec![
        vec![W, W, W, W, W, W],
        vec![W, F, F, F, F, W],
        vec![W, W, W, W, W, W],
    ];
    assert_eq!(corridor((2, 2), (2, 5)).render(), expected);
    assert_eq!(corridor((2, 5), (2, 2)).render(), expected);
}

#[test]
fn a_column_corridor_is_three_wide_and_three_longer_than_the_distance() {
    for (from_y, to_y) in [(1usize, 1usize), (3, 4), (10, 2), (2, 40)] {
        let patch = corridor((6, from_y), (6, to_y)).render();
        let rows = from_y.abs_diff(to_y) + 3;
        assert_eq!(patch.len(), 3);
        for (x, column) in patch.iter().enumerate() {
            assert_eq!(column.len(), rows);
            for (y, tile) in column.iter().enumerate() {
                let floor = x == 1 && y != 0 && y != rows - 1;
                assert_eq!(*tile, if floor { F } else { W });
            }
        }
    }
}

#[test]
fn a_corridor_along_a_row() {
    let expected = vec![
        vec![W, W, W],
        vec![W, F, W],
        vec![W, F, W],
        vec![W, F, W],
        vec![W, F, W],
        vec![W, W, W],
    ];
    assert_eq!(corridor((2, 3), (5, 3)).render(), expected);
    assert_eq!(corridor((5, 3), (2, 3)).render(), expected);
}

#[test]
fn a_corridor_between_identical_points() {
    assert_eq!(
        corridor((2, 2), (2, 2)).render(),
        vec![vec![W, W, W], vec![W, F, W], vec![W, W, W]]
    );
}

#[test]
fn a_corridor_with_a_corner() {
    let expected = vec![
        vec![W, W, W, E, E],
        vec![W, F, W, E, E],
        vec![W, F, W, E, E],
        vec![W, F, W, W, W],
        vec![W, F, F, F, W],
        vec![W, W, W, W, W],
    ];
    assert_eq!(corridor((2, 2), (5, 4)).render(), expected);
}

#[test]
fn a_corridor_with_a_corner_the_other_way() {
    let expected = vec![
        vec![W, W, W, W, W],
        vec![W, F, F, F, W],
        vec![W, W, W, F, W],
        vec![E, E, W, F, W],
        vec![E, E, W, F, W],
        vec![E, E, W, W, W],
    ];
    assert_eq!(corridor((5, 4), (2, 2)).render(), expected);
}

#[test]
fn set_at_follows_the_precedence() {
    let mut output = vec![vec![E, F, W]];
    Corridor::set_at(0, 0, W, &mut output);
    Corridor::set_at(0, 1, W, &mut output);
    Corridor::set_at(0, 2, F, &mut output);
    assert_eq!(output, vec![vec![W, F, F]]);
}

#[test]
fn ends_of_a_range() {
    assert!(Corridor::is_extents(3, 3, 9));
    assert!(Corridor::is_extents(8, 3, 9));
    assert!(!Corridor::is_extents(9, 3, 9));
    assert!(!Corridor::is_extents(5, 3, 9));
}
