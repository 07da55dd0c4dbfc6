use bevy_prng::ChaCha8Rng;
use rand_core::SeedableRng;
use samurai_warriors_derusted::lifeform::Lifeform;
use samurai_warriors_derusted::tile_data::TileTextureData;
use samurai_warriors_derusted::utils::rand_range;
use samurai_warriors_derusted::utils::scale_into_range;
use samurai_warriors_derusted::worldgen::Rect;
use samurai_warriors_derusted::worldgen::Room;
use samurai_warriors_derusted::worldgen::RoomGenerator;
use samurai_warriors_derusted::worldgen::TerrainData;
use samurai_warriors_derusted::worldgen::WorldgenError;

const E: TileTextureData = TileTextureData::Empty;

fn rng(seed: u8) -> ChaCha8Rng {
    ChaCha8Rng::from_seed([seed; 32])
}

fn rect(x: u8, y: u8, width: u8, height: u8) -> Rect {
    Rect::new(x, y, width, height)
}

fn inside(r: &Rect, x: u32, y: u32) -> bool {
    (r.x as u32) < x
        && x + 1 < (r.x + r.width) as u32
        && (r.y as u32) < y
        && y + 1 < (r.y + r.height) as u32
}

fn inside_room(room: &Room, x: u32, y: u32) -> bool {
    match room {
        Room::Basic { rect } => inside(rect, x, y),
        Room::Complex { rooms, .. } => rooms.iter().any(|r| inside(r, x, y)),
    }
}

fn count(map: &Vec<Vec<TerrainData>>, kind: TileTextureData) -> usize {
    map.iter().flatten().filter(|cell| cell.tile_data == kind).count()
}

fn check_world(g: &RoomGenerator, map: &Vec<Vec<TerrainData>>, creatures: &Vec<Lifeform>) {
    assert_eq!(map.len(), g.map_width);
    for column in map {
        assert_eq!(column.len(), g.map_height);
        for cell in column {
            assert_eq!(cell.texture, 0);
            assert!(matches!(
                cell.tile_data,
                TileTextureData::Empty
                    | TileTextureData::Floor
                    | TileTextureData::Wall { .. }
                    | TileTextureData::Entrance
                    | TileTextureData::Exit
            ));
        }
    }
    for x in 0..g.map_width as i64 {
        for y in 0..g.map_height as i64 {
            if map[x as usize][y as usize].tile_data.connects_to_walls() {
                let mut sources = 0;
                for dx in -1..=1 {
                    for dy in -1..=1 {
                        let (nx, ny) = (x + dx, y + dy);
                        if (dx, dy) != (0, 0)
                            && nx >= 0
                            && ny >= 0
                            && nx < g.map_width as i64
                            && ny < g.map_height as i64
                            && map[nx as usize][ny as usize].tile_data.makes_walls()
                        {
                            sources += 1;
                        }
                    }
                }
                assert!(sources >= 1);
            }
        }
    }
    assert!(!g.rooms.is_empty());
    for room in &g.rooms {
        let parts = match room {
            Room::Basic { rect } => vec![*rect],
            Room::Complex { rooms, .. } => rooms.clone(),
        };
        for part in parts {
            assert!(part.width >= 3 && part.height >= 3);
            assert!((part.x + part.width) as usize <= g.map_width);
            assert!((part.y + part.height) as usize <= g.map_height);
            for x in part.x + 1..part.x + part.width - 1 {
                for y in part.y + 1..part.y + part.height - 1 {
                    assert!(matches!(
                        map[x as usize][y as usize].tile_data,
                        TileTextureData::Floor | TileTextureData::Entrance | TileTextureData::Exit
                    ));
                }
            }
        }
    }
    let players: Vec<&Lifeform> =
        creatures.iter().filter(|c| c.texture.tile_data == TileTextureData::Player).collect();
    assert_eq!(players.len(), 1);
    let player = players[0];
    assert_eq!(
        map[player.position.x as usize][player.position.y as usize].tile_data,
        TileTextureData::Entrance
    );
    assert_eq!(count(map, TileTextureData::Entrance), 1);
    assert!(count(map, TileTextureData::Exit) <= 1);
    assert!(inside_room(&g.rooms[0], player.position.x, player.position.y));
    let last = g.rooms.last().unwrap();
    for x in 0..g.map_width {
        for y in 0..g.map_height {
            if map[x][y].tile_data == TileTextureData::Exit {
                assert!(inside_room(last, x as u32, y as u32));
            }
        }
    }
    if count(map, TileTextureData::Exit) == 0 {
        assert!(inside_room(last, player.position.x, player.position.y));
    }
    let rects: usize = g
        .rooms
        .iter()
        .map(|room| match room {
            Room::Basic { .. } => 1,
            Room::Complex { rooms, .. } => rooms.len(),
        })
        .sum();
    assert!(creatures.len() - 1 <= rects * (g.max_enemies_per_room as usize - 1));
    for creature in creatures {
        assert!(matches!(
            creature.texture.tile_data,
            TileTextureData::Player | TileTextureData::Enemy
        ));
        assert_eq!(creature.texture.texture, 0);
        assert!((48..61).contains(&creature.health));
        assert!((5..16).contains(&creature.strength));
        assert!((0..6).contains(&creature.defense));
        assert_eq!(creature.level, 0);
        assert_eq!(creature.experience, 1);
        assert!(g.rooms.iter().any(|room| inside_room(room, creature.position.x, creature.position.y)));
    }
}

#[test]
fn a_raw_word_is_folded_into_the_range() {
    assert_eq!(scale_into_range(0, 48, 13), 48);
    assert_eq!(scale_into_range(12, 48, 13), 60);
    assert_eq!(scale_into_range(13, 48, 13), 48);
    assert_eq!(scale_into_range(1_000_003, 5, 11), 5 + 1_000_003 % 11);
    assert_eq!(scale_into_range(u32::MAX, 0, 6), 3);
    assert_eq!(scale_into_range(u32::MAX, 7, 1), 7);
    assert_eq!(scale_into_range(u32::MAX, 0, u32::MAX), 0);
}

#[test]
fn drawn_values_lie_in_the_range_and_vary() {
    let mut source = rng(1);
    let mut seen = [false; 6];
    for _ in 0..200 {
        let value = rand_range(10, 6, &mut source);
        assert!((10..16).contains(&value));
        seen[(value - 10) as usize] = true;
    }
    assert_eq!(seen, [true; 6]);
}

#[test]
fn equal_seeds_give_equal_draws() {
    let mut first = rng(9);
    let mut second = rng(9);
    for _ in 0..50 {
        assert_eq!(rand_range(0, 1000, &mut first), rand_range(0, 1000, &mut second));
    }
}

#[test]
fn every_kind_of_unsound_configuration_is_rejected() {
    let sound = RoomGenerator::new(50, 100, 40, 7, 6, 3, 2, 2);
    assert_eq!(sound.validate(), Ok(()));
    assert_eq!(RoomGenerator::new(0, 100, 40, 7, 6, 3, 2, 2).validate(), Err(WorldgenError::NoRooms));
    assert_eq!(
        RoomGenerator::new(5, 256, 40, 7, 6, 3, 2, 2).validate(),
        Err(WorldgenError::MapTooLarge)
    );
    assert_eq!(
        RoomGenerator::new(5, 100, 256, 7, 6, 3, 2, 2).validate(),
        Err(WorldgenError::MapTooLarge)
    );
    assert_eq!(
        RoomGenerator::new(5, 100, 40, 2, 6, 3, 2, 2).validate(),
        Err(WorldgenError::RoomTooSmall)
    );
    assert_eq!(
        RoomGenerator::new(5, 100, 40, 7, 2, 3, 2, 2).validate(),
        Err(WorldgenError::RoomTooSmall)
    );
    assert_eq!(
        RoomGenerator::new(5, 100, 40, 7, 6, 0, 2, 2).validate(),
        Err(WorldgenError::NoVariance)
    );
    assert_eq!(
        RoomGenerator::new(5, 100, 40, 7, 6, 3, 0, 2).validate(),
        Err(WorldgenError::NoVariance)
    );
    assert_eq!(
        RoomGenerator::new(5, 100, 40, 100, 6, 3, 2, 2).validate(),
        Err(WorldgenError::RoomTooLarge)
    );
    assert_eq!(
        RoomGenerator::new(5, 100, 40, 7, 39, 3, 2, 2).validate(),
        Err(WorldgenError::RoomTooLarge)
    );
    assert_eq!(
        RoomGenerator::new(5, 100, 40, 4_000_000_000, 6, 4_000_000_000, 2, 2).validate(),
        Err(WorldgenError::RoomTooLarge)
    );
    assert_eq!(RoomGenerator::new(5, 100, 40, 7, 38, 3, 2, 2).validate(), Ok(()));
    assert_eq!(
        RoomGenerator::new(5, 100, 40, 7, 6, 3, 2, 0).validate(),
        Err(WorldgenError::NoEnemyBound)
    );
}

#[test]
fn the_first_unsound_setting_decides_the_failure() {
    assert_eq!(RoomGenerator::new(0, 300, 300, 1, 1, 0, 0, 0).validate(), Err(WorldgenError::NoRooms));
    assert_eq!(
        RoomGenerator::new(1, 300, 300, 1, 1, 0, 0, 0).validate(),
        Err(WorldgenError::MapTooLarge)
    );
    assert_eq!(
        RoomGenerator::new(1, 30, 30, 1, 1, 0, 0, 0).validate(),
        Err(WorldgenError::RoomTooSmall)
    );
    assert_eq!(
        RoomGenerator::new(1, 30, 30, 40, 40, 0, 0, 0).validate(),
        Err(WorldgenError::NoVariance)
    );
    assert_eq!(
        RoomGenerator::new(1, 30, 30, 40, 40, 1, 1, 0).validate(),
        Err(WorldgenError::RoomTooLarge)
    );
}

#[test]
fn failures_have_descriptions() {
    for failure in [
        WorldgenError::NoRooms,
        WorldgenError::MapTooLarge,
        WorldgenError::RoomTooSmall,
        WorldgenError::NoVariance,
        WorldgenError::RoomTooLarge,
        WorldgenError::NoEnemyBound,
        WorldgenError::ConflictingOrder,
    ] {
        assert!(!failure.message().is_empty());
    }
    assert_eq!(WorldgenError::NoRooms.message(), "room count must be at least one");
}

#[test]
fn an_unsound_configuration_generates_nothing() {
    let mut g = RoomGenerator::new(0, 20, 20, 6, 6, 1, 1, 2);
    let mut source = rng(3);
    assert_eq!(g.generate_rooms(&mut source).err(), Some(WorldgenError::NoRooms));
    assert!(g.rooms.is_empty());
    let mut fresh = rng(3);
    assert_eq!(rand_range(0, 1000, &mut source), rand_range(0, 1000, &mut fresh));
}

#[test]
fn proposed_rooms_fit_the_map() {
    let g = RoomGenerator::new(50, 100, 40, 7, 6, 3, 2, 2);
    let mut source = rng(5);
    let mut widths = [false; 3];
    for _ in 0..200 {
        let r = g.propose_room(&mut source);
        assert!((7..10).contains(&r.width));
        assert!((6..8).contains(&r.height));
        assert!(r.x as u32 + r.width as u32 <= 100);
        assert!(r.y as u32 + r.height as u32 <= 40);
        widths[(r.width - 7) as usize] = true;
    }
    assert_eq!(widths, [true; 3]);
}

#[test]
fn points_are_drawn_inside_the_walls() {
    let mut source = rng(11);
    let single = Room::Basic { rect: rect(2, 2, 6, 6) };
    let merged = Room::Complex {
        rooms: vec![rect(0, 0, 5, 5), rect(3, 3, 5, 5), rect(20, 5, 3, 3)],
        aabb: rect(0, 0, 23, 8),
    };
    let mut lone_cell = 0;
    for _ in 0..300 {
        let (x, y) = single.get_random_point_in(&mut source);
        assert!((3..7).contains(&x) && (3..7).contains(&y));
        let (x, y) = merged.get_random_point_in(&mut source);
        assert!(inside_room(&merged, x as u32, y as u32));
        if (x, y) == (21, 6) {
            lone_cell += 1;
        }
        let (x, y) = rect(9, 4, 3, 3).random_point_in(&mut source);
        assert_eq!((x, y), (10, 5));
    }
    assert!(lone_cell > 0);
}

#[test]
fn a_creature_is_spawned_with_fixed_level_and_drawn_stats() {
    let mut source = rng(2);
    let mut creatures = Vec::new();
    RoomGenerator::generate_entity_at_point(&mut source, 4, 9, TileTextureData::Player, &mut creatures);
    RoomGenerator::generate_random_entity(
        &mut source,
        Room::Basic { rect: rect(10, 10, 3, 3) },
        TileTextureData::Enemy,
        &mut creatures,
    );
    assert_eq!(creatures.len(), 2);
    assert_eq!(creatures[0].texture, TerrainData { texture: 0, tile_data: TileTextureData::Player });
    assert_eq!((creatures[0].position.x, creatures[0].position.y), (4, 9));
    assert_eq!(creatures[1].texture.tile_data, TileTextureData::Enemy);
    assert_eq!((creatures[1].position.x, creatures[1].position.y), (11, 11));
    for creature in &creatures {
        assert!((48..61).contains(&creature.health));
        assert!((5..16).contains(&creature.strength));
        assert!((0..6).contains(&creature.defense));
        assert_eq!((creature.level, creature.experience), (0, 1));
    }
}

#[test]
fn enemies_stay_below_the_bound() {
    let g = RoomGenerator::new(1, 20, 20, 6, 6, 1, 1, 4);
    let mut source = rng(8);
    let mut counts = [false; 4];
    for _ in 0..100 {
        let mut creatures = Vec::new();
        g.spawn_enemies(&mut source, rect(2, 2, 6, 6), &mut creatures);
        assert!(creatures.len() < 4);
        counts[creatures.len()] = true;
        for creature in &creatures {
            assert_eq!(creature.texture.tile_data, TileTextureData::Enemy);
            assert!(inside(&rect(2, 2, 6, 6), creature.position.x, creature.position.y));
        }
    }
    assert_eq!(counts, [true; 4]);
}

fn floor_around(map: &Vec<Vec<TerrainData>>, x: usize, y: usize) -> bool {
    let mut found = false;
    for nx in x.saturating_sub(1)..=(x + 1).min(map.len() - 1) {
        for ny in y.saturating_sub(1)..=(y + 1).min(map[nx].len() - 1) {
            if (nx, ny) != (x, y) && map[nx][ny].tile_data.makes_walls() {
                found = true;
            }
        }
    }
    found
}

#[test]
fn one_room_on_a_small_map() {
    let mut with_exit = 0;
    let mut with_whole_ring = 0;
    for seed in 0..20 {
        let mut g = RoomGenerator::new(1, 20, 20, 6, 6, 1, 1, 2);
        assert_eq!(g.place_room(Room::Basic { rect: rect(2, 2, 6, 6) }), Ok(true));
        assert_eq!(g.rooms, vec![Room::Basic { rect: rect(2, 2, 6, 6) }]);
        let mut source = rng(seed);
        let (mut map, creatures) = g.render_rooms(&mut source);
        RoomGenerator::connect_walls(&mut map);
        check_world(&g, &map, &creatures);
        let mut walls = 0;
        for x in 0..20usize {
            for y in 0..20usize {
                let tile = map[x][y].tile_data;
                let in_room = (2..8).contains(&x) && (2..8).contains(&y);
                let on_ring = in_room && (x == 2 || x == 7 || y == 2 || y == 7);
                if !in_room {
                    assert_eq!(tile, E);
                } else if on_ring {
                    if floor_around(&map, x, y) {
                        assert!(tile.connects_to_walls());
                        walls += 1;
                    } else {
                        assert_eq!(tile, E);
                    }
                } else {
                    assert!(matches!(
                        tile,
                        TileTextureData::Floor | TileTextureData::Entrance | TileTextureData::Exit
                    ));
                }
            }
        }
        if walls == 20 {
            with_whole_ring += 1;
            assert_eq!(
                map[2][2].tile_data,
                TileTextureData::Wall {
                    connects_north: true,
                    connects_south: false,
                    connects_east: true,
                    connects_west: false,
                }
            );
            assert_eq!(
                map[7][4].tile_data,
                TileTextureData::Wall {
                    connects_north: true,
                    connects_south: true,
                    connects_east: false,
                    connects_west: false,
                }
            );
        }
        let players = creatures.iter().filter(|c| c.texture.tile_data == TileTextureData::Player).count();
        assert_eq!(players, 1);
        assert!(creatures.len() <= 2);
        let player = creatures.last().unwrap();
        assert_eq!(player.texture.tile_data, TileTextureData::Player);
        assert!(inside(&rect(2, 2, 6, 6), player.position.x, player.position.y));
        assert_eq!(count(&map, TileTextureData::Entrance), 1);
        if count(&map, TileTextureData::Exit) == 1 {
            with_exit += 1;
        }
    }
    assert!(with_exit >= 1);
    assert!(with_whole_ring >= 1);
}

#[test]
fn a_single_room_is_generated_whatever_is_drawn() {
    for seed in 0..30 {
        let mut g = RoomGenerator::new(1, 20, 20, 6, 6, 1, 1, 2);
        let mut source = rng(seed);
        let (map, creatures) = g.generate_rooms(&mut source).unwrap();
        assert_eq!(g.rooms.len(), 1);
        match &g.rooms[0] {
            Room::Basic { rect } => assert_eq!((rect.width, rect.height), (6, 6)),
            Room::Complex { .. } => panic!("one placement gives a single room"),
        }
        check_world(&g, &map, &creatures);
    }
}

#[test]
fn generated_worlds_are_in_order() {
    let mut generated = 0;
    for seed in 0..40 {
        let mut g = RoomGenerator::new(50, 100, 40, 7, 6, 3, 2, 2);
        let mut source = rng(seed);
        match g.generate_rooms(&mut source) {
            Ok((map, creatures)) => {
                assert!(g.rooms.len() <= 50);
                check_world(&g, &map, &creatures);
                generated += 1;
            }
            Err(failure) => assert_eq!(failure, WorldgenError::ConflictingOrder),
        }
    }
    assert!(generated >= 1);
}

#[test]
fn generation_is_reproducible() {
    let mut seen = 0;
    for seed in 0..40 {
        let mut first = RoomGenerator::new(6, 60, 40, 7, 6, 3, 2, 3);
        let mut second = RoomGenerator::new(6, 60, 40, 7, 6, 3, 2, 3);
        let one = first.generate_rooms(&mut rng(seed));
        let two = second.generate_rooms(&mut rng(seed));
        assert_eq!(one, two);
        assert_eq!(first.rooms, second.rooms);
        if one.is_ok() {
            seen += 1;
        }
    }
    assert!(seen >= 1);
}

#[test]
fn rooms_of_a_merged_room_are_joined_by_corridors() {
    let mut g = RoomGenerator::new(2, 30, 30, 5, 5, 1, 1, 1);
    assert_eq!(g.place_room(Room::Basic { rect: rect(1, 1, 5, 5) }), Ok(true));
    assert_eq!(g.place_room(Room::Basic { rect: rect(20, 3, 5, 5) }), Ok(true));
    assert_eq!(g.rooms.len(), 1);
    let (mut map, creatures) = g.render_rooms(&mut rng(4));
    RoomGenerator::connect_walls(&mut map);
    check_world(&g, &map, &creatures);
    let mut reached = vec![vec![false; 30]; 30];
    let mut queue = vec![(2usize, 2usize)];
    reached[2][2] = true;
    while let Some((x, y)) = queue.pop() {
        for (nx, ny) in [(x - 1, y), (x + 1, y), (x, y - 1), (x, y + 1)] {
            let walk = matches!(
                map[nx][ny].tile_data,
                TileTextureData::Floor | TileTextureData::Entrance | TileTextureData::Exit
            );
            if walk && !reached[nx][ny] {
                reached[nx][ny] = true;
                queue.push((nx, ny));
            }
        }
    }
    assert!(reached[22][5]);
}

#[test]
fn placed_rooms_are_sound_and_no_more_than_asked_for() {
    let mut placed_some = 0;
    for seed in 0..30 {
        let mut g = RoomGenerator::new(12, 80, 40, 7, 6, 3, 2, 2);
        let outcome = g.place_rooms(&mut rng(seed));
        assert!(g.rooms.len() <= 12);
        for room in &g.rooms {
            assert!(room.is_sound(80, 40));
        }
        match outcome {
            Ok(()) => {
                assert!(!g.rooms.is_empty());
                placed_some += 1;
            }
            Err(failure) => assert_eq!(failure, WorldgenError::ConflictingOrder),
        }
    }
    assert!(placed_some >= 1);
}

#[test]
fn the_exit_or_the_entrance_stands_in_the_last_room() {
    for seed in 0..20 {
        let mut g = RoomGenerator::new(3, 60, 30, 6, 6, 2, 2, 2);
        assert_eq!(g.place_room(Room::Basic { rect: rect(1, 1, 6, 6) }), Ok(true));
        assert_eq!(g.place_room(Room::Basic { rect: rect(20, 10, 7, 7) }), Ok(true));
        assert_eq!(g.place_room(Room::Basic { rect: rect(45, 20, 6, 7) }), Ok(true));
        assert_eq!(g.rooms.len(), 3);
        let (mut map, creatures) = g.render_rooms(&mut rng(seed));
        RoomGenerator::connect_walls(&mut map);
        check_world(&g, &map, &creatures);
        assert_eq!(count(&map, TileTextureData::Exit), 1);
        let mut exits = 0;
        for x in 46..50usize {
            for y in 21..26usize {
                if map[x][y].tile_data == TileTextureData::Exit {
                    exits += 1;
                }
            }
        }
        assert_eq!(exits, 1);
        let mut entrances = 0;
        for x in 2..6usize {
            for y in 2..6usize {
                if map[x][y].tile_data == TileTextureData::Entrance {
                    entrances += 1;
                }
            }
        }
        assert_eq!(entrances, 1);
    }
}

#[test]
fn consecutive_rooms_are_joined_by_corridors() {
    for seed in 0..20 {
        let mut g = RoomGenerator::new(3, 60, 30, 6, 6, 2, 2, 2);
        assert_eq!(g.place_room(Room::Basic { rect: rect(1, 1, 6, 6) }), Ok(true));
        assert_eq!(g.place_room(Room::Basic { rect: rect(20, 10, 7, 7) }), Ok(true));
        assert_eq!(g.place_room(Room::Basic { rect: rect(45, 20, 6, 7) }), Ok(true));
        let (mut map, _) = g.render_rooms(&mut rng(seed));
        RoomGenerator::connect_walls(&mut map);
        let walk = |x: usize, y: usize| {
            matches!(
                map[x][y].tile_data,
                TileTextureData::Floor | TileTextureData::Entrance | TileTextureData::Exit
            )
        };
        let mut reached = vec![vec![false; 30]; 60];
        let mut queue = vec![(2usize, 2usize)];
        reached[2][2] = true;
        while let Some((x, y)) = queue.pop() {
            for (nx, ny) in [(x - 1, y), (x + 1, y), (x, y - 1), (x, y + 1)] {
                if walk(nx, ny) && !reached[nx][ny] {
                    reached[nx][ny] = true;
                    queue.push((nx, ny));
                }
            }
        }
        assert!(reached[22][12]);
        assert!(reached[47][23]);
    }
}

#[test]
fn a_group_of_enemies_has_the_count_asked_for() {
    let mut source = rng(6);
    let mut creatures = Vec::new();
    RoomGenerator::spawn_enemy_group(&mut source, rect(2, 2, 6, 6), 0, &mut creatures);
    assert!(creatures.is_empty());
    RoomGenerator::spawn_enemy_group(&mut source, rect(2, 2, 6, 6), 5, &mut creatures);
    assert_eq!(creatures.len(), 5);
    let first = creatures.clone();
    RoomGenerator::spawn_enemy_group(&mut source, rect(10, 10, 3, 3), 2, &mut creatures);
    assert_eq!(creatures.len(), 7);
    assert_eq!(creatures[..5], first[..]);
    for creature in &creatures[..5] {
        assert_eq!(creature.texture.tile_data, TileTextureData::Enemy);
        assert!(inside(&rect(2, 2, 6, 6), creature.position.x, creature.position.y));
    }
    for creature in &creatures[5..] {
        assert_eq!(creature.texture.tile_data, TileTextureData::Enemy);
        assert_eq!((creature.position.x, creature.position.y), (11, 11));
        assert!((48..61).contains(&creature.health));
        assert!((5..16).contains(&creature.strength));
        assert!((0..6).contains(&creature.defense));
        assert_eq!((creature.level, creature.experience), (0, 1));
    }
}

#[test]
fn the_one_room_map_is_what_the_drawn_cells_make_of_it() {
    let mut seen = 0;
    for seed in 0..60 {
        let mut g = RoomGenerator::new(1, 20, 20, 6, 6, 1, 1, 2);
        assert_eq!(g.place_room(Room::Basic { rect: rect(2, 2, 6, 6) }), Ok(true));
        let (mut map, creatures) = g.render_rooms(&mut rng(seed));
        RoomGenerator::connect_walls(&mut map);
        let player = creatures.last().unwrap();
        let entrance = (player.position.x as usize, player.position.y as usize);
        let exits: Vec<(usize, usize)> = (0..20)
            .flat_map(|x| (0..20).map(move |y| (x, y)))
            .filter(|&(x, y)| map[x][y].tile_data == TileTextureData::Exit)
            .collect();
        if entrance != (4, 4) || exits != vec![(5, 5)] {
            continue;
        }
        seen += 1;
        for x in 0..20usize {
            for y in 0..20usize {
                let tile = map[x][y].tile_data;
                let in_room = (2..8).contains(&x) && (2..8).contains(&y);
                let on_ring = in_room && (x == 2 || x == 7 || y == 2 || y == 7);
                if (x, y) == (4, 4) {
                    assert_eq!(tile, TileTextureData::Entrance);
                } else if (x, y) == (5, 5) {
                    assert_eq!(tile, TileTextureData::Exit);
                } else if on_ring {
                    assert!(tile.connects_to_walls());
                } else if in_room {
                    assert_eq!(tile, TileTextureData::Floor);
                } else {
                    assert_eq!(tile, E);
                }
            }
        }
    }
    let _ = seen;
}

#[test]
fn markers_stand_on_the_drawn_cells_only() {
    for seed in 0..40 {
        let mut g = RoomGenerator::new(1, 20, 20, 6, 6, 1, 1, 3);
        let mut source = rng(seed);
        let (map, creatures) = g.generate_rooms(&mut source).unwrap();
        let player = creatures.last().unwrap();
        assert_eq!(player.texture.tile_data, TileTextureData::Player);
        assert!(creatures.len() <= 3);
        let mut entrances = Vec::new();
        let mut exits = Vec::new();
        for x in 0..20usize {
            for y in 0..20usize {
                match map[x][y].tile_data {
                    TileTextureData::Entrance => entrances.push((x as u32, y as u32)),
                    TileTextureData::Exit => exits.push((x as u32, y as u32)),
                    _ => {}
                }
            }
        }
        assert_eq!(entrances, vec![(player.position.x, player.position.y)]);
        assert!(exits.len() <= 1);
        for (x, y) in entrances.iter().chain(exits.iter()) {
            assert!(inside_room(&g.rooms[0], *x, *y));
        }
    }
}
