use board_plugin::components::Neighbor;
use board_plugin::coordinates::Coordinates;
use board_plugin::tile::Tile;
use board_plugin::tile_map::{GenerationError, TileMap};

fn at(x: u16, y: u16) -> Coordinates {
    Coordinates { x, y }
}

fn bombs_in(map: &TileMap) -> usize {
    let mut n = 0;
    for y in 0..map.height() {
        for x in 0..map.width() {
            if map.tile(at(x, y)) == Some(Tile::Bomb) {
                n += 1;
            }
        }
    }
    n
}

fn bombs_next_to(map: &TileMap, x: u16, y: u16) -> u8 {
    let mut n = 0;
    for dy in -1i32..=1 {
        for dx in -1i32..=1 {
            if dx == 0 && dy == 0 {
                continue;
            }
            let (nx, ny) = (x as i32 + dx, y as i32 + dy);
            if nx >= 0 && ny >= 0 && nx < map.width() as i32 && ny < map.height() as i32 {
                if map.tile(at(nx as u16, ny as u16)) == Some(Tile::Bomb) {
                    n += 1;
                }
            }
        }
    }
    n
}

fn assert_labelled(map: &TileMap) {
    for y in 0..map.height() {
        for x in 0..map.width() {
            let around = bombs_next_to(map, x, y);
            match map.tile(at(x, y)).unwrap() {
                Tile::Bomb => assert!(map.is_bomb_at(at(x, y))),
                Tile::Neighbor(n) => {
                    assert!(n >= 1 && n <= 8);
                    assert_eq!(n, around);
                    assert!(!map.is_bomb_at(at(x, y)));
                }
                Tile::Empty => {
                    assert_eq!(around, 0);
                    assert!(!map.is_bomb_at(at(x, y)));
                }
            }
        }
    }
}

#[test]
fn empty_map_has_size_and_only_empty_tiles() {
    let map = TileMap::empty(3, 2);
    assert_eq!(map.width(), 3);
    assert_eq!(map.height(), 2);
    assert_eq!(map.bomb_count(), 0);
    for y in 0..2 {
        for x in 0..3 {
            assert_eq!(map.tile(at(x, y)), Some(Tile::Empty));
        }
    }
    assert_eq!(map.tile(at(3, 0)), None);
    assert_eq!(map.tile(at(0, 2)), None);
}

#[test]
fn add_bombs_places_the_requested_number() {
    let mut map = TileMap::empty(20, 20);
    map.add_bombs(40);
    assert_eq!(map.bomb_count(), 40);
    assert_eq!(bombs_in(&map), 40);
    assert_eq!(map.width(), 20);
    assert_eq!(map.height(), 20);
}

#[test]
fn add_bombs_labels_every_tile_with_its_true_count() {
    for _ in 0..20 {
        let mut map = TileMap::empty(9, 7);
        map.add_bombs(15);
        assert_eq!(bombs_in(&map), 15);
        assert_labelled(&map);
    }
}

#[test]
fn add_bombs_with_zero_bombs_leaves_the_map_empty() {
    let mut map = TileMap::empty(4, 4);
    map.add_bombs(0);
    assert_eq!(map.bomb_count(), 0);
    assert_eq!(bombs_in(&map), 0);
    for y in 0..4 {
        for x in 0..4 {
            assert_eq!(map.tile(at(x, y)), Some(Tile::Empty));
        }
    }
}

#[test]
fn add_bombs_can_fill_all_but_one_tile() {
    let mut map = TileMap::empty(3, 3);
    map.add_bombs(8);
    assert_eq!(bombs_in(&map), 8);
    assert_labelled(&map);
    assert_eq!(map.first_empty(), None);
}

#[test]
fn add_bombs_on_a_single_row() {
    let mut map = TileMap::empty(10, 1);
    map.add_bombs(3);
    assert_eq!(bombs_in(&map), 3);
    assert_labelled(&map);
}

#[test]
fn add_bombs_reaches_every_tile_over_many_draws() {
    let mut hit = [[false; 3]; 3];
    for _ in 0..400 {
        let mut map = TileMap::empty(3, 3);
        map.add_bombs(1);
        for y in 0..3u16 {
            for x in 0..3u16 {
                if map.is_bomb_at(at(x, y)) {
                    hit[y as usize][x as usize] = true;
                }
            }
        }
    }
    for row in hit.iter() {
        for cell in row.iter() {
            assert!(*cell);
        }
    }
}

#[test]
fn place_bomb_takes_the_free_tile_of_that_rank() {
    let mut map = TileMap::empty(2, 2);
    assert_eq!(map.place_bomb(0), at(0, 0));
    assert_eq!(map.place_bomb(0), at(1, 0));
    assert_eq!(map.place_bomb(1), at(1, 1));
    assert_eq!(map.bomb_count(), 3);
    assert_eq!(map.tile(at(0, 0)), Some(Tile::Bomb));
    assert_eq!(map.tile(at(1, 0)), Some(Tile::Bomb));
    assert_eq!(map.tile(at(0, 1)), Some(Tile::Empty));
    assert_eq!(map.tile(at(1, 1)), Some(Tile::Bomb));
}

#[test]
fn place_bomb_counts_rows_from_the_first() {
    let mut map = TileMap::empty(3, 3);
    assert_eq!(map.place_bomb(4), at(1, 1));
    assert_eq!(map.place_bomb(7), at(2, 2));
    assert_eq!(map.place_bomb(4), at(2, 1));
    assert_eq!(bombs_in(&map), 3);
}

#[test]
fn placed_bomb_is_labelled_by_add_bombs() {
    let mut map = TileMap::empty(5, 5);
    assert_eq!(map.place_bomb(0), at(0, 0));
    map.add_bombs(0);
    assert_eq!(map.bomb_count(), 1);
    assert_eq!(map.tile(at(0, 0)), Some(Tile::Bomb));
    assert_eq!(map.tile(at(1, 0)), Some(Tile::Neighbor(1)));
    assert_eq!(map.tile(at(0, 1)), Some(Tile::Neighbor(1)));
    assert_eq!(map.tile(at(1, 1)), Some(Tile::Neighbor(1)));
    for y in 0..5 {
        for x in 0..5 {
            if x > 1 || y > 1 {
                assert_eq!(map.tile(at(x, y)), Some(Tile::Empty));
            }
        }
    }
}

#[test]
fn add_bombs_keeps_the_bombs_that_were_placed() {
    let mut map = TileMap::empty(4, 4);
    map.place_bomb(5);
    map.add_bombs(6);
    assert_eq!(map.bomb_count(), 7);
    assert_eq!(bombs_in(&map), 7);
    assert!(map.is_bomb_at(at(1, 1)));
    assert_labelled(&map);
}

#[test]
fn neighbor_count_of_a_tile_in_the_middle_of_eight_bombs() {
    let mut map = TileMap::empty(3, 3);
    for pick in [0, 0, 0, 0, 1, 1, 1, 1] {
        map.place_bomb(pick);
    }
    map.add_bombs(0);
    assert_eq!(map.tile(at(1, 1)), Some(Tile::Neighbor(8)));
    assert_eq!(map.bomb_count_at(at(1, 1)), 8);
    assert_eq!(map.bomb_count(), 8);
}

#[test]
fn surrounding_tiles_come_in_the_fixed_order() {
    let map = TileMap::empty(10, 10);
    assert_eq!(
        map.surrounding_tiles(at(5, 5)),
        vec![at(4, 4), at(5, 4), at(6, 4), at(4, 5), at(6, 5), at(4, 6), at(5, 6), at(6, 6)]
    );
}

#[test]
fn surrounding_tiles_of_a_corner_leave_the_grid() {
    let map = TileMap::empty(4, 4);
    let around = map.surrounding_tiles(at(0, 0));
    assert_eq!(around.len(), 8);
    let m = u16::MAX;
    assert_eq!(
        around,
        vec![at(m, m), at(0, m), at(1, m), at(m, 0), at(1, 0), at(m, 1), at(0, 1), at(1, 1)]
    );
    for c in around {
        if c.x >= 4 || c.y >= 4 {
            assert!(!map.is_bomb_at(c));
            assert_eq!(map.tile(c), None);
        }
    }
}

#[test]
fn surrounding_tiles_never_exceed_eight() {
    let map = TileMap::empty(2, 2);
    for c in [at(0, 0), at(1, 1), at(7, 3), at(u16::MAX, u16::MAX), at(0, u16::MAX)] {
        assert!(map.surrounding_tiles(c).len() <= 8);
    }
}

#[test]
fn is_bomb_at_is_false_outside_the_grid() {
    let mut map = TileMap::empty(2, 2);
    map.add_bombs(3);
    assert!(!map.is_bomb_at(at(2, 0)));
    assert!(!map.is_bomb_at(at(0, 2)));
    assert!(!map.is_bomb_at(at(u16::MAX, u16::MAX)));
    let inside = [at(0, 0), at(1, 0), at(0, 1), at(1, 1)];
    assert_eq!(inside.iter().filter(|c| map.is_bomb_at(**c)).count(), 3);
}

#[test]
fn bomb_count_at_counts_the_neighbors() {
    let mut map = TileMap::empty(3, 3);
    map.place_bomb(0);
    map.place_bomb(1);
    map.add_bombs(0);
    // bombs at (0, 0) and (2, 0)
    assert_eq!(map.bomb_count_at(at(0, 0)), 0);
    assert_eq!(map.bomb_count_at(at(1, 0)), 2);
    assert_eq!(map.bomb_count_at(at(1, 1)), 2);
    assert_eq!(map.bomb_count_at(at(0, 1)), 1);
    assert_eq!(map.bomb_count_at(at(2, 1)), 1);
    assert_eq!(map.bomb_count_at(at(1, 2)), 0);
    assert_eq!(map.bomb_count_at(at(3, 0)), 1);
    assert_eq!(map.bomb_count_at(at(9, 9)), 0);
}

#[test]
fn first_empty_scans_rows_from_the_first() {
    let mut map = TileMap::empty(3, 3);
    map.place_bomb(0);
    map.add_bombs(0);
    assert_eq!(map.first_empty(), Some(at(2, 0)));
    let blank = TileMap::empty(3, 3);
    assert_eq!(blank.first_empty(), Some(at(0, 0)));
}

#[test]
fn clone_copies_the_map() {
    let mut map = TileMap::empty(6, 5);
    map.add_bombs(9);
    let copy = map.clone();
    assert_eq!(copy.width(), 6);
    assert_eq!(copy.height(), 5);
    assert_eq!(copy.bomb_count(), 9);
    for y in 0..5 {
        for x in 0..6 {
            assert_eq!(copy.tile(at(x, y)), map.tile(at(x, y)));
        }
    }
}

#[test]
fn neighbor_component_of_a_tile() {
    assert_eq!(Neighbor::of(Tile::Neighbor(3)), Some(Neighbor { count: 3 }));
    assert_eq!(Neighbor::of(Tile::Bomb), None);
    assert_eq!(Neighbor::of(Tile::Empty), None);
    assert!(Tile::Bomb.is_bomb());
    assert!(!Tile::Neighbor(1).is_bomb());
    assert!(!Tile::Empty.is_bomb());
}

#[test]
fn generate_refuses_a_map_without_tiles() {
    assert_eq!(TileMap::generate(0, 5, 0).err(), Some(GenerationError::NoTiles));
    assert_eq!(TileMap::generate(5, 0, 0).err(), Some(GenerationError::NoTiles));
    assert_eq!(TileMap::generate(0, 0, 3).err(), Some(GenerationError::NoTiles));
}

#[test]
fn generate_refuses_as_many_bombs_as_tiles() {
    assert_eq!(TileMap::generate(3, 3, 9).err(), Some(GenerationError::TooManyBombs));
    assert_eq!(TileMap::generate(3, 3, 10).err(), Some(GenerationError::TooManyBombs));
    assert_eq!(TileMap::generate(1, 1, 1).err(), Some(GenerationError::TooManyBombs));
    assert!(TileMap::generate(3, 3, 8).is_ok());
    assert!(TileMap::generate(1, 1, 0).is_ok());
}

#[test]
fn generate_gives_a_labelled_map() {
    let map = TileMap::generate(15, 15, 30).unwrap();
    assert_eq!(map.width(), 15);
    assert_eq!(map.height(), 15);
    assert_eq!(map.bomb_count(), 30);
    assert_eq!(bombs_in(&map), 30);
    assert_labelled(&map);
}
