use board_plugin::coordinates::Coordinates;
use board_plugin::text::push_decimal;
use board_plugin::tile::Tile;
use board_plugin::tile_map::TileMap;

#[test]
fn push_decimal_writes_the_digits() {
    for n in [0u16, 7, 9, 10, 11, 99, 100, 101, 4096, 9999, 10000, 65535] {
        let mut out = String::from("n=");
        push_decimal(&mut out, n);
        assert_eq!(out, format!("n={}", n));
    }
}

#[test]
fn coordinates_to_text() {
    assert_eq!(Coordinates { x: 0, y: 0 }.to_text(), "(0, 0)");
    assert_eq!(Coordinates { x: 12, y: 340 }.to_text(), "(12, 340)");
    assert_eq!(Coordinates { x: u16::MAX, y: 1 }.to_text(), "(65535, 1)");
}

#[test]
fn tile_console_output() {
    assert_eq!(Tile::Bomb.console_output(), "*");
    assert_eq!(Tile::Empty.console_output(), " ");
    assert_eq!(Tile::Neighbor(1).console_output(), "1");
    assert_eq!(Tile::Neighbor(8).console_output(), "8");
}

#[test]
fn console_output_of_an_empty_map() {
    let map = TileMap::empty(2, 1);
    assert_eq!(map.console_output(), "Map (2, 1) with 0 bombs:\n----\n|  |\n----");
}

#[test]
fn console_output_puts_the_last_row_on_top() {
    let mut map = TileMap::empty(3, 2);
    map.place_bomb(0);
    map.add_bombs(0);
    assert_eq!(map.console_output(), "Map (3, 2) with 1 bombs:\n-----\n|11 |\n|*1 |\n-----");
}

#[test]
fn console_output_of_a_larger_map() {
    let mut map = TileMap::empty(12, 3);
    map.place_bomb(35);
    map.place_bomb(0);
    map.add_bombs(0);
    let expected = "Map (12, 3) with 2 bombs:\n\
                    --------------\n\
                    |          1*|\n\
                    |11        11|\n\
                    |*1          |\n\
                    --------------";
    assert_eq!(map.console_output(), expected);
}
