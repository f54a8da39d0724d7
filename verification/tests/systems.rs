use bevy::ecs::entity::Entity;
use board_plugin::board::Board;
use board_plugin::coordinates::Coordinates;
use board_plugin::events::{TileMarkEvent, TileTriggerEvent};
use board_plugin::systems::{input_handling, trigger_event_handler, uncover_tiles};
use board_plugin::tile_map::TileMap;

fn small_board() -> Board {
    let mut map = TileMap::empty(3, 3);
    map.place_bomb(0);
    map.add_bombs(0);
    let covers: Vec<Entity> = (0..9).map(Entity::from_raw).collect();
    Board::new(map, (0, 0), 16, &covers, Entity::from_raw(99))
}

#[test]
fn input_handling_without_a_pointer_asks_for_nothing() {
    let board = small_board();
    let (trigger, mark) = input_handling(&board, (0, 0), None, true, true);
    assert!(trigger.is_none());
    assert!(mark.is_none());
}

#[test]
fn input_handling_outside_the_board_asks_for_nothing() {
    let board = small_board();
    let (trigger, mark) = input_handling(&board, (0, 0), Some((48, 0)), true, true);
    assert!(trigger.is_none());
    assert!(mark.is_none());
}

#[test]
fn input_handling_left_button_asks_for_a_reveal() {
    let board = small_board();
    let (trigger, mark) = input_handling(&board, (0, 0), Some((17, 40)), true, false);
    assert_eq!(trigger.map(|e| e.0), Some(Coordinates { x: 1, y: 2 }));
    assert!(mark.is_none());
}

#[test]
fn input_handling_right_button_asks_for_a_mark() {
    let board = small_board();
    let (trigger, mark) = input_handling(&board, (0, 0), Some((47, 0)), false, true);
    assert!(trigger.is_none());
    assert_eq!(mark.map(|e| e.0), Some(Coordinates { x: 2, y: 0 }));
}

#[test]
fn input_handling_both_buttons_ask_for_both() {
    let board = small_board();
    let (trigger, mark) = input_handling(&board, (20, 20), Some((10, 10)), true, true);
    assert_eq!(trigger.map(|e| e.0), Some(Coordinates { x: 0, y: 0 }));
    assert_eq!(mark.map(|e| e.0), Some(Coordinates { x: 0, y: 0 }));
    let (trigger, mark) = input_handling(&board, (20, 20), Some((10, 10)), false, false);
    assert!(trigger.is_none());
    assert!(mark.is_none());
}

#[test]
fn trigger_event_handler_drops_marked_and_revealed_cells() {
    let mut board = small_board();
    board.try_toggle_mark(&Coordinates { x: 1, y: 1 });
    board.try_uncover_tile(&Coordinates { x: 2, y: 2 });
    let events = vec![
        TileTriggerEvent(Coordinates { x: 0, y: 0 }),
        TileTriggerEvent(Coordinates { x: 1, y: 1 }),
        TileTriggerEvent(Coordinates { x: 2, y: 2 }),
        TileTriggerEvent(Coordinates { x: 5, y: 5 }),
        TileTriggerEvent(Coordinates { x: 2, y: 1 }),
    ];
    let tiles = trigger_event_handler(&board, &events);
    assert_eq!(tiles, vec![Coordinates { x: 0, y: 0 }, Coordinates { x: 2, y: 1 }]);
    assert!(trigger_event_handler(&board, &Vec::new()).is_empty());
}

#[test]
fn uncover_tiles_reports_each_cell_in_turn() {
    let mut board = small_board();
    let tiles = vec![
        Coordinates { x: 1, y: 1 },
        Coordinates { x: 1, y: 1 },
        Coordinates { x: 0, y: 0 },
        Coordinates { x: 2, y: 2 },
    ];
    let outcomes = uncover_tiles(&mut board, &tiles);
    assert_eq!(outcomes.len(), 4);
    assert_eq!(outcomes[0].cover, Some(Entity::from_raw(4)));
    assert!(outcomes[0].next.is_empty());
    assert_eq!(outcomes[1].cover, None);
    assert_eq!(outcomes[2].cover, Some(Entity::from_raw(0)));
    assert!(outcomes[2].exploded.is_some());
    assert!(outcomes[2].next.is_empty());
    assert_eq!(outcomes[3].cover, Some(Entity::from_raw(8)));
    assert!(outcomes[3].exploded.is_none());
    assert_eq!(outcomes[3].next, vec![Coordinates { x: 2, y: 1 }, Coordinates { x: 1, y: 2 }]);
    assert_eq!(board.covered_count(), 6);
}

#[test]
fn mark_request_event_carries_its_cell() {
    let event = TileMarkEvent(Coordinates { x: 3, y: 4 });
    assert_eq!(event.0, Coordinates { x: 3, y: 4 });
}

#[test]
fn mark_tiles_toggles_each_request_in_turn() {
    let mut board = small_board();
    board.try_uncover_tile(&Coordinates { x: 2, y: 2 });
    let events = vec![
        TileMarkEvent(Coordinates { x: 1, y: 1 }),
        TileMarkEvent(Coordinates { x: 2, y: 2 }),
        TileMarkEvent(Coordinates { x: 0, y: 1 }),
        TileMarkEvent(Coordinates { x: 1, y: 1 }),
        TileMarkEvent(Coordinates { x: 7, y: 7 }),
    ];
    let toggled = board_plugin::systems::mark_tiles(&mut board, &events);
    assert_eq!(
        toggled,
        vec![
            Some((Entity::from_raw(4), true)),
            None,
            Some((Entity::from_raw(3), true)),
            Some((Entity::from_raw(4), false)),
            None,
        ]
    );
    assert_eq!(board.marked_tiles(), &vec![Coordinates { x: 0, y: 1 }]);
    assert_eq!(board.covered_count(), 8);
}
