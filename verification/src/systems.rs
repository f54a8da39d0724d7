//! The decisions of one frame: what the pointer asks for, which requests
//! the board takes, and what a round of reveals brings about.

use crate::board::{Board, BoardState, UncoverOutcome};
use crate::coordinates::Coordinates;
use crate::events::{TileMarkEvent, TileTriggerEvent};
use bevy::ecs::entity::Entity;
use vstd::prelude::*;

verus! {

/// The cells that the requests name, in their order.
pub open spec fn requested(events: Seq<TileTriggerEvent>) -> Seq<Coordinates> {
    Seq::new(events.len(), |i: int| events[i].0)
}

/// The play state after the cells of `tiles` were revealed one after the
/// other.
pub open spec fn uncover_all(state: BoardState, tiles: Seq<Coordinates>) -> BoardState
    decreases tiles.len(),
{
    if tiles.len() == 0 {
        state
    } else {
        uncover_all(state, tiles.drop_last()).uncover(tiles.last())
    }
}

/// The cells that the requests name, in their order.
pub open spec fn to_mark(events: Seq<TileMarkEvent>) -> Seq<Coordinates> {
    Seq::new(events.len(), |i: int| events[i].0)
}

/// The play state after the marks of the cells of `tiles` were toggled one
/// after the other.
pub open spec fn toggle_all(state: BoardState, tiles: Seq<Coordinates>) -> BoardState
    decreases tiles.len(),
{
    if tiles.len() == 0 {
        state
    } else {
        toggle_all(state, tiles.drop_last()).toggle_mark(tiles.last())
    }
}

/// Turns the pointer's state into requests. With the pointer over a cell of
/// the board, the left button asks to reveal that cell and the right button
/// asks to toggle its mark; anywhere else, and without a pointer, the
/// buttons ask for nothing.
pub fn input_handling(
    board: &Board,
    window_size: (u32, u32),
    cursor: Option<(i32, i32)>,
    left_pressed: bool,
    right_pressed: bool,
) -> (requests: (Option<TileTriggerEvent>, Option<TileMarkEvent>))
    requires
        board.wf(),
    ensures
        ({
            let cell = match cursor {
                Some(position) => board.cell_under(
                    position.0 - window_size.0 / 2,
                    position.1 - window_size.1 / 2,
                ),
                None => None,
            };
            &&& requests.0 == match cell {
                Some(coordinates) if left_pressed => Some(TileTriggerEvent(coordinates)),
                _ => None,
            }
            &&& requests.1 == match cell {
                Some(coordinates) if right_pressed => Some(TileMarkEvent(coordinates)),
                _ => None,
            }
        }),
{
    let position = match cursor {
        Some(position) => position,
        None => {
            return (None, None);
        },
    };
    match board.mouse_position(window_size, position) {
        Some(coordinates) => {
            let trigger = if left_pressed {
                Some(TileTriggerEvent(coordinates))
            } else {
                None
            };
            let mark = if right_pressed {
                Some(TileMarkEvent(coordinates))
            } else {
                None
            };
            (trigger, mark)
        },
        None => (None, None),
    }
}

/// Picks from the reveal requests the cells that a reveal may take: those
/// that are covered and not marked. A request for any other cell is dropped.
pub fn trigger_event_handler(board: &Board, events: &Vec<TileTriggerEvent>) -> (tiles: Vec<
    Coordinates,
>)
    requires
        board.wf(),
    ensures
        tiles@ == board@.uncoverable_among(requested(events@)),
{
    let mut tiles: Vec<Coordinates> = Vec::new();
    let mut i: usize = 0;
    while i < events.len()
        invariant
            board.wf(),
            i <= events.len(),
            tiles@ == board@.uncoverable_among(requested(events@).take(i as int)),
        decreases events.len() - i,
    {
        proof {
            assert(requested(events@).take(i + 1).drop_last() =~= requested(events@).take(
                i as int,
            ));
        }
        let coordinates = events[i].0;
        if board.tile_to_uncover(&coordinates).is_some() {
            tiles.push(coordinates);
        }
        i = i + 1;
    }
    proof {
        assert(requested(events@).take(events.len() as int) =~= requested(events@));
    }
    tiles
}

/// Reveals the cells of `tiles` one after the other and reports for each
/// what its reveal brought about. The cells named under `next` in the
/// reports are those to hand in for the following round.
pub fn uncover_tiles(board: &mut Board, tiles: &Vec<Coordinates>) -> (outcomes: Vec<UncoverOutcome>)
    requires
        old(board).wf(),
    ensures
        final(board).wf(),
        final(board)@ == uncover_all(old(board)@, tiles@),
        outcomes.len() == tiles.len(),
        forall|i: int|
            0 <= i < tiles.len() ==> (#[trigger] outcomes[i]).is_reveal_of(
                old(board).tile_map(),
                uncover_all(old(board)@, tiles@.take(i)),
                tiles[i],
            ),
        final(board).tile_map() == old(board).tile_map(),
        final(board).bounds() == old(board).bounds(),
        final(board).tile_size() == old(board).tile_size(),
        final(board).entity() == old(board).entity(),
{
    let mut outcomes: Vec<UncoverOutcome> = Vec::new();
    let mut i: usize = 0;
    while i < tiles.len()
        invariant
            board.wf(),
            i <= tiles.len(),
            outcomes.len() == i,
            board@ == uncover_all(old(board)@, tiles@.take(i as int)),
            forall|j: int|
                0 <= j < i ==> (#[trigger] outcomes[j]).is_reveal_of(
                    old(board).tile_map(),
                    uncover_all(old(board)@, tiles@.take(j)),
                    tiles[j],
                ),
            board.tile_map() == old(board).tile_map(),
            board.bounds() == old(board).bounds(),
            board.tile_size() == old(board).tile_size(),
            board.entity() == old(board).entity(),
        decreases tiles.len() - i,
    {
        proof {
            assert(tiles@.take(i + 1).drop_last() =~= tiles@.take(i as int));
        }
        let outcome = board.uncover(&tiles[i]);
        outcomes.push(outcome);
        i = i + 1;
    }
    proof {
        assert(tiles@.take(tiles.len() as int) =~= tiles@);
    }
    outcomes
}

/// Toggles the mark of each requested cell in turn and reports for each
/// request the cell's cover and whether the cell is marked now, or `None`
/// where the cell is revealed and cannot be marked.
pub fn mark_tiles(board: &mut Board, events: &Vec<TileMarkEvent>) -> (toggled: Vec<
    Option<(Entity, bool)>,
>)
    requires
        old(board).wf(),
    ensures
        final(board).wf(),
        final(board)@ == toggle_all(old(board)@, to_mark(events@)),
        toggled.len() == events.len(),
        forall|i: int|
            0 <= i < events.len() ==> #[trigger] toggled[i] == toggle_all(
                old(board)@,
                to_mark(events@).take(i),
            ).toggle_result(events[i].0),
        final(board).tile_map() == old(board).tile_map(),
        final(board).bounds() == old(board).bounds(),
        final(board).tile_size() == old(board).tile_size(),
        final(board).entity() == old(board).entity(),
{
    let mut toggled: Vec<Option<(Entity, bool)>> = Vec::new();
    let mut i: usize = 0;
    while i < events.len()
        invariant
            board.wf(),
            i <= events.len(),
            toggled.len() == i,
            board@ == toggle_all(old(board)@, to_mark(events@).take(i as int)),
            forall|j: int|
                0 <= j < i ==> #[trigger] toggled[j] == toggle_all(
                    old(board)@,
                    to_mark(events@).take(j),
                ).toggle_result(events[j].0),
            board.tile_map() == old(board).tile_map(),
            board.bounds() == old(board).bounds(),
            board.tile_size() == old(board).tile_size(),
            board.entity() == old(board).entity(),
        decreases events.len() - i,
    {
        proof {
            assert(to_mark(events@).take(i + 1).drop_last() =~= to_mark(events@).take(i as int));
        }
        let coordinates = events[i].0;
        let result = board.try_toggle_mark(&coordinates);
        toggled.push(result);
        i = i + 1;
    }
    proof {
        assert(to_mark(events@).take(events.len() as int) =~= to_mark(events@));
    }
    toggled
}

} // verus!
