//! The states of the game around a round of play, and the keys that move
//! it from one to the next.

use vstd::prelude::*;

verus! {

/// Where the game stands.
#[derive(Clone, Copy, Debug, PartialEq, Eq, Hash, Structural)]
pub enum AppState {
    /// A round is being set up.
    Load,
    /// A round is played.
    InGame,
    /// The round is halted.
    Paused,
    /// No round: the board was cleared.
    Out,
}

impl Default for AppState {
    fn default() -> (state: AppState)
        ensures
            state == AppState::Load,
    {
        AppState::Load
    }
}

/// The keys that were pressed in this frame, by what they ask for.
#[derive(Clone, Copy, Debug, PartialEq, Eq, Structural)]
pub struct KeysPressed {
    /// Clear the board.
    pub clear: bool,
    /// Set up a new round.
    pub load: bool,
    /// Halt the round, or go on with it.
    pub pause: bool,
    /// Leave the game.
    pub quit: bool,
}

/// What the keys bring about.
#[derive(Clone, Copy, Debug, PartialEq, Eq, Structural)]
pub struct StateChange {
    /// The state to enter, where the state changes.
    pub next: Option<AppState>,
    /// Whether to leave the game.
    pub exit: bool,
}

/// The state that follows `current` under `keys`, or `None` where the state
/// stays. A round that is set up starts at once, whatever the keys. The
/// pause key halts a round and lets a halted round go on. The load key sets
/// up a round where there is none. The clear key ends a round, unless the
/// pause key is pressed with it.
pub open spec fn next_state(current: AppState, keys: KeysPressed) -> Option<AppState> {
    if current == AppState::Load {
        Some(AppState::InGame)
    } else if keys.pause && current == AppState::InGame {
        Some(AppState::Paused)
    } else if keys.pause && current == AppState::Paused {
        Some(AppState::InGame)
    } else if keys.load && current == AppState::Out {
        Some(AppState::Load)
    } else if keys.clear && current != AppState::Out {
        Some(AppState::Out)
    } else {
        None
    }
}

/// Decides what the keys of this frame bring about in the state `current`.
pub fn state_handler(current: AppState, keys: KeysPressed) -> (change: StateChange)
    ensures
        change.next == next_state(current, keys),
        change.exit == keys.quit,
{
    let mut next: Option<AppState> = None;
    if keys.clear && current != AppState::Out {
        next = Some(AppState::Out);
    }
    if keys.load && current == AppState::Out {
        next = Some(AppState::Load);
    }
    if keys.pause {
        if current == AppState::InGame {
            next = Some(AppState::Paused);
        } else if current == AppState::Paused {
            next = Some(AppState::InGame);
        }
    }
    if current == AppState::Load {
        next = Some(AppState::InGame);
    }
    StateChange { next, exit: keys.quit }
}

} // verus!
