use board_plugin::app_state::{state_handler, AppState, KeysPressed, StateChange};
use board_plugin::board_assets::bomb_counter_color_index;

fn keys(clear: bool, load: bool, pause: bool, quit: bool) -> KeysPressed {
    KeysPressed { clear, load, pause, quit }
}

#[test]
fn app_state_starts_with_load() {
    assert_eq!(AppState::default(), AppState::Load);
}

#[test]
fn a_loaded_round_starts_whatever_the_keys() {
    for k in [keys(false, false, false, false), keys(true, true, true, false)] {
        assert_eq!(state_handler(AppState::Load, k).next, Some(AppState::InGame));
    }
}

#[test]
fn no_key_changes_nothing_in_play() {
    let quiet = keys(false, false, false, false);
    for state in [AppState::InGame, AppState::Paused, AppState::Out] {
        assert_eq!(state_handler(state, quiet), StateChange { next: None, exit: false });
    }
}

#[test]
fn pause_key_toggles_between_play_and_pause() {
    let pause = keys(false, false, true, false);
    assert_eq!(state_handler(AppState::InGame, pause).next, Some(AppState::Paused));
    assert_eq!(state_handler(AppState::Paused, pause).next, Some(AppState::InGame));
    assert_eq!(state_handler(AppState::Out, pause).next, None);
}

#[test]
fn clear_key_ends_a_round() {
    let clear = keys(true, false, false, false);
    assert_eq!(state_handler(AppState::InGame, clear).next, Some(AppState::Out));
    assert_eq!(state_handler(AppState::Paused, clear).next, Some(AppState::Out));
    assert_eq!(state_handler(AppState::Out, clear).next, None);
}

#[test]
fn load_key_sets_up_a_round_only_when_there_is_none() {
    let load = keys(false, true, false, false);
    assert_eq!(state_handler(AppState::Out, load).next, Some(AppState::Load));
    assert_eq!(state_handler(AppState::InGame, load).next, None);
    assert_eq!(state_handler(AppState::Paused, load).next, None);
}

#[test]
fn pause_key_wins_over_clear_key() {
    let both = keys(true, false, true, false);
    assert_eq!(state_handler(AppState::InGame, both).next, Some(AppState::Paused));
    assert_eq!(state_handler(AppState::Paused, both).next, Some(AppState::InGame));
}

#[test]
fn quit_key_asks_to_exit() {
    let quit = keys(false, false, false, true);
    for state in [AppState::Load, AppState::InGame, AppState::Paused, AppState::Out] {
        assert!(state_handler(state, quit).exit);
        assert!(!state_handler(state, keys(true, true, true, false)).exit);
    }
}

#[test]
fn bomb_counter_color_index_follows_the_count() {
    assert_eq!(bomb_counter_color_index(1, 5), Some(0));
    assert_eq!(bomb_counter_color_index(2, 5), Some(1));
    assert_eq!(bomb_counter_color_index(5, 5), Some(4));
    assert_eq!(bomb_counter_color_index(0, 5), Some(0));
}

#[test]
fn bomb_counter_color_index_falls_back_to_the_last_color() {
    assert_eq!(bomb_counter_color_index(6, 5), Some(4));
    assert_eq!(bomb_counter_color_index(8, 5), Some(4));
    assert_eq!(bomb_counter_color_index(255, 1), Some(0));
    assert_eq!(bomb_counter_color_index(3, 0), None);
    assert_eq!(bomb_counter_color_index(0, 0), None);
}
