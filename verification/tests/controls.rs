use cityscape::controls::ControlState;
use cityscape::controls::CursorAction;
use cityscape::controls::Drag;
use cityscape::controls::KeyEvents;
use cityscape::cursor_lock::CursorLock;

fn quiet() -> KeyEvents {
    KeyEvents {
        shift_pressed: false,
        shift_released: false,
        control_pressed: false,
        control_released: false,
        alt_pressed: false,
        alt_released: false,
    }
}

#[test]
fn a_new_lock_is_free() {
    let lock = CursorLock::new();
    assert_eq!(lock.holders(), 0);
    assert!(!lock.is_locked());
}

#[test]
fn the_first_lock_captures_and_the_last_unlock_frees() {
    let mut lock = CursorLock::new();
    assert!(lock.lock());
    assert!(!lock.lock());
    assert!(!lock.lock());
    assert_eq!(lock.holders(), 3);
    assert!(lock.is_locked());
    assert!(!lock.unlock());
    assert!(!lock.unlock());
    assert!(lock.is_locked());
    assert!(lock.unlock());
    assert_eq!(lock.holders(), 0);
    assert!(!lock.is_locked());
}

#[test]
fn unlocking_a_free_lock_does_nothing() {
    let mut lock = CursorLock::new();
    assert!(!lock.unlock());
    assert_eq!(lock.holders(), 0);
    assert!(lock.lock());
    assert_eq!(lock.holders(), 1);
}

#[test]
fn no_mode_is_on_at_first() {
    let state = ControlState::new();
    assert_eq!(state, ControlState { panning: false, turning: false, zooming: false });
    assert_eq!(state.drag(), None);
}

#[test]
fn panning_goes_before_turning_before_zooming() {
    let on = |panning, turning, zooming| ControlState { panning, turning, zooming }.drag();
    assert_eq!(on(true, true, true), Some(Drag::Pan));
    assert_eq!(on(true, false, true), Some(Drag::Pan));
    assert_eq!(on(false, true, true), Some(Drag::Turn));
    assert_eq!(on(false, true, false), Some(Drag::Turn));
    assert_eq!(on(false, false, true), Some(Drag::Zoom));
    assert_eq!(on(false, false, false), None);
}

#[test]
fn quiet_keys_change_nothing() {
    let mut state = ControlState { panning: true, turning: false, zooming: true };
    let mut lock = CursorLock::new();
    lock.lock();
    lock.lock();
    let actions = state.handle_keys(&mut lock, quiet());
    assert!(actions.is_empty());
    assert_eq!(state, ControlState { panning: true, turning: false, zooming: true });
    assert_eq!(lock.holders(), 2);
}

#[test]
fn pressing_shift_starts_panning_and_grabs_the_cursor() {
    let mut state = ControlState::new();
    let mut lock = CursorLock::new();
    let actions = state.handle_keys(&mut lock, KeyEvents { shift_pressed: true, ..quiet() });
    assert_eq!(actions, vec![CursorAction::Grab]);
    assert!(state.panning && !state.turning && !state.zooming);
    assert_eq!(lock.holders(), 1);
    let actions = state.handle_keys(&mut lock, KeyEvents { shift_released: true, ..quiet() });
    assert_eq!(actions, vec![CursorAction::Release]);
    assert_eq!(state, ControlState::new());
    assert_eq!(lock.holders(), 0);
}

#[test]
fn a_second_mode_shares_the_grab() {
    let mut state = ControlState::new();
    let mut lock = CursorLock::new();
    let actions = state.handle_keys(&mut lock, KeyEvents { control_pressed: true, ..quiet() });
    assert_eq!(actions, vec![CursorAction::Grab]);
    let actions = state.handle_keys(&mut lock, KeyEvents { alt_pressed: true, ..quiet() });
    assert!(actions.is_empty());
    assert_eq!(state, ControlState { panning: false, turning: true, zooming: true });
    assert_eq!(state.drag(), Some(Drag::Turn));
    assert_eq!(lock.holders(), 2);
    let actions = state.handle_keys(&mut lock, KeyEvents { control_released: true, ..quiet() });
    assert!(actions.is_empty());
    assert_eq!(state.drag(), Some(Drag::Zoom));
    let actions = state.handle_keys(&mut lock, KeyEvents { alt_released: true, ..quiet() });
    assert_eq!(actions, vec![CursorAction::Release]);
    assert_eq!(state.drag(), None);
    assert_eq!(lock.holders(), 0);
}

#[test]
fn press_and_release_in_one_frame_grab_and_release() {
    let mut state = ControlState::new();
    let mut lock = CursorLock::new();
    let keys = KeyEvents { shift_pressed: true, shift_released: true, ..quiet() };
    let actions = state.handle_keys(&mut lock, keys);
    assert_eq!(actions, vec![CursorAction::Grab, CursorAction::Release]);
    assert_eq!(state, ControlState::new());
    assert_eq!(lock.holders(), 0);
}

#[test]
fn all_keys_in_one_frame_are_handled_in_order() {
    let mut state = ControlState::new();
    let mut lock = CursorLock::new();
    let keys = KeyEvents {
        shift_pressed: true,
        shift_released: true,
        control_pressed: true,
        control_released: false,
        alt_pressed: true,
        alt_released: true,
    };
    let actions = state.handle_keys(&mut lock, keys);
    assert_eq!(actions, vec![CursorAction::Grab, CursorAction::Release, CursorAction::Grab]);
    assert_eq!(state, ControlState { panning: false, turning: true, zooming: false });
    assert_eq!(lock.holders(), 1);
}

#[test]
fn a_release_without_a_press_leaves_a_free_lock_alone() {
    let mut state = ControlState { panning: true, turning: false, zooming: false };
    let mut lock = CursorLock::new();
    let actions = state.handle_keys(&mut lock, KeyEvents { shift_released: true, ..quiet() });
    assert!(actions.is_empty());
    assert!(!state.panning);
    assert_eq!(lock.holders(), 0);
}

#[test]
fn a_release_of_one_key_frees_a_mode_held_by_others() {
    let mut state = ControlState::new();
    let mut lock = CursorLock::new();
    // two presses of one pair in two frames, then one release
    state.handle_keys(&mut lock, KeyEvents { shift_pressed: true, ..quiet() });
    let actions = state.handle_keys(&mut lock, KeyEvents { shift_pressed: true, ..quiet() });
    assert!(actions.is_empty());
    assert_eq!(lock.holders(), 2);
    let actions = state.handle_keys(&mut lock, KeyEvents { shift_released: true, ..quiet() });
    assert!(actions.is_empty());
    assert!(!state.panning);
    assert_eq!(lock.holders(), 1);
    assert!(lock.is_locked());
}

#[test]
fn the_cursor_is_captured_while_the_lock_is_held() {
    let mut state = ControlState::new();
    let mut lock = CursorLock::new();
    let mut captured = false;
    for frame in 0..64u32 {
        let bit = |n: u32| (frame.wrapping_mul(2654435761) >> n) & 1 == 1;
        let keys = KeyEvents {
            shift_pressed: bit(3),
            shift_released: bit(7),
            control_pressed: bit(11),
            control_released: bit(13),
            alt_pressed: bit(17),
            alt_released: bit(19),
        };
        for action in state.handle_keys(&mut lock, keys) {
            match action {
                CursorAction::Grab => {
                    assert!(!captured);
                    captured = true;
                }
                CursorAction::Release => {
                    assert!(captured);
                    captured = false;
                }
            }
        }
        assert_eq!(captured, lock.is_locked());
    }
}

#[test]
fn an_unlock_of_a_free_lock_is_an_overdraw() {
    let release = KeyEvents { shift_released: true, ..quiet() };
    assert!(release.is_overdrawn(0));
    assert!(!release.is_overdrawn(1));
    let both = KeyEvents { shift_pressed: true, shift_released: true, ..quiet() };
    assert!(!both.is_overdrawn(0));
    let two = KeyEvents { shift_released: true, alt_released: true, ..quiet() };
    assert!(two.is_overdrawn(1));
    assert!(!two.is_overdrawn(2));
    let later = KeyEvents { control_pressed: true, alt_released: true, ..quiet() };
    assert!(!later.is_overdrawn(0));
    let earlier = KeyEvents { control_released: true, alt_pressed: true, ..quiet() };
    assert!(earlier.is_overdrawn(0));
    assert!(!quiet().is_overdrawn(0));
}

#[test]
fn holders_are_countable_below_the_top() {
    let press = KeyEvents { shift_pressed: true, ..quiet() };
    assert!(press.is_countable(0));
    assert!(press.is_countable(usize::MAX - 1));
    assert!(!press.is_countable(usize::MAX));
    assert!(quiet().is_countable(usize::MAX));
    let release_first = KeyEvents { shift_released: true, control_pressed: true, ..quiet() };
    assert!(release_first.is_countable(usize::MAX));
    let all = KeyEvents {
        shift_pressed: true,
        shift_released: false,
        control_pressed: true,
        control_released: false,
        alt_pressed: true,
        alt_released: false,
    };
    assert!(all.is_countable(usize::MAX - 3));
    assert!(!all.is_countable(usize::MAX - 2));
    let swing = KeyEvents {
        shift_pressed: true,
        shift_released: true,
        control_pressed: true,
        control_released: true,
        alt_pressed: true,
        alt_released: true,
    };
    assert!(swing.is_countable(usize::MAX - 1));
    assert!(!swing.is_countable(usize::MAX));
}

#[test]
fn holders_at_the_top_are_still_counted() {
    let mut state = ControlState::new();
    let mut lock = CursorLock::new();
    let release = KeyEvents { control_released: true, ..quiet() };
    let press = KeyEvents { control_pressed: true, ..quiet() };
    for _ in 0..5 {
        state.handle_keys(&mut lock, press);
    }
    assert_eq!(lock.holders(), 5);
    for _ in 0..4 {
        assert!(state.handle_keys(&mut lock, release).is_empty());
    }
    assert_eq!(state.handle_keys(&mut lock, release), vec![CursorAction::Release]);
    assert_eq!(lock.holders(), 0);
}
