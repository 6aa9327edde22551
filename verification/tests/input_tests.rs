use doom_terminal::input::{
    is_held_action, map_key_to_action, process_key_event, InputAction, InputState,
    InputStateUpdateParams, KeyCode, KeyEvent, KeyEventKind, ProcessKeyEventParams,
    INPUT_HELD_ACTION_STALE_TIMEOUT_NANOS,
};

const MILLISECOND_NANOS: u64 = 1_000_000;

fn key(code: KeyCode) -> KeyEvent {
    KeyEvent {
        code,
        control: false,
        kind: KeyEventKind::Press,
    }
}

fn key_with_ctrl(code: KeyCode) -> KeyEvent {
    KeyEvent {
        code,
        control: true,
        kind: KeyEventKind::Press,
    }
}

#[test]
fn expire_stale_removes_old_held_actions() {
    let mut state = InputState::new();
    let t0: u64 = 5_000_000_000;
    state.update(InputStateUpdateParams {
        pressed: &[InputAction::MoveForward],
        now: t0,
    });
    assert_eq!(state.ordered_held_actions(), vec![InputAction::MoveForward]);

    let t1 = t0 + INPUT_HELD_ACTION_STALE_TIMEOUT_NANOS + MILLISECOND_NANOS;
    state.update(InputStateUpdateParams {
        pressed: &[],
        now: t1,
    });
    assert!(state.ordered_held_actions().is_empty());
}

#[test]
fn discrete_pressed_actions_deduplicates_and_excludes_held() {
    let mut state = InputState::new();
    let t0: u64 = 5_000_000_000;
    state.update(InputStateUpdateParams {
        pressed: &[InputAction::MoveForward],
        now: t0,
    });

    let pressed = vec![
        InputAction::MoveForward,
        InputAction::WeaponPrev,
        InputAction::WeaponPrev,
    ];
    let discrete = state.discrete_pressed_actions(&pressed);
    assert_eq!(discrete, vec![InputAction::WeaponPrev]);
}

#[test]
fn opposing_held_actions_cancel_each_other() {
    let mut state = InputState::new();
    let t0: u64 = 5_000_000_000;
    state.update(InputStateUpdateParams {
        pressed: &[InputAction::MoveForward, InputAction::MoveBackward],
        now: t0,
    });
    let held = state.ordered_held_actions();
    assert!(!held.contains(&InputAction::MoveForward));
    assert!(!held.contains(&InputAction::MoveBackward));
}

#[test]
fn map_key_to_action_maps_supported_keys() {
    assert!(matches!(map_key_to_action(key(KeyCode::Esc)), Some(InputAction::Quit)));
    assert!(matches!(map_key_to_action(key(KeyCode::Up)), Some(InputAction::MoveForward)));
    assert!(matches!(map_key_to_action(key(KeyCode::Char('w'))), Some(InputAction::MoveForward)));
    assert!(matches!(map_key_to_action(key(KeyCode::Char('s'))), Some(InputAction::MoveBackward)));
    assert!(matches!(map_key_to_action(key(KeyCode::Left)), Some(InputAction::RotateLeft)));
    assert!(matches!(map_key_to_action(key(KeyCode::Char('a'))), Some(InputAction::RotateLeft)));
    assert!(matches!(map_key_to_action(key(KeyCode::Char('d'))), Some(InputAction::RotateRight)));
    assert!(matches!(map_key_to_action(key(KeyCode::Char('z'))), Some(InputAction::StrafeLeft)));
    assert!(matches!(map_key_to_action(key(KeyCode::Char('c'))), Some(InputAction::StrafeRight)));
    assert!(matches!(map_key_to_action(key(KeyCode::Char(' '))), Some(InputAction::Fire)));
    assert!(matches!(map_key_to_action(key_with_ctrl(KeyCode::Char('a'))), Some(InputAction::Use)));
    assert!(matches!(map_key_to_action(key(KeyCode::Tab)), Some(InputAction::ToggleAutomap)));
    assert!(matches!(map_key_to_action(key(KeyCode::Char('p'))), Some(InputAction::OpenMenu)));
    assert!(matches!(map_key_to_action(key(KeyCode::Enter)), Some(InputAction::ConfirmMenu)));
    assert!(matches!(map_key_to_action(key(KeyCode::Backspace)), Some(InputAction::BackMenu)));
    assert!(matches!(map_key_to_action(key(KeyCode::Char('q'))), Some(InputAction::WeaponPrev)));
    assert!(matches!(map_key_to_action(key(KeyCode::Char('e'))), Some(InputAction::WeaponNext)));
}

#[test]
fn map_key_to_action_returns_none_for_unknown_key() {
    assert!(map_key_to_action(key(KeyCode::Char('v'))).is_none());
}

#[test]
fn uppercase_letters_map_like_lowercase() {
    assert_eq!(map_key_to_action(key(KeyCode::Char('W'))), Some(InputAction::MoveForward));
    assert_eq!(map_key_to_action(key(KeyCode::Char('E'))), Some(InputAction::WeaponNext));
    assert_eq!(map_key_to_action(key(KeyCode::Other)), None);
}

#[test]
fn held_actions_are_movement_turning_and_fire() {
    assert!(is_held_action(InputAction::MoveForward));
    assert!(is_held_action(InputAction::Fire));
    assert!(!is_held_action(InputAction::Use));
    assert!(!is_held_action(InputAction::Quit));
    assert!(!is_held_action(InputAction::WeaponNext));
}

#[test]
fn process_key_event_sorts_presses_repeats_and_releases() {
    let mut pressed = Vec::new();
    let mut released = Vec::new();
    process_key_event(ProcessKeyEventParams {
        key: key(KeyCode::Char('w')),
        pressed: &mut pressed,
        released: &mut released,
    });
    process_key_event(ProcessKeyEventParams {
        key: KeyEvent {
            code: KeyCode::Char('p'),
            control: false,
            kind: KeyEventKind::Repeat,
        },
        pressed: &mut pressed,
        released: &mut released,
    });
    process_key_event(ProcessKeyEventParams {
        key: KeyEvent {
            code: KeyCode::Up,
            control: false,
            kind: KeyEventKind::Repeat,
        },
        pressed: &mut pressed,
        released: &mut released,
    });
    process_key_event(ProcessKeyEventParams {
        key: KeyEvent {
            code: KeyCode::Char('d'),
            control: false,
            kind: KeyEventKind::Release,
        },
        pressed: &mut pressed,
        released: &mut released,
    });
    assert_eq!(pressed, vec![InputAction::MoveForward, InputAction::MoveForward]);
    assert_eq!(released, vec![InputAction::RotateRight]);
}

#[test]
fn recent_held_action_survives_an_update_without_its_key() {
    let mut state = InputState::new();
    let t0: u64 = 1_000_000_000;
    state.update(InputStateUpdateParams {
        pressed: &[InputAction::StrafeLeft, InputAction::Fire],
        now: t0,
    });
    state.update(InputStateUpdateParams {
        pressed: &[],
        now: t0 + INPUT_HELD_ACTION_STALE_TIMEOUT_NANOS - 1,
    });
    assert_eq!(
        state.ordered_held_actions(),
        vec![InputAction::StrafeLeft, InputAction::Fire]
    );
    state.update(InputStateUpdateParams {
        pressed: &[],
        now: t0 + INPUT_HELD_ACTION_STALE_TIMEOUT_NANOS,
    });
    assert!(state.ordered_held_actions().is_empty());
}

#[test]
fn discrete_actions_are_never_held() {
    let mut state = InputState::new();
    state.update(InputStateUpdateParams {
        pressed: &[InputAction::OpenMenu, InputAction::RotateRight],
        now: 10,
    });
    assert_eq!(state.ordered_held_actions(), vec![InputAction::RotateRight]);
    assert_eq!(
        state.discrete_pressed_actions(&[InputAction::OpenMenu, InputAction::RotateRight]),
        vec![InputAction::OpenMenu]
    );
}

#[test]
fn ordered_held_actions_follow_engine_order() {
    let mut state = InputState::new();
    state.update(InputStateUpdateParams {
        pressed: &[
            InputAction::Fire,
            InputAction::RotateLeft,
            InputAction::StrafeRight,
            InputAction::MoveBackward,
        ],
        now: 0,
    });
    assert_eq!(
        state.ordered_held_actions(),
        vec![
            InputAction::MoveBackward,
            InputAction::StrafeRight,
            InputAction::RotateLeft,
            InputAction::Fire
        ]
    );
}
