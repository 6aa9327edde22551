use doom_terminal::engine::{ENGINE_INPUT_FORWARD, ENGINE_INPUT_USE, ENGINE_INPUT_WEAPON_PREV};
use doom_terminal::game::{
    apply_external_engine_input, apply_external_frame_input, bool_label, build_status_text,
    default_render_state, find_player_start, is_collision_line, is_health_pickup_thing_type,
    is_player_start_thing_type, join_segments, remove_player_starts, truncate_to_width,
    ApplyExternalEngineInputParams, ApplyExternalFrameInputParams, BoolLabelParams,
    StatusSegments, WAD_INVALID_SIDEDEF_INDEX,
};
use doom_terminal::input::{InputAction, InputState, InputStateUpdateParams};
use doom_terminal::wad::world::{LineDef, MapData, Thing, Vertex};

fn map_with_vertexes(vertexes: Vec<Vertex>) -> MapData {
    MapData {
        vertexes,
        lines: vec![],
        sidedefs: vec![],
        sectors: vec![],
        palette: vec![],
        textures: vec![],
        flats: vec![],
        things: vec![],
        bsp_line_indices: vec![],
    }
}

fn strings(items: &[&str]) -> Vec<String> {
    items.iter().map(|s| s.to_string()).collect()
}

#[test]
fn apply_external_engine_input_queues_weapon_action() {
    let mut render_state = default_render_state();

    assert!(!apply_external_engine_input(ApplyExternalEngineInputParams {
        action: InputAction::WeaponPrev,
        render_state: &mut render_state,
    }));
    assert_ne!(render_state.c_frame_provider.input_mask, 0);
}

#[test]
fn bool_label_returns_expected_labels() {
    assert_eq!(
        bool_label(BoolLabelParams {
            flag: false,
            false_label: "OFF",
            true_label: "ON",
        }),
        "OFF"
    );
    assert_eq!(
        bool_label(BoolLabelParams {
            flag: true,
            false_label: "OFF",
            true_label: "ON",
        }),
        "ON"
    );
}

#[test]
fn quit_action_stops_without_queueing() {
    let mut render_state = default_render_state();
    assert!(apply_external_engine_input(ApplyExternalEngineInputParams {
        action: InputAction::Quit,
        render_state: &mut render_state,
    }));
    assert_eq!(render_state.c_frame_provider.input_mask, 0);
}

#[test]
fn frame_input_queues_held_then_discrete_actions() {
    let mut input_state = InputState::new();
    let pressed = [InputAction::MoveForward, InputAction::Use, InputAction::WeaponPrev];
    input_state.update(InputStateUpdateParams {
        pressed: &pressed,
        now: 0,
    });
    let mut render_state = default_render_state();
    let quit = apply_external_frame_input(ApplyExternalFrameInputParams {
        input_state: &input_state,
        pressed_actions: &pressed,
        render_state: &mut render_state,
    });
    assert!(!quit);
    assert_eq!(
        render_state.c_frame_provider.input_mask,
        ENGINE_INPUT_FORWARD | ENGINE_INPUT_USE | ENGINE_INPUT_WEAPON_PREV
    );
}

#[test]
fn frame_input_stops_at_quit() {
    let input_state = InputState::new();
    let pressed = [InputAction::Use, InputAction::Quit, InputAction::WeaponPrev];
    let mut render_state = default_render_state();
    let quit = apply_external_frame_input(ApplyExternalFrameInputParams {
        input_state: &input_state,
        pressed_actions: &pressed,
        render_state: &mut render_state,
    });
    assert!(quit);
    assert_eq!(render_state.c_frame_provider.input_mask, ENGINE_INPUT_USE);
}

#[test]
fn map_bounds_uses_extreme_vertex_coordinates() {
    let map = map_with_vertexes(vec![
        Vertex { x: -32, y: 48 },
        Vertex { x: 96, y: -16 },
        Vertex { x: 48, y: 64 },
    ]);

    let bounds = map.bounds();

    assert_eq!(bounds.min_x, -32);
    assert_eq!(bounds.min_y, -16);
    assert_eq!(bounds.width, 128);
    assert_eq!(bounds.height, 80);
}

#[test]
fn map_bounds_falls_back_to_minimum_size_when_no_vertexes_exist() {
    let map = map_with_vertexes(vec![]);

    let bounds = map.bounds();

    assert_eq!(bounds.min_x, 0);
    assert_eq!(bounds.min_y, 0);
    assert_eq!(bounds.width, 1);
    assert_eq!(bounds.height, 1);
}

#[test]
fn map_bounds_of_a_single_vertex_is_one_unit() {
    let bounds = map_with_vertexes(vec![Vertex { x: 5, y: -7 }]).bounds();
    assert_eq!((bounds.min_x, bounds.min_y, bounds.width, bounds.height), (5, -7, 1, 1));
}

#[test]
fn player_starts_are_found_and_removed() {
    let mut things = vec![
        Thing { x: 1, y: 2, thing_type: 2011 },
        Thing { x: 3, y: 4, thing_type: 2 },
        Thing { x: 5, y: 6, thing_type: 1 },
        Thing { x: 7, y: 8, thing_type: 2035 },
    ];
    assert_eq!(find_player_start(&things), Some((3, 4)));
    remove_player_starts(&mut things);
    assert_eq!(
        things,
        vec![
            Thing { x: 1, y: 2, thing_type: 2011 },
            Thing { x: 7, y: 8, thing_type: 2035 },
        ]
    );
    assert_eq!(find_player_start(&things), None);
    assert!(is_player_start_thing_type(4));
    assert!(!is_player_start_thing_type(5));
    assert!(!is_player_start_thing_type(0));
}

#[test]
fn health_pickups_and_collision_lines() {
    assert!(is_health_pickup_thing_type(2011));
    assert!(is_health_pickup_thing_type(2013));
    assert!(!is_health_pickup_thing_type(2035));
    let solid = LineDef {
        start_vertex: 0,
        end_vertex: 1,
        right_sidedef: 0,
        left_sidedef: WAD_INVALID_SIDEDEF_INDEX,
    };
    let two_sided = LineDef {
        left_sidedef: 1,
        ..solid
    };
    assert!(is_collision_line(&solid));
    assert!(!is_collision_line(&two_sided));
}

#[test]
fn status_text_drops_hints_then_context_to_fit() {
    let segments = || StatusSegments {
        hints: strings(&["WASD move"]),
        always_visible: strings(&["HP:100", "AR:0"]),
        context: strings(&["COL:OFF"]),
        max_width: 0,
    };
    assert_eq!(join_segments(&strings(&["a", "b", "c"])), "a | b | c");
    assert_eq!(join_segments(&[]), "");
    let full = build_status_text(StatusSegments {
        max_width: 100,
        ..segments()
    });
    assert_eq!(full, "WASD move | HP:100 | AR:0 | COL:OFF");
    let context = build_status_text(StatusSegments {
        max_width: 24,
        ..segments()
    });
    assert_eq!(context, "HP:100 | AR:0 | COL:OFF");
    let minimal = build_status_text(StatusSegments {
        max_width: 5,
        ..segments()
    });
    assert_eq!(minimal, "HP:100 | AR:0");
}

#[test]
fn truncate_to_width_counts_characters() {
    assert_eq!(truncate_to_width("héllo", 2), "hé");
    assert_eq!(truncate_to_width("abc", 10), "abc");
    assert_eq!(truncate_to_width("abc", 0), "");
}
