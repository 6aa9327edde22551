use doom_terminal::engine::{
    engine_arguments, engine_fill_frame, engine_init, engine_next_key_event, engine_set_input,
    engine_step, key_for_input_bit, EngineInitOutcome, EngineInitParams, EngineKeyEvent,
    EngineState, EngineStatus, ENGINE_INPUT_FIRE, ENGINE_INPUT_FORWARD,
    ENGINE_INPUT_WEAPON_NEXT, ENGINE_INPUT_WEAPON_PREV, KEY_FIRE, KEY_UPARROW,
};
use doom_terminal::input::InputAction;
use doom_terminal::provider::{collect_wall_segments, CFrameProvider, EngineStart, WallSegment};
use doom_terminal::wad::world::{LineDef, MapData, Sector, SideDef, Vertex};

fn running_engine(width: usize, height: usize) -> EngineState {
    let mut engine = EngineState::new();
    let outcome = engine_init(&mut engine, EngineInitParams { width, height }, Some("doom1.wad"));
    assert!(matches!(outcome, EngineInitOutcome::Start(_)));
    engine
}

#[test]
fn engine_status_codes_match_the_engine() {
    assert_eq!(EngineStatus::InvalidDimensions.code(), 1);
    assert_eq!(EngineStatus::OutputBuffer.code(), 2);
    assert_eq!(EngineStatus::NotInitialized.code(), 3);
}

#[test]
fn engine_init_starts_once_with_wad_arguments() {
    let mut engine = EngineState::new();
    let outcome = engine_init(&mut engine, EngineInitParams { width: 8, height: 4 }, Some("doom1.wad"));
    let expected: Vec<String> = ["doom-terminal", "-iwad", "doom1.wad", "-turbo", "100"]
        .iter()
        .map(|s| s.to_string())
        .collect();
    assert_eq!(outcome, EngineInitOutcome::Start(expected.clone()));
    assert_eq!(engine_arguments("doom1.wad"), expected);
    let again = engine_init(&mut engine, EngineInitParams { width: 16, height: 10 }, Some("doom1.wad"));
    assert_eq!(again, EngineInitOutcome::AlreadyRunning);
    assert!(engine.initialized);
    assert_eq!((engine.width, engine.height), (16, 10));
}

#[test]
fn engine_step_queues_changed_bits_in_order() {
    let mut engine = running_engine(4, 4);
    engine_set_input(&mut engine, ENGINE_INPUT_FIRE | ENGINE_INPUT_FORWARD);
    assert!(engine_step(&mut engine));
    assert_eq!(engine.input_mask, 0);
    assert_eq!(engine.prev_input_mask, ENGINE_INPUT_FIRE | ENGINE_INPUT_FORWARD);
    assert_eq!(
        engine_next_key_event(&mut engine),
        Some(EngineKeyEvent { pressed: 1, key: KEY_UPARROW })
    );
    assert_eq!(
        engine_next_key_event(&mut engine),
        Some(EngineKeyEvent { pressed: 1, key: KEY_FIRE })
    );
    assert_eq!(engine_next_key_event(&mut engine), None);

    engine_set_input(&mut engine, ENGINE_INPUT_FIRE);
    assert!(engine_step(&mut engine));
    assert_eq!(
        engine_next_key_event(&mut engine),
        Some(EngineKeyEvent { pressed: 0, key: KEY_UPARROW })
    );
    assert_eq!(engine_next_key_event(&mut engine), None);
}

#[test]
fn unchanged_mask_sends_no_key_events() {
    let mut engine = running_engine(4, 4);
    engine_set_input(&mut engine, ENGINE_INPUT_FORWARD);
    engine_step(&mut engine);
    while engine_next_key_event(&mut engine).is_some() {}
    engine_set_input(&mut engine, ENGINE_INPUT_FORWARD);
    engine_step(&mut engine);
    assert_eq!(engine_next_key_event(&mut engine), None);
}

#[test]
fn stopped_engine_does_not_step() {
    let mut engine = EngineState::new();
    engine_set_input(&mut engine, ENGINE_INPUT_FORWARD);
    assert!(!engine_step(&mut engine));
    assert_eq!(engine.input_mask, ENGINE_INPUT_FORWARD);
    assert!(engine.key_queue.is_empty());
}

#[test]
fn weapon_bits_map_to_bracket_keys() {
    assert_eq!(key_for_input_bit(ENGINE_INPUT_WEAPON_PREV), b'[');
    assert_eq!(key_for_input_bit(ENGINE_INPUT_WEAPON_NEXT), b']');
    assert_eq!(key_for_input_bit(3), KEY_UPARROW);
}

#[test]
fn fill_frame_scales_screen_by_nearest_sample() {
    let engine = running_engine(2, 2);
    let mut screen = vec![0u32; 320 * 200];
    screen[0] = 0x00112233;
    screen[160] = 0x00445566;
    screen[100 * 320] = 0x00778899;
    screen[100 * 320 + 160] = 0x00aabbcc;
    let mut rgb = vec![7u8; 14];
    engine_fill_frame(&engine, &screen, &mut rgb);
    assert_eq!(
        rgb,
        vec![
            0x11, 0x22, 0x33, 0x44, 0x55, 0x66, 0x77, 0x88, 0x99, 0xaa, 0xbb, 0xcc, 7, 7
        ]
    );
}

#[test]
fn fill_frame_scales_wider_frames_by_repeating_columns() {
    let engine = running_engine(640, 1);
    let mut screen = vec![0u32; 320 * 200];
    screen[1] = 0x00abcdef;
    let mut rgb = vec![0u8; 640 * 3];
    engine_fill_frame(&engine, &screen, &mut rgb);
    assert_eq!(&rgb[0..3], &[0, 0, 0]);
    assert_eq!(&rgb[6..12], &[0xab, 0xcd, 0xef, 0xab, 0xcd, 0xef]);
}

#[test]
fn provider_queues_actions_as_bits() {
    let mut provider = CFrameProvider::new();
    assert_eq!((provider.width, provider.height), (160, 100));
    provider.queue_input_action(InputAction::WeaponPrev);
    provider.queue_input_action(InputAction::Fire);
    provider.queue_input_action(InputAction::Fire);
    provider.queue_input_action(InputAction::Quit);
    assert_eq!(provider.input_mask, ENGINE_INPUT_WEAPON_PREV | ENGINE_INPUT_FIRE);
}

#[test]
fn provider_runs_a_frame_end_to_end() {
    let mut provider = CFrameProvider::new();
    provider.width = 2;
    provider.height = 1;
    let mut engine = EngineState::new();
    let start = provider.start_engine(&mut engine, Some("doom1.wad"));
    assert!(matches!(start, EngineStart::Start(_)));
    assert!(provider.engine_initialized);
    assert!(matches!(
        provider.start_engine(&mut engine, None),
        EngineStart::Running
    ));
    provider.queue_input_action(InputAction::MoveForward);
    assert!(provider.step_engine(&mut engine));
    assert_eq!(provider.input_mask, 0);
    assert_eq!(
        engine_next_key_event(&mut engine),
        Some(EngineKeyEvent { pressed: 1, key: KEY_UPARROW })
    );
    let mut screen = vec![0u32; 320 * 200];
    screen[0] = 0x00010203;
    screen[160] = 0x00040506;
    let frame = provider.finish_frame(&engine, &screen);
    assert_eq!(frame.rgb, vec![1, 2, 3, 4, 5, 6]);
    assert_eq!((frame.width, frame.height), (2, 1));
    assert_eq!(provider.tick, 1);
}

#[test]
fn wall_segments_are_one_sided_lines_with_sector_light() {
    let sector = |light_level: i16| Sector {
        floor_texture: "FLOOR0_1".to_string(),
        ceiling_texture: "CEIL1_1".to_string(),
        light_level,
    };
    let side = |sector: u16| SideDef {
        sector,
        middle_texture: "-".to_string(),
    };
    let line = |start_vertex: u16, end_vertex: u16, right_sidedef: u16, left_sidedef: u16| LineDef {
        start_vertex,
        end_vertex,
        right_sidedef,
        left_sidedef,
    };
    let map = MapData {
        vertexes: vec![Vertex { x: 0, y: 0 }, Vertex { x: 64, y: 0 }, Vertex { x: 64, y: 64 }],
        lines: vec![
            line(0, 1, 0, u16::MAX),
            line(1, 2, 0, 1),
            line(1, 2, 1, u16::MAX),
            line(2, 9, 0, u16::MAX),
            line(2, 0, 7, u16::MAX),
        ],
        sidedefs: vec![side(0), side(1)],
        sectors: vec![sector(300), sector(-5)],
        palette: vec![],
        textures: vec![],
        flats: vec![],
        things: vec![],
        bsp_line_indices: vec![],
    };
    let segments = collect_wall_segments(&map);
    assert_eq!(
        segments,
        vec![
            WallSegment { start: Vertex { x: 0, y: 0 }, end: Vertex { x: 64, y: 0 }, light: 255 },
            WallSegment { start: Vertex { x: 64, y: 0 }, end: Vertex { x: 64, y: 64 }, light: 0 },
            WallSegment { start: Vertex { x: 64, y: 64 }, end: Vertex { x: 0, y: 0 }, light: 160 },
        ]
    );
}

#[test]
fn queued_actions_commute() {
    let mut first = CFrameProvider::new();
    first.queue_input_action(InputAction::Use);
    first.queue_input_action(InputAction::StrafeLeft);
    let mut second = CFrameProvider::new();
    second.queue_input_action(InputAction::StrafeLeft);
    second.queue_input_action(InputAction::Use);
    assert_eq!(first.input_mask, second.input_mask);
}

#[test]
fn every_input_bit_has_its_own_key() {
    let bits: Vec<u32> = (0..14).map(|shift| 1u32 << shift).collect();
    let mut keys: Vec<u8> = bits.iter().map(|bit| key_for_input_bit(*bit)).collect();
    keys.sort_unstable();
    keys.dedup();
    assert_eq!(keys.len(), 14);
}
