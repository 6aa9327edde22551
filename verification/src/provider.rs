//! The frame source backed by the engine: it gathers the input of a frame as
//! a bit mask, starts the engine on the first frame, steps it, and collects
//! the scaled RGB frame.

use vstd::prelude::*;
use crate::engine::{
    engine_fill_frame, engine_init, engine_set_input, engine_step, spec_action_input_bit,
    spec_engine_arguments, spec_mask_transitions, spec_scaled_byte,
    EngineInitOutcome, EngineInitParams, EngineKeyEvent, EngineState,
    ENGINE_INPUT_BACKWARD, ENGINE_INPUT_BACK_MENU, ENGINE_INPUT_CONFIRM_MENU, ENGINE_INPUT_FIRE,
    ENGINE_INPUT_FORWARD, ENGINE_INPUT_OPEN_MENU, ENGINE_INPUT_STRAFE_LEFT,
    ENGINE_INPUT_STRAFE_RIGHT, ENGINE_INPUT_TOGGLE_AUTOMAP, ENGINE_INPUT_TURN_LEFT,
    ENGINE_INPUT_TURN_RIGHT, ENGINE_INPUT_USE, ENGINE_INPUT_WEAPON_NEXT, ENGINE_INPUT_WEAPON_PREV,
};
use crate::input::InputAction;
use crate::wad::reader::zeroed_pixels;
use crate::wad::world::{string_views, MapData, MapDataView, Vertex};
use crate::game::{is_collision_line, spec_is_collision_line};

verus! {

pub const FRAMEBUFFER_TEST_WIDTH: usize = 160;
pub const FRAMEBUFFER_TEST_HEIGHT: usize = 100;
pub const FRAMEBUFFER_RGB_CHANNELS: usize = 3;

/// A frame of `width` x `height` pixels, 3 bytes each, row by row.
pub struct RgbFrame {
    pub rgb: Vec<u8>,
    pub width: usize,
    pub height: usize,
}

/// A source of frames.
pub trait FrameProvider {
    fn next_frame(&mut self) -> RgbFrame;
}

/// The engine-backed frame source: its frame size, the frames produced so
/// far (wrapping), the input of the coming frame and whether it has started
/// the engine.
pub struct CFrameProvider {
    pub width: usize,
    pub height: usize,
    pub tick: u32,
    pub input_mask: u32,
    pub engine_initialized: bool,
}

/// What `next_frame` does before the engine runs a tick, given whether it has
/// started the engine.
pub enum EngineStart {
    /// The engine already ran: nothing to start.
    Running,
    /// Start the engine with these arguments.
    Start(Vec<String>),
}

impl CFrameProvider {
    pub fn new() -> (provider: Self)
        ensures
            provider.width == FRAMEBUFFER_TEST_WIDTH,
            provider.height == FRAMEBUFFER_TEST_HEIGHT,
            provider.tick == 0,
            provider.input_mask == 0,
            !provider.engine_initialized,
    {
        CFrameProvider {
            width: FRAMEBUFFER_TEST_WIDTH,
            height: FRAMEBUFFER_TEST_HEIGHT,
            tick: 0,
            input_mask: 0,
            engine_initialized: false,
        }
    }

    /// Adds the input bit of `action` to the coming frame; quitting adds
    /// nothing.
    pub fn queue_input_action(&mut self, action: InputAction)
        ensures
            final(self).input_mask == old(self).input_mask | spec_action_input_bit(action),
            final(self).width == old(self).width,
            final(self).height == old(self).height,
            final(self).tick == old(self).tick,
            final(self).engine_initialized == old(self).engine_initialized,
    {
        match action {
            InputAction::MoveForward => self.input_mask = self.input_mask | ENGINE_INPUT_FORWARD,
            InputAction::MoveBackward => self.input_mask = self.input_mask | ENGINE_INPUT_BACKWARD,
            InputAction::RotateLeft => self.input_mask = self.input_mask | ENGINE_INPUT_TURN_LEFT,
            InputAction::RotateRight => self.input_mask = self.input_mask | ENGINE_INPUT_TURN_RIGHT,
            InputAction::StrafeLeft => self.input_mask = self.input_mask | ENGINE_INPUT_STRAFE_LEFT,
            InputAction::StrafeRight => self.input_mask = self.input_mask | ENGINE_INPUT_STRAFE_RIGHT,
            InputAction::Fire => self.input_mask = self.input_mask | ENGINE_INPUT_FIRE,
            InputAction::Use => self.input_mask = self.input_mask | ENGINE_INPUT_USE,
            InputAction::ToggleAutomap => self.input_mask = self.input_mask
                | ENGINE_INPUT_TOGGLE_AUTOMAP,
            InputAction::OpenMenu => self.input_mask = self.input_mask | ENGINE_INPUT_OPEN_MENU,
            InputAction::ConfirmMenu => self.input_mask = self.input_mask
                | ENGINE_INPUT_CONFIRM_MENU,
            InputAction::BackMenu => self.input_mask = self.input_mask | ENGINE_INPUT_BACK_MENU,
            InputAction::WeaponPrev => self.input_mask = self.input_mask | ENGINE_INPUT_WEAPON_PREV,
            InputAction::WeaponNext => self.input_mask = self.input_mask | ENGINE_INPUT_WEAPON_NEXT,
            InputAction::Quit => {
                assert(self.input_mask | 0u32 == self.input_mask) by (bit_vector);
            },
        }
    }

    /// First step of a frame: on the first frame the engine is initialised
    /// with this provider's size; afterwards nothing happens. The frame size
    /// must not be zero, and a stopped engine needs a WAD file.
    pub fn start_engine(&mut self, engine: &mut EngineState, wad_path: Option<&str>) -> (start: EngineStart)
        requires
            0 < old(self).width <= u32::MAX,
            0 < old(self).height <= u32::MAX,
            old(self).engine_initialized || old(engine).initialized || wad_path is Some,
        ensures
            old(self).engine_initialized ==> (start matches EngineStart::Running),
            old(self).engine_initialized ==> *final(self) == *old(self),
            old(self).engine_initialized ==> *final(engine) == *old(engine),
            !old(self).engine_initialized ==> {
                &&& final(self).engine_initialized
                &&& final(engine).initialized
                &&& final(engine).width == old(self).width
                &&& final(engine).height == old(self).height
                &&& old(engine).initialized ==> (start matches EngineStart::Running)
                    && final(engine).input_mask == old(engine).input_mask
                    && final(engine).prev_input_mask == old(engine).prev_input_mask
                    && final(engine).key_queue@ == old(engine).key_queue@
                &&& !old(engine).initialized ==> (start matches EngineStart::Start(arguments)
                    && string_views(arguments@) == spec_engine_arguments(wad_path->Some_0@))
                    && final(engine).input_mask == 0 && final(engine).prev_input_mask == 0
                    && final(engine).key_queue@ == Seq::<EngineKeyEvent>::empty()
            },
            final(self).width == old(self).width,
            final(self).height == old(self).height,
            final(self).tick == old(self).tick,
            final(self).input_mask == old(self).input_mask,
    {
        if self.engine_initialized {
            return EngineStart::Running;
        }
        let params = EngineInitParams { width: self.width, height: self.height };
        self.engine_initialized = true;
        match engine_init(engine, params, wad_path) {
            EngineInitOutcome::AlreadyRunning => EngineStart::Running,
            EngineInitOutcome::Start(arguments) => EngineStart::Start(arguments),
        }
    }

    /// Second step of a frame: hands this frame's input to the engine,
    /// steps it, and clears the input. Returns whether the engine now runs
    /// one tick.
    pub fn step_engine(&mut self, engine: &mut EngineState) -> (ticked: bool)
        ensures
            ticked == old(engine).initialized,
            ticked ==> final(engine).key_queue@ == old(engine).key_queue@ + spec_mask_transitions(
                old(engine).prev_input_mask,
                old(self).input_mask,
            ) && final(engine).prev_input_mask == old(self).input_mask && final(engine).input_mask
                == 0,
            !ticked ==> final(engine).input_mask == old(self).input_mask
                && final(engine).prev_input_mask == old(engine).prev_input_mask
                && final(engine).key_queue@ == old(engine).key_queue@,
            final(engine).initialized == old(engine).initialized,
            final(engine).width == old(engine).width,
            final(engine).height == old(engine).height,
            final(self).input_mask == 0,
            final(self).width == old(self).width,
            final(self).height == old(self).height,
            final(self).tick == old(self).tick,
            final(self).engine_initialized == old(self).engine_initialized,
    {
        engine_set_input(engine, self.input_mask);
        let ticked = engine_step(engine);
        self.input_mask = 0;
        ticked
    }

    /// Last step of a frame: the engine screen scaled into a fresh frame of
    /// this provider's size (bytes past the engine's frame are zero), and
    /// one more frame counted. The engine must run with a frame that fits
    /// this provider's, and the screen must be there.
    pub fn finish_frame(&mut self, engine: &EngineState, screen: &[u32]) -> (frame: RgbFrame)
        requires
            old(self).width * old(self).height * FRAMEBUFFER_RGB_CHANNELS <= usize::MAX,
            engine.initialized,
            engine.width > 0,
            engine.height > 0,
            engine.width * engine.height <= old(self).width * old(self).height,
            screen@.len() >= crate::engine::DOOMGENERIC_RESX * crate::engine::DOOMGENERIC_RESY,
        ensures
            ({
                let len = old(self).width * old(self).height * 3;
                &&& frame.width == old(self).width
                &&& frame.height == old(self).height
                &&& frame.rgb@.len() == len
                &&& forall|i: int|
                    0 <= i < len ==> #[trigger] frame.rgb@[i] == if i < engine.width * engine.height
                        * 3 {
                        spec_scaled_byte(
                            screen@,
                            engine.width as int,
                            engine.height as int,
                            i / 3,
                            i % 3,
                        )
                    } else {
                        0u8
                    }
                &&& final(self).tick == old(self).tick.wrapping_add(1)
                &&& final(self).width == old(self).width
                &&& final(self).height == old(self).height
                &&& final(self).input_mask == old(self).input_mask
                &&& final(self).engine_initialized == old(self).engine_initialized
            }),
    {
        proof {
            assert(self.width * self.height * 3 == (self.width * self.height) * 3);
        }
        let len = self.width * self.height * FRAMEBUFFER_RGB_CHANNELS;
        let mut rgb = zeroed_pixels(len);
        engine_fill_frame(engine, screen, &mut rgb);
        proof {
            assert forall|i: int| 0 <= i < len implies #[trigger] rgb@[i] == if i < engine.width
                * engine.height * 3 {
                spec_scaled_byte(
                    screen@,
                    engine.width as int,
                    engine.height as int,
                    i / 3,
                    i % 3,
                )
            } else {
                0u8
            } by {
                if i < engine.width * engine.height * 3 {
                    let pixel = i / 3;
                    let channel = i % 3;
                    assert(i == pixel * 3 + channel);
                    assert(0 <= pixel < engine.width * engine.height);
                }
            }
        }
        self.tick = self.tick.wrapping_add(1);
        RgbFrame { rgb, width: self.width, height: self.height }
    }
}

/// Light level of a wall whose sidedef or sector is missing.
pub const FRAMEBUFFER_DEFAULT_LIGHT_LEVEL: u8 = 160;

/// A one-sided wall as the engine's world takes it: its end points and the
/// light of the sector in front of it.
#[derive(Clone, Copy, Debug, PartialEq, Eq, Structural)]
pub struct WallSegment {
    pub start: Vertex,
    pub end: Vertex,
    pub light: u8,
}

/// The light of the sector behind sidedef `sidedef`, clamped to 0..=255;
/// the default level when the sidedef or its sector does not exist.
pub open spec fn spec_wall_light(map: MapDataView, sidedef: u16) -> u8 {
    if (sidedef as int) < map.sidedefs.len() && (map.sidedefs[sidedef as int].sector as int)
        < map.sectors.len() {
        let level = map.sectors[map.sidedefs[sidedef as int].sector as int].light_level;
        if level < 0 {
            0
        } else if level > 255 {
            255
        } else {
            level as u8
        }
    } else {
        FRAMEBUFFER_DEFAULT_LIGHT_LEVEL
    }
}

/// The walls among the first `n` lines: one-sided lines whose two vertexes
/// exist, in line order.
pub open spec fn spec_wall_segments_upto(map: MapDataView, n: nat) -> Seq<WallSegment>
    decreases n,
{
    if n == 0 {
        Seq::empty()
    } else {
        let earlier = spec_wall_segments_upto(map, (n - 1) as nat);
        let line = map.lines[n - 1];
        if spec_is_collision_line(line) && (line.start_vertex as int) < map.vertexes.len()
            && (line.end_vertex as int) < map.vertexes.len() {
            earlier.push(
                WallSegment {
                    start: map.vertexes[line.start_vertex as int],
                    end: map.vertexes[line.end_vertex as int],
                    light: spec_wall_light(map, line.right_sidedef),
                },
            )
        } else {
            earlier
        }
    }
}

fn wall_light(map: &MapData, sidedef: u16) -> (light: u8)
    ensures
        light == spec_wall_light(map@, sidedef),
{
    let index = sidedef as usize;
    if index < map.sidedefs.len() {
        let sector = map.sidedefs[index].sector as usize;
        if sector < map.sectors.len() {
            let level = map.sectors[sector].light_level;
            return if level < 0 {
                0
            } else if level > 255 {
                255
            } else {
                level as u8
            };
        }
    }
    FRAMEBUFFER_DEFAULT_LIGHT_LEVEL
}

/// The map's walls for the engine: each one-sided line with both vertexes
/// present, in line order, with its sector light.
pub fn collect_wall_segments(map: &MapData) -> (segments: Vec<WallSegment>)
    ensures
        segments@ == spec_wall_segments_upto(map@, map.lines@.len()),
{
    let mut segments: Vec<WallSegment> = Vec::new();
    let mut k: usize = 0;
    while k < map.lines.len()
        invariant
            k <= map.lines@.len(),
            segments@ == spec_wall_segments_upto(map@, k as nat),
        decreases map.lines@.len() - k,
    {
        let line = map.lines[k];
        let start = line.start_vertex as usize;
        let end = line.end_vertex as usize;
        if is_collision_line(&line) && start < map.vertexes.len() && end < map.vertexes.len() {
            let light = wall_light(map, line.right_sidedef);
            segments.push(
                WallSegment { start: map.vertexes[start], end: map.vertexes[end], light },
            );
        }
        k = k + 1;
    }
    segments
}

} // verus!
