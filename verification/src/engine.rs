//! Book-keeping around the Doom engine: the input bit mask handed to it each
//! frame, the key events it reads, its start-up decisions, and the scaling of
//! its 320x200 screen into an RGB frame of any size.

use vstd::prelude::*;
use std::collections::VecDeque;
use vstd::string::StringExecFns;
use crate::input::{plain_key, spec_key_action, InputAction, KeyCode, KeyEventKind};
use crate::wad::world::string_views;

verus! {

pub const ENGINE_INPUT_FORWARD: u32 = 1;
pub const ENGINE_INPUT_BACKWARD: u32 = 2;
pub const ENGINE_INPUT_TURN_LEFT: u32 = 4;
pub const ENGINE_INPUT_TURN_RIGHT: u32 = 8;
pub const ENGINE_INPUT_STRAFE_LEFT: u32 = 16;
pub const ENGINE_INPUT_STRAFE_RIGHT: u32 = 32;
pub const ENGINE_INPUT_FIRE: u32 = 64;
pub const ENGINE_INPUT_USE: u32 = 128;
pub const ENGINE_INPUT_TOGGLE_AUTOMAP: u32 = 256;
pub const ENGINE_INPUT_OPEN_MENU: u32 = 512;
pub const ENGINE_INPUT_CONFIRM_MENU: u32 = 1024;
pub const ENGINE_INPUT_BACK_MENU: u32 = 2048;
pub const ENGINE_INPUT_WEAPON_PREV: u32 = 4096;
pub const ENGINE_INPUT_WEAPON_NEXT: u32 = 8192;

/// Number of input bits the engine knows.
pub const ENGINE_INPUT_BIT_COUNT: usize = 14;

/// The engine's native screen size.
pub const DOOMGENERIC_RESX: usize = 320;
pub const DOOMGENERIC_RESY: usize = 200;

pub const KEY_STRAFE_L: u8 = 0xa0;
pub const KEY_STRAFE_R: u8 = 0xa1;
pub const KEY_USE: u8 = 0xa2;
pub const KEY_FIRE: u8 = 0xa3;
pub const KEY_ESCAPE: u8 = 27;
pub const KEY_ENTER: u8 = 13;
pub const KEY_TAB: u8 = 9;
pub const KEY_BACKSPACE: u8 = 0x7f;
pub const KEY_LEFTARROW: u8 = 0xac;
pub const KEY_UPARROW: u8 = 0xad;
pub const KEY_RIGHTARROW: u8 = 0xae;
pub const KEY_DOWNARROW: u8 = 0xaf;
pub const KEY_WEAPON_PREV: u8 = 0x5b;
pub const KEY_WEAPON_NEXT: u8 = 0x5d;

pub const FRAMEBUFFER_ENGINE_KEY_QUEUE_CAPACITY: usize = 128;
pub const FRAMEBUFFER_ENGINE_ARG_PROGRAM: &'static str = "doom-terminal";
pub const FRAMEBUFFER_ENGINE_ARG_IWAD: &'static str = "-iwad";
pub const FRAMEBUFFER_ENGINE_ARG_TURBO: &'static str = "-turbo";
pub const FRAMEBUFFER_ENGINE_ARG_TURBO_VALUE: &'static str = "100";

/// The input bits in the order in which their changes reach the engine.
pub open spec fn input_bit_order() -> Seq<u32> {
    seq![
        ENGINE_INPUT_FORWARD,
        ENGINE_INPUT_BACKWARD,
        ENGINE_INPUT_TURN_LEFT,
        ENGINE_INPUT_TURN_RIGHT,
        ENGINE_INPUT_STRAFE_LEFT,
        ENGINE_INPUT_STRAFE_RIGHT,
        ENGINE_INPUT_FIRE,
        ENGINE_INPUT_USE,
        ENGINE_INPUT_TOGGLE_AUTOMAP,
        ENGINE_INPUT_OPEN_MENU,
        ENGINE_INPUT_CONFIRM_MENU,
        ENGINE_INPUT_BACK_MENU,
        ENGINE_INPUT_WEAPON_PREV,
        ENGINE_INPUT_WEAPON_NEXT,
    ]
}

fn input_bit_at(index: usize) -> (bit: u32)
    requires
        index < ENGINE_INPUT_BIT_COUNT,
    ensures
        bit == input_bit_order()[index as int],
{
    match index {
        0 => ENGINE_INPUT_FORWARD,
        1 => ENGINE_INPUT_BACKWARD,
        2 => ENGINE_INPUT_TURN_LEFT,
        3 => ENGINE_INPUT_TURN_RIGHT,
        4 => ENGINE_INPUT_STRAFE_LEFT,
        5 => ENGINE_INPUT_STRAFE_RIGHT,
        6 => ENGINE_INPUT_FIRE,
        7 => ENGINE_INPUT_USE,
        8 => ENGINE_INPUT_TOGGLE_AUTOMAP,
        9 => ENGINE_INPUT_OPEN_MENU,
        10 => ENGINE_INPUT_CONFIRM_MENU,
        11 => ENGINE_INPUT_BACK_MENU,
        12 => ENGINE_INPUT_WEAPON_PREV,
        _ => ENGINE_INPUT_WEAPON_NEXT,
    }
}

/// The engine key code of an input bit; an unknown bit reads as "up".
pub open spec fn spec_key_for_input_bit(bit: u32) -> u8 {
    if bit == ENGINE_INPUT_FORWARD {
        KEY_UPARROW
    } else if bit == ENGINE_INPUT_BACKWARD {
        KEY_DOWNARROW
    } else if bit == ENGINE_INPUT_TURN_LEFT {
        KEY_LEFTARROW
    } else if bit == ENGINE_INPUT_TURN_RIGHT {
        KEY_RIGHTARROW
    } else if bit == ENGINE_INPUT_STRAFE_LEFT {
        KEY_STRAFE_L
    } else if bit == ENGINE_INPUT_STRAFE_RIGHT {
        KEY_STRAFE_R
    } else if bit == ENGINE_INPUT_FIRE {
        KEY_FIRE
    } else if bit == ENGINE_INPUT_USE {
        KEY_USE
    } else if bit == ENGINE_INPUT_TOGGLE_AUTOMAP {
        KEY_TAB
    } else if bit == ENGINE_INPUT_OPEN_MENU {
        KEY_ESCAPE
    } else if bit == ENGINE_INPUT_CONFIRM_MENU {
        KEY_ENTER
    } else if bit == ENGINE_INPUT_BACK_MENU {
        KEY_BACKSPACE
    } else if bit == ENGINE_INPUT_WEAPON_PREV {
        KEY_WEAPON_PREV
    } else if bit == ENGINE_INPUT_WEAPON_NEXT {
        KEY_WEAPON_NEXT
    } else {
        KEY_UPARROW
    }
}

pub fn key_for_input_bit(bit: u32) -> (key: u8)
    ensures
        key == spec_key_for_input_bit(bit),
{
    match bit {
        ENGINE_INPUT_FORWARD => KEY_UPARROW,
        ENGINE_INPUT_BACKWARD => KEY_DOWNARROW,
        ENGINE_INPUT_TURN_LEFT => KEY_LEFTARROW,
        ENGINE_INPUT_TURN_RIGHT => KEY_RIGHTARROW,
        ENGINE_INPUT_STRAFE_LEFT => KEY_STRAFE_L,
        ENGINE_INPUT_STRAFE_RIGHT => KEY_STRAFE_R,
        ENGINE_INPUT_FIRE => KEY_FIRE,
        ENGINE_INPUT_USE => KEY_USE,
        ENGINE_INPUT_TOGGLE_AUTOMAP => KEY_TAB,
        ENGINE_INPUT_OPEN_MENU => KEY_ESCAPE,
        ENGINE_INPUT_CONFIRM_MENU => KEY_ENTER,
        ENGINE_INPUT_BACK_MENU => KEY_BACKSPACE,
        ENGINE_INPUT_WEAPON_PREV => KEY_WEAPON_PREV,
        ENGINE_INPUT_WEAPON_NEXT => KEY_WEAPON_NEXT,
        _ => KEY_UPARROW,
    }
}

/// A key going down (`pressed == 1`) or up (`pressed == 0`), as the engine
/// reads it.
#[derive(Clone, Copy, Debug, PartialEq, Eq, Structural)]
pub struct EngineKeyEvent {
    pub pressed: i32,
    pub key: u8,
}

/// The event for `bit` given the new mask: down if the bit is set.
pub open spec fn spec_bit_event(mask: u32, bit: u32) -> EngineKeyEvent {
    EngineKeyEvent {
        pressed: if mask & bit != 0 { 1 } else { 0 },
        key: spec_key_for_input_bit(bit),
    }
}

/// The key events for the first `n` input bits (in engine order) whose state
/// differs between `previous` and `current`.
pub open spec fn spec_transitions_upto(previous: u32, current: u32, n: nat) -> Seq<EngineKeyEvent>
    decreases n,
{
    if n == 0 {
        Seq::empty()
    } else {
        let earlier = spec_transitions_upto(previous, current, (n - 1) as nat);
        let bit = input_bit_order()[n - 1];
        if (previous ^ current) & bit != 0 {
            earlier.push(spec_bit_event(current, bit))
        } else {
            earlier
        }
    }
}

/// The key events that turn the mask `previous` into `current`.
pub open spec fn spec_mask_transitions(previous: u32, current: u32) -> Seq<EngineKeyEvent> {
    spec_transitions_upto(previous, current, ENGINE_INPUT_BIT_COUNT as nat)
}

/// Why the engine refused a request.
#[derive(Clone, Copy, Debug, PartialEq, Eq, Structural)]
pub enum EngineStatus {
    InvalidDimensions,
    OutputBuffer,
    NotInitialized,
}

impl EngineStatus {
    /// The engine's numeric status code.
    pub fn code(&self) -> (code: i32)
        ensures
            code == match self {
                EngineStatus::InvalidDimensions => 1i32,
                EngineStatus::OutputBuffer => 2i32,
                EngineStatus::NotInitialized => 3i32,
            },
    {
        match self {
            EngineStatus::InvalidDimensions => 1,
            EngineStatus::OutputBuffer => 2,
            EngineStatus::NotInitialized => 3,
        }
    }
}

pub struct EngineInitParams {
    pub width: usize,
    pub height: usize,
}

/// What the caller does after a successful `engine_init`.
#[derive(Debug, PartialEq, Eq)]
pub enum EngineInitOutcome {
    /// The engine was already running; only its frame size changed.
    AlreadyRunning,
    /// Start the engine with these command-line arguments.
    Start(Vec<String>),
}

/// The engine's side of the game: frame size, the input mask of this frame
/// and of the last one, whether it runs, and the key events it has yet to
/// read.
pub struct EngineState {
    pub width: u32,
    pub height: u32,
    pub input_mask: u32,
    pub prev_input_mask: u32,
    pub initialized: bool,
    pub key_queue: VecDeque<EngineKeyEvent>,
}

/// The engine's command line for a WAD file.
pub open spec fn spec_engine_arguments(wad_path: Seq<char>) -> Seq<Seq<char>> {
    seq![
        FRAMEBUFFER_ENGINE_ARG_PROGRAM@,
        FRAMEBUFFER_ENGINE_ARG_IWAD@,
        wad_path,
        FRAMEBUFFER_ENGINE_ARG_TURBO@,
        FRAMEBUFFER_ENGINE_ARG_TURBO_VALUE@,
    ]
}

pub fn engine_arguments(wad_path: &str) -> (arguments: Vec<String>)
    ensures
        string_views(arguments@) == spec_engine_arguments(wad_path@),
{
    let mut arguments: Vec<String> = Vec::new();
    arguments.push(String::from_str(FRAMEBUFFER_ENGINE_ARG_PROGRAM));
    arguments.push(String::from_str(FRAMEBUFFER_ENGINE_ARG_IWAD));
    arguments.push(String::from_str(wad_path));
    arguments.push(String::from_str(FRAMEBUFFER_ENGINE_ARG_TURBO));
    arguments.push(String::from_str(FRAMEBUFFER_ENGINE_ARG_TURBO_VALUE));
    assert(string_views(arguments@) =~= spec_engine_arguments(wad_path@));
    arguments
}

impl EngineState {
    /// A stopped engine with no frame size, no input and no pending keys.
    pub fn new() -> (state: Self)
        ensures
            state.width == 0,
            state.height == 0,
            state.input_mask == 0,
            state.prev_input_mask == 0,
            !state.initialized,
            state.key_queue@ == Seq::<EngineKeyEvent>::empty(),
    {
        EngineState {
            width: 0,
            height: 0,
            input_mask: 0,
            prev_input_mask: 0,
            initialized: false,
            key_queue: VecDeque::with_capacity(FRAMEBUFFER_ENGINE_KEY_QUEUE_CAPACITY),
        }
    }

    /// Forgets the input of earlier runs.
    fn reset_runtime_state(&mut self)
        ensures
            final(self).input_mask == 0,
            final(self).prev_input_mask == 0,
            final(self).key_queue@ == Seq::<EngineKeyEvent>::empty(),
            final(self).width == old(self).width,
            final(self).height == old(self).height,
            final(self).initialized == old(self).initialized,
    {
        self.input_mask = 0;
        self.prev_input_mask = 0;
        self.key_queue.clear();
    }
}

/// Sets the frame size and, if the engine is not running yet, decides its
/// start: a running engine only takes the new size; otherwise the input
/// state is reset, the engine counts as running, and the caller starts it
/// with the returned arguments. A frame size of zero, or a stopped engine
/// without a WAD file, cannot be started: the caller stops there.
pub fn engine_init(state: &mut EngineState, params: EngineInitParams, wad_path: Option<&str>) -> (outcome: EngineInitOutcome)
    requires
        0 < params.width <= u32::MAX,
        0 < params.height <= u32::MAX,
        old(state).initialized || wad_path is Some,
    ensures
        final(state).width == params.width,
        final(state).height == params.height,
        final(state).initialized,
        old(state).initialized ==> {
            &&& outcome == EngineInitOutcome::AlreadyRunning
            &&& final(state).input_mask == old(state).input_mask
            &&& final(state).prev_input_mask == old(state).prev_input_mask
            &&& final(state).key_queue@ == old(state).key_queue@
        },
        !old(state).initialized ==> {
            &&& outcome matches EngineInitOutcome::Start(arguments) && string_views(arguments@)
                == spec_engine_arguments(wad_path->Some_0@)
            &&& final(state).input_mask == 0
            &&& final(state).prev_input_mask == 0
            &&& final(state).key_queue@ == Seq::<EngineKeyEvent>::empty()
        },
{
    let EngineInitParams { width, height } = params;
    state.width = width as u32;
    state.height = height as u32;
    if state.initialized {
        return EngineInitOutcome::AlreadyRunning;
    }
    let arguments = engine_arguments(wad_path.unwrap());
    state.reset_runtime_state();
    state.initialized = true;
    EngineInitOutcome::Start(arguments)
}

/// Sets the input mask of the coming frame.
pub fn engine_set_input(state: &mut EngineState, input_mask: u32)
    ensures
        final(state).input_mask == input_mask,
        final(state).prev_input_mask == old(state).prev_input_mask,
        final(state).width == old(state).width,
        final(state).height == old(state).height,
        final(state).initialized == old(state).initialized,
        final(state).key_queue@ == old(state).key_queue@,
{
    state.input_mask = input_mask;
}

/// Queues a key event for every input bit that changed since the last
/// frame, in engine order.
fn queue_mask_transitions(state: &mut EngineState)
    ensures
        final(state).key_queue@ == old(state).key_queue@ + spec_mask_transitions(
            old(state).prev_input_mask,
            old(state).input_mask,
        ),
        final(state).width == old(state).width,
        final(state).height == old(state).height,
        final(state).input_mask == old(state).input_mask,
        final(state).prev_input_mask == old(state).prev_input_mask,
        final(state).initialized == old(state).initialized,
{
    let changed_input_bits = state.prev_input_mask ^ state.input_mask;
    let mut index: usize = 0;
    while index < ENGINE_INPUT_BIT_COUNT
        invariant
            index <= ENGINE_INPUT_BIT_COUNT,
            changed_input_bits == old(state).prev_input_mask ^ old(state).input_mask,
            state.key_queue@ == old(state).key_queue@ + spec_transitions_upto(
                old(state).prev_input_mask,
                old(state).input_mask,
                index as nat,
            ),
            state.width == old(state).width,
            state.height == old(state).height,
            state.input_mask == old(state).input_mask,
            state.prev_input_mask == old(state).prev_input_mask,
            state.initialized == old(state).initialized,
        decreases ENGINE_INPUT_BIT_COUNT - index,
    {
        let bit = input_bit_at(index);
        let ghost before = state.key_queue@;
        if changed_input_bits & bit != 0 {
            let is_pressed = state.input_mask & bit != 0;
            let key_event = EngineKeyEvent {
                pressed: if is_pressed { 1 } else { 0 },
                key: key_for_input_bit(bit),
            };
            state.key_queue.push_back(key_event);
            assert(state.key_queue@ =~= old(state).key_queue@ + spec_transitions_upto(
                old(state).prev_input_mask,
                old(state).input_mask,
                (index + 1) as nat,
            ));
        }
        index = index + 1;
    }
}

/// Advances the engine by one frame of input: a running engine queues the
/// key events of the changed bits, remembers this frame's mask and clears
/// it, and the caller then runs one engine tick (`true`); a stopped engine
/// changes nothing (`false`).
pub fn engine_step(state: &mut EngineState) -> (ticked: bool)
    ensures
        ticked == old(state).initialized,
        ticked ==> {
            &&& final(state).key_queue@ == old(state).key_queue@ + spec_mask_transitions(
                old(state).prev_input_mask,
                old(state).input_mask,
            )
            &&& final(state).prev_input_mask == old(state).input_mask
            &&& final(state).input_mask == 0
            &&& final(state).width == old(state).width
            &&& final(state).height == old(state).height
            &&& final(state).initialized
        },
        !ticked ==> *final(state) == *old(state),
{
    if !state.initialized {
        return false;
    }
    queue_mask_transitions(state);
    state.prev_input_mask = state.input_mask;
    state.input_mask = 0;
    true
}

/// Hands the engine its next pending key event, oldest first.
pub fn engine_next_key_event(state: &mut EngineState) -> (event: Option<EngineKeyEvent>)
    ensures
        old(state).key_queue@.len() == 0 ==> event is None && final(state).key_queue@ == old(
            state,
        ).key_queue@,
        old(state).key_queue@.len() > 0 ==> event == Some(old(state).key_queue@[0])
            && final(state).key_queue@ == old(state).key_queue@.drop_first(),
        final(state).width == old(state).width,
        final(state).height == old(state).height,
        final(state).input_mask == old(state).input_mask,
        final(state).prev_input_mask == old(state).prev_input_mask,
        final(state).initialized == old(state).initialized,
{
    let event = state.key_queue.pop_front();
    proof {
        if old(state).key_queue@.len() > 0 {
            assert(state.key_queue@ =~= old(state).key_queue@.drop_first());
        }
    }
    event
}

/// Channel `channel` (0 red, 1 green, 2 blue) of an engine screen pixel
/// stored as 0x00RRGGBB.
pub open spec fn spec_pixel_channel(pixel: u32, channel: int) -> u8 {
    if channel == 0 {
        ((pixel >> 16u32) & 0xffu32) as u8
    } else if channel == 1 {
        ((pixel >> 8u32) & 0xffu32) as u8
    } else {
        (pixel & 0xffu32) as u8
    }
}

/// The screen row shown on output row `y` of `height` rows.
pub open spec fn spec_source_row(y: int, height: int) -> int {
    let scaled = y * (DOOMGENERIC_RESY as int) / height;
    if scaled < DOOMGENERIC_RESY - 1 { scaled } else { DOOMGENERIC_RESY - 1 }
}

/// The screen column shown on output column `x` of `width` columns.
pub open spec fn spec_source_column(x: int, width: int) -> int {
    let scaled = x * (DOOMGENERIC_RESX as int) / width;
    if scaled < DOOMGENERIC_RESX - 1 { scaled } else { DOOMGENERIC_RESX - 1 }
}

/// Byte `channel` of output pixel `pixel` (row-major) when the screen is
/// scaled to `width` x `height` by nearest sampling.
pub open spec fn spec_scaled_byte(screen: Seq<u32>, width: int, height: int, pixel: int, channel: int) -> u8 {
    let y = pixel / width;
    let x = pixel % width;
    let source = spec_source_row(y, height) * (DOOMGENERIC_RESX as int) + spec_source_column(x, width);
    spec_pixel_channel(screen[source], channel)
}

proof fn lemma_row_major(y: int, x: int, width: int)
    requires
        0 <= x < width,
        0 <= y,
    ensures
        (y * width + x) / width == y,
        (y * width + x) % width == x,
{
    vstd::arithmetic::div_mod::lemma_fundamental_div_mod_converse(y * width + x, width, y, x);
}

proof fn lemma_scaled_bounds(i: int, n: int, res: int)
    requires
        0 <= i < n,
        0 < res,
    ensures
        0 <= i * res / n < res,
{
    assert(0 <= i * res) by (nonlinear_arith)
        requires
            0 <= i,
            0 < res,
    ;
    assert(i * res < n * res) by (nonlinear_arith)
        requires
            0 <= i < n,
            0 < res,
    ;
    vstd::arithmetic::div_mod::lemma_div_pos_is_pos(i * res, n);
    assert(n * res == res * n) by (nonlinear_arith);
    vstd::arithmetic::div_mod::lemma_multiply_divide_lt(i * res, n, res);
}

/// Writes the engine screen, scaled to the engine's frame size, into `rgb`
/// as 3 bytes per pixel, row by row; bytes past the frame are left alone.
/// The engine must run with a frame size, `rgb` must hold the frame and
/// the screen must be there.
pub fn engine_fill_frame(state: &EngineState, screen: &[u32], rgb: &mut [u8])
    requires
        state.initialized,
        state.width > 0,
        state.height > 0,
        old(rgb)@.len() >= state.width * state.height * 3,
        screen@.len() >= DOOMGENERIC_RESX * DOOMGENERIC_RESY,
    ensures
        final(rgb)@.len() == old(rgb)@.len(),
        forall|pixel: int, channel: int|
            #![trigger final(rgb)@[pixel * 3 + channel]]
            0 <= pixel < state.width * state.height && 0 <= channel < 3 ==> final(rgb)@[pixel * 3
                + channel] == spec_scaled_byte(
                screen@,
                state.width as int,
                state.height as int,
                pixel,
                channel,
            ),
        forall|i: int|
            state.width * state.height * 3 <= i < old(rgb)@.len() ==> #[trigger] final(rgb)@[i]
                == old(rgb)@[i],
{
    let width = state.width as usize;
    let height = state.height as usize;
    let out_len = rgb.len();
    assert(width * height * 3 <= out_len);
    proof {
        assert(width * height * 3 >= width * height) by (nonlinear_arith)
            requires
                width >= 1,
                height >= 1,
        ;
    }
    let required_len = width * height * 3;
    let ghost original = rgb@;
    let mut y: usize = 0;
    let mut destination_index: usize = 0;
    while y < height
        invariant
            width == state.width,
            height == state.height,
            width >= 1,
            height >= 1,
            required_len == width * height * 3,
            required_len <= rgb@.len(),
            rgb@.len() == original.len(),
            screen@.len() >= DOOMGENERIC_RESX * DOOMGENERIC_RESY,
            y <= height,
            destination_index == y * width * 3,
            forall|pixel: int, channel: int|
                #![trigger rgb@[pixel * 3 + channel]]
                0 <= pixel < y * width && 0 <= channel < 3 ==> rgb@[pixel * 3 + channel]
                    == spec_scaled_byte(screen@, width as int, height as int, pixel, channel),
            forall|i: int| y * width * 3 <= i < original.len() ==> #[trigger] rgb@[i] == original[i],
        decreases height - y,
    {
        proof {
            lemma_scaled_bounds(y as int, height as int, DOOMGENERIC_RESY as int);
        }
        let scaled_y = (y as u64) * (DOOMGENERIC_RESY as u64) / (height as u64);
        let source_y = if scaled_y < (DOOMGENERIC_RESY - 1) as u64 {
            scaled_y as usize
        } else {
            DOOMGENERIC_RESY - 1
        };
        assert(source_y == spec_source_row(y as int, height as int));
        let mut x: usize = 0;
        while x < width
            invariant
                width == state.width,
                height == state.height,
                width >= 1,
                height >= 1,
                y < height,
                required_len == width * height * 3,
                required_len <= rgb@.len(),
                rgb@.len() == original.len(),
                screen@.len() >= DOOMGENERIC_RESX * DOOMGENERIC_RESY,
                source_y == spec_source_row(y as int, height as int),
                source_y < DOOMGENERIC_RESY,
                x <= width,
                destination_index == (y * width + x) * 3,
                forall|pixel: int, channel: int|
                    #![trigger rgb@[pixel * 3 + channel]]
                    0 <= pixel < y * width + x && 0 <= channel < 3 ==> rgb@[pixel * 3 + channel]
                        == spec_scaled_byte(screen@, width as int, height as int, pixel, channel),
                forall|i: int| (y * width + x) * 3 <= i < original.len() ==> #[trigger] rgb@[i] == original[i],
            decreases width - x,
        {
            proof {
                lemma_scaled_bounds(x as int, width as int, DOOMGENERIC_RESX as int);
                lemma_row_major(y as int, x as int, width as int);
                assert((y * width + x) < width * height) by (nonlinear_arith)
                    requires
                        y < height,
                        x < width,
                ;
            }
            let scaled_x = (x as u64) * (DOOMGENERIC_RESX as u64) / (width as u64);
            let source_x = if scaled_x < (DOOMGENERIC_RESX - 1) as u64 {
                scaled_x as usize
            } else {
                DOOMGENERIC_RESX - 1
            };
            let source_index = source_y * DOOMGENERIC_RESX + source_x;
            let pixel = screen[source_index];
            let ghost p: int = y * width + x;
            assert(destination_index == p * 3);
            rgb[destination_index] = ((pixel >> 16u32) & 0xffu32) as u8;
            rgb[destination_index + 1] = ((pixel >> 8u32) & 0xffu32) as u8;
            rgb[destination_index + 2] = (pixel & 0xffu32) as u8;
            proof {
                assert(source_x == spec_source_column(x as int, width as int));
                assert(p / (width as int) == y && p % (width as int) == x);
                assert forall|pixel_index: int, channel: int|
                    #![trigger rgb@[pixel_index * 3 + channel]]
                    0 <= pixel_index < p + 1 && 0 <= channel < 3 implies rgb@[pixel_index * 3 + channel]
                        == spec_scaled_byte(screen@, width as int, height as int, pixel_index, channel) by {
                    if pixel_index < p {
                        assert(pixel_index * 3 + channel < p * 3);
                    } else {
                        assert(pixel_index == p);
                    }
                }
            }
            x = x + 1;
            destination_index = destination_index + 3;
        }
        proof {
            assert((y * width + width) * 3 == (y + 1) * width * 3) by (nonlinear_arith);
            assert(y * width + width == (y + 1) * width) by (nonlinear_arith);
        }
        y = y + 1;
    }
    proof {
        assert(y * width * 3 == required_len) by (nonlinear_arith)
            requires
                y == height,
                required_len == width * height * 3,
        ;
    }
}

/// The engine input bit of an action; quitting has none.
pub open spec fn spec_action_input_bit(action: InputAction) -> u32 {
    match action {
        InputAction::MoveForward => ENGINE_INPUT_FORWARD,
        InputAction::MoveBackward => ENGINE_INPUT_BACKWARD,
        InputAction::RotateLeft => ENGINE_INPUT_TURN_LEFT,
        InputAction::RotateRight => ENGINE_INPUT_TURN_RIGHT,
        InputAction::StrafeLeft => ENGINE_INPUT_STRAFE_LEFT,
        InputAction::StrafeRight => ENGINE_INPUT_STRAFE_RIGHT,
        InputAction::Fire => ENGINE_INPUT_FIRE,
        InputAction::Use => ENGINE_INPUT_USE,
        InputAction::ToggleAutomap => ENGINE_INPUT_TOGGLE_AUTOMAP,
        InputAction::OpenMenu => ENGINE_INPUT_OPEN_MENU,
        InputAction::ConfirmMenu => ENGINE_INPUT_CONFIRM_MENU,
        InputAction::BackMenu => ENGINE_INPUT_BACK_MENU,
        InputAction::WeaponPrev => ENGINE_INPUT_WEAPON_PREV,
        InputAction::WeaponNext => ENGINE_INPUT_WEAPON_NEXT,
        InputAction::Quit => 0,
    }
}

} // verus!

verus! {

/// An unchanged input mask sends the engine no key events, so a key held
/// across frames is pressed once.
pub proof fn law_unchanged_mask_sends_no_events(mask: u32)
    ensures
        spec_mask_transitions(mask, mask) == Seq::<EngineKeyEvent>::empty(),
{
    assert(mask ^ mask == 0u32) by (bit_vector);
    assert forall|bit: u32| (0u32 & bit) == 0u32 by {
        assert((0u32 & bit) == 0u32) by (bit_vector);
    }
    reveal_with_fuel(spec_transitions_upto, 15);
}

/// Every event for a changed bit says whether the bit is now set: a bit
/// that appears is pressed, a bit that disappears is released. There is at
/// most one event per bit.
pub proof fn law_transition_events_follow_new_mask(previous: u32, current: u32, n: nat)
    requires
        n <= ENGINE_INPUT_BIT_COUNT,
    ensures
        forall|i: int|
            #![trigger spec_transitions_upto(previous, current, n)[i]]
            0 <= i < spec_transitions_upto(previous, current, n).len() ==> exists|k: int|
                0 <= k < n && (previous ^ current) & input_bit_order()[k] != 0
                    && spec_transitions_upto(previous, current, n)[i] == #[trigger] spec_bit_event(
                    current,
                    input_bit_order()[k],
                ),
        spec_transitions_upto(previous, current, n).len() <= n,
    decreases n,
{
    if n > 0 {
        law_transition_events_follow_new_mask(previous, current, (n - 1) as nat);
        let earlier = spec_transitions_upto(previous, current, (n - 1) as nat);
        let all = spec_transitions_upto(previous, current, n);
        assert forall|i: int| #![trigger all[i]] 0 <= i < all.len() implies exists|k: int|
            0 <= k < n && (previous ^ current) & input_bit_order()[k] != 0 && all[i]
                == #[trigger] spec_bit_event(current, input_bit_order()[k]) by {
            if i < earlier.len() {
                assert(all[i] == earlier[i]);
                let k = choose|k: int|
                    0 <= k < n - 1 && (previous ^ current) & input_bit_order()[k] != 0 && earlier[i]
                        == #[trigger] spec_bit_event(current, input_bit_order()[k]);
                assert(0 <= k < n);
            } else {
                let k = n - 1;
                assert(all[i] == spec_bit_event(current, input_bit_order()[k]));
            }
        }
    }
}

/// Distinct input bits reach the engine as distinct keys.
pub proof fn law_input_keys_are_distinct(i: int, j: int)
    requires
        0 <= i < ENGINE_INPUT_BIT_COUNT,
        0 <= j < ENGINE_INPUT_BIT_COUNT,
        i != j,
    ensures
        spec_key_for_input_bit(input_bit_order()[i]) != spec_key_for_input_bit(input_bit_order()[j]),
{
}

/// Queuing an action twice in one frame is the same as queuing it once.
pub proof fn law_queue_action_idempotent(mask: u32, action: InputAction)
    ensures
        (mask | spec_action_input_bit(action)) | spec_action_input_bit(action) == mask
            | spec_action_input_bit(action),
{
    let bit = spec_action_input_bit(action);
    assert((mask | bit) | bit == mask | bit) by (bit_vector);
}

/// The order in which actions are queued within a frame does not matter.
pub proof fn law_queue_actions_commute(mask: u32, first: InputAction, second: InputAction)
    ensures
        (mask | spec_action_input_bit(first)) | spec_action_input_bit(second) == (mask
            | spec_action_input_bit(second)) | spec_action_input_bit(first),
{
    let a = spec_action_input_bit(first);
    let b = spec_action_input_bit(second);
    assert((mask | a) | b == (mask | b) | a) by (bit_vector);
}

} // verus!

verus! {

/// The key Doom binds to each action the game hands it: the arrows move
/// and turn, the strafe, fire and use keys do what they say, Tab opens the
/// automap, Escape the menu, Enter confirms, Backspace goes back, and the
/// bracket keys cycle weapons. Quitting never reaches the engine.
pub open spec fn doom_key_for_action(action: InputAction) -> Option<u8> {
    match action {
        InputAction::MoveForward => Some(KEY_UPARROW),
        InputAction::MoveBackward => Some(KEY_DOWNARROW),
        InputAction::RotateLeft => Some(KEY_LEFTARROW),
        InputAction::RotateRight => Some(KEY_RIGHTARROW),
        InputAction::StrafeLeft => Some(KEY_STRAFE_L),
        InputAction::StrafeRight => Some(KEY_STRAFE_R),
        InputAction::Fire => Some(KEY_FIRE),
        InputAction::Use => Some(KEY_USE),
        InputAction::ToggleAutomap => Some(KEY_TAB),
        InputAction::OpenMenu => Some(KEY_ESCAPE),
        InputAction::ConfirmMenu => Some(KEY_ENTER),
        InputAction::BackMenu => Some(KEY_BACKSPACE),
        InputAction::WeaponPrev => Some(KEY_WEAPON_PREV),
        InputAction::WeaponNext => Some(KEY_WEAPON_NEXT),
        InputAction::Quit => None,
    }
}

proof fn lemma_single_engine_bit(x: u32, c: u32)
    by (bit_vector)
    requires
        x == 1u32 || x == 2u32 || x == 4u32 || x == 8u32 || x == 16u32 || x == 32u32 || x == 64u32 || x == 128u32 || x == 256u32 || x == 512u32 || x == 1024u32 || x == 2048u32 || x == 4096u32 || x == 8192u32,
        c == 1u32 || c == 2u32 || c == 4u32 || c == 8u32 || c == 16u32 || c == 32u32 || c == 64u32 || c == 128u32 || c == 256u32 || c == 512u32 || c == 1024u32 || c == 2048u32 || c == 4096u32 || c == 8192u32,
    ensures
        ((0u32 ^ x) & c != 0u32) == (x == c),
        ((x ^ 0u32) & c != 0u32) == (x == c),
        x & x != 0u32,
        0u32 & x == 0u32,
{
}

/// When exactly the input bit at position `k` differs between two masks,
/// the transitions over the first `n` bits are the one event of that bit
/// (if it is among them).
proof fn lemma_transitions_of_single_bit(previous: u32, current: u32, k: int, n: nat)
    requires
        0 <= k < ENGINE_INPUT_BIT_COUNT,
        n <= ENGINE_INPUT_BIT_COUNT,
        forall|j: int|
            0 <= j < ENGINE_INPUT_BIT_COUNT ==> (((previous ^ current) & #[trigger] input_bit_order()[j]
                != 0) == (j == k)),
    ensures
        spec_transitions_upto(previous, current, n) == if k < n {
            seq![spec_bit_event(current, input_bit_order()[k])]
        } else {
            Seq::<EngineKeyEvent>::empty()
        },
    decreases n,
{
    if n > 0 {
        lemma_transitions_of_single_bit(previous, current, k, (n - 1) as nat);
        let j = n - 1;
        assert(((previous ^ current) & input_bit_order()[j] != 0) == (j == k));
    }
}

/// The position of an action's input bit in the engine's bit order.
proof fn lemma_action_bit_position(action: InputAction) -> (k: int)
    requires
        action != InputAction::Quit,
    ensures
        0 <= k < ENGINE_INPUT_BIT_COUNT,
        input_bit_order()[k] == spec_action_input_bit(action),
        forall|j: int|
            0 <= j < ENGINE_INPUT_BIT_COUNT ==> ((0u32 ^ spec_action_input_bit(action))
                & #[trigger] input_bit_order()[j] != 0) == (j == k),
        forall|j: int|
            0 <= j < ENGINE_INPUT_BIT_COUNT ==> ((spec_action_input_bit(action) ^ 0u32)
                & #[trigger] input_bit_order()[j] != 0) == (j == k),
{
    let b = spec_action_input_bit(action);
    let k: int = match action {
        InputAction::MoveForward => 0,
        InputAction::MoveBackward => 1,
        InputAction::RotateLeft => 2,
        InputAction::RotateRight => 3,
        InputAction::StrafeLeft => 4,
        InputAction::StrafeRight => 5,
        InputAction::Fire => 6,
        InputAction::Use => 7,
        InputAction::ToggleAutomap => 8,
        InputAction::OpenMenu => 9,
        InputAction::ConfirmMenu => 10,
        InputAction::BackMenu => 11,
        InputAction::WeaponPrev => 12,
        _ => 13,
    };
    assert forall|j: int| 0 <= j < ENGINE_INPUT_BIT_COUNT implies ((0u32 ^ b)
        & #[trigger] input_bit_order()[j] != 0) == (j == k) && ((b ^ 0u32) & input_bit_order()[j]
        != 0) == (j == k) by {
        lemma_single_engine_bit(b, input_bit_order()[j]);
    }
    k
}

/// An action that starts alone in a frame reaches the engine as exactly one
/// key-down event of Doom's key for that action, and as one key-up event of
/// the same key when it stops.
pub proof fn law_action_reaches_engine_as_its_doom_key(action: InputAction)
    requires
        action != InputAction::Quit,
    ensures
        spec_mask_transitions(0, spec_action_input_bit(action)) == seq![
            EngineKeyEvent { pressed: 1, key: doom_key_for_action(action)->Some_0 },
        ],
        spec_mask_transitions(spec_action_input_bit(action), 0) == seq![
            EngineKeyEvent { pressed: 0, key: doom_key_for_action(action)->Some_0 },
        ],
{
    let b = spec_action_input_bit(action);
    let k = lemma_action_bit_position(action);
    lemma_single_engine_bit(b, b);
    lemma_transitions_of_single_bit(0, b, k, ENGINE_INPUT_BIT_COUNT as nat);
    lemma_transitions_of_single_bit(b, 0, k, ENGINE_INPUT_BIT_COUNT as nat);
}

/// A terminal key that Doom knows reaches the engine as that same key:
/// pressing an arrow key, Tab, Enter or Backspace on its own sends Doom one
/// key-down event of the arrow, Tab, Enter or Backspace key.
pub proof fn law_terminal_keys_reach_engine_unchanged(code: KeyCode, kind: KeyEventKind)
    requires
        code == KeyCode::Up || code == KeyCode::Down || code == KeyCode::Left || code
            == KeyCode::Right || code == KeyCode::Tab || code == KeyCode::Enter || code
            == KeyCode::Backspace,
    ensures
        spec_key_action(plain_key(code, kind)) is Some,
        spec_mask_transitions(
            0,
            spec_action_input_bit(spec_key_action(plain_key(code, kind))->Some_0),
        ) == seq![
            EngineKeyEvent {
                pressed: 1,
                key: match code {
                    KeyCode::Up => KEY_UPARROW,
                    KeyCode::Down => KEY_DOWNARROW,
                    KeyCode::Left => KEY_LEFTARROW,
                    KeyCode::Right => KEY_RIGHTARROW,
                    KeyCode::Tab => KEY_TAB,
                    KeyCode::Enter => KEY_ENTER,
                    _ => KEY_BACKSPACE,
                },
            },
        ],
{
    law_action_reaches_engine_as_its_doom_key(spec_key_action(plain_key(code, kind))->Some_0);
}

/// The three channels of a 0x00RRGGBB screen pixel put back together give
/// the pixel: red is the high byte, then green, then blue.
pub proof fn law_pixel_channels_recompose(pixel: u32)
    requires
        pixel < 0x0100_0000,
    ensures
        spec_pixel_channel(pixel, 0) * 65536 + spec_pixel_channel(pixel, 1) * 256
            + spec_pixel_channel(pixel, 2) == pixel,
{
    let r = ((pixel >> 16u32) & 0xffu32);
    let g = ((pixel >> 8u32) & 0xffu32);
    let b = (pixel & 0xffu32);
    assert(r * 65536 + g * 256 + b == pixel) by (bit_vector)
        requires
            pixel < 0x0100_0000,
            r == ((pixel >> 16u32) & 0xffu32),
            g == ((pixel >> 8u32) & 0xffu32),
            b == (pixel & 0xffu32),
    ;
    assert(r < 256 && g < 256 && b < 256) by (bit_vector)
        requires
            r == ((pixel >> 16u32) & 0xffu32),
            g == ((pixel >> 8u32) & 0xffu32),
            b == (pixel & 0xffu32),
    ;
}

/// At the engine's own 320x200 size the frame is the screen, pixel for
/// pixel; at any size every output pixel shows a pixel of the screen.
pub proof fn law_scaling_samples_the_screen(
    screen: Seq<u32>,
    width: int,
    height: int,
    pixel: int,
    channel: int,
)
    requires
        0 < width,
        0 < height,
        0 <= pixel < width * height,
    ensures
        0 <= spec_source_row(pixel / width, height) < DOOMGENERIC_RESY,
        0 <= spec_source_column(pixel % width, width) < DOOMGENERIC_RESX,
        width == DOOMGENERIC_RESX && height == DOOMGENERIC_RESY ==> spec_scaled_byte(
            screen,
            width,
            height,
            pixel,
            channel,
        ) == spec_pixel_channel(screen[pixel], channel),
{
    let y = pixel / width;
    let x = pixel % width;
    vstd::arithmetic::div_mod::lemma_fundamental_div_mod(pixel, width);
    assert(0 <= y) by (nonlinear_arith)
        requires
            0 <= pixel,
            0 < width,
            y == pixel / width,
    ;
    assert(0 <= x < width);
    assert(0 <= y * (DOOMGENERIC_RESY as int)) by (nonlinear_arith)
        requires
            0 <= y,
    ;
    assert(0 <= x * (DOOMGENERIC_RESX as int)) by (nonlinear_arith)
        requires
            0 <= x,
    ;
    vstd::arithmetic::div_mod::lemma_div_pos_is_pos(y * (DOOMGENERIC_RESY as int), height);
    vstd::arithmetic::div_mod::lemma_div_pos_is_pos(x * (DOOMGENERIC_RESX as int), width);
    if width == DOOMGENERIC_RESX && height == DOOMGENERIC_RESY {
        assert(y < height) by (nonlinear_arith)
            requires
                pixel == width * y + x,
                0 <= x,
                pixel < width * height,
                0 < width,
        ;
        vstd::arithmetic::div_mod::lemma_div_multiples_vanish(y, height);
        vstd::arithmetic::div_mod::lemma_div_multiples_vanish(x, width);
        assert(y * 200 == 200 * y) by (nonlinear_arith);
        assert(x * 320 == 320 * x) by (nonlinear_arith);
        assert(spec_source_row(y, height) == y);
        assert(spec_source_column(x, width) == x);
        assert(y * 320 + x == pixel) by (nonlinear_arith)
            requires
                pixel == width * y + x,
                width == 320,
        ;
    }
}

} // verus!
