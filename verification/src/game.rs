//! Game-side rules around the engine: map extents and spawn things, which
//! lines block, which things heal, how a frame's input reaches the engine,
//! and how the status line is put together.

use vstd::prelude::*;
use vstd::string::StringExecFns;
use vstd::string::StrSliceExecFns;
use crate::engine::spec_action_input_bit;
use crate::input::{opposed_action, spec_held_after_update, InputAction, InputState};
use crate::provider::CFrameProvider;
use crate::wad::world::{string_views, LineDef, MapBounds, MapData, Thing, Vertex};

verus! {

pub const THING_TYPE_PLAYER_1_START: u16 = 1;
pub const THING_TYPE_PLAYER_4_START: u16 = 4;
pub const THING_TYPE_STIMPACK: u16 = 2011;
pub const THING_TYPE_MEDIKIT: u16 = 2012;
pub const THING_TYPE_SOULSPHERE: u16 = 2013;
pub const THING_TYPE_BARREL: u16 = 2035;

/// A sidedef index that names no sidedef.
pub const WAD_INVALID_SIDEDEF_INDEX: u16 = 0xffff;

/// Separator between the fields of the status line.
pub const STATUS_SEPARATOR: &'static str = " | ";

pub open spec fn spec_is_player_start_thing_type(thing_type: u16) -> bool {
    THING_TYPE_PLAYER_1_START <= thing_type <= THING_TYPE_PLAYER_4_START
}

/// Player starts 1 to 4.
pub fn is_player_start_thing_type(thing_type: u16) -> (is_start: bool)
    ensures
        is_start == spec_is_player_start_thing_type(thing_type),
{
    THING_TYPE_PLAYER_1_START <= thing_type && thing_type <= THING_TYPE_PLAYER_4_START
}

pub open spec fn spec_is_health_pickup_thing_type(thing_type: u16) -> bool {
    thing_type == THING_TYPE_STIMPACK || thing_type == THING_TYPE_MEDIKIT || thing_type
        == THING_TYPE_SOULSPHERE
}

/// Stimpacks, medikits and soulspheres.
pub fn is_health_pickup_thing_type(thing_type: u16) -> (is_pickup: bool)
    ensures
        is_pickup == spec_is_health_pickup_thing_type(thing_type),
{
    thing_type == THING_TYPE_STIMPACK || thing_type == THING_TYPE_MEDIKIT || thing_type
        == THING_TYPE_SOULSPHERE
}

pub open spec fn spec_is_collision_line(line: LineDef) -> bool {
    line.right_sidedef != WAD_INVALID_SIDEDEF_INDEX && line.left_sidedef
        == WAD_INVALID_SIDEDEF_INDEX
}

/// A one-sided line, which the player cannot cross.
pub fn is_collision_line(line: &LineDef) -> (blocks: bool)
    ensures
        blocks == spec_is_collision_line(*line),
{
    line.right_sidedef != WAD_INVALID_SIDEDEF_INDEX && line.left_sidedef
        == WAD_INVALID_SIDEDEF_INDEX
}

/// Smallest x of the vertexes (0 when there are none).
pub open spec fn spec_min_x(vertexes: Seq<Vertex>) -> int
    decreases vertexes.len(),
{
    if vertexes.len() == 0 {
        0
    } else if vertexes.len() == 1 {
        vertexes[0].x as int
    } else {
        let rest = spec_min_x(vertexes.drop_last());
        let x = vertexes.last().x as int;
        if x < rest { x } else { rest }
    }
}

/// Largest x of the vertexes (1 when there are none).
pub open spec fn spec_max_x(vertexes: Seq<Vertex>) -> int
    decreases vertexes.len(),
{
    if vertexes.len() == 0 {
        1
    } else if vertexes.len() == 1 {
        vertexes[0].x as int
    } else {
        let rest = spec_max_x(vertexes.drop_last());
        let x = vertexes.last().x as int;
        if x > rest { x } else { rest }
    }
}

/// Smallest y of the vertexes (0 when there are none).
pub open spec fn spec_min_y(vertexes: Seq<Vertex>) -> int
    decreases vertexes.len(),
{
    if vertexes.len() == 0 {
        0
    } else if vertexes.len() == 1 {
        vertexes[0].y as int
    } else {
        let rest = spec_min_y(vertexes.drop_last());
        let y = vertexes.last().y as int;
        if y < rest { y } else { rest }
    }
}

/// Largest y of the vertexes (1 when there are none).
pub open spec fn spec_max_y(vertexes: Seq<Vertex>) -> int
    decreases vertexes.len(),
{
    if vertexes.len() == 0 {
        1
    } else if vertexes.len() == 1 {
        vertexes[0].y as int
    } else {
        let rest = spec_max_y(vertexes.drop_last());
        let y = vertexes.last().y as int;
        if y > rest { y } else { rest }
    }
}

pub open spec fn at_least_one_span(span: int) -> int {
    if span < 1 { 1 } else { span }
}

/// The box spanned by the vertexes, at least one unit wide and tall.
pub open spec fn spec_bounds(vertexes: Seq<Vertex>) -> MapBounds {
    MapBounds {
        min_x: spec_min_x(vertexes) as i32,
        min_y: spec_min_y(vertexes) as i32,
        width: at_least_one_span(spec_max_x(vertexes) - spec_min_x(vertexes)) as i32,
        height: at_least_one_span(spec_max_y(vertexes) - spec_min_y(vertexes)) as i32,
    }
}

proof fn lemma_extremes_in_range(vertexes: Seq<Vertex>)
    ensures
        -32768 <= spec_min_x(vertexes) <= 32767,
        -32768 <= spec_max_x(vertexes) <= 32767,
        -32768 <= spec_min_y(vertexes) <= 32767,
        -32768 <= spec_max_y(vertexes) <= 32767,
    decreases vertexes.len(),
{
    if vertexes.len() > 1 {
        lemma_extremes_in_range(vertexes.drop_last());
    }
}

impl MapData {
    /// The extents of the map's vertexes.
    pub fn bounds(&self) -> (bounds: MapBounds)
        ensures
            bounds == spec_bounds(self.vertexes@),
            bounds.width >= 1,
            bounds.height >= 1,
    {
        let vertexes = &self.vertexes;
        let mut min_x: i32 = 0;
        let mut max_x: i32 = 1;
        let mut min_y: i32 = 0;
        let mut max_y: i32 = 1;
        let mut k: usize = 0;
        while k < vertexes.len()
            invariant
                k <= vertexes@.len(),
                min_x == spec_min_x(vertexes@.take(k as int)),
                max_x == spec_max_x(vertexes@.take(k as int)),
                min_y == spec_min_y(vertexes@.take(k as int)),
                max_y == spec_max_y(vertexes@.take(k as int)),
            decreases vertexes@.len() - k,
        {
            let vertex = vertexes[k];
            let x = vertex.x as i32;
            let y = vertex.y as i32;
            proof {
                assert(vertexes@.take(k + 1).drop_last() =~= vertexes@.take(k as int));
                lemma_extremes_in_range(vertexes@.take(k as int));
            }
            if k == 0 {
                min_x = x;
                max_x = x;
                min_y = y;
                max_y = y;
            } else {
                if x < min_x {
                    min_x = x;
                }
                if x > max_x {
                    max_x = x;
                }
                if y < min_y {
                    min_y = y;
                }
                if y > max_y {
                    max_y = y;
                }
            }
            k = k + 1;
        }
        proof {
            assert(vertexes@.take(k as int) =~= vertexes@);
            lemma_extremes_in_range(vertexes@);
        }
        let span_x = max_x - min_x;
        let span_y = max_y - min_y;
        MapBounds {
            min_x,
            min_y,
            width: if span_x < 1 { 1 } else { span_x },
            height: if span_y < 1 { 1 } else { span_y },
        }
    }
}

/// The first player start among the things, if any.
pub open spec fn spec_first_player_start(things: Seq<Thing>) -> Option<int>
    decreases things.len(),
{
    if things.len() == 0 {
        None
    } else {
        match spec_first_player_start(things.drop_last()) {
            Some(index) => Some(index),
            None => if spec_is_player_start_thing_type(things.last().thing_type) {
                Some(things.len() - 1)
            } else {
                None
            },
        }
    }
}

/// Where the first player start stands, if the map has one.
pub fn find_player_start(things: &[Thing]) -> (start: Option<(i16, i16)>)
    ensures
        match spec_first_player_start(things@) {
            Some(index) => start == Some((things@[index].x, things@[index].y)),
            None => start is None,
        },
{
    let mut k: usize = 0;
    while k < things.len()
        invariant
            k <= things@.len(),
            spec_first_player_start(things@.take(k as int)) is None,
        decreases things@.len() - k,
    {
        proof {
            assert(things@.take(k + 1).drop_last() =~= things@.take(k as int));
        }
        if is_player_start_thing_type(things[k].thing_type) {
            proof {
                lemma_first_player_start_prefix(things@, k as int + 1);
            }
            return Some((things[k].x, things[k].y));
        }
        k = k + 1;
    }
    proof {
        assert(things@.take(k as int) =~= things@);
    }
    None
}

proof fn lemma_first_player_start_prefix(things: Seq<Thing>, n: int)
    requires
        0 <= n <= things.len(),
        spec_first_player_start(things.take(n)) is Some,
    ensures
        spec_first_player_start(things) == spec_first_player_start(things.take(n)),
    decreases things.len() - n,
{
    if n < things.len() {
        assert(things.take(n + 1).drop_last() =~= things.take(n));
        lemma_first_player_start_prefix(things, n + 1);
    } else {
        assert(things.take(n) =~= things);
    }
}

/// The things that are not player starts, in their order.
pub open spec fn spec_without_player_starts(things: Seq<Thing>) -> Seq<Thing>
    decreases things.len(),
{
    if things.len() == 0 {
        Seq::empty()
    } else {
        let rest = spec_without_player_starts(things.drop_last());
        if spec_is_player_start_thing_type(things.last().thing_type) {
            rest
        } else {
            rest.push(things.last())
        }
    }
}

/// Drops the player starts from the things, keeping the order of the rest.
pub fn remove_player_starts(things: &mut Vec<Thing>)
    ensures
        final(things)@ == spec_without_player_starts(old(things)@),
{
    let mut kept: Vec<Thing> = Vec::new();
    let mut k: usize = 0;
    while k < things.len()
        invariant
            k <= things@.len(),
            things@ == old(things)@,
            kept@ == spec_without_player_starts(things@.take(k as int)),
        decreases things@.len() - k,
    {
        proof {
            assert(things@.take(k + 1).drop_last() =~= things@.take(k as int));
        }
        let thing = things[k];
        if !is_player_start_thing_type(thing.thing_type) {
            kept.push(thing);
        }
        k = k + 1;
    }
    proof {
        assert(things@.take(k as int) =~= things@);
    }
    *things = kept;
}

pub struct BoolLabelParams {
    pub flag: bool,
    pub false_label: &'static str,
    pub true_label: &'static str,
}

/// The label for a flag.
pub fn bool_label(params: BoolLabelParams) -> (label: &'static str)
    ensures
        label == if params.flag { params.true_label } else { params.false_label },
{
    let BoolLabelParams { flag, false_label, true_label } = params;
    if flag {
        true_label
    } else {
        false_label
    }
}

/// The segments joined by the separator.
pub open spec fn spec_join(segments: Seq<Seq<char>>, separator: Seq<char>) -> Seq<char>
    decreases segments.len(),
{
    if segments.len() == 0 {
        Seq::empty()
    } else if segments.len() == 1 {
        segments[0]
    } else {
        spec_join(segments.drop_last(), separator) + separator + segments.last()
    }
}

/// The segments joined by the status separator.
pub fn join_segments(segments: &[String]) -> (text: String)
    ensures
        text@ == spec_join(string_views(segments@), STATUS_SEPARATOR@),
{
    let mut text = String::new();
    let mut k: usize = 0;
    while k < segments.len()
        invariant
            k <= segments@.len(),
            text@ == spec_join(string_views(segments@.take(k as int)), STATUS_SEPARATOR@),
        decreases segments@.len() - k,
    {
        proof {
            assert(string_views(segments@.take(k + 1)).drop_last() =~= string_views(
                segments@.take(k as int),
            ));
        }
        if k > 0 {
            text.append(STATUS_SEPARATOR);
        } else {
            assert(text@ =~= Seq::<char>::empty());
        }
        text.append(segments[k].as_str());
        k = k + 1;
    }
    proof {
        assert(segments@.take(k as int) =~= segments@);
    }
    text
}

fn concat_segments(first: &[String], second: &[String]) -> (all: Vec<String>)
    ensures
        string_views(all@) == string_views(first@) + string_views(second@),
{
    let mut all: Vec<String> = Vec::new();
    let mut k: usize = 0;
    while k < first.len()
        invariant
            k <= first@.len(),
            string_views(all@) == string_views(first@.take(k as int)),
        decreases first@.len() - k,
    {
        let ghost before = all@;
        let copy = first[k].clone();
        all.push(copy);
        proof {
            assert(first@.take(k + 1) =~= first@.take(k as int).push(first@[k as int]));
            assert(string_views(all@) =~= string_views(before).push(copy@));
            assert(string_views(all@) =~= string_views(first@.take(k + 1)));
        }
        k = k + 1;
    }
    let mut j: usize = 0;
    while j < second.len()
        invariant
            j <= second@.len(),
            k == first@.len(),
            string_views(all@) == string_views(first@) + string_views(second@.take(j as int)),
        decreases second@.len() - j,
    {
        let ghost before = all@;
        let copy = second[j].clone();
        all.push(copy);
        proof {
            assert(second@.take(j + 1) =~= second@.take(j as int).push(second@[j as int]));
            assert(string_views(all@) =~= string_views(before).push(copy@));
            assert(string_views(all@) =~= string_views(first@) + string_views(second@.take(j + 1)));
        }
        j = j + 1;
    }
    proof {
        assert(first@.take(k as int) =~= first@);
        assert(second@.take(j as int) =~= second@);
    }
    all
}

/// The fields of the status line: usage hints, the fields always shown and
/// the context fields, already formatted.
pub struct StatusSegments {
    pub hints: Vec<String>,
    pub always_visible: Vec<String>,
    pub context: Vec<String>,
    pub max_width: usize,
}

/// The longest of three status lines that fits `max_width` characters:
/// hints, always-visible and context fields; else always-visible and
/// context fields; else the always-visible fields alone (which may be
/// longer).
pub open spec fn spec_status_text(
    hints: Seq<Seq<char>>,
    always_visible: Seq<Seq<char>>,
    context: Seq<Seq<char>>,
    max_width: int,
) -> Seq<char> {
    let full = spec_join(hints + always_visible + context, STATUS_SEPARATOR@);
    let with_context = spec_join(always_visible + context, STATUS_SEPARATOR@);
    if full.len() <= max_width {
        full
    } else if with_context.len() <= max_width {
        with_context
    } else {
        spec_join(always_visible, STATUS_SEPARATOR@)
    }
}

pub fn build_status_text(params: StatusSegments) -> (text: String)
    ensures
        text@ == spec_status_text(
            string_views(params.hints@),
            string_views(params.always_visible@),
            string_views(params.context@),
            params.max_width as int,
        ),
{
    let StatusSegments { hints, always_visible, context, max_width } = params;
    let leading = concat_segments(&hints, &always_visible);
    let all = concat_segments(&leading, &context);
    let full_text = join_segments(&all);
    if full_text.as_str().unicode_len() <= max_width {
        return full_text;
    }
    let visible_with_context = concat_segments(&always_visible, &context);
    let context_text = join_segments(&visible_with_context);
    if context_text.as_str().unicode_len() <= max_width {
        return context_text;
    }
    join_segments(&always_visible)
}

/// The first `max_chars` characters of the text.
pub fn truncate_to_width(text: &str, max_chars: usize) -> (truncated: String)
    ensures
        truncated@ == text@.take(if max_chars < text@.len() { max_chars as int } else { text@.len() as int }),
{
    let length = text.unicode_len();
    let end = if max_chars < length { max_chars } else { length };
    text.substring_char(0, end).to_owned()
}

/// What the engine frame source needs from the game loop.
pub struct RenderState {
    pub use_c_frame_provider: bool,
    pub c_frame_provider: CFrameProvider,
}

/// Frames come from the engine, which has not started yet.
pub fn default_render_state() -> (state: RenderState)
    ensures
        state.use_c_frame_provider,
        state.c_frame_provider.input_mask == 0,
        state.c_frame_provider.tick == 0,
        !state.c_frame_provider.engine_initialized,
        state.c_frame_provider.width == crate::provider::FRAMEBUFFER_TEST_WIDTH,
        state.c_frame_provider.height == crate::provider::FRAMEBUFFER_TEST_HEIGHT,
{
    RenderState { use_c_frame_provider: true, c_frame_provider: CFrameProvider::new() }
}

pub struct ApplyExternalEngineInputParams<'a> {
    pub action: InputAction,
    pub render_state: &'a mut RenderState,
}

/// Quitting asks to leave the loop (`true`); any other action is queued for
/// the engine's next frame.
pub fn apply_external_engine_input(params: ApplyExternalEngineInputParams<'_>) -> (quit: bool)
    ensures
        quit == (params.action == InputAction::Quit),
        final(params.render_state).c_frame_provider.input_mask == old(
            params.render_state,
        ).c_frame_provider.input_mask | spec_action_input_bit(params.action),
        final(params.render_state).use_c_frame_provider == old(
            params.render_state,
        ).use_c_frame_provider,
        final(params.render_state).c_frame_provider.tick == old(
            params.render_state,
        ).c_frame_provider.tick,
        final(params.render_state).c_frame_provider.engine_initialized == old(
            params.render_state,
        ).c_frame_provider.engine_initialized,
        final(params.render_state).c_frame_provider.width == old(
            params.render_state,
        ).c_frame_provider.width,
        final(params.render_state).c_frame_provider.height == old(
            params.render_state,
        ).c_frame_provider.height,
{
    let ApplyExternalEngineInputParams { action, render_state } = params;
    match action {
        InputAction::Quit => {
            assert(render_state.c_frame_provider.input_mask | 0u32
                == render_state.c_frame_provider.input_mask) by (bit_vector);
            true
        },
        _ => {
            render_state.c_frame_provider.queue_input_action(action);
            false
        },
    }
}

/// Applies actions in order until one quits: whether one quit, and the
/// input mask after the actions before it.
pub open spec fn spec_apply_actions(mask: u32, actions: Seq<InputAction>) -> (bool, u32)
    decreases actions.len(),
{
    if actions.len() == 0 {
        (false, mask)
    } else if actions[0] == InputAction::Quit {
        (true, mask)
    } else {
        spec_apply_actions(mask | spec_action_input_bit(actions[0]), actions.drop_first())
    }
}

/// The actions of a frame: the held ones in engine order, then the pressed
/// ones that are not held.
pub open spec fn spec_frame_actions(input_state: InputState, pressed: Seq<InputAction>) -> Seq<InputAction> {
    input_state.spec_ordered_held_actions() + input_state.spec_discrete_pressed(pressed)
}

pub struct ApplyExternalFrameInputParams<'a> {
    pub input_state: &'a InputState,
    pub pressed_actions: &'a [InputAction],
    pub render_state: &'a mut RenderState,
}

fn apply_actions(actions: &Vec<InputAction>, render_state: &mut RenderState) -> (quit: bool)
    ensures
        (quit, final(render_state).c_frame_provider.input_mask) == spec_apply_actions(
            old(render_state).c_frame_provider.input_mask,
            actions@,
        ),
        final(render_state).use_c_frame_provider == old(render_state).use_c_frame_provider,
        final(render_state).c_frame_provider.tick == old(render_state).c_frame_provider.tick,
        final(render_state).c_frame_provider.engine_initialized == old(
            render_state,
        ).c_frame_provider.engine_initialized,
        final(render_state).c_frame_provider.width == old(render_state).c_frame_provider.width,
        final(render_state).c_frame_provider.height == old(render_state).c_frame_provider.height,
{
    let mut k: usize = 0;
    assert(actions@.skip(0) =~= actions@);
    while k < actions.len()
        invariant
            k <= actions@.len(),
            spec_apply_actions(old(render_state).c_frame_provider.input_mask, actions@)
                == spec_apply_actions(render_state.c_frame_provider.input_mask, actions@.skip(k as int)),
            render_state.use_c_frame_provider == old(render_state).use_c_frame_provider,
            render_state.c_frame_provider.tick == old(render_state).c_frame_provider.tick,
            render_state.c_frame_provider.engine_initialized == old(
                render_state,
            ).c_frame_provider.engine_initialized,
            render_state.c_frame_provider.width == old(render_state).c_frame_provider.width,
            render_state.c_frame_provider.height == old(render_state).c_frame_provider.height,
        decreases actions@.len() - k,
    {
        let action = actions[k];
        let ghost rest = actions@.skip(k as int);
        assert(rest[0] == action);
        assert(rest.drop_first() =~= actions@.skip(k + 1));
        let ghost mask = render_state.c_frame_provider.input_mask;
        if apply_external_engine_input(ApplyExternalEngineInputParams { action, render_state }) {
            assert(mask | 0u32 == mask) by (bit_vector);
            return true;
        }
        k = k + 1;
    }
    assert(actions@.skip(k as int) =~= Seq::<InputAction>::empty());
    false
}

proof fn lemma_apply_actions_append(mask: u32, first: Seq<InputAction>, second: Seq<InputAction>)
    ensures
        spec_apply_actions(mask, first + second) == if spec_apply_actions(mask, first).0 {
            spec_apply_actions(mask, first)
        } else {
            spec_apply_actions(spec_apply_actions(mask, first).1, second)
        },
    decreases first.len(),
{
    if first.len() == 0 {
        assert(first + second =~= second);
    } else {
        assert((first + second)[0] == first[0]);
        if first[0] != InputAction::Quit {
            assert((first + second).drop_first() =~= first.drop_first() + second);
            lemma_apply_actions_append(
                mask | spec_action_input_bit(first[0]),
                first.drop_first(),
                second,
            );
        }
    }
}

/// Feeds a frame's actions to the engine frame source: first the held
/// actions, then the pressed ones that are not held; stops at a quit and
/// reports it.
pub fn apply_external_frame_input(params: ApplyExternalFrameInputParams<'_>) -> (quit: bool)
    ensures
        (quit, final(params.render_state).c_frame_provider.input_mask) == spec_apply_actions(
            old(params.render_state).c_frame_provider.input_mask,
            spec_frame_actions(*params.input_state, params.pressed_actions@),
        ),
        final(params.render_state).use_c_frame_provider == old(
            params.render_state,
        ).use_c_frame_provider,
        final(params.render_state).c_frame_provider.tick == old(
            params.render_state,
        ).c_frame_provider.tick,
        final(params.render_state).c_frame_provider.engine_initialized == old(
            params.render_state,
        ).c_frame_provider.engine_initialized,
        final(params.render_state).c_frame_provider.width == old(
            params.render_state,
        ).c_frame_provider.width,
        final(params.render_state).c_frame_provider.height == old(
            params.render_state,
        ).c_frame_provider.height,
{
    let ApplyExternalFrameInputParams { input_state, pressed_actions, render_state } = params;
    let held = input_state.ordered_held_actions();
    let discrete = input_state.discrete_pressed_actions(pressed_actions);
    proof {
        lemma_apply_actions_append(render_state.c_frame_provider.input_mask, held@, discrete@);
    }
    if apply_actions(&held, render_state) {
        return true;
    }
    apply_actions(&discrete, render_state)
}

} // verus!

verus! {

proof fn lemma_apply_actions_quits_on_quit(mask: u32, actions: Seq<InputAction>)
    ensures
        spec_apply_actions(mask, actions).0 == actions.contains(InputAction::Quit),
    decreases actions.len(),
{
    if actions.len() > 0 {
        if actions[0] == InputAction::Quit {
            assert(actions[0] == InputAction::Quit);
        } else {
            lemma_apply_actions_quits_on_quit(
                mask | spec_action_input_bit(actions[0]),
                actions.drop_first(),
            );
            assert(actions.contains(InputAction::Quit) == actions.drop_first().contains(
                InputAction::Quit,
            )) by {
                if actions.contains(InputAction::Quit) {
                    let w = choose|w: int| 0 <= w < actions.len() && actions[w] == InputAction::Quit;
                    assert(actions.drop_first()[w - 1] == InputAction::Quit);
                }
                if actions.drop_first().contains(InputAction::Quit) {
                    let w = choose|w: int|
                        0 <= w < actions.drop_first().len() && actions.drop_first()[w]
                            == InputAction::Quit;
                    assert(actions[w + 1] == InputAction::Quit);
                }
            }
        }
    }
}

/// A frame asks to quit exactly when the quit key was pressed in it.
pub proof fn law_frame_quits_iff_quit_pressed(
    state: InputState,
    pressed: Seq<InputAction>,
    mask: u32,
)
    requires
        state.holds_only_held_actions(),
    ensures
        spec_apply_actions(mask, spec_frame_actions(state, pressed)).0 == pressed.contains(
            InputAction::Quit,
        ),
{
    let held = state.spec_ordered_held_actions();
    let discrete = state.spec_discrete_pressed(pressed);
    lemma_apply_actions_quits_on_quit(mask, held + discrete);
    crate::input::law_discrete_pressed_actions(state, pressed);
    assert(!state.is_held(InputAction::Quit));
    assert(!held.contains(InputAction::Quit)) by {
        if held.contains(InputAction::Quit) {
            let w = choose|w: int| 0 <= w < held.len() && held[w] == InputAction::Quit;
            crate::input::lemma_ordered_held_are_held(state, w);
        }
    }
    assert((held + discrete).contains(InputAction::Quit) == discrete.contains(InputAction::Quit))
        by {
        if (held + discrete).contains(InputAction::Quit) {
            let w = choose|w: int|
                0 <= w < (held + discrete).len() && (held + discrete)[w] == InputAction::Quit;
            if w < held.len() {
                assert(held[w] == InputAction::Quit);
            } else {
                assert(discrete[w - held.len()] == InputAction::Quit);
            }
        }
        if discrete.contains(InputAction::Quit) {
            let w = choose|w: int| 0 <= w < discrete.len() && discrete[w] == InputAction::Quit;
            assert((held + discrete)[w + held.len()] == InputAction::Quit);
        }
    }
}

/// After the player starts are removed, none is left and every other thing
/// remains.
pub proof fn law_player_starts_removed(things: Seq<Thing>)
    ensures
        forall|t: Thing|
            #![trigger spec_without_player_starts(things).contains(t)]
            spec_without_player_starts(things).contains(t) <==> (things.contains(t)
                && !spec_is_player_start_thing_type(t.thing_type)),
    decreases things.len(),
{
    if things.len() > 0 {
        let rest = things.drop_last();
        let last = things.last();
        law_player_starts_removed(rest);
        let kept = spec_without_player_starts(rest);
        let all = spec_without_player_starts(things);
        assert forall|t: Thing| #![trigger things.contains(t)] things.contains(t) <==> (
        rest.contains(t) || t == last) by {
            if things.contains(t) {
                let w = choose|w: int| 0 <= w < things.len() && things[w] == t;
                if w < rest.len() {
                    assert(rest[w] == t);
                }
            }
            if rest.contains(t) {
                let w = choose|w: int| 0 <= w < rest.len() && rest[w] == t;
                assert(things[w] == t);
            }
            if t == last {
                assert(things[things.len() - 1] == t);
            }
        }
        if !spec_is_player_start_thing_type(last.thing_type) {
            assert forall|t: Thing| #![trigger all.contains(t)] all.contains(t) <==> (kept.contains(
                t,
            ) || t == last) by {
                if all.contains(t) {
                    let w = choose|w: int| 0 <= w < all.len() && all[w] == t;
                    if w < kept.len() {
                        assert(kept[w] == t);
                    }
                }
                if kept.contains(t) {
                    let w = choose|w: int| 0 <= w < kept.len() && kept[w] == t;
                    assert(all[w] == t);
                }
                if t == last {
                    assert(all[all.len() - 1] == t);
                }
            }
        }
    }
}

proof fn lemma_extremes_bound_vertex(vertexes: Seq<Vertex>, i: int)
    requires
        0 <= i < vertexes.len(),
    ensures
        spec_min_x(vertexes) <= vertexes[i].x <= spec_max_x(vertexes),
        spec_min_y(vertexes) <= vertexes[i].y <= spec_max_y(vertexes),
    decreases vertexes.len(),
{
    if vertexes.len() > 1 {
        if i < vertexes.len() - 1 {
            lemma_extremes_bound_vertex(vertexes.drop_last(), i);
            assert(vertexes.drop_last()[i] == vertexes[i]);
        }
    }
}

/// The map bounds contain every vertex.
pub proof fn law_bounds_contain_vertexes(vertexes: Seq<Vertex>, i: int)
    requires
        0 <= i < vertexes.len(),
    ensures
        spec_min_x(vertexes) <= vertexes[i].x <= spec_min_x(vertexes) + at_least_one_span(
            spec_max_x(vertexes) - spec_min_x(vertexes),
        ),
        spec_min_y(vertexes) <= vertexes[i].y <= spec_min_y(vertexes) + at_least_one_span(
            spec_max_y(vertexes) - spec_min_y(vertexes),
        ),
{
    lemma_extremes_bound_vertex(vertexes, i);
}

/// The status line fits the width, unless even the always-visible fields
/// alone do not, in which case it is exactly those fields.
pub proof fn law_status_text_fits_or_is_minimal(
    hints: Seq<Seq<char>>,
    always_visible: Seq<Seq<char>>,
    context: Seq<Seq<char>>,
    max_width: int,
)
    ensures
        spec_status_text(hints, always_visible, context, max_width).len() <= max_width
            || spec_status_text(hints, always_visible, context, max_width) == spec_join(
            always_visible,
            STATUS_SEPARATOR@,
        ),
{
}

} // verus!

verus! {

proof fn lemma_or_keeps_bits(mask: u32, added: u32, bit: u32)
    by (bit_vector)
    ensures
        (mask & bit == bit) ==> ((mask | added) & bit == bit),
        (mask | added) & added == added,
{
}

/// Applying actions without quit sets the input bit of each of them and
/// keeps every bit already set.
proof fn lemma_apply_actions_sets_bits(mask: u32, actions: Seq<InputAction>)
    requires
        !actions.contains(InputAction::Quit),
    ensures
        !spec_apply_actions(mask, actions).0,
        forall|bit: u32|
            #![trigger (spec_apply_actions(mask, actions).1 & bit)]
            (mask & bit == bit) ==> (spec_apply_actions(mask, actions).1 & bit == bit),
        forall|i: int|
            0 <= i < actions.len() ==> spec_apply_actions(mask, actions).1 & spec_action_input_bit(
                #[trigger] actions[i],
            ) == spec_action_input_bit(actions[i]),
    decreases actions.len(),
{
    if actions.len() > 0 {
        let first = actions[0];
        let rest = actions.drop_first();
        let next = mask | spec_action_input_bit(first);
        assert(first != InputAction::Quit);
        assert(!rest.contains(InputAction::Quit)) by {
            if rest.contains(InputAction::Quit) {
                let w = choose|w: int| 0 <= w < rest.len() && rest[w] == InputAction::Quit;
                assert(actions[w + 1] == InputAction::Quit);
            }
        }
        lemma_apply_actions_sets_bits(next, rest);
        let result = spec_apply_actions(mask, actions).1;
        assert(result == spec_apply_actions(next, rest).1);
        assert forall|bit: u32| #![trigger (result & bit)] (mask & bit == bit) implies (result & bit
            == bit) by {
            lemma_or_keeps_bits(mask, spec_action_input_bit(first), bit);
        }
        assert forall|i: int| 0 <= i < actions.len() implies result & spec_action_input_bit(
            #[trigger] actions[i],
        ) == spec_action_input_bit(actions[i]) by {
            if i == 0 {
                lemma_or_keeps_bits(mask, spec_action_input_bit(first), spec_action_input_bit(first));
                assert(next & spec_action_input_bit(first) == spec_action_input_bit(first));
                assert(result & spec_action_input_bit(first) == spec_action_input_bit(first));
            } else {
                assert(rest[i - 1] == actions[i]);
            }
        }
    }
}

/// Every key the player presses in a frame reaches the engine, unless it
/// is quit or its opposite direction is pressed or still held: after the
/// held-key update of the frame, the frame's input mask has the action's
/// bit set, and the frame does not quit. This holds for discrete actions
/// (automap, menu, use, weapons) as much as for movement, turning and
/// firing.
pub proof fn law_pressed_action_reaches_engine(
    before: InputState,
    after: InputState,
    pressed: Seq<InputAction>,
    now: u64,
    mask: u32,
    action: InputAction,
)
    requires
        before.holds_only_held_actions(),
        forall|a: InputAction|
            #[trigger] after.held(a) == spec_held_after_update(before.held(a), a, pressed, now),
        pressed.contains(action),
        !pressed.contains(InputAction::Quit),
        match opposed_action(action) {
            Some(other) => !pressed.contains(other) && before.held(other) is None,
            None => true,
        },
    ensures
        !spec_apply_actions(mask, spec_frame_actions(after, pressed)).0,
        spec_action_input_bit(action) != 0,
        spec_apply_actions(mask, spec_frame_actions(after, pressed)).1 & spec_action_input_bit(
            action,
        ) == spec_action_input_bit(action),
{
    assert(after.holds_only_held_actions()) by {
        assert forall|a: InputAction| #[trigger] after.is_held(a) implies crate::input::spec_is_held_action(a) by {
            assert(after.held(a) == spec_held_after_update(before.held(a), a, pressed, now));
            if !crate::input::spec_is_held_action(a) {
                assert(!before.is_held(a));
            }
        }
    }
    assert(action != InputAction::Quit);
    let held = after.spec_ordered_held_actions();
    let discrete = after.spec_discrete_pressed(pressed);
    let frame = spec_frame_actions(after, pressed);
    crate::input::law_discrete_pressed_actions(after, pressed);
    assert(!frame.contains(InputAction::Quit)) by {
        law_frame_quits_iff_quit_pressed(after, pressed, mask);
        lemma_apply_actions_quits_on_quit(mask, frame);
    }
    assert(after.held(action) == spec_held_after_update(before.held(action), action, pressed, now));
    if let Some(other) = opposed_action(action) {
        assert(after.held(other) == spec_held_after_update(before.held(other), other, pressed, now));
        assert(!after.is_held(other));
    }
    let index: int = if after.is_held(action) {
        assert(held.contains(action)) by {
            let f = crate::input::option_seq(
                crate::input::spec_resolved_opposed(
                    (after.is_held(InputAction::MoveForward), after.is_held(InputAction::MoveBackward)),
                    InputAction::MoveForward,
                    InputAction::MoveBackward,
                ),
            );
            let s = crate::input::option_seq(
                crate::input::spec_resolved_opposed(
                    (after.is_held(InputAction::StrafeLeft), after.is_held(InputAction::StrafeRight)),
                    InputAction::StrafeLeft,
                    InputAction::StrafeRight,
                ),
            );
            let r = crate::input::option_seq(
                crate::input::spec_resolved_opposed(
                    (after.is_held(InputAction::RotateLeft), after.is_held(InputAction::RotateRight)),
                    InputAction::RotateLeft,
                    InputAction::RotateRight,
                ),
            );
            match action {
                InputAction::MoveForward | InputAction::MoveBackward => {
                    assert(held[0] == f[0]);
                },
                InputAction::StrafeLeft | InputAction::StrafeRight => {
                    assert(held[f.len() as int] == s[0]);
                },
                InputAction::RotateLeft | InputAction::RotateRight => {
                    assert(held[(f.len() + s.len()) as int] == r[0]);
                },
                _ => {
                    assert(action == InputAction::Fire);
                    assert(held[(f.len() + s.len() + r.len()) as int] == InputAction::Fire);
                },
            }
        }
        let w = choose|w: int| 0 <= w < held.len() && held[w] == action;
        assert(frame[w] == action);
        w
    } else {
        assert(discrete.contains(action));
        let w = choose|w: int| 0 <= w < discrete.len() && discrete[w] == action;
        assert(frame[held.len() + w] == action);
        held.len() + w
    };
    lemma_apply_actions_sets_bits(mask, frame);
    assert(frame[index] == action);
}

/// A LINEDEFS record blocks the player exactly when it has a front
/// sidedef (bytes 10-11) and no back sidedef (bytes 12-13 are FF FF): a
/// one-sided wall.
pub proof fn law_one_sided_records_block(data: Seq<u8>, i: int)
    requires
        0 <= i < data.len() / 14,
    ensures
        spec_is_collision_line(crate::wad::parser::spec_parse_linedefs(data)[i]) == (
        crate::wad::parser::le_u16_at(data, 14 * i + 10) != 0xffff
            && crate::wad::parser::le_u16_at(data, 14 * i + 12) == 0xffff),
{
    crate::wad::parser::law_linedef_record_layout(data);
    assert(crate::wad::parser::spec_parse_linedefs(data)[i] == crate::wad::parser::spec_parse_linedefs(
        data,
    )[i]);
}

} // verus!
