//! Player input: key mapping, held-action tracking with a stale timeout,
//! and the order in which actions reach the engine.

use vstd::prelude::*;

verus! {

#[derive(Clone, Copy, Debug, PartialEq, Eq, Hash, Structural)]
pub enum InputAction {
    Quit,
    MoveForward,
    MoveBackward,
    StrafeLeft,
    StrafeRight,
    RotateLeft,
    RotateRight,
    Fire,
    Use,
    ToggleAutomap,
    OpenMenu,
    ConfirmMenu,
    BackMenu,
    WeaponPrev,
    WeaponNext,
}

/// The keys the game reads; every other key is `Other`.
#[derive(Clone, Copy, Debug, PartialEq, Eq, Structural)]
pub enum KeyCode {
    Esc,
    Up,
    Down,
    Left,
    Right,
    Tab,
    Enter,
    Backspace,
    Char(char),
    Other,
}

#[derive(Clone, Copy, Debug, PartialEq, Eq, Structural)]
pub enum KeyEventKind {
    Press,
    Repeat,
    Release,
}

/// A key event as the game reads it: the key, whether Control was held,
/// and whether the key went down, repeated or went up.
#[derive(Clone, Copy, Debug, PartialEq, Eq, Structural)]
pub struct KeyEvent {
    pub code: KeyCode,
    pub control: bool,
    pub kind: KeyEventKind,
}

/// The action bound to a key: Control with any key is "use"; the rest follow
/// the key table.
pub open spec fn spec_key_action(key: KeyEvent) -> Option<InputAction> {
    if key.control {
        Some(InputAction::Use)
    } else {
        match key.code {
            KeyCode::Esc => Some(InputAction::Quit),
            KeyCode::Up => Some(InputAction::MoveForward),
            KeyCode::Down => Some(InputAction::MoveBackward),
            KeyCode::Left => Some(InputAction::RotateLeft),
            KeyCode::Right => Some(InputAction::RotateRight),
            KeyCode::Tab => Some(InputAction::ToggleAutomap),
            KeyCode::Enter => Some(InputAction::ConfirmMenu),
            KeyCode::Backspace => Some(InputAction::BackMenu),
            KeyCode::Char(c) => {
                if c == 'w' || c == 'W' {
                    Some(InputAction::MoveForward)
                } else if c == 's' || c == 'S' {
                    Some(InputAction::MoveBackward)
                } else if c == 'a' || c == 'A' {
                    Some(InputAction::RotateLeft)
                } else if c == 'd' || c == 'D' {
                    Some(InputAction::RotateRight)
                } else if c == 'z' || c == 'Z' {
                    Some(InputAction::StrafeLeft)
                } else if c == 'c' || c == 'C' {
                    Some(InputAction::StrafeRight)
                } else if c == ' ' {
                    Some(InputAction::Fire)
                } else if c == 'p' || c == 'P' {
                    Some(InputAction::OpenMenu)
                } else if c == 'q' || c == 'Q' {
                    Some(InputAction::WeaponPrev)
                } else if c == 'e' || c == 'E' {
                    Some(InputAction::WeaponNext)
                } else {
                    None
                }
            },
            KeyCode::Other => None,
        }
    }
}

pub fn map_key_to_action(key: KeyEvent) -> (action: Option<InputAction>)
    ensures
        action == spec_key_action(key),
{
    if key.control {
        return Some(InputAction::Use);
    }
    match key.code {
        KeyCode::Esc => Some(InputAction::Quit),
        KeyCode::Up => Some(InputAction::MoveForward),
        KeyCode::Down => Some(InputAction::MoveBackward),
        KeyCode::Left => Some(InputAction::RotateLeft),
        KeyCode::Right => Some(InputAction::RotateRight),
        KeyCode::Tab => Some(InputAction::ToggleAutomap),
        KeyCode::Enter => Some(InputAction::ConfirmMenu),
        KeyCode::Backspace => Some(InputAction::BackMenu),
        KeyCode::Char(c) => {
            if c == 'w' || c == 'W' {
                Some(InputAction::MoveForward)
            } else if c == 's' || c == 'S' {
                Some(InputAction::MoveBackward)
            } else if c == 'a' || c == 'A' {
                Some(InputAction::RotateLeft)
            } else if c == 'd' || c == 'D' {
                Some(InputAction::RotateRight)
            } else if c == 'z' || c == 'Z' {
                Some(InputAction::StrafeLeft)
            } else if c == 'c' || c == 'C' {
                Some(InputAction::StrafeRight)
            } else if c == ' ' {
                Some(InputAction::Fire)
            } else if c == 'p' || c == 'P' {
                Some(InputAction::OpenMenu)
            } else if c == 'q' || c == 'Q' {
                Some(InputAction::WeaponPrev)
            } else if c == 'e' || c == 'E' {
                Some(InputAction::WeaponNext)
            } else {
                None
            }
        },
        KeyCode::Other => None,
    }
}

/// Actions that stay active while their key is held: movement, turning and
/// firing.
pub open spec fn spec_is_held_action(action: InputAction) -> bool {
    match action {
        InputAction::MoveForward | InputAction::MoveBackward | InputAction::StrafeLeft
        | InputAction::StrafeRight | InputAction::RotateLeft | InputAction::RotateRight
        | InputAction::Fire => true,
        _ => false,
    }
}

pub fn is_held_action(action: InputAction) -> (held: bool)
    ensures
        held == spec_is_held_action(action),
{
    match action {
        InputAction::MoveForward | InputAction::MoveBackward | InputAction::StrafeLeft
        | InputAction::StrafeRight | InputAction::RotateLeft | InputAction::RotateRight
        | InputAction::Fire => true,
        _ => false,
    }
}

pub struct ProcessKeyEventParams<'a> {
    pub key: KeyEvent,
    pub pressed: &'a mut Vec<InputAction>,
    pub released: &'a mut Vec<InputAction>,
}

/// Records a key event: a press of a mapped key adds its action to
/// `pressed`; a repeat does so only for held actions; a release adds it to
/// `released`.
pub fn process_key_event(params: ProcessKeyEventParams<'_>)
    ensures
        ({
            let action = spec_key_action(params.key);
            let add_pressed = action is Some && (params.key.kind == KeyEventKind::Press || (
            params.key.kind == KeyEventKind::Repeat && spec_is_held_action(action->Some_0)));
            let add_released = action is Some && params.key.kind == KeyEventKind::Release;
            &&& final(params.pressed)@ == if add_pressed {
                old(params.pressed)@.push(action->Some_0)
            } else {
                old(params.pressed)@
            }
            &&& final(params.released)@ == if add_released {
                old(params.released)@.push(action->Some_0)
            } else {
                old(params.released)@
            }
        }),
{
    let ProcessKeyEventParams { key, pressed, released } = params;
    match key.kind {
        KeyEventKind::Press => {
            if let Some(action) = map_key_to_action(key) {
                pressed.push(action);
            }
        },
        KeyEventKind::Repeat => {
            if let Some(action) = map_key_to_action(key) {
                if is_held_action(action) {
                    pressed.push(action);
                }
            }
        },
        KeyEventKind::Release => {
            if let Some(action) = map_key_to_action(key) {
                released.push(action);
            }
        },
    }
}

/// A held action that is not refreshed within this many nanoseconds is
/// dropped, since some terminals never report key releases.
pub const INPUT_HELD_ACTION_STALE_TIMEOUT_NANOS: u64 = 150_000_000;

/// The slot of an action in `InputState`.
pub open spec fn action_slot(action: InputAction) -> int {
    match action {
        InputAction::Quit => 0,
        InputAction::MoveForward => 1,
        InputAction::MoveBackward => 2,
        InputAction::StrafeLeft => 3,
        InputAction::StrafeRight => 4,
        InputAction::RotateLeft => 5,
        InputAction::RotateRight => 6,
        InputAction::Fire => 7,
        InputAction::Use => 8,
        InputAction::ToggleAutomap => 9,
        InputAction::OpenMenu => 10,
        InputAction::ConfirmMenu => 11,
        InputAction::BackMenu => 12,
        InputAction::WeaponPrev => 13,
        InputAction::WeaponNext => 14,
    }
}

proof fn lemma_action_slot_injective(a: InputAction, b: InputAction)
    ensures
        action_slot(a) == action_slot(b) ==> a == b,
        0 <= action_slot(a) < 15,
{
}

fn action_index(action: InputAction) -> (index: usize)
    ensures
        index == action_slot(action),
        index < 15,
{
    match action {
        InputAction::Quit => 0,
        InputAction::MoveForward => 1,
        InputAction::MoveBackward => 2,
        InputAction::StrafeLeft => 3,
        InputAction::StrafeRight => 4,
        InputAction::RotateLeft => 5,
        InputAction::RotateRight => 6,
        InputAction::Fire => 7,
        InputAction::Use => 8,
        InputAction::ToggleAutomap => 9,
        InputAction::OpenMenu => 10,
        InputAction::ConfirmMenu => 11,
        InputAction::BackMenu => 12,
        InputAction::WeaponPrev => 13,
        InputAction::WeaponNext => 14,
    }
}

/// The held actions, each with the time (in nanoseconds on the caller's
/// monotonic clock) at which its key was last seen down.
pub struct InputState {
    held_since: [Option<u64>; 15],
}

pub struct InputStateUpdateParams<'a> {
    pub pressed: &'a [InputAction],
    pub now: u64,
}

pub struct ResolvedOpposedActionParams {
    pub pair: (bool, bool),
    pub first: InputAction,
    pub second: InputAction,
}

/// Of two opposed actions, the one that is held alone; none when both or
/// neither are held.
pub open spec fn spec_resolved_opposed(pair: (bool, bool), first: InputAction, second: InputAction) -> Option<InputAction> {
    if pair.0 && !pair.1 {
        Some(first)
    } else if !pair.0 && pair.1 {
        Some(second)
    } else {
        None
    }
}

pub fn resolved_opposed_action(params: ResolvedOpposedActionParams) -> (action: Option<InputAction>)
    ensures
        action == spec_resolved_opposed(params.pair, params.first, params.second),
{
    let ResolvedOpposedActionParams { pair, first, second } = params;
    match pair {
        (true, false) => Some(first),
        (false, true) => Some(second),
        _ => None,
    }
}

/// The empty or one-element sequence holding what `o` holds.
pub open spec fn option_seq(o: Option<InputAction>) -> Seq<InputAction> {
    match o {
        Some(a) => seq![a],
        None => Seq::empty(),
    }
}

/// A held entry survives while less than the stale timeout has passed since
/// it was last seen (no time has passed if `now` is earlier).
pub open spec fn spec_is_fresh(since: u64, now: u64) -> bool {
    let elapsed = if now >= since { now - since } else { 0 };
    elapsed < INPUT_HELD_ACTION_STALE_TIMEOUT_NANOS
}

/// When `action` is held after an update at `now` with the keys `pressed`.
pub open spec fn spec_held_after_update(
    before: Option<u64>,
    action: InputAction,
    pressed: Seq<InputAction>,
    now: u64,
) -> Option<u64> {
    let refreshed = if spec_is_held_action(action) && pressed.contains(action) {
        Some(now)
    } else {
        before
    };
    match refreshed {
        Some(since) => if spec_is_fresh(since, now) {
            Some(since)
        } else {
            None
        },
        None => None,
    }
}

impl InputState {
    /// When `action` was last seen held, if it still is.
    pub closed spec fn held(&self, action: InputAction) -> Option<u64> {
        self.held_since@[action_slot(action)]
    }

    pub open spec fn is_held(&self, action: InputAction) -> bool {
        self.held(action) is Some
    }

    /// Only movement, turning and firing are held.
    pub open spec fn holds_only_held_actions(&self) -> bool {
        forall|a: InputAction| #[trigger] self.is_held(a) ==> spec_is_held_action(a)
    }

    /// The held actions in the order the engine receives them: the
    /// unopposed direction of forward/backward, of strafing and of turning,
    /// then firing.
    pub open spec fn spec_ordered_held_actions(&self) -> Seq<InputAction> {
        option_seq(
            spec_resolved_opposed(
                (self.is_held(InputAction::MoveForward), self.is_held(InputAction::MoveBackward)),
                InputAction::MoveForward,
                InputAction::MoveBackward,
            ),
        ) + option_seq(
            spec_resolved_opposed(
                (self.is_held(InputAction::StrafeLeft), self.is_held(InputAction::StrafeRight)),
                InputAction::StrafeLeft,
                InputAction::StrafeRight,
            ),
        ) + option_seq(
            spec_resolved_opposed(
                (self.is_held(InputAction::RotateLeft), self.is_held(InputAction::RotateRight)),
                InputAction::RotateLeft,
                InputAction::RotateRight,
            ),
        ) + (if self.is_held(InputAction::Fire) {
            seq![InputAction::Fire]
        } else {
            Seq::empty()
        })
    }

    /// The pressed actions that are not held, each once, in order of first
    /// appearance.
    pub open spec fn spec_discrete_pressed(&self, pressed: Seq<InputAction>) -> Seq<InputAction>
        decreases pressed.len(),
    {
        if pressed.len() == 0 {
            Seq::empty()
        } else {
            let prev = self.spec_discrete_pressed(pressed.drop_last());
            let action = pressed.last();
            if self.is_held(action) || prev.contains(action) {
                prev
            } else {
                prev.push(action)
            }
        }
    }

    /// No action is held.
    pub fn new() -> (state: Self)
        ensures
            forall|a: InputAction| state.held(a) is None,
            state.holds_only_held_actions(),
    {
        InputState { held_since: [None; 15] }
    }

    /// Marks the pressed held actions as seen at `now`, then drops the held
    /// actions that have gone stale.
    pub fn update(&mut self, params: InputStateUpdateParams<'_>)
        ensures
            forall|a: InputAction|
                #[trigger] final(self).held(a) == spec_held_after_update(
                    old(self).held(a),
                    a,
                    params.pressed@,
                    params.now,
                ),
            old(self).holds_only_held_actions() ==> final(self).holds_only_held_actions(),
    {
        let InputStateUpdateParams { pressed, now } = params;
        let ghost start = *self;
        let mut k: usize = 0;
        while k < pressed.len()
            invariant
                k <= pressed@.len(),
                forall|a: InputAction|
                    #[trigger] self.held(a) == if spec_is_held_action(a) && pressed@.take(
                        k as int,
                    ).contains(a) {
                        Some(now)
                    } else {
                        start.held(a)
                    },
            decreases pressed@.len() - k,
        {
            let action = pressed[k];
            assert(pressed@.take(k + 1) =~= pressed@.take(k as int).push(action));
            let ghost prev = *self;
            if is_held_action(action) {
                let slot = action_index(action);
                self.held_since[slot] = Some(now);
                assert(self.held_since@ == prev.held_since@.update(slot as int, Some(now)));
            }
            proof {
                assert forall|a: InputAction| #[trigger] self.held(a) == if spec_is_held_action(a)
                    && pressed@.take(k + 1).contains(a) {
                    Some(now)
                } else {
                    start.held(a)
                } by {
                    let t0 = pressed@.take(k as int);
                    let t1 = pressed@.take(k + 1);
                    lemma_action_slot_injective(a, action);
                    assert(prev.held(a) == if spec_is_held_action(a) && t0.contains(a) {
                        Some(now)
                    } else {
                        start.held(a)
                    });
                    if a != action {
                        assert(self.held(a) == prev.held(a));
                    } else {
                        assert(t1[k as int] == a);
                        assert(t1.contains(a));
                    }
                    if t1.contains(a) && a != action {
                        let w = choose|w: int| 0 <= w < t1.len() && #[trigger] t1[w] == a;
                        assert(t0[w] == a);
                    }
                    if t0.contains(a) {
                        let w = choose|w: int| 0 <= w < t0.len() && #[trigger] t0[w] == a;
                        assert(t1[w] == a);
                    }
                }
            }
            k = k + 1;
        }
        assert(pressed@.take(k as int) =~= pressed@);
        self.expire_stale(now);
        proof {
            if start.holds_only_held_actions() {
                assert forall|a: InputAction| #[trigger] self.is_held(a) implies spec_is_held_action(
                    a,
                ) by {
                    if !spec_is_held_action(a) {
                        assert(!start.is_held(a));
                    }
                }
            }
        }
    }

    /// Drops the held actions not seen within the stale timeout.
    fn expire_stale(&mut self, now: u64)
        ensures
            forall|a: InputAction|
                #[trigger] final(self).held(a) == match old(self).held(a) {
                    Some(since) => if spec_is_fresh(since, now) {
                        Some(since)
                    } else {
                        None
                    },
                    None => None,
                },
    {
        let ghost start = *self;
        let mut slot: usize = 0;
        while slot < 15
            invariant
                slot <= 15,
                forall|i: int|
                    0 <= i < 15 ==> #[trigger] self.held_since@[i] == if i < slot {
                        match start.held_since@[i] {
                            Some(since) => if spec_is_fresh(since, now) {
                                Some(since)
                            } else {
                                None
                            },
                            None => None,
                        }
                    } else {
                        start.held_since@[i]
                    },
            decreases 15 - slot,
        {
            if let Some(since) = self.held_since[slot] {
                let elapsed = if now >= since { now - since } else { 0 };
                if elapsed >= INPUT_HELD_ACTION_STALE_TIMEOUT_NANOS {
                    self.held_since[slot] = None;
                }
            }
            slot = slot + 1;
        }
        assert forall|a: InputAction| 0 <= #[trigger] action_slot(a) < 15 by {}
    }

    fn is_action_held(&self, action: InputAction) -> (held: bool)
        ensures
            held == self.is_held(action),
    {
        self.held_since[action_index(action)].is_some()
    }

    /// The held actions in the order the engine receives them.
    pub fn ordered_held_actions(&self) -> (actions: Vec<InputAction>)
        ensures
            actions@ == self.spec_ordered_held_actions(),
    {
        let mut result: Vec<InputAction> = Vec::new();
        let forward_pair = (
            self.is_action_held(InputAction::MoveForward),
            self.is_action_held(InputAction::MoveBackward),
        );
        if let Some(action) = resolved_opposed_action(
            ResolvedOpposedActionParams {
                pair: forward_pair,
                first: InputAction::MoveForward,
                second: InputAction::MoveBackward,
            },
        ) {
            result.push(action);
        }
        let strafe_pair = (
            self.is_action_held(InputAction::StrafeLeft),
            self.is_action_held(InputAction::StrafeRight),
        );
        if let Some(action) = resolved_opposed_action(
            ResolvedOpposedActionParams {
                pair: strafe_pair,
                first: InputAction::StrafeLeft,
                second: InputAction::StrafeRight,
            },
        ) {
            result.push(action);
        }
        let rotate_pair = (
            self.is_action_held(InputAction::RotateLeft),
            self.is_action_held(InputAction::RotateRight),
        );
        if let Some(action) = resolved_opposed_action(
            ResolvedOpposedActionParams {
                pair: rotate_pair,
                first: InputAction::RotateLeft,
                second: InputAction::RotateRight,
            },
        ) {
            result.push(action);
        }
        if self.is_action_held(InputAction::Fire) {
            result.push(InputAction::Fire);
        }
        assert(result@ =~= self.spec_ordered_held_actions());
        result
    }

    /// The pressed actions that are not held, without repeats, in order of
    /// first appearance.
    pub fn discrete_pressed_actions(&self, pressed: &[InputAction]) -> (actions: Vec<InputAction>)
        ensures
            actions@ == self.spec_discrete_pressed(pressed@),
    {
        let mut result: Vec<InputAction> = Vec::new();
        let mut k: usize = 0;
        while k < pressed.len()
            invariant
                k <= pressed@.len(),
                result@ == self.spec_discrete_pressed(pressed@.take(k as int)),
            decreases pressed@.len() - k,
        {
            let action = pressed[k];
            assert(pressed@.take(k + 1).drop_last() =~= pressed@.take(k as int));
            let mut seen = false;
            let mut j: usize = 0;
            while j < result.len()
                invariant
                    j <= result@.len(),
                    seen <==> exists|w: int| 0 <= w < j && result@[w] == action,
                decreases result@.len() - j,
            {
                if result[j] == action {
                    seen = true;
                }
                j = j + 1;
            }
            if !self.is_action_held(action) && !seen {
                result.push(action);
            }
            k = k + 1;
        }
        assert(pressed@.take(k as int) =~= pressed@);
        result
    }
}

} // verus!

verus! {

/// Opposed held actions cancel: while both directions of a pair are held,
/// neither reaches the engine.
pub proof fn law_opposed_held_actions_cancel(state: InputState)
    ensures
        state.is_held(InputAction::MoveForward) && state.is_held(InputAction::MoveBackward) ==> {
            &&& !state.spec_ordered_held_actions().contains(InputAction::MoveForward)
            &&& !state.spec_ordered_held_actions().contains(InputAction::MoveBackward)
        },
        state.is_held(InputAction::StrafeLeft) && state.is_held(InputAction::StrafeRight) ==> {
            &&& !state.spec_ordered_held_actions().contains(InputAction::StrafeLeft)
            &&& !state.spec_ordered_held_actions().contains(InputAction::StrafeRight)
        },
        state.is_held(InputAction::RotateLeft) && state.is_held(InputAction::RotateRight) ==> {
            &&& !state.spec_ordered_held_actions().contains(InputAction::RotateLeft)
            &&& !state.spec_ordered_held_actions().contains(InputAction::RotateRight)
        },
{
    let ordered = state.spec_ordered_held_actions();
    assert forall|a: InputAction|
        #![trigger ordered.contains(a)]
        ordered.contains(a) implies (
        a == InputAction::Fire || (a == InputAction::MoveForward && !state.is_held(InputAction::MoveBackward))
            || (a == InputAction::MoveBackward && !state.is_held(InputAction::MoveForward))
            || (a == InputAction::StrafeLeft && !state.is_held(InputAction::StrafeRight))
            || (a == InputAction::StrafeRight && !state.is_held(InputAction::StrafeLeft))
            || (a == InputAction::RotateLeft && !state.is_held(InputAction::RotateRight))
            || (a == InputAction::RotateRight && !state.is_held(InputAction::RotateLeft))) by {
        let i = choose|i: int| 0 <= i < ordered.len() && ordered[i] == a;
        let f = option_seq(
            spec_resolved_opposed(
                (state.is_held(InputAction::MoveForward), state.is_held(InputAction::MoveBackward)),
                InputAction::MoveForward,
                InputAction::MoveBackward,
            ),
        );
        let s = option_seq(
            spec_resolved_opposed(
                (state.is_held(InputAction::StrafeLeft), state.is_held(InputAction::StrafeRight)),
                InputAction::StrafeLeft,
                InputAction::StrafeRight,
            ),
        );
        let r = option_seq(
            spec_resolved_opposed(
                (state.is_held(InputAction::RotateLeft), state.is_held(InputAction::RotateRight)),
                InputAction::RotateLeft,
                InputAction::RotateRight,
            ),
        );
        if i < f.len() {
            assert(ordered[i] == f[i]);
        } else if i < f.len() + s.len() {
            assert(ordered[i] == s[i - f.len()]);
        } else if i < f.len() + s.len() + r.len() {
            assert(ordered[i] == r[i - f.len() - s.len()]);
        }
    }
}

/// Only movement, turning and firing are ever held: an update never makes
/// another action held.
pub proof fn law_update_holds_only_held_actions(
    before: Option<u64>,
    action: InputAction,
    pressed: Seq<InputAction>,
    now: u64,
)
    requires
        !spec_is_held_action(action),
        before is None,
    ensures
        spec_held_after_update(before, action, pressed, now) is None,
{
}

/// A held action whose key is down in an update counts as held from that
/// moment.
pub proof fn law_pressed_held_action_is_refreshed(
    before: Option<u64>,
    action: InputAction,
    pressed: Seq<InputAction>,
    now: u64,
)
    requires
        spec_is_held_action(action),
        pressed.contains(action),
    ensures
        spec_held_after_update(before, action, pressed, now) == Some(now),
{
}

/// A held action not seen for the stale timeout is released, though no key
/// release arrived.
pub proof fn law_stale_held_action_expires(
    since: u64,
    action: InputAction,
    pressed: Seq<InputAction>,
    now: u64,
)
    requires
        !pressed.contains(action),
        now >= since + INPUT_HELD_ACTION_STALE_TIMEOUT_NANOS,
    ensures
        spec_held_after_update(Some(since), action, pressed, now) is None,
{
}

/// A held action seen less than the stale timeout ago stays held, with the
/// time it was last seen.
pub proof fn law_recent_held_action_stays(
    since: u64,
    action: InputAction,
    pressed: Seq<InputAction>,
    now: u64,
)
    requires
        !pressed.contains(action),
        since <= now < since + INPUT_HELD_ACTION_STALE_TIMEOUT_NANOS,
    ensures
        spec_held_after_update(Some(since), action, pressed, now) == Some(since),
{
}

/// The discrete actions of a frame are exactly the pressed actions that are
/// not held, each listed once.
pub proof fn law_discrete_pressed_actions(state: InputState, pressed: Seq<InputAction>)
    ensures
        forall|a: InputAction|
            #![trigger state.spec_discrete_pressed(pressed).contains(a)]
            state.spec_discrete_pressed(pressed).contains(a) <==> (pressed.contains(a)
                && !state.is_held(a)),
        forall|i: int, j: int|
            #![trigger state.spec_discrete_pressed(pressed)[i], state.spec_discrete_pressed(pressed)[j]]
            0 <= i < j < state.spec_discrete_pressed(pressed).len() ==> state.spec_discrete_pressed(
                pressed,
            )[i] != state.spec_discrete_pressed(pressed)[j],
    decreases pressed.len(),
{
    if pressed.len() > 0 {
        let rest = pressed.drop_last();
        let last = pressed.last();
        law_discrete_pressed_actions(state, rest);
        let prev = state.spec_discrete_pressed(rest);
        let cur = state.spec_discrete_pressed(pressed);
        assert forall|a: InputAction| #![trigger pressed.contains(a)] pressed.contains(a) <==> (
        rest.contains(a) || a == last) by {
            if pressed.contains(a) {
                let w = choose|w: int| 0 <= w < pressed.len() && pressed[w] == a;
                if w < rest.len() {
                    assert(rest[w] == a);
                }
            }
            if rest.contains(a) {
                let w = choose|w: int| 0 <= w < rest.len() && rest[w] == a;
                assert(pressed[w] == a);
            }
            if a == last {
                assert(pressed[pressed.len() - 1] == a);
            }
        }
        if !(state.is_held(last) || prev.contains(last)) {
            assert forall|a: InputAction| #![trigger cur.contains(a)] cur.contains(a) <==> (
            prev.contains(a) || a == last) by {
                if cur.contains(a) {
                    let w = choose|w: int| 0 <= w < cur.len() && cur[w] == a;
                    if w < prev.len() {
                        assert(prev[w] == a);
                    }
                }
                if prev.contains(a) {
                    let w = choose|w: int| 0 <= w < prev.len() && prev[w] == a;
                    assert(cur[w] == a);
                }
                if a == last {
                    assert(cur[cur.len() - 1] == a);
                }
            }
        }
    }
}

} // verus!

verus! {

/// Every action that reaches the engine as held is held.
pub proof fn lemma_ordered_held_are_held(state: InputState, i: int)
    requires
        0 <= i < state.spec_ordered_held_actions().len(),
    ensures
        state.is_held(state.spec_ordered_held_actions()[i]),
{
    let f = option_seq(
        spec_resolved_opposed(
            (state.is_held(InputAction::MoveForward), state.is_held(InputAction::MoveBackward)),
            InputAction::MoveForward,
            InputAction::MoveBackward,
        ),
    );
    let s = option_seq(
        spec_resolved_opposed(
            (state.is_held(InputAction::StrafeLeft), state.is_held(InputAction::StrafeRight)),
            InputAction::StrafeLeft,
            InputAction::StrafeRight,
        ),
    );
    let r = option_seq(
        spec_resolved_opposed(
            (state.is_held(InputAction::RotateLeft), state.is_held(InputAction::RotateRight)),
            InputAction::RotateLeft,
            InputAction::RotateRight,
        ),
    );
    let ordered = state.spec_ordered_held_actions();
    if i < f.len() {
        assert(ordered[i] == f[i]);
    } else if i < f.len() + s.len() {
        assert(ordered[i] == s[i - f.len()]);
    } else if i < f.len() + s.len() + r.len() {
        assert(ordered[i] == r[i - f.len() - s.len()]);
    }
}

} // verus!

verus! {

/// The action that cancels `action` while both are held: forward and
/// backward, strafing left and right, turning left and right.
pub open spec fn opposed_action(action: InputAction) -> Option<InputAction> {
    match action {
        InputAction::MoveForward => Some(InputAction::MoveBackward),
        InputAction::MoveBackward => Some(InputAction::MoveForward),
        InputAction::StrafeLeft => Some(InputAction::StrafeRight),
        InputAction::StrafeRight => Some(InputAction::StrafeLeft),
        InputAction::RotateLeft => Some(InputAction::RotateRight),
        InputAction::RotateRight => Some(InputAction::RotateLeft),
        _ => None,
    }
}

/// A key event without Control.
pub open spec fn plain_key(code: KeyCode, kind: KeyEventKind) -> KeyEvent {
    KeyEvent { code, control: false, kind }
}

/// The arrow keys do what their WASD counterparts do, in either case:
/// up and W move forward, down and S move backward, left and A turn left,
/// right and D turn right.
pub proof fn law_arrow_keys_match_wasd(kind: KeyEventKind)
    ensures
        spec_key_action(plain_key(KeyCode::Up, kind)) == Some(InputAction::MoveForward),
        spec_key_action(plain_key(KeyCode::Down, kind)) == Some(InputAction::MoveBackward),
        spec_key_action(plain_key(KeyCode::Left, kind)) == Some(InputAction::RotateLeft),
        spec_key_action(plain_key(KeyCode::Right, kind)) == Some(InputAction::RotateRight),
        spec_key_action(plain_key(KeyCode::Up, kind)) == spec_key_action(plain_key(KeyCode::Char('w'), kind)),
        spec_key_action(plain_key(KeyCode::Up, kind)) == spec_key_action(plain_key(KeyCode::Char('W'), kind)),
        spec_key_action(plain_key(KeyCode::Down, kind)) == spec_key_action(plain_key(KeyCode::Char('s'), kind)),
        spec_key_action(plain_key(KeyCode::Down, kind)) == spec_key_action(plain_key(KeyCode::Char('S'), kind)),
        spec_key_action(plain_key(KeyCode::Left, kind)) == spec_key_action(plain_key(KeyCode::Char('a'), kind)),
        spec_key_action(plain_key(KeyCode::Left, kind)) == spec_key_action(plain_key(KeyCode::Char('A'), kind)),
        spec_key_action(plain_key(KeyCode::Right, kind)) == spec_key_action(plain_key(KeyCode::Char('d'), kind)),
        spec_key_action(plain_key(KeyCode::Right, kind)) == spec_key_action(plain_key(KeyCode::Char('D'), kind)),
{
}

/// Letters are bound without regard to case, and Control with any key is
/// "use".
pub proof fn law_key_bindings_ignore_case(c: char, kind: KeyEventKind, code: KeyCode)
    requires
        'a' <= c <= 'z',
    ensures
        spec_key_action(plain_key(KeyCode::Char(c), kind)) == spec_key_action(
            plain_key(KeyCode::Char(((c as int) - 32) as char), kind),
        ),
        spec_key_action(KeyEvent { code, control: true, kind }) == Some(InputAction::Use),
{
}

/// The documented controls: W/S move, A/D turn, Z/C strafe, Space fires,
/// Q/E cycle weapons, Tab shows the automap, P opens the menu, Enter
/// confirms, Backspace goes back and Esc quits; every other character and
/// key does nothing.
pub proof fn law_documented_controls(kind: KeyEventKind, c: char)
    ensures
        spec_key_action(plain_key(KeyCode::Char('w'), kind)) == Some(InputAction::MoveForward),
        spec_key_action(plain_key(KeyCode::Char('s'), kind)) == Some(InputAction::MoveBackward),
        spec_key_action(plain_key(KeyCode::Char('a'), kind)) == Some(InputAction::RotateLeft),
        spec_key_action(plain_key(KeyCode::Char('d'), kind)) == Some(InputAction::RotateRight),
        spec_key_action(plain_key(KeyCode::Char('z'), kind)) == Some(InputAction::StrafeLeft),
        spec_key_action(plain_key(KeyCode::Char('c'), kind)) == Some(InputAction::StrafeRight),
        spec_key_action(plain_key(KeyCode::Char(' '), kind)) == Some(InputAction::Fire),
        spec_key_action(plain_key(KeyCode::Char('q'), kind)) == Some(InputAction::WeaponPrev),
        spec_key_action(plain_key(KeyCode::Char('e'), kind)) == Some(InputAction::WeaponNext),
        spec_key_action(plain_key(KeyCode::Char('p'), kind)) == Some(InputAction::OpenMenu),
        spec_key_action(plain_key(KeyCode::Tab, kind)) == Some(InputAction::ToggleAutomap),
        spec_key_action(plain_key(KeyCode::Enter, kind)) == Some(InputAction::ConfirmMenu),
        spec_key_action(plain_key(KeyCode::Backspace, kind)) == Some(InputAction::BackMenu),
        spec_key_action(plain_key(KeyCode::Esc, kind)) == Some(InputAction::Quit),
        spec_key_action(plain_key(KeyCode::Other, kind)) is None,
        !(c == 'w' || c == 'W' || c == 's' || c == 'S' || c == 'a' || c == 'A' || c == 'd' || c
            == 'D' || c == 'z' || c == 'Z' || c == 'c' || c == 'C' || c == ' ' || c == 'q' || c
            == 'Q' || c == 'e' || c == 'E' || c == 'p' || c == 'P') ==> spec_key_action(
            plain_key(KeyCode::Char(c), kind),
        ) is None,
{
}

} // verus!
