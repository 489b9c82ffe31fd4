//! The camera's drag modes and how the modifier keys switch them.
//!
//! Holding shift pans, holding control turns and holding alt zooms. Each mode
//! holds the cursor lock while it is on. What the keys did since the last
//! frame is handed in as plain flags; what has to happen to the cursor comes
//! back as a list of actions for the caller to carry out in order.

use vstd::prelude::*;
use crate::cursor_lock::CursorLock;

verus! {

/// What the caller has to do to the mouse cursor.
#[derive(Clone, Copy, Debug, PartialEq, Eq, Structural)]
pub enum CursorAction {
    /// Hide and confine the cursor, remembering where it was.
    Grab,
    /// Show and free the cursor, putting it back where it was.
    Release,
}

/// What a mouse movement does to the camera.
#[derive(Clone, Copy, Debug, PartialEq, Eq, Structural)]
pub enum Drag {
    /// Move the point the camera looks at.
    Pan,
    /// Change heading and pitch.
    Turn,
    /// Change the scale.
    Zoom,
}

/// What the modifier keys did since the last frame. A key pair counts as
/// pressed when either of its two keys went down, and as released when either
/// went up.
#[derive(Clone, Copy, Debug, PartialEq, Eq, Structural)]
pub struct KeyEvents {
    pub shift_pressed: bool,
    pub shift_released: bool,
    pub control_pressed: bool,
    pub control_released: bool,
    pub alt_pressed: bool,
    pub alt_released: bool,
}

/// Which drag modes are on.
#[derive(Clone, Copy, Debug, PartialEq, Eq, Structural)]
pub struct ControlState {
    pub panning: bool,
    pub turning: bool,
    pub zooming: bool,
}

/// One for a flag that is set, nothing for one that is not.
pub open spec fn count(flag: bool) -> int {
    if flag {
        1
    } else {
        0
    }
}

/// The mode flag of one key pair after a frame: a release wins over a press
/// in the same frame.
pub open spec fn flag_after(flag: bool, pressed: bool, released: bool) -> bool {
    if released {
        false
    } else if pressed {
        true
    } else {
        flag
    }
}

/// The number of holders of the lock after one key pair was handled: the
/// press locks first, then the release unlocks.
pub open spec fn heat_after(heat: nat, pressed: bool, released: bool) -> nat {
    let locked = if pressed { heat + 1 } else { heat };
    if released && locked > 0 {
        (locked - 1) as nat
    } else {
        locked
    }
}

/// The cursor actions that handling one key pair asks for.
pub open spec fn actions_of(heat: nat, pressed: bool, released: bool) -> Seq<CursorAction> {
    let locked = if pressed { heat + 1 } else { heat };
    let grab = if pressed && heat == 0 { seq![CursorAction::Grab] } else { Seq::empty() };
    let release = if released && locked == 1 { seq![CursorAction::Release] } else { Seq::empty() };
    grab + release
}

/// Whether the cursor is captured once `actions` were carried out in order,
/// given whether it was captured before.
pub open spec fn captured_after(captured: bool, actions: Seq<CursorAction>) -> bool {
    if actions.len() == 0 {
        captured
    } else {
        actions.last() == CursorAction::Grab
    }
}

/// Whether `actions` never grab a captured cursor nor release a free one,
/// given whether it was captured before.
pub open spec fn alternating(captured: bool, actions: Seq<CursorAction>) -> bool
    decreases actions.len(),
{
    if actions.len() == 0 {
        true
    } else {
        &&& alternating(captured, actions.drop_last())
        &&& captured_after(captured, actions.drop_last()) == (actions.last()
            == CursorAction::Release)
    }
}

impl KeyEvents {
    /// No key pair was pressed or released.
    pub open spec fn quiet(self) -> bool {
        &&& !self.shift_pressed
        &&& !self.shift_released
        &&& !self.control_pressed
        &&& !self.control_released
        &&& !self.alt_pressed
        &&& !self.alt_released
    }

    /// The holders of the lock once shift was handled.
    pub open spec fn heat_after_shift(self, heat: nat) -> nat {
        heat_after(heat, self.shift_pressed, self.shift_released)
    }

    /// The holders of the lock once shift and control were handled.
    pub open spec fn heat_after_control(self, heat: nat) -> nat {
        heat_after(self.heat_after_shift(heat), self.control_pressed, self.control_released)
    }

    /// The holders of the lock once all three key pairs were handled.
    pub open spec fn heat_after_all(self, heat: nat) -> nat {
        heat_after(self.heat_after_control(heat), self.alt_pressed, self.alt_released)
    }

    /// Whether one of the releases finds the lock without a holder, as
    /// happens when more keys go up than went down: handling these events on
    /// a lock with `heat` holders then unlocks a free lock, which does
    /// nothing.
    pub open spec fn overdraws(self, heat: nat) -> bool {
        ||| self.shift_released && !self.shift_pressed && heat == 0
        ||| self.control_released && !self.control_pressed && self.heat_after_shift(heat) == 0
        ||| self.alt_released && !self.alt_pressed && self.heat_after_control(heat) == 0
    }

    /// Whether the holder count stays within `usize` while these events are
    /// handled on a lock with `heat` holders.
    pub open spec fn countable(self, heat: nat) -> bool {
        &&& self.shift_pressed ==> heat < usize::MAX
        &&& self.control_pressed ==> self.heat_after_shift(heat) < usize::MAX
        &&& self.alt_pressed ==> self.heat_after_control(heat) < usize::MAX
    }

    /// Whether the holder count stays within `usize` while these events are
    /// handled on a lock with `holders` holders.
    pub fn is_countable(&self, holders: usize) -> (fits: bool)
        ensures
            fits == self.countable(holders as nat),
    {
        if self.shift_pressed && holders == usize::MAX {
            return false;
        }
        let after_shift = holders_after(holders, self.shift_pressed, self.shift_released);
        if self.control_pressed && after_shift == usize::MAX {
            return false;
        }
        let after_control = holders_after(
            after_shift,
            self.control_pressed,
            self.control_released,
        );
        !(self.alt_pressed && after_control == usize::MAX)
    }

    /// Whether one of the releases finds the lock without a holder.
    pub fn is_overdrawn(&self, holders: usize) -> (overdrawn: bool)
        requires
            self.countable(holders as nat),
        ensures
            overdrawn == self.overdraws(holders as nat),
    {
        let after_shift = holders_after(holders, self.shift_pressed, self.shift_released);
        let after_control = holders_after(
            after_shift,
            self.control_pressed,
            self.control_released,
        );
        (self.shift_released && !self.shift_pressed && holders == 0) || (self.control_released
            && !self.control_pressed && after_shift == 0) || (self.alt_released
            && !self.alt_pressed && after_control == 0)
    }

    /// The cursor actions that these events ask for on a lock with `heat`
    /// holders: those of shift, then those of control, then those of alt.
    pub open spec fn cursor_actions(self, heat: nat) -> Seq<CursorAction> {
        actions_of(heat, self.shift_pressed, self.shift_released) + actions_of(
            self.heat_after_shift(heat),
            self.control_pressed,
            self.control_released,
        ) + actions_of(self.heat_after_control(heat), self.alt_pressed, self.alt_released)
    }
}

/// The holders of a lock once one key pair was handled.
fn holders_after(holders: usize, pressed: bool, released: bool) -> (after: usize)
    requires
        pressed ==> holders < usize::MAX,
    ensures
        after == heat_after(holders as nat, pressed, released),
{
    let locked = if pressed { holders + 1 } else { holders };
    if released && locked > 0 {
        locked - 1
    } else {
        locked
    }
}

impl ControlState {
    /// The modes once `keys` were handled.
    pub open spec fn after(self, keys: KeyEvents) -> ControlState {
        ControlState {
            panning: flag_after(self.panning, keys.shift_pressed, keys.shift_released),
            turning: flag_after(self.turning, keys.control_pressed, keys.control_released),
            zooming: flag_after(self.zooming, keys.alt_pressed, keys.alt_released),
        }
    }

    /// The mode that a mouse movement serves: panning before turning before
    /// zooming.
    pub open spec fn active(self) -> Option<Drag> {
        if self.panning {
            Some(Drag::Pan)
        } else if self.turning {
            Some(Drag::Turn)
        } else if self.zooming {
            Some(Drag::Zoom)
        } else {
            None
        }
    }

    /// No mode is on.
    pub fn new() -> (state: Self)
        ensures
            state == (ControlState { panning: false, turning: false, zooming: false }),
    {
        ControlState { panning: false, turning: false, zooming: false }
    }

    /// The mode that a mouse movement serves, if any is on.
    pub fn drag(&self) -> (mode: Option<Drag>)
        ensures
            mode == self.active(),
    {
        if self.panning {
            Some(Drag::Pan)
        } else if self.turning {
            Some(Drag::Turn)
        } else if self.zooming {
            Some(Drag::Zoom)
        } else {
            None
        }
    }

    /// Handles what the modifier keys did since the last frame: switches the
    /// modes, counts their holds on the cursor lock, and returns what the
    /// caller has to do to the cursor, in order.
    pub fn handle_keys(&mut self, lock: &mut CursorLock, keys: KeyEvents) -> (actions: Vec<
        CursorAction,
    >)
        requires
            keys.countable(old(lock).heat()),
        ensures
            *final(self) == old(self).after(keys),
            final(lock).heat() == keys.heat_after_all(old(lock).heat()),
            actions@ == keys.cursor_actions(old(lock).heat()),
    {
        let mut actions: Vec<CursorAction> = Vec::new();
        let panning = switch(self.panning, lock, keys.shift_pressed, keys.shift_released, &mut actions);
        let turning = switch(
            self.turning,
            lock,
            keys.control_pressed,
            keys.control_released,
            &mut actions,
        );
        let zooming = switch(self.zooming, lock, keys.alt_pressed, keys.alt_released, &mut actions);
        self.panning = panning;
        self.turning = turning;
        self.zooming = zooming;
        actions
    }
}

/// Handles one key pair: the press locks and switches the mode on, then the
/// release unlocks and switches it off. Returns the mode's flag and appends
/// what the lock asks of the cursor.
fn switch(
    flag: bool,
    lock: &mut CursorLock,
    pressed: bool,
    released: bool,
    actions: &mut Vec<CursorAction>,
) -> (on: bool)
    requires
        pressed ==> old(lock).heat() < usize::MAX,
    ensures
        on == flag_after(flag, pressed, released),
        final(lock).heat() == heat_after(old(lock).heat(), pressed, released),
        final(actions)@ == old(actions)@ + actions_of(old(lock).heat(), pressed, released),
{
    let mut on = flag;
    if pressed {
        if lock.lock() {
            actions.push(CursorAction::Grab);
        }
        on = true;
    }
    if released {
        if lock.unlock() {
            actions.push(CursorAction::Release);
        }
        on = false;
    }
    proof {
        assert(actions@ =~= old(actions)@ + actions_of(old(lock).heat(), pressed, released));
    }
    on
}

/// The actions of one frame keep the cursor in step with the lock: they
/// never grab a captured cursor nor release a free one, and afterwards the
/// cursor is captured exactly when the lock has a holder.
pub proof fn lemma_cursor_follows_lock(keys: KeyEvents, heat: nat)
    ensures
        alternating(heat > 0, keys.cursor_actions(heat)),
        captured_after(heat > 0, keys.cursor_actions(heat)) == (keys.heat_after_all(heat) > 0),
{
    let h1 = keys.heat_after_shift(heat);
    let h2 = keys.heat_after_control(heat);
    let a1 = actions_of(heat, keys.shift_pressed, keys.shift_released);
    let a2 = actions_of(h1, keys.control_pressed, keys.control_released);
    let a3 = actions_of(h2, keys.alt_pressed, keys.alt_released);
    lemma_pair_follows_lock(heat > 0, Seq::empty(), heat, keys.shift_pressed, keys.shift_released);
    assert(Seq::<CursorAction>::empty() + a1 =~= a1);
    lemma_pair_follows_lock(heat > 0, a1, h1, keys.control_pressed, keys.control_released);
    lemma_pair_follows_lock(heat > 0, a1 + a2, h2, keys.alt_pressed, keys.alt_released);
}

/// Where no release finds the lock free, the holders are counted exactly:
/// one more for each key pair that was pressed, one fewer for each that was
/// released.
pub proof fn lemma_holders_are_counted(keys: KeyEvents, heat: nat)
    requires
        !keys.overdraws(heat),
    ensures
        keys.heat_after_all(heat) == heat + count(keys.shift_pressed) + count(
            keys.control_pressed,
        ) + count(keys.alt_pressed) - count(keys.shift_released) - count(keys.control_released)
            - count(keys.alt_released),
{
}

/// Quiet keys change nothing and ask for nothing.
pub proof fn lemma_quiet_keys(keys: KeyEvents, state: ControlState, heat: nat)
    requires
        keys.quiet(),
    ensures
        state.after(keys) == state,
        keys.heat_after_all(heat) == heat,
        keys.cursor_actions(heat) == Seq::<CursorAction>::empty(),
        keys.countable(heat),
        !keys.overdraws(heat),
{
    assert(keys.cursor_actions(heat) =~= Seq::<CursorAction>::empty());
}

/// One more key pair keeps the cursor in step with the lock.
proof fn lemma_pair_follows_lock(
    captured: bool,
    done: Seq<CursorAction>,
    heat: nat,
    pressed: bool,
    released: bool,
)
    requires
        alternating(captured, done),
        captured_after(captured, done) == (heat > 0),
    ensures
        alternating(captured, done + actions_of(heat, pressed, released)),
        captured_after(captured, done + actions_of(heat, pressed, released)) == (heat_after(
            heat,
            pressed,
            released,
        ) > 0),
{
    let locked = if pressed { heat + 1 } else { heat };
    let grab = if pressed && heat == 0 { seq![CursorAction::Grab] } else { Seq::empty() };
    let release = if released && locked == 1 { seq![CursorAction::Release] } else { Seq::empty() };
    let mid = done + grab;
    assert(mid.len() > done.len() ==> mid.drop_last() =~= done);
    assert(mid.len() == done.len() ==> mid =~= done);
    assert(alternating(captured, mid));
    assert(captured_after(captured, mid) == (locked > 0));
    let all = mid + release;
    assert(all.len() > mid.len() ==> all.drop_last() =~= mid);
    assert(all.len() == mid.len() ==> all =~= mid);
    assert(all =~= done + actions_of(heat, pressed, released));
}

} // verus!
