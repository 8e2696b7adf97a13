//! The decisions of the station's main loop: which ticks refresh the whole
//! screen, and when the daily graph must be read again.
use vstd::prelude::*;

verus! {

/// Length of one loop tick, in milliseconds.
pub const TICK_MS: u64 = 200;

/// A full refresh (sensor read, screen, log) happens once every this many ticks;
/// the ticks in between only animate the Wi-Fi icon.
pub const TICKS_PER_FULL_UPDATE: u32 = 5;

/// Time the button must stay pressed before a press counts, in milliseconds.
pub const DEBOUNCE_MS: u64 = 30;

/// What a tick does.
#[derive(Clone, Copy, Debug, PartialEq, Eq, Structural)]
pub enum TickAction {
    /// Read the sensor, redraw the screen and log the sample.
    FullUpdate,
    /// Redraw the Wi-Fi icon only.
    IconRedraw,
}

/// The main loop's state.
#[derive(Clone, Copy, Debug, PartialEq, Eq, Structural)]
pub struct LoopState {
    /// Ticks since start, wrapping.
    pub tick: u32,
    /// Animation frame of the icons, wrapping.
    pub anim_frame: usize,
    /// Whether the daily graph was open at the last sample.
    pub graph_was_open: bool,
}

/// The action of tick `tick`.
pub open spec fn tick_action_spec(tick: u32) -> TickAction {
    if tick % TICKS_PER_FULL_UPDATE == 0 {
        TickAction::FullUpdate
    } else {
        TickAction::IconRedraw
    }
}

impl LoopState {
    /// The state at start: tick 0, frame 0, graph closed.
    pub fn new() -> (s: LoopState)
        ensures
            s.tick == 0 && s.anim_frame == 0 && !s.graph_was_open,
    {
        LoopState { tick: 0, anim_frame: 0, graph_was_open: false }
    }

    /// What this tick does.
    pub fn action(&self) -> (a: TickAction)
        ensures
            a == tick_action_spec(self.tick),
    {
        if self.tick % TICKS_PER_FULL_UPDATE == 0 {
            TickAction::FullUpdate
        } else {
            TickAction::IconRedraw
        }
    }

    /// Notes whether the graph is open at a new sample; returns whether the
    /// daily temperatures must be read again, which is when the graph has just
    /// been opened.
    pub fn on_sample(&mut self, graph_now_open: bool) -> (reload: bool)
        ensures
            reload == (graph_now_open && !old(self).graph_was_open),
            final(self).graph_was_open == graph_now_open,
            final(self).tick == old(self).tick,
            final(self).anim_frame == old(self).anim_frame,
    {
        let reload = graph_now_open && !self.graph_was_open;
        self.graph_was_open = graph_now_open;
        reload
    }

    /// Moves to the next tick; both counters wrap around.
    pub fn advance(&mut self)
        ensures
            final(self).tick == (if old(self).tick == u32::MAX { 0 } else { old(self).tick + 1 }),
            final(self).anim_frame == (if old(self).anim_frame == usize::MAX {
                0
            } else {
                old(self).anim_frame + 1
            }),
            final(self).graph_was_open == old(self).graph_was_open,
    {
        self.anim_frame = self.anim_frame.wrapping_add(1);
        self.tick = self.tick.wrapping_add(1);
    }
}

/// Away from the wrap of the tick counter, a full update comes exactly every
/// `TICKS_PER_FULL_UPDATE` ticks: tick `t` does one iff tick `t + 5` does,
/// and the `k`-th tick after a full update, `0 < k < 5`, only redraws the icon.
pub proof fn lemma_full_update_period(t: u32, k: u32)
    requires
        t as int + TICKS_PER_FULL_UPDATE as int <= u32::MAX,
    ensures
        tick_action_spec(t) == tick_action_spec((t + TICKS_PER_FULL_UPDATE) as u32),
        tick_action_spec(t) == TickAction::FullUpdate && 1 <= k < TICKS_PER_FULL_UPDATE
            ==> tick_action_spec((t + k) as u32) == TickAction::IconRedraw,
{
}

/// Where the button handler stands.
#[derive(Clone, Copy, Debug, PartialEq, Eq, Structural)]
pub enum ButtonPhase {
    /// Waiting for the button to go down.
    Released,
    /// The button went down; waiting `DEBOUNCE_MS` before looking again.
    PressSettling,
    /// A press counted; waiting for the button to come up.
    Pressed,
    /// The button came up; waiting `DEBOUNCE_MS` before the next press.
    ReleaseSettling,
}

/// What the button handler waits for next.
#[derive(Clone, Copy, Debug, PartialEq, Eq, Structural)]
pub enum ButtonWait {
    FallingEdge,
    Debounce,
    RisingEdge,
}

/// What the button handler saw.
#[derive(Clone, Copy, Debug, PartialEq, Eq, Structural)]
pub enum ButtonEvent {
    FallingEdge,
    RisingEdge,
    /// The debounce delay ran out; `low` is whether the button is still down.
    Settled { low: bool },
}

/// The wait of each phase.
pub open spec fn button_wait_spec(phase: ButtonPhase) -> ButtonWait {
    match phase {
        ButtonPhase::Released => ButtonWait::FallingEdge,
        ButtonPhase::PressSettling => ButtonWait::Debounce,
        ButtonPhase::Pressed => ButtonWait::RisingEdge,
        ButtonPhase::ReleaseSettling => ButtonWait::Debounce,
    }
}

/// The next phase after an event, and whether the graph is toggled: a press
/// counts only when the button is still down after the debounce delay; an
/// event the phase does not wait for changes nothing.
pub open spec fn button_step_spec(phase: ButtonPhase, event: ButtonEvent) -> (ButtonPhase, bool) {
    match (phase, event) {
        (ButtonPhase::Released, ButtonEvent::FallingEdge) => (ButtonPhase::PressSettling, false),
        (ButtonPhase::PressSettling, ButtonEvent::Settled { low }) => if low {
            (ButtonPhase::Pressed, true)
        } else {
            (ButtonPhase::Released, false)
        },
        (ButtonPhase::Pressed, ButtonEvent::RisingEdge) => (ButtonPhase::ReleaseSettling, false),
        (ButtonPhase::ReleaseSettling, ButtonEvent::Settled { .. }) => (ButtonPhase::Released, false),
        _ => (phase, false),
    }
}

impl ButtonPhase {
    /// What to wait for in this phase.
    pub fn wait(&self) -> (w: ButtonWait)
        ensures
            w == button_wait_spec(*self),
    {
        match self {
            ButtonPhase::Released => ButtonWait::FallingEdge,
            ButtonPhase::PressSettling => ButtonWait::Debounce,
            ButtonPhase::Pressed => ButtonWait::RisingEdge,
            ButtonPhase::ReleaseSettling => ButtonWait::Debounce,
        }
    }

    /// Takes an event; returns whether the graph is to be toggled.
    pub fn step(&mut self, event: ButtonEvent) -> (toggle: bool)
        ensures
            (*final(self), toggle) == button_step_spec(*old(self), event),
    {
        let (next, toggle) = match (*self, event) {
            (ButtonPhase::Released, ButtonEvent::FallingEdge) => (ButtonPhase::PressSettling, false),
            (ButtonPhase::PressSettling, ButtonEvent::Settled { low }) => if low {
                (ButtonPhase::Pressed, true)
            } else {
                (ButtonPhase::Released, false)
            },
            (ButtonPhase::Pressed, ButtonEvent::RisingEdge) => (ButtonPhase::ReleaseSettling, false),
            (ButtonPhase::ReleaseSettling, ButtonEvent::Settled { .. }) => (ButtonPhase::Released, false),
            (p, _) => (p, false),
        };
        *self = next;
        toggle
    }
}

/// One press toggles the graph once: a toggle happens only when a settling
/// press is confirmed, and it leaves the handler waiting for the release, so
/// no further event toggles again before the button has come up and settled.
pub proof fn lemma_one_toggle_per_press(phase: ButtonPhase, e1: ButtonEvent, e2: ButtonEvent)
    requires
        button_step_spec(phase, e1).1,
    ensures
        phase == ButtonPhase::PressSettling,
        e1 == (ButtonEvent::Settled { low: true }),
        button_step_spec(phase, e1).0 == ButtonPhase::Pressed,
        !button_step_spec(button_step_spec(phase, e1).0, e2).1,
{
}

} // verus!
