//! The animation scheduler's state machine.
//!
//! One thread runs the loop: render a frame, then wait for input for
//! whatever remains of the frame-time budget. Every input event maps to a
//! deterministic update of the scheduler's state — the run/terminate mode,
//! the fractal detail level, and the viewport — plus an instruction for the
//! continuous parameters (zoom, scale, speed, offset) that the event loop
//! applies outside this library.

use vstd::prelude::*;

verus! {

/// Whether the animation loop keeps running. `Terminating` is final: the
/// loop exits as soon as it observes it.
#[derive(Clone, Copy, PartialEq, Eq, Debug)]
pub enum Mode {
    Running,
    Terminating,
}

/// An input event, as the scheduler sees it: a character key, one of the
/// two arrow keys it reacts to, a viewport resize, or anything else.
#[derive(Clone, Copy, PartialEq, Eq, Debug)]
pub enum InputEvent {
    Key(char),
    ArrowUp,
    ArrowDown,
    Resize(u16, u16),
    Other,
}

/// What an event asks of the continuous parameters, which the event loop
/// owns: zoom in or out one step of 1.25x, move scale by 0.25, speed by
/// 1e-4, or the vertical offset by 0.1 — or nothing.
#[derive(Clone, Copy, PartialEq, Eq, Debug)]
pub enum ParamAction {
    NoChange,
    ZoomIn,
    ZoomOut,
    ScaleInc,
    ScaleDec,
    SpeedInc,
    SpeedDec,
    OffsetInc,
    OffsetDec,
}

/// The scheduler's own state: the loop mode, the octave count of the noise
/// field, and the viewport the next frame will cover.
#[derive(Clone, Copy, PartialEq, Eq, Debug)]
pub struct SchedulerState {
    pub mode: Mode,
    pub detail: usize,
    pub width: u16,
    pub height: u16,
}

impl SchedulerState {
    /// The state invariant: the octave count never falls below one, the
    /// noise engine's precondition.
    pub open spec fn wf(self) -> bool {
        self.detail >= 1
    }
}

/// The state an event drives the scheduler into:
/// `q` terminates; `d` raises the detail level and `D` lowers it, never
/// below one; a resize replaces the viewport; every other event — including
/// the keys that only touch continuous parameters — leaves the state as is.
pub open spec fn step_of(s: SchedulerState, ev: InputEvent) -> SchedulerState {
    match ev {
        InputEvent::Key(c) => {
            if c == 'q' {
                SchedulerState { mode: Mode::Terminating, ..s }
            } else if c == 'd' {
                SchedulerState {
                    detail: if s.detail < usize::MAX {
                        (s.detail + 1) as usize
                    } else {
                        s.detail
                    },
                    ..s
                }
            } else if c == 'D' {
                SchedulerState {
                    detail: if s.detail <= 1 {
                        1
                    } else {
                        (s.detail - 1) as usize
                    },
                    ..s
                }
            } else {
                s
            }
        },
        InputEvent::Resize(w, h) => SchedulerState { width: w, height: h, ..s },
        _ => s,
    }
}

/// The instruction an event gives for the continuous parameters. It depends
/// on the event alone: `-`/`+` step the zoom, `s`/`S` the scale, `e`/`E`
/// the speed, and the arrow keys (or `k`/`j`) the vertical offset.
pub open spec fn action_of(ev: InputEvent) -> ParamAction {
    match ev {
        InputEvent::Key(c) => {
            if c == '-' {
                ParamAction::ZoomOut
            } else if c == '+' {
                ParamAction::ZoomIn
            } else if c == 's' {
                ParamAction::ScaleDec
            } else if c == 'S' {
                ParamAction::ScaleInc
            } else if c == 'e' {
                ParamAction::SpeedInc
            } else if c == 'E' {
                ParamAction::SpeedDec
            } else if c == 'k' {
                ParamAction::OffsetDec
            } else if c == 'j' {
                ParamAction::OffsetInc
            } else {
                ParamAction::NoChange
            }
        },
        InputEvent::ArrowUp => ParamAction::OffsetDec,
        InputEvent::ArrowDown => ParamAction::OffsetInc,
        _ => ParamAction::NoChange,
    }
}

/// Applies one input event to the scheduler state and reports what the
/// event loop must do to the continuous parameters. The new state is
/// exactly `step_of` and the instruction exactly `action_of`; in
/// particular `q` switches the mode to `Terminating`, and a detail level
/// of at least one stays at least one, whatever the event.
pub fn handle_event(state: &mut SchedulerState, ev: InputEvent) -> (act: ParamAction)
    ensures
        *final(state) == step_of(*old(state), ev),
        act == action_of(ev),
        old(state).wf() ==> final(state).wf(),
{
    match ev {
        InputEvent::Key(c) => {
            if c == 'q' {
                state.mode = Mode::Terminating;
            } else if c == 'd' {
                if state.detail < usize::MAX {
                    state.detail = state.detail + 1;
                }
            } else if c == 'D' {
                if state.detail <= 1 {
                    state.detail = 1;
                } else {
                    state.detail = state.detail - 1;
                }
            }
            if c == '-' {
                ParamAction::ZoomOut
            } else if c == '+' {
                ParamAction::ZoomIn
            } else if c == 's' {
                ParamAction::ScaleDec
            } else if c == 'S' {
                ParamAction::ScaleInc
            } else if c == 'e' {
                ParamAction::SpeedInc
            } else if c == 'E' {
                ParamAction::SpeedDec
            } else if c == 'k' {
                ParamAction::OffsetDec
            } else if c == 'j' {
                ParamAction::OffsetInc
            } else {
                ParamAction::NoChange
            }
        },
        InputEvent::ArrowUp => ParamAction::OffsetDec,
        InputEvent::ArrowDown => ParamAction::OffsetInc,
        InputEvent::Resize(w, h) => {
            state.width = w;
            state.height = h;
            ParamAction::NoChange
        },
        InputEvent::Other => ParamAction::NoChange,
    }
}

/// The state after a whole sequence of events, applied left to right.
pub open spec fn run_of(s: SchedulerState, evs: Seq<InputEvent>) -> SchedulerState
    decreases evs.len(),
{
    if evs.len() == 0 {
        s
    } else {
        run_of(step_of(s, evs[0]), evs.drop_first())
    }
}

/// No sequence of events — repeated detail-lowering presses included —
/// ever drives the detail level below one.
pub proof fn lemma_detail_never_below_one(s: SchedulerState, evs: Seq<InputEvent>)
    requires
        s.wf(),
    ensures
        run_of(s, evs).wf(),
    decreases evs.len(),
{
    if evs.len() > 0 {
        lemma_detail_never_below_one(step_of(s, evs[0]), evs.drop_first());
    }
}

/// The quit key alone ends the run: `q` drives any state to `Terminating`,
/// and no other event leaves `Running`.
pub proof fn lemma_quit_terminates(s: SchedulerState, ev: InputEvent)
    ensures
        ev == InputEvent::Key('q') ==> step_of(s, ev).mode == Mode::Terminating,
        s.mode == Mode::Running && ev != InputEvent::Key('q') ==> step_of(s, ev).mode
            == Mode::Running,
{
}

/// After a resize event the next frame covers exactly the new viewport:
/// its cell count is `w * h`.
pub proof fn lemma_resize_drives_cell_count(s: SchedulerState, w: u16, h: u16)
    ensures
        crate::render::cell_count_of(
            step_of(s, InputEvent::Resize(w, h)).width,
            step_of(s, InputEvent::Resize(w, h)).height,
        ) == w * h,
{
}

/// The input-poll timeout that remains of a frame's time budget once
/// `elapsed` microseconds went to rendering: the budget is `10^6 / fps`
/// microseconds, and an overrun frame leaves no pause at all.
pub open spec fn pause_of(fps: usize, elapsed: u64) -> int
    recommends
        fps >= 1,
{
    let budget = 1_000_000int / fps as int;
    if budget >= elapsed {
        budget - elapsed
    } else {
        0
    }
}

/// Computes how many microseconds the scheduler may wait for input after a
/// frame took `elapsed` microseconds: the remainder of the `10^6 / fps`
/// budget, or zero when the frame overran it.
pub fn frame_pause(fps: usize, elapsed: u64) -> (p: u64)
    requires
        fps >= 1,
    ensures
        p == pause_of(fps, elapsed),
{
    let budget: u64 = 1_000_000 / (fps as u64);
    if budget >= elapsed {
        budget - elapsed
    } else {
        0
    }
}

} // verus!
