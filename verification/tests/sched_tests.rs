use termfire::render::{cell_fraction, frame_cell_count, wrap_time};
use termfire::sched::{frame_pause, handle_event, InputEvent, Mode, ParamAction, SchedulerState};

fn running(detail: usize, width: u16, height: u16) -> SchedulerState {
    SchedulerState { mode: Mode::Running, detail, width, height }
}

#[test]
fn quit_key_terminates() {
    let mut st = running(3, 80, 24);
    let act = handle_event(&mut st, InputEvent::Key('q'));
    assert_eq!(st.mode, Mode::Terminating);
    assert_eq!(act, ParamAction::NoChange);
}

#[test]
fn other_keys_keep_running() {
    for ev in [
        InputEvent::Key('d'),
        InputEvent::Key('-'),
        InputEvent::Key('x'),
        InputEvent::ArrowUp,
        InputEvent::Resize(10, 10),
        InputEvent::Other,
    ] {
        let mut st = running(3, 80, 24);
        handle_event(&mut st, ev);
        assert_eq!(st.mode, Mode::Running);
    }
}

#[test]
fn detail_key_raises_detail() {
    let mut st = running(3, 80, 24);
    handle_event(&mut st, InputEvent::Key('d'));
    assert_eq!(st.detail, 4);
}

#[test]
fn detail_never_falls_below_one() {
    let mut st = running(2, 80, 24);
    for _ in 0..10 {
        handle_event(&mut st, InputEvent::Key('D'));
        assert!(st.detail >= 1);
    }
    assert_eq!(st.detail, 1);
}

#[test]
fn keys_map_to_parameter_actions() {
    let cases = [
        (InputEvent::Key('-'), ParamAction::ZoomOut),
        (InputEvent::Key('+'), ParamAction::ZoomIn),
        (InputEvent::Key('s'), ParamAction::ScaleDec),
        (InputEvent::Key('S'), ParamAction::ScaleInc),
        (InputEvent::Key('e'), ParamAction::SpeedInc),
        (InputEvent::Key('E'), ParamAction::SpeedDec),
        (InputEvent::Key('k'), ParamAction::OffsetDec),
        (InputEvent::Key('j'), ParamAction::OffsetInc),
        (InputEvent::ArrowUp, ParamAction::OffsetDec),
        (InputEvent::ArrowDown, ParamAction::OffsetInc),
        (InputEvent::Key('z'), ParamAction::NoChange),
        (InputEvent::Other, ParamAction::NoChange),
    ];
    for (ev, expected) in cases {
        let mut st = running(3, 80, 24);
        assert_eq!(handle_event(&mut st, ev), expected);
    }
}

#[test]
fn resize_updates_next_frame_cell_count() {
    let mut st = running(3, 80, 24);
    handle_event(&mut st, InputEvent::Resize(120, 40));
    assert_eq!(st.width, 120);
    assert_eq!(st.height, 40);
    assert_eq!(frame_cell_count(st.width, st.height), 120 * 40);
}

#[test]
fn one_by_one_viewport_is_one_cell() {
    assert_eq!(frame_cell_count(1, 1), 1);
    // The degenerate single-cell axis yields the fraction 0/1, never 0/0.
    let (num, den) = cell_fraction(0, 1);
    assert_eq!((num, den), (0, 1));
    assert!(den >= 1);
}

#[test]
fn zero_dimension_is_empty_frame() {
    assert_eq!(frame_cell_count(0, 24), 0);
    assert_eq!(frame_cell_count(80, 0), 0);
}

#[test]
fn cell_fraction_spans_axis() {
    assert_eq!(cell_fraction(0, 5), (0, 4));
    assert_eq!(cell_fraction(4, 5), (4, 4));
    assert_eq!(cell_fraction(3, 2), (3, 1));
}

#[test]
fn frame_pause_fills_remaining_budget() {
    // At 60 fps the budget is 16666 microseconds.
    assert_eq!(frame_pause(60, 10_000), 6_666);
    assert_eq!(frame_pause(60, 0), 16_666);
}

#[test]
fn frame_pause_of_overrun_frame_is_zero() {
    assert_eq!(frame_pause(60, 16_666), 0);
    assert_eq!(frame_pause(60, 1_000_000), 0);
}

#[test]
fn wrap_time_cycles_every_two_to_the_32_millis() {
    assert_eq!(wrap_time(0), 0);
    assert_eq!(wrap_time(123), 123);
    assert_eq!(wrap_time(0x1_0000_0000), 0);
    assert_eq!(wrap_time(0x1_0000_0005), 5);
    assert_eq!(wrap_time(0xFFFF_FFFF), 0xFFFF_FFFF);
}
