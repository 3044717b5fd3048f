use console_game_engine::{
    Cell, ConsoleGameEngine, FrameClock, InputEvent, InputState, KeyState, Rcode, SetupReply,
    SetupRequest,
};

fn input_key(index: u8, down: bool) -> Vec<InputEvent> {
    vec![InputEvent::Key { index, down }]
}

#[test]
fn key_state_new_keeps_its_arguments() {
    let state = KeyState::new(true, false, true);
    assert!(state.held);
    assert!(!state.released);
    assert!(state.pressed);
    assert_eq!(KeyState::new(false, true, false), KeyState { held: false, released: true, pressed: false });
}

#[test]
fn key_step_table() {
    let idle = KeyState::new(false, false, false);
    let held = KeyState::new(true, false, false);
    assert_eq!(idle.advance(false, false), KeyState::new(false, false, false));
    assert_eq!(held.advance(false, false), KeyState::new(true, false, false));
    assert_eq!(idle.advance(true, true), KeyState::new(false, false, false));
    assert_eq!(held.advance(true, true), KeyState::new(true, false, false));
    assert_eq!(idle.advance(false, true), KeyState::new(true, true, false));
    assert_eq!(held.advance(false, true), KeyState::new(true, true, false));
    assert_eq!(idle.advance(true, false), KeyState::new(true, false, true));
    assert_eq!(held.advance(true, false), KeyState::new(true, false, false));
}

#[test]
fn pulses_are_cleared_by_the_next_step() {
    let pulsing = KeyState::new(true, true, true);
    assert_eq!(pulsing.advance(true, true), KeyState::new(true, false, false));
    assert_eq!(pulsing.advance(false, false), KeyState::new(true, false, false));
}

#[test]
fn key_sampled_down_for_three_updates() {
    let mut engine = ConsoleGameEngine::new();
    engine.update(0, &Vec::new());
    assert_eq!(engine.get_key(65), KeyState::new(false, false, false));
    engine.update(1, &input_key(65, true));
    assert_eq!(engine.get_key(65), KeyState { held: true, released: true, pressed: false });
    engine.update(2, &input_key(65, true));
    assert_eq!(engine.get_key(65), KeyState { held: true, released: false, pressed: false });
    engine.update(3, &Vec::new());
    assert_eq!(engine.get_key(65), KeyState { held: true, released: false, pressed: false });
    assert_eq!(engine.get_key(64), KeyState::new(false, false, false));
    assert_eq!(engine.get_key(66), KeyState::new(false, false, false));
}

#[test]
fn key_coming_up_keeps_held_and_does_not_pulse_pressed() {
    let mut engine = ConsoleGameEngine::new();
    engine.update(1, &input_key(0, true));
    engine.update(2, &input_key(0, false));
    assert_eq!(engine.get_key(0), KeyState { held: true, released: false, pressed: false });
    engine.update(3, &Vec::new());
    assert_eq!(engine.get_key(0), KeyState { held: true, released: false, pressed: false });
    engine.update(4, &input_key(0, true));
    assert_eq!(engine.get_key(0), KeyState { held: true, released: true, pressed: false });
}

#[test]
fn key_down_and_up_within_one_update_is_not_seen() {
    let mut engine = ConsoleGameEngine::new();
    engine.update(1, &vec![InputEvent::Key { index: 255, down: true }, InputEvent::Key { index: 255, down: false }]);
    assert_eq!(engine.get_key(255), KeyState::new(false, false, false));
    engine.update(2, &vec![InputEvent::Key { index: 255, down: false }, InputEvent::Key { index: 255, down: true }]);
    assert_eq!(engine.get_key(255), KeyState::new(true, true, false));
}

#[test]
fn pointer_buttons_follow_the_mask() {
    let mut engine = ConsoleGameEngine::new();
    engine.update(1, &vec![InputEvent::MouseButtons(0b10101)]);
    assert_eq!(engine.get_mouse(0), KeyState::new(true, true, false));
    assert_eq!(engine.get_mouse(1), KeyState::new(false, false, false));
    assert_eq!(engine.get_mouse(2), KeyState::new(true, true, false));
    assert_eq!(engine.get_mouse(3), KeyState::new(false, false, false));
    assert_eq!(engine.get_mouse(4), KeyState::new(true, true, false));
    engine.update(2, &vec![InputEvent::MouseButtons(0b100000 | 0b00010)]);
    assert_eq!(engine.get_mouse(0), KeyState::new(true, false, false));
    assert_eq!(engine.get_mouse(1), KeyState::new(true, true, false));
    assert_eq!(engine.get_mouse(2), KeyState::new(true, false, false));
    assert_eq!(engine.get_mouse(3), KeyState::new(false, false, false));
    assert_eq!(engine.get_mouse(4), KeyState::new(true, false, false));
    engine.update(3, &Vec::new());
    assert_eq!(engine.get_mouse(1), KeyState::new(true, false, false));
}

#[test]
fn pointer_position_and_focus_follow_the_last_record() {
    let mut engine = ConsoleGameEngine::new();
    assert_eq!(engine.get_mouse_x(), 0);
    assert_eq!(engine.get_mouse_y(), 0);
    engine.update(
        1,
        &vec![
            InputEvent::MouseMoved { x: 3, y: 4 },
            InputEvent::Focus(true),
            InputEvent::MouseMoved { x: 17, y: -2 },
        ],
    );
    assert_eq!(engine.get_mouse_x(), 17);
    assert_eq!(engine.get_mouse_y(), -2);
    assert!(engine.is_focused());
    engine.update(2, &vec![InputEvent::Focus(false)]);
    assert!(!engine.is_focused());
    assert_eq!(engine.get_mouse_x(), 17);
}

#[test]
fn input_state_on_its_own() {
    let mut input = InputState::new();
    assert_eq!(input.key(10), KeyState::new(false, false, false));
    assert_eq!(input.pointer(), (0, 0));
    assert!(!input.focused());
    input.record(InputEvent::Key { index: 10, down: true });
    input.record(InputEvent::MouseButtons(1));
    input.record(InputEvent::MouseMoved { x: 5, y: 6 });
    input.record(InputEvent::Focus(true));
    input.record(InputEvent::Resize { width: 3, height: 3 });
    assert_eq!(input.key(10), KeyState::new(false, false, false));
    assert_eq!(input.button(0), KeyState::new(false, false, false));
    input.settle();
    assert_eq!(input.key(10), KeyState::new(true, true, false));
    assert_eq!(input.button(0), KeyState::new(true, true, false));
    assert_eq!(input.button(4), KeyState::new(false, false, false));
    assert_eq!(input.pointer(), (5, 6));
    assert!(input.focused());
    input.settle();
    assert_eq!(input.key(10), KeyState::new(true, false, false));
    assert_eq!(input.button(0), KeyState::new(true, false, false));
}

#[test]
fn resize_replaces_the_screen_by_a_blank_one() {
    let mut engine = ConsoleGameEngine::new();
    engine.construct_console(4, 4, 8, 8, "resize");
    engine.console_replied(SetupReply::Done, 0);
    engine.console_replied(SetupReply::Done, 0);
    engine.console_replied(SetupReply::Done, 0);
    engine.console_replied(SetupReply::Done, 0);
    engine.console_replied(SetupReply::MaxWindow { width: 100, height: 100 }, 0);
    assert_eq!(engine.console_replied(SetupReply::Done, 0), SetupRequest::Finished(Rcode::Success));
    engine.draw(1, 1, 65, 9);
    engine.update(1, &vec![InputEvent::MouseMoved { x: 1, y: 1 }]);
    assert_eq!(engine.cell_at(1, 1), Some(Cell { glyph: 65, attributes: 9 }));
    engine.update(2, &vec![InputEvent::Resize { width: 7, height: 2 }, InputEvent::Focus(true)]);
    assert_eq!(engine.screen_width(), 7);
    assert_eq!(engine.screen_height(), 2);
    assert_eq!(engine.screen().len(), 14);
    for cell in engine.screen() {
        assert_eq!(*cell, Cell { glyph: 0x2588, attributes: 0 });
    }
    engine.update(3, &vec![InputEvent::Resize { width: 9, height: 9 }, InputEvent::Resize { width: 0, height: 5 }]);
    assert_eq!(engine.screen_width(), 0);
    assert_eq!(engine.screen_height(), 5);
    assert!(engine.screen().is_empty());
}

#[test]
fn clock_measures_the_time_between_updates() {
    let mut engine = ConsoleGameEngine::new();
    engine.update(1_000, &Vec::new());
    assert_eq!(engine.delta_time(), 1_000);
    engine.update(17_666_000, &Vec::new());
    assert_eq!(engine.delta_time(), 17_665_000);
    engine.update(17_666_000, &Vec::new());
    assert_eq!(engine.delta_time(), 0);
}

#[test]
fn clock_never_reports_a_negative_delta() {
    let mut clock = FrameClock::new(500);
    assert_eq!(clock, FrameClock { last: 500, delta: 0 });
    clock.tick(800);
    assert_eq!(clock, FrameClock { last: 800, delta: 300 });
    clock.tick(200);
    assert_eq!(clock, FrameClock { last: 200, delta: 0 });
    clock.tick(u64::MAX);
    assert_eq!(clock, FrameClock { last: u64::MAX, delta: u64::MAX - 200 });
}
