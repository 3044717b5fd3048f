use console_game_engine::{
    presentation_code, ConsoleGameEngine, ConsoleSetup, Rcode, SetupReply, SetupRequest,
};

fn setup_until(engine: &mut ConsoleGameEngine, granted: usize) -> SetupRequest {
    let mut request = engine.construct_console(80, 50, 8, 16, "setup");
    for step in 0..granted {
        let reply = if step == 4 {
            SetupReply::MaxWindow { width: 120, height: 60 }
        } else {
            SetupReply::Done
        };
        request = engine.console_replied(reply, 1_000);
    }
    request
}

#[test]
fn setup_asks_for_each_request_in_turn() {
    let mut engine = ConsoleGameEngine::new();
    assert_eq!(setup_until(&mut engine, 0), SetupRequest::Window { right: 1, bottom: 1 });
    assert_eq!(setup_until(&mut engine, 1), SetupRequest::BufferSize { width: 80, height: 50 });
    assert_eq!(setup_until(&mut engine, 2), SetupRequest::Font { width: 8, height: 16 });
    assert_eq!(setup_until(&mut engine, 3), SetupRequest::InputMode);
    assert_eq!(setup_until(&mut engine, 4), SetupRequest::BufferInfo);
    assert_eq!(setup_until(&mut engine, 5), SetupRequest::Window { right: 79, bottom: 49 });
    assert_eq!(engine.screen_width(), 0);
    assert_eq!(setup_until(&mut engine, 6), SetupRequest::Finished(Rcode::Success));
    assert_eq!(engine.screen_width(), 80);
    assert_eq!(engine.screen_height(), 50);
    assert_eq!(engine.screen().len(), 4000);
    assert_eq!(engine.app_name(), "setup");
}

#[test]
fn setup_rejects_a_zero_dimension() {
    let mut engine = ConsoleGameEngine::new();
    let refused = SetupRequest::Finished(Rcode::InvalidScreenSize);
    assert_eq!(engine.construct_console(0, 50, 8, 16, "zero"), refused);
    assert_eq!(engine.construct_console(80, 0, 8, 16, "zero"), refused);
    assert_eq!(engine.construct_console(80, 50, 0, 16, "zero"), refused);
    assert_eq!(engine.construct_console(80, 50, 8, 0, "zero"), refused);
    assert_eq!(engine.app_name(), "Undefined");
    assert_eq!(engine.screen_width(), 0);
}

#[test]
fn setup_rejects_a_dimension_beyond_the_console() {
    let mut engine = ConsoleGameEngine::new();
    let refused = SetupRequest::Finished(Rcode::InvalidScreenSize);
    assert_eq!(engine.construct_console(0x8000, 50, 8, 16, "large"), refused);
    assert_eq!(engine.construct_console(80, 0x8000, 8, 16, "large"), refused);
    assert_eq!(engine.construct_console(80, 50, 0x8000, 16, "large"), refused);
    assert_eq!(engine.construct_console(80, 50, 8, usize::MAX, "large"), refused);
    assert_eq!(
        engine.construct_console(0x7fff, 0x7fff, 0x7fff, 0x7fff, "largest"),
        SetupRequest::Window { right: 1, bottom: 1 }
    );
    assert_eq!(engine.app_name(), "largest");
}

#[test]
fn a_refusal_ends_the_setup_with_the_code_of_its_request() {
    let codes = [
        Rcode::InvalidScreenInfo,
        Rcode::InvalidScreenSize,
        Rcode::InvalidFont,
        Rcode::InvalidConsoleMode,
        Rcode::InvalidScreenInfo,
        Rcode::InvalidScreenInfo,
    ];
    for (granted, code) in codes.iter().enumerate() {
        let mut engine = ConsoleGameEngine::new();
        setup_until(&mut engine, granted);
        assert_eq!(engine.console_replied(SetupReply::Failed, 5), SetupRequest::Finished(*code));
        assert_eq!(engine.screen_width(), 0);
        assert_eq!(
            engine.console_replied(SetupReply::Done, 6),
            SetupRequest::Finished(Rcode::InvalidScreenInfo)
        );
    }
}

#[test]
fn a_screen_larger_than_the_largest_window_is_invalid() {
    let largest = [(79, 60), (120, 49), (10, 10), (-1, -1)];
    for (width, height) in largest {
        let mut engine = ConsoleGameEngine::new();
        setup_until(&mut engine, 4);
        assert_eq!(
            engine.console_replied(SetupReply::MaxWindow { width, height }, 5),
            SetupRequest::Finished(Rcode::InvalidScreenSize)
        );
    }
    let mut engine = ConsoleGameEngine::new();
    setup_until(&mut engine, 4);
    assert_eq!(
        engine.console_replied(SetupReply::MaxWindow { width: 80, height: 50 }, 5),
        SetupRequest::Window { right: 79, bottom: 49 }
    );
}

#[test]
fn the_query_needs_the_largest_window_for_an_answer() {
    let mut engine = ConsoleGameEngine::new();
    setup_until(&mut engine, 4);
    assert_eq!(
        engine.console_replied(SetupReply::Done, 5),
        SetupRequest::Finished(Rcode::InvalidScreenInfo)
    );
}

#[test]
fn a_reply_without_a_setup_is_invalid_screen_info() {
    let mut engine = ConsoleGameEngine::new();
    assert_eq!(
        engine.console_replied(SetupReply::Done, 5),
        SetupRequest::Finished(Rcode::InvalidScreenInfo)
    );
    assert_eq!(
        engine.console_replied(SetupReply::MaxWindow { width: 9, height: 9 }, 5),
        SetupRequest::Finished(Rcode::InvalidScreenInfo)
    );
    assert_eq!(engine.screen_width(), 0);
}

#[test]
fn finishing_the_setup_restarts_the_clock() {
    let mut engine = ConsoleGameEngine::new();
    engine.update(400, &Vec::new());
    assert_eq!(engine.delta_time(), 400);
    assert_eq!(setup_until(&mut engine, 6), SetupRequest::Finished(Rcode::Success));
    assert_eq!(engine.delta_time(), 400);
    engine.update(1_250, &Vec::new());
    assert_eq!(engine.delta_time(), 250);
}

#[test]
fn console_setup_on_its_own() {
    assert!(ConsoleSetup::start(0, 1, 1, 1).is_none());
    assert!(ConsoleSetup::start(1, 1, 1, 0x8000).is_none());
    let setup = ConsoleSetup::start(3, 2, 4, 5).unwrap();
    assert_eq!(setup.screen_size(), (3, 2));
    let (setup, request) = setup.reply(SetupReply::Done);
    assert_eq!(request, SetupRequest::BufferSize { width: 3, height: 2 });
    let (setup, request) = setup.reply(SetupReply::MaxWindow { width: 1, height: 1 });
    assert_eq!(request, SetupRequest::Font { width: 4, height: 5 });
    let (setup, request) = setup.reply(SetupReply::Failed);
    assert_eq!(request, SetupRequest::Finished(Rcode::InvalidFont));
    let (_, request) = setup.reply(SetupReply::Done);
    assert_eq!(request, SetupRequest::Finished(Rcode::InvalidScreenInfo));
    let (_, request) = ConsoleSetup::idle().reply(SetupReply::Done);
    assert_eq!(request, SetupRequest::Finished(Rcode::InvalidScreenInfo));
}

#[test]
fn a_failed_presentation_is_an_invalid_screen_buffer() {
    assert_eq!(presentation_code(true), Rcode::Success);
    assert_eq!(presentation_code(false), Rcode::InvalidScreenBuffer);
}
