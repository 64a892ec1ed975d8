use sakura_repl::input::{dispatch_event, Action, Effect, InputEvent, Key, MouseAction};
use sakura_repl::repl::{InputMode, QueryEntry, Repl};

fn press(key: Key) -> InputEvent {
    InputEvent::Key { key, press: true, ctrl: false, alt: false }
}

fn release(key: Key) -> InputEvent {
    InputEvent::Key { key, press: false, ctrl: false, alt: false }
}

fn session() -> Repl<()> {
    Repl::new(None, "127.0.0.1:7777".to_string())
}

fn act(mode: InputMode, event: InputEvent) -> Action {
    let mut r = session();
    r.mode = mode;
    dispatch_event(&r, event)
}

fn run(r: &mut Repl<()>, event: InputEvent) -> Effect {
    let action = dispatch_event(r, event);
    assert!(r.can_apply(action));
    r.apply(action)
}

#[test]
fn normal_mode_keys() {
    let n = InputMode::Normal;
    assert_eq!(act(n, press(Key::Char('q'))), Action::Quit);
    assert_eq!(act(n, press(Key::Char('e'))), Action::StartEditing);
    assert_eq!(act(n, press(Key::Char('y'))), Action::CopyLastResult);
    assert_eq!(act(n, press(Key::Up)), Action::ScrollUp);
    assert_eq!(act(n, press(Key::Down)), Action::ScrollDown);
    assert_eq!(act(n, press(Key::Char('x'))), Action::Nothing);
    assert_eq!(act(n, press(Key::Enter)), Action::Nothing);
    assert_eq!(act(n, press(Key::Esc)), Action::Nothing);
    // In normal mode releases and repeats count too.
    assert_eq!(act(n, release(Key::Char('q'))), Action::Quit);
}

#[test]
fn editing_mode_keys() {
    let e = InputMode::Editing;
    assert_eq!(act(e, press(Key::Esc)), Action::StopEditing);
    assert_eq!(act(e, press(Key::Enter)), Action::NewLine);
    assert_eq!(
        act(e, InputEvent::Key { key: Key::Enter, press: true, ctrl: false, alt: true }),
        Action::Submit
    );
    assert_eq!(act(e, press(Key::Backspace)), Action::DeleteChar);
    assert_eq!(act(e, press(Key::Left)), Action::CursorLeft);
    assert_eq!(act(e, press(Key::Right)), Action::CursorRight);
    assert_eq!(act(e, press(Key::Up)), Action::HistoryOlder);
    assert_eq!(act(e, press(Key::Down)), Action::HistoryNewer);
    assert_eq!(act(e, press(Key::Char('q'))), Action::Insert('q'));
    assert_eq!(act(e, press(Key::Char('y'))), Action::Insert('y'));
    assert_eq!(
        act(e, InputEvent::Key { key: Key::Char('y'), press: true, ctrl: true, alt: false }),
        Action::CopyInput
    );
    assert_eq!(act(e, press(Key::Other)), Action::Nothing);
    // While editing only presses count.
    assert_eq!(act(e, release(Key::Char('a'))), Action::Nothing);
}

#[test]
fn mouse_and_other_events() {
    for mode in [InputMode::Normal, InputMode::Editing] {
        assert_eq!(act(mode, InputEvent::Mouse(MouseAction::ScrollUp)), Action::ScrollUp);
        assert_eq!(act(mode, InputEvent::Mouse(MouseAction::ScrollDown)), Action::ScrollDown);
        assert_eq!(act(mode, InputEvent::Mouse(MouseAction::Other)), Action::Nothing);
        assert_eq!(act(mode, InputEvent::Other), Action::Nothing);
    }
}

#[test]
fn a_typing_session() {
    let mut r = session();
    assert!(matches!(run(&mut r, press(Key::Char('x'))), Effect::Continue));
    assert_eq!(r.input, "");
    assert!(matches!(run(&mut r, press(Key::Char('e'))), Effect::Continue));
    assert_eq!(r.mode, InputMode::Editing);
    for c in "(schema)".chars() {
        assert!(matches!(run(&mut r, press(Key::Char(c))), Effect::Continue));
    }
    assert_eq!(r.input, "(schema)");
    assert!(matches!(
        run(&mut r, InputEvent::Key { key: Key::Char('y'), press: true, ctrl: true, alt: false }),
        Effect::Copy(ref t) if t == "(schema)"
    ));
    match run(&mut r, InputEvent::Key { key: Key::Enter, press: true, ctrl: false, alt: true }) {
        Effect::Send { input, command } => {
            assert_eq!(input, "(schema)");
            assert_eq!(command, "(drl (Base sakura:attribute))");
        }
        _ => panic!("expected a command to send"),
    }
    assert_eq!(r.input, "");
    assert!(matches!(run(&mut r, press(Key::Esc)), Effect::Continue));
    assert_eq!(r.mode, InputMode::Normal);
    assert!(matches!(run(&mut r, press(Key::Char('q'))), Effect::Quit));
}

#[test]
fn editing_actions_reach_the_session() {
    let mut r = session();
    r.mode = InputMode::Editing;
    run(&mut r, press(Key::Char('a')));
    run(&mut r, press(Key::Enter));
    run(&mut r, press(Key::Char('b')));
    assert_eq!(r.input, "a\nb");
    assert_eq!(r.cursor_line, 1);
    run(&mut r, press(Key::Left));
    run(&mut r, press(Key::Backspace));
    assert_eq!(r.input, "ab");
    assert_eq!(r.cursor_line, 0);
    run(&mut r, press(Key::Right));
    assert_eq!(r.character_index, 2);
}

#[test]
fn copy_and_scroll_in_normal_mode() {
    let mut r = session();
    assert!(matches!(run(&mut r, press(Key::Char('y'))), Effect::Continue));
    r.messages.push(QueryEntry { input: "q".to_string(), rendered: "out".to_string() });
    assert!(matches!(run(&mut r, press(Key::Char('y'))), Effect::Copy(ref t) if t == "out\n"));
    run(&mut r, press(Key::Up));
    run(&mut r, InputEvent::Mouse(MouseAction::ScrollUp));
    assert_eq!(r.manual_scroll, -2);
    run(&mut r, press(Key::Down));
    assert_eq!(r.manual_scroll, -1);
}

#[test]
fn history_keys() {
    let mut r = session();
    r.mode = InputMode::Editing;
    r.messages.push(QueryEntry { input: "first".to_string(), rendered: String::new() });
    run(&mut r, press(Key::Up));
    assert_eq!(r.input, "first");
    run(&mut r, press(Key::Down));
    assert_eq!(r.input, "");
}

#[test]
fn actions_that_cannot_apply() {
    let mut r = session();
    r.character_index = 1;
    assert!(!r.can_apply(Action::DeleteChar));
    r.character_index = usize::MAX;
    assert!(!r.can_apply(Action::NewLine));
    r.history_index = Some(usize::MAX);
    assert!(!r.can_apply(Action::HistoryNewer));
    r.history_index = Some(1);
    assert!(!r.can_apply(Action::HistoryOlder));
    assert!(r.can_apply(Action::Insert('a')));
}

#[test]
fn any_key_closes_the_error_popup() {
    let mut r = session();
    r.mode = InputMode::Editing;
    type_into(&mut r, "draft");
    r.error_popup = Some(("TypeError".to_string(), "bad".to_string()));
    assert_eq!(dispatch_event(&r, press(Key::Char('x'))), Action::ClosePopup);
    assert_eq!(dispatch_event(&r, release(Key::Char('x'))), Action::Nothing);
    assert_eq!(dispatch_event(&r, InputEvent::Mouse(MouseAction::ScrollUp)), Action::ScrollUp);
    assert!(matches!(run(&mut r, press(Key::Enter)), Effect::Continue));
    assert!(r.error_popup.is_none());
    assert_eq!(r.input, "draft");
    assert_eq!(r.mode, InputMode::Editing);
    // The next key does its usual work.
    run(&mut r, press(Key::Char('!')));
    assert_eq!(r.input, "draft!");
}

#[test]
fn popup_closing_in_normal_mode_takes_releases_too() {
    let mut r = session();
    r.error_popup = Some(("E".to_string(), "m".to_string()));
    assert_eq!(dispatch_event(&r, release(Key::Char('q'))), Action::ClosePopup);
    assert!(matches!(run(&mut r, press(Key::Char('q'))), Effect::Continue));
    assert!(matches!(run(&mut r, press(Key::Char('q'))), Effect::Quit));
}

fn type_into(r: &mut Repl<()>, s: &str) {
    for c in s.chars() {
        r.enter_char(c);
    }
}
