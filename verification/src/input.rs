//! What keys and mouse events do to a REPL session: each event is mapped to
//! an action, and the action is applied to the session, yielding what the
//! caller has to do outside it (quit, copy text, send a command).

use vstd::prelude::*;
use crate::repl::{
    deleted, moved_left, new_line, moved_right, scrolled_down, scrolled_up, submitted,
    typed, went_newer, went_older, InputMode, Repl, Submission,
};

verus! {

/// A key the REPL reacts to.
#[derive(Debug, Clone, Copy, PartialEq, Eq, Structural)]
pub enum Key {
    Char(char),
    Esc,
    Enter,
    Backspace,
    Left,
    Right,
    Up,
    Down,
    Other,
}

/// A mouse action the REPL reacts to.
#[derive(Debug, Clone, Copy, PartialEq, Eq, Structural)]
pub enum MouseAction {
    ScrollUp,
    ScrollDown,
    Other,
}

/// An input event: a key (`press` is false for repeats and releases, `ctrl`
/// and `alt` tell whether Control or Alt is held), a mouse action, or
/// anything else.
#[derive(Debug, Clone, Copy, PartialEq, Eq, Structural)]
pub enum InputEvent {
    Key { key: Key, press: bool, ctrl: bool, alt: bool },
    Mouse(MouseAction),
    Other,
}

/// What an event asks of the session.
#[derive(Debug, Clone, Copy, PartialEq, Eq, Structural)]
pub enum Action {
    Nothing,
    Quit,
    StartEditing,
    StopEditing,
    CopyLastResult,
    CopyInput,
    ScrollUp,
    ScrollDown,
    Submit,
    NewLine,
    DeleteChar,
    CursorLeft,
    CursorRight,
    HistoryOlder,
    HistoryNewer,
    Insert(char),
    ClosePopup,
}

/// What is left for the caller to do after an action.
pub enum Effect {
    /// Nothing: go on reading events.
    Continue,
    /// Leave the REPL.
    Quit,
    /// Put this text on the clipboard.
    Copy(String),
    /// Send `command` to the server; record the reply with
    /// `record_reply(input, ..)`.
    Send { input: String, command: String },
}

/// Whether a key event is handled in this mode: in normal mode every key
/// event is, while editing only presses are.
pub open spec fn handles_key(mode: InputMode, press: bool) -> bool {
    mode == InputMode::Normal || press
}

/// What a key does in normal mode.
pub open spec fn normal_mode_action(key: Key) -> Action {
    match key {
        Key::Char(c) => if c == 'q' {
            Action::Quit
        } else if c == 'e' {
            Action::StartEditing
        } else if c == 'y' {
            Action::CopyLastResult
        } else {
            Action::Nothing
        },
        Key::Up => Action::ScrollUp,
        Key::Down => Action::ScrollDown,
        _ => Action::Nothing,
    }
}

/// What a key does while editing: Alt+Enter submits, Enter starts a new line.
pub open spec fn editing_mode_action(key: Key, ctrl: bool, alt: bool) -> Action {
    match key {
        Key::Esc => Action::StopEditing,
        Key::Enter => if alt {
            Action::Submit
        } else {
            Action::NewLine
        },
        Key::Backspace => Action::DeleteChar,
        Key::Left => Action::CursorLeft,
        Key::Right => Action::CursorRight,
        Key::Up => Action::HistoryOlder,
        Key::Down => Action::HistoryNewer,
        Key::Char(c) => if c == 'y' && ctrl {
            Action::CopyInput
        } else {
            Action::Insert(c)
        },
        Key::Other => Action::Nothing,
    }
}

/// What an event does in a mode, with or without the error popup open: while
/// it is open, any key that is handled closes it and does nothing else.
pub open spec fn action_for(mode: InputMode, popup_open: bool, event: InputEvent) -> Action {
    match event {
        InputEvent::Key { key, press, ctrl, alt } => if !handles_key(mode, press) {
            Action::Nothing
        } else if popup_open {
            Action::ClosePopup
        } else {
            match mode {
                InputMode::Normal => normal_mode_action(key),
                InputMode::Editing => editing_mode_action(key, ctrl, alt),
            }
        },
        InputEvent::Mouse(MouseAction::ScrollUp) => Action::ScrollUp,
        InputEvent::Mouse(MouseAction::ScrollDown) => Action::ScrollDown,
        _ => Action::Nothing,
    }
}

fn should_handle_key(mode: InputMode, press: bool) -> (r: bool)
    ensures
        r == handles_key(mode, press),
{
    matches!(mode, InputMode::Normal) || press
}

fn handle_normal_mode(key: Key) -> (r: Action)
    ensures
        r == normal_mode_action(key),
{
    match key {
        Key::Char('q') => Action::Quit,
        Key::Char('e') => Action::StartEditing,
        Key::Char('y') => Action::CopyLastResult,
        Key::Up => Action::ScrollUp,
        Key::Down => Action::ScrollDown,
        _ => Action::Nothing,
    }
}

fn handle_editing_mode(key: Key, ctrl: bool, alt: bool) -> (r: Action)
    ensures
        r == editing_mode_action(key, ctrl, alt),
{
    match key {
        Key::Esc => Action::StopEditing,
        Key::Enter => if alt {
            Action::Submit
        } else {
            Action::NewLine
        },
        Key::Backspace => Action::DeleteChar,
        Key::Left => Action::CursorLeft,
        Key::Right => Action::CursorRight,
        Key::Up => Action::HistoryOlder,
        Key::Down => Action::HistoryNewer,
        Key::Char(c) => if c == 'y' && ctrl {
            Action::CopyInput
        } else {
            Action::Insert(c)
        },
        Key::Other => Action::Nothing,
    }
}

/// The action an event asks of the session.
pub fn dispatch_event<C>(repl: &Repl<C>, event: InputEvent) -> (r: Action)
    ensures
        r == action_for(repl.mode, repl.error_popup is Some, event),
{
    match event {
        InputEvent::Key { key, press, ctrl, alt } => if !should_handle_key(repl.mode, press) {
            Action::Nothing
        } else if repl.error_popup.is_some() {
            Action::ClosePopup
        } else {
            match repl.mode {
                InputMode::Normal => handle_normal_mode(key),
                InputMode::Editing => handle_editing_mode(key, ctrl, alt),
            }
        },
        InputEvent::Mouse(MouseAction::ScrollUp) => Action::ScrollUp,
        InputEvent::Mouse(MouseAction::ScrollDown) => Action::ScrollDown,
        _ => Action::Nothing,
    }
}

/// Whether `action` can be applied to the session: deleting needs a
/// character before a cursor that is past the start, history recall needs a
/// history position the history can move from, and a new line needs room in
/// the cursor and line counters.
pub open spec fn applicable<C>(repl: Repl<C>, action: Action) -> bool {
    match action {
        Action::NewLine => repl.character_index < usize::MAX && repl.cursor_line < usize::MAX,
        Action::DeleteChar => repl.character_index > 0 ==> repl.input@.len() > 0,
        Action::HistoryOlder => repl.history_index matches Some(i) ==> i
            <= repl.messages@.len(),
        Action::HistoryNewer => repl.history_index != Some(usize::MAX),
        _ => true,
    }
}

impl<C> Repl<C> {
    /// Whether `action` can be applied to this session.
    pub fn can_apply(&self, action: Action) -> (r: bool)
        ensures
            r == applicable(*self, action),
    {
        match action {
            Action::NewLine => self.character_index < usize::MAX && self.cursor_line < usize::MAX,
            Action::DeleteChar => self.character_index == 0 || !self.input.as_str().is_empty(),
            Action::HistoryOlder => match self.history_index {
                Some(i) => i <= self.messages.len(),
                None => true,
            },
            Action::HistoryNewer => match self.history_index {
                Some(i) => i != usize::MAX,
                None => true,
            },
            _ => true,
        }
    }

    /// Applies an action to the session.
    pub fn apply(&mut self, action: Action) -> (r: Effect)
        requires
            applicable(*old(self), action),
        ensures
            match action {
                Action::Nothing => r is Continue && *final(self) == *old(self),
                Action::Quit => r is Quit && *final(self) == *old(self),
                Action::StartEditing => r is Continue && final(self).mode == InputMode::Editing
                    && same_but_mode(*old(self), *final(self)),
                Action::StopEditing => r is Continue && final(self).mode == InputMode::Normal
                    && same_but_mode(*old(self), *final(self)),
                Action::CopyLastResult => *final(self) == *old(self) && if old(
                    self,
                ).messages@.len() > 0 {
                    r matches Effect::Copy(t) && t@ == old(self).messages@.last().rendered@
                        + "\n"@
                } else {
                    r is Continue
                },
                Action::CopyInput => *final(self) == *old(self) && if old(self).input@.len() > 0 {
                    r matches Effect::Copy(t) && t@ == old(self).input@
                } else {
                    r is Continue
                },
                Action::ScrollUp => r is Continue && scrolled_up(*old(self), *final(self)),
                Action::ScrollDown => r is Continue && scrolled_down(*old(self), *final(self)),
                Action::Submit => exists|s: Submission|
                    {
                        &&& #[trigger] submitted(*old(self), *final(self), s)
                        &&& match s {
                            Submission::Send { input, command } => r matches Effect::Send {
                                input: i,
                                command: c,
                            } && i == input && c == command,
                            _ => r is Continue,
                        }
                    },
                Action::NewLine => r is Continue && new_line(*old(self), *final(self)),
                Action::DeleteChar => r is Continue && deleted(*old(self), *final(self)),
                Action::CursorLeft => r is Continue && moved_left(*old(self), *final(self)),
                Action::CursorRight => r is Continue && moved_right(*old(self), *final(self)),
                Action::HistoryOlder => r is Continue && went_older(*old(self), *final(self)),
                Action::HistoryNewer => r is Continue && went_newer(*old(self), *final(self)),
                Action::Insert(c) => r is Continue && typed(*old(self), *final(self), c),
                Action::ClosePopup => r is Continue && final(self).error_popup is None
                    && same_but_popup(*old(self), *final(self)),
            },
    {
        match action {
            Action::Nothing => Effect::Continue,
            Action::Quit => Effect::Quit,
            Action::StartEditing => {
                self.mode = InputMode::Editing;
                Effect::Continue
            },
            Action::StopEditing => {
                self.mode = InputMode::Normal;
                Effect::Continue
            },
            Action::CopyLastResult => match self.copy_last_result() {
                Some(t) => Effect::Copy(t),
                None => Effect::Continue,
            },
            Action::CopyInput => match self.copy_input() {
                Some(t) => Effect::Copy(t),
                None => Effect::Continue,
            },
            Action::ScrollUp => {
                self.scroll_up();
                Effect::Continue
            },
            Action::ScrollDown => {
                self.scroll_down();
                Effect::Continue
            },
            Action::Submit => {
                let s = self.submit_message();
                match s {
                    Submission::Send { input, command } => Effect::Send { input, command },
                    _ => Effect::Continue,
                }
            },
            Action::NewLine => {
                self.enter_newline();
                Effect::Continue
            },
            Action::DeleteChar => {
                self.delete_char();
                Effect::Continue
            },
            Action::CursorLeft => {
                self.move_cursor_left();
                Effect::Continue
            },
            Action::CursorRight => {
                self.move_cursor_right();
                Effect::Continue
            },
            Action::HistoryOlder => {
                self.history_older();
                Effect::Continue
            },
            Action::HistoryNewer => {
                self.history_newer();
                Effect::Continue
            },
            Action::Insert(c) => {
                self.enter_char(c);
                Effect::Continue
            },
            Action::ClosePopup => {
                self.error_popup = None;
                Effect::Continue
            },
        }
    }
}

/// Only the error popup may differ between `old` and `new`.
pub open spec fn same_but_popup<C>(old: Repl<C>, new: Repl<C>) -> bool {
    &&& new.mode == old.mode
    &&& new.input == old.input
    &&& new.character_index == old.character_index
    &&& new.cursor_line == old.cursor_line
    &&& new.history_index == old.history_index
    &&& new.manual_scroll == old.manual_scroll
    &&& new.messages@ == old.messages@
    &&& new.connection == old.connection
    &&& new.server_addr == old.server_addr
    &&& new.db_hash == old.db_hash
    &&& new.db_name == old.db_name
    &&& new.branch == old.branch
}

/// Only the mode may differ between `old` and `new`.
pub open spec fn same_but_mode<C>(old: Repl<C>, new: Repl<C>) -> bool {
    &&& new.input == old.input
    &&& new.character_index == old.character_index
    &&& new.cursor_line == old.cursor_line
    &&& new.history_index == old.history_index
    &&& new.manual_scroll == old.manual_scroll
    &&& new.messages@ == old.messages@
    &&& new.connection == old.connection
    &&& new.server_addr == old.server_addr
    &&& new.db_hash == old.db_hash
    &&& new.db_name == old.db_name
    &&& new.branch == old.branch
    &&& new.error_popup == old.error_popup
}

} // verus!
