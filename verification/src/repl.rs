//! The state of a REPL session: the input being edited, the history of
//! queries and their results, the scroll position, and the server metadata
//! last seen. Talking to the server is left to the caller: submitting yields
//! the command to send, and the reply is recorded when it comes back.

use vstd::prelude::*;
use crate::connection::{
    displayable, error_parts, format_response, formatted, meta_of_response, ResponseV,
    ServerResponse,
};
use crate::language::{
    classification, classify, rewrite, rewritten, schema_query, schema_shortcut, tag_named,
    ClassificationV, InputClassification,
};
use crate::sexpr::{sexp_read, AtomV, TreeV};
use crate::text::{
    chars_of, collapse_whitespace, collapse_ws, concat, count_char, count_lines, join,
    count_line_feeds, lemma_collapsed_is_one_line, lemma_join_push, line_count, owned,
    push_range, trim,
};

verus! {

/// One submitted query and what was shown for it.
pub struct QueryEntry {
    pub input: String,
    pub rendered: String,
}

/// Whether keys move around the session or edit the input.
#[derive(Debug, Clone, Copy, PartialEq, Eq, Structural)]
pub enum InputMode {
    Normal,
    Editing,
}

/// REPL session state. `C` is the connection the caller keeps for the session.
pub struct Repl<C> {
    pub input: String,
    pub character_index: usize,
    pub mode: InputMode,
    pub messages: Vec<QueryEntry>,
    /// Offset from auto-scroll position (negative = scrolled up into history)
    pub manual_scroll: i32,
    pub connection: Option<C>,
    /// Server address used for (re)connection — TCP `host:port` or Unix socket path.
    pub server_addr: String,
    pub db_hash: String,
    pub db_name: String,
    pub branch: String,
    /// Index into messages for history recall (None = current input)
    pub history_index: Option<usize>,
    /// Current line number in multiline input
    pub cursor_line: usize,
    /// Active error popup (kind, message), if any
    pub error_popup: Option<(String, String)>,
}

/// Where in the input a character index points: the index itself, or the end
/// of the input when it lies beyond.
pub open spec fn cursor_at(ci: usize, s: Seq<char>) -> int {
    if ci < s.len() {
        ci as int
    } else {
        s.len() as int
    }
}

/// `s` with `c` inserted at position `p`.
pub open spec fn insert_at(s: Seq<char>, p: int, c: char) -> Seq<char> {
    s.take(p) + seq![c] + s.skip(p)
}

/// `s` without the character at position `p`.
pub open spec fn remove_at(s: Seq<char>, p: int) -> Seq<char> {
    s.take(p) + s.skip(p + 1)
}

/// `n - 1`, or 0 for 0.
pub open spec fn minus_one(n: nat) -> nat {
    if n > 0 {
        (n - 1) as nat
    } else {
        0
    }
}

/// How a query and its result are shown in the results pane.
pub open spec fn entry_text(e: QueryEntry) -> Seq<char> {
    "sakura=> "@ + e.input@ + "\n\n"@ + e.rendered@ + "\n"@
}

/// The results pane: every entry, one blank line between neighbours.
pub open spec fn query_results(es: Seq<QueryEntry>) -> Seq<char> {
    join(Seq::new(es.len(), |i: int| entry_text(es[i])), "\n"@)
}

/// The number of lines an entry takes in the results pane, counting the
/// blank line that separates it from the next one.
pub open spec fn entry_lines(e: QueryEntry) -> nat {
    1 + minus_one(line_count(e.input@)) + 1 + if line_count(e.rendered@) > 1 {
        line_count(e.rendered@)
    } else {
        1
    } + 1
}

/// The lines all entries take, separators included.
pub open spec fn lines_sum(es: Seq<QueryEntry>) -> nat
    decreases es.len(),
{
    if es.len() == 0 {
        0
    } else {
        lines_sum(es.drop_last()) + entry_lines(es.last())
    }
}

/// The number of lines the results pane holds (the last entry has no
/// separator), as a `u16` (the count is cut to 16 bits; a count beyond
/// `usize::MAX` counts as `usize::MAX`).
pub open spec fn content_lines(es: Seq<QueryEntry>) -> u16 {
    let s = if lines_sum(es) <= usize::MAX {
        lines_sum(es)
    } else {
        usize::MAX as nat
    };
    minus_one(s) as u16
}

/// `n - 2`, or 0.
pub open spec fn u16_minus(n: u16, m: u16) -> u16 {
    if n >= m {
        (n - m) as u16
    } else {
        0
    }
}

/// What submitting a command amounts to before it is sent: a syntax error
/// to show, or the command to send (whitespace collapsed, shortcuts
/// rewritten).
pub open spec fn prepared(input: Seq<char>) -> Result<Seq<char>, Seq<char>> {
    let c = collapse_whitespace(input);
    match classification(c) {
        ClassificationV::MalformedSexp(e) => Err("Syntax error: "@ + e),
        _ => Ok(rewritten(c)),
    }
}

/// Prepares a command line for the wire: collapse it to one line, refuse
/// malformed S-expressions, rewrite shortcuts.
pub fn prepare_command(input: &str) -> (r: Result<String, String>)
    ensures
        match r {
            Ok(c) => prepared(input@) == Ok::<Seq<char>, Seq<char>>(c@),
            Err(e) => prepared(input@) == Err::<Seq<char>, Seq<char>>(e@),
        },
{
    // Collapse multiline input to a single line for the wire protocol.
    let cmd = collapse_ws(input);
    // Client-side validation: catch malformed S-expressions before sending.
    if let InputClassification::MalformedSexp(err) = classify(cmd.as_str()) {
        return Err(concat("Syntax error: ", err.as_str()));
    }
    // Rewrite client shortcuts (e.g. (schema) -> (drl (Base sakura:attribute))).
    Ok(rewrite(cmd.as_str()))
}

/// What a submission asks of the caller.
pub enum Submission {
    /// The input was empty: nothing happened.
    Nothing,
    /// The input was refused before sending; its entry is already recorded.
    Recorded,
    /// Send `command`; record the reply with `record_reply(input, ..)`.
    Send { input: String, command: String },
}

/// How the first attempt to send a command went.
pub enum FirstAttempt {
    /// There was no connection to send on.
    NotConnected,
    /// Sending or reading the reply failed, with this message.
    Failed(String),
    /// The server replied.
    Replied(ServerResponse),
}

/// How the attempt on a fresh connection went.
pub enum Retry<C> {
    /// Connecting failed, with this message.
    ConnectFailed(String),
    /// Connected, but sending on the new connection or reading its reply
    /// failed, with this message.
    SendFailed(C, String),
    /// Connected, and the server replied on the new connection.
    Replied(C, ServerResponse),
}

/// The outcome of the first attempt: the reply, or the error to report if
/// the retry fails too (`Err` means: reconnect and retry once).
pub fn first_attempt(a: FirstAttempt) -> (r: Result<ServerResponse, String>)
    ensures
        match a {
            FirstAttempt::NotConnected => r matches Err(e) && e@ == "not connected"@,
            FirstAttempt::Failed(m) => r matches Err(e) && e@ == m@,
            FirstAttempt::Replied(resp) => r == Ok::<ServerResponse, String>(resp),
        },
{
    match a {
        FirstAttempt::NotConnected => Err(owned("not connected")),
        FirstAttempt::Failed(m) => Err(m),
        FirstAttempt::Replied(resp) => Ok(resp),
    }
}

/// Settles the retry on a fresh connection: the session keeps the new
/// connection whether or not its send succeeded, and has none when
/// connecting failed; the result is the reply, or the message that reports
/// both failures (`first_err` being the first attempt's).
pub fn after_retry<C>(
    connection: &mut Option<C>,
    server_addr: &str,
    first_err: &str,
    r: Retry<C>,
) -> (res: Result<ServerResponse, String>)
    ensures
        match r {
            Retry::Replied(c, resp) => *final(connection) == Some(c) && res == Ok::<
                ServerResponse,
                String,
            >(resp),
            Retry::SendFailed(c, e) => {
                &&& *final(connection) == Some(c)
                &&& res matches Err(m) && m@ == "ERROR: failed to parse server response: "@
                    + first_err@ + " (retry error: "@ + e@ + ")"@
            },
            Retry::ConnectFailed(e) => {
                &&& (*final(connection)) is None
                &&& res matches Err(m) && m@ == "ERROR: server unreachable ("@ + server_addr@
                    + "): "@ + e@
            },
        },
{
    match r {
        Retry::Replied(c, resp) => {
            *connection = Some(c);
            Ok(resp)
        },
        Retry::SendFailed(c, e) => {
            *connection = Some(c);
            let mut m = owned("ERROR: failed to parse server response: ");
            m.append(first_err);
            m.append(" (retry error: ");
            m.append(e.as_str());
            m.append(")");
            Err(m)
        },
        Retry::ConnectFailed(e) => {
            *connection = None;
            let mut m = owned("ERROR: server unreachable (");
            m.append(server_addr);
            m.append("): ");
            m.append(e.as_str());
            Err(m)
        },
    }
}

/// The line counter one line up (it stays at 0).
pub open spec fn line_up(l: usize) -> usize {
    if l > 0 {
        (l - 1) as usize
    } else {
        0
    }
}

/// The line counter one line down (it stays at its largest value).
pub open spec fn line_down(l: usize) -> usize {
    if l < usize::MAX {
        (l + 1) as usize
    } else {
        l
    }
}

/// The line the cursor is on: the line feeds before it.
pub open spec fn line_of_cursor(input: Seq<char>, ci: usize) -> nat {
    count_char(input.take(cursor_at(ci, input)), '\n')
}

/// `new` is `old` with the cursor moved one character left (stopping at the
/// start); moving back over a line feed goes up a line.
pub open spec fn moved_left<C>(old: Repl<C>, new: Repl<C>) -> bool {
    &&& new.character_index == if old.character_index > 0 {
        (old.character_index - 1) as usize
    } else {
        0
    }
    &&& new.cursor_line == if 0 < old.character_index <= old.input@.len()
        && old.input@[old.character_index - 1] == '\n' {
        line_up(old.cursor_line)
    } else {
        old.cursor_line
    }
    &&& new.input == old.input
    &&& new.same_but_text(old)
}

/// `new` is `old` with the cursor moved one character right (stopping at the
/// end); moving over a line feed goes down a line.
pub open spec fn moved_right<C>(old: Repl<C>, new: Repl<C>) -> bool {
    &&& new.character_index == if old.character_index < old.input@.len() {
        (old.character_index + 1) as usize
    } else {
        old.character_index
    }
    &&& new.cursor_line == if old.character_index < old.input@.len()
        && old.input@[old.character_index as int] == '\n' {
        line_down(old.cursor_line)
    } else {
        old.cursor_line
    }
    &&& new.input == old.input
    &&& new.same_but_text(old)
}

/// `new` is `old` with `c` typed at the cursor and the cursor moved past it;
/// typing a line feed goes down a line.
pub open spec fn typed<C>(old: Repl<C>, new: Repl<C>, c: char) -> bool {
    &&& new.input@ == insert_at(old.input@, cursor_at(old.character_index, old.input@), c)
    &&& new.character_index == if old.character_index <= old.input@.len() {
        (old.character_index + 1) as usize
    } else {
        old.character_index
    }
    &&& new.cursor_line == if c == '\n' {
        line_down(old.cursor_line)
    } else {
        old.cursor_line
    }
    &&& new.same_but_text(old)
}

/// `new` is `old` with a line break typed at the cursor and the cursor on
/// the next line.
pub open spec fn new_line<C>(old: Repl<C>, new: Repl<C>) -> bool {
    &&& new.input@ == insert_at(old.input@, cursor_at(old.character_index, old.input@), '\n')
    &&& new.character_index == old.character_index + 1
    &&& new.cursor_line == old.cursor_line + 1
    &&& new.same_session(old)
    &&& new.manual_scroll == old.manual_scroll
    &&& new.history_index == old.history_index
}

/// `new` is `old` with the character before the cursor deleted (nothing
/// happens at the start of the input); deleting a line break moves up a line.
pub open spec fn deleted<C>(old: Repl<C>, new: Repl<C>) -> bool {
    &&& old.character_index == 0 ==> new == old
    &&& old.character_index > 0 ==> {
        let p = cursor_at(old.character_index, old.input@);
        &&& new.input@ == remove_at(old.input@, p - 1)
        &&& new.character_index == old.character_index - 1
        &&& new.cursor_line == if old.input@[p - 1] == '\n' && old.cursor_line > 0 {
            (old.cursor_line - 1) as usize
        } else {
            old.cursor_line
        }
        &&& new.same_session(old)
        &&& new.manual_scroll == old.manual_scroll
        &&& new.history_index == old.history_index
    }
}

/// `new` is `old` with history entry `idx` loaded into the editor, the
/// cursor at its end (on the line after its last line feed).
pub open spec fn loaded<C>(old: Repl<C>, new: Repl<C>, idx: int) -> bool {
    &&& new.input == old.messages@[idx].input
    &&& new.character_index == old.messages@[idx].input@.len()
    &&& new.cursor_line == count_char(old.messages@[idx].input@, '\n')
    &&& new.same_session(old)
    &&& new.manual_scroll == old.manual_scroll
}

/// `new` is `old` after recalling the previous (older) history entry.
pub open spec fn went_older<C>(old: Repl<C>, new: Repl<C>) -> bool {
    &&& old.messages@.len() == 0 ==> new == old
    &&& old.messages@.len() > 0 ==> {
        let next = match old.history_index {
            None => old.messages@.len() - 1,
            Some(i) => if i == 0 {
                0
            } else {
                i - 1
            },
        };
        &&& new.history_index == Some(next as usize)
        &&& loaded(old, new, next)
    }
}

/// `new` is `old` after recalling the next (newer) history entry, or after
/// returning to an empty input past the newest one.
pub open spec fn went_newer<C>(old: Repl<C>, new: Repl<C>) -> bool {
    &&& old.history_index is None ==> new == old
    &&& old.history_index matches Some(i) ==> if i + 1 >= old.messages@.len() {
        &&& new.history_index is None
        &&& new.input@ == Seq::<char>::empty()
        &&& new.character_index == 0
        &&& new.cursor_line == 0
        &&& new.same_session(old)
        &&& new.manual_scroll == old.manual_scroll
    } else {
        &&& new.history_index == Some((i + 1) as usize)
        &&& loaded(old, new, i + 1)
    }
}

/// Only the scroll offset may differ between `old` and `new`.
pub open spec fn same_but_scroll<C>(old: Repl<C>, new: Repl<C>) -> bool {
    &&& new.same_session(old)
    &&& new.input == old.input
    &&& new.character_index == old.character_index
    &&& new.cursor_line == old.cursor_line
    &&& new.history_index == old.history_index
}

/// `new` is `old` scrolled one line up.
pub open spec fn scrolled_up<C>(old: Repl<C>, new: Repl<C>) -> bool {
    &&& new.manual_scroll == if old.manual_scroll > i32::MIN {
        (old.manual_scroll - 1) as i32
    } else {
        i32::MIN
    }
    &&& same_but_scroll(old, new)
}

/// `new` is `old` scrolled one line down, never past the latest output.
pub open spec fn scrolled_down<C>(old: Repl<C>, new: Repl<C>) -> bool {
    &&& new.manual_scroll == if old.manual_scroll < 0 {
        (old.manual_scroll + 1) as i32
    } else {
        0
    }
    &&& same_but_scroll(old, new)
}

/// `new` is `old` after submitting its input, with `r` what the caller is asked to do.
pub open spec fn submitted<C>(old: Repl<C>, new: Repl<C>, r: Submission) -> bool {
    &&& old.input@.len() == 0 ==> r is Nothing && new == old
    &&& old.input@.len() > 0 ==> {
        &&& new.input@ == Seq::<char>::empty()
        &&& new.character_index == 0
        &&& new.cursor_line == 0
        &&& new.manual_scroll == 0
        &&& new.history_index is None
        &&& new.mode == old.mode
        &&& new.connection == old.connection
        &&& new.server_addr == old.server_addr
        &&& new.db_hash == old.db_hash
        &&& new.db_name == old.db_name
        &&& new.branch == old.branch
        &&& new.error_popup == old.error_popup
        &&& match prepared(old.input@) {
            Err(msg) => {
                &&& r is Recorded
                &&& new.messages@.len() == old.messages@.len() + 1
                &&& new.messages@.drop_last() == old.messages@
                &&& new.messages@.last().input == old.input
                &&& new.messages@.last().rendered@ == msg
            },
            Ok(cmd) => {
                &&& r matches Submission::Send { input, command } && input == old.input
                    && command@ == cmd
                &&& new.messages@ == old.messages@
            },
        }
    }
}

/// `new` is `old` with the reply to `input` recorded as a new entry: the
/// metadata is taken from a server response, an error response opens the
/// error popup and shows nothing, any other response is formatted, and a
/// failure to get a reply shows its message.
pub open spec fn recorded<C>(
    old: Repl<C>,
    new: Repl<C>,
    input: String,
    reply: Result<ServerResponse, String>,
) -> bool {
    &&& new.messages@.len() == old.messages@.len() + 1
    &&& new.messages@.drop_last() == old.messages@
    &&& new.messages@.last().input == input
    &&& new.input == old.input
    &&& new.character_index == old.character_index
    &&& new.cursor_line == old.cursor_line
    &&& new.history_index == old.history_index
    &&& new.manual_scroll == old.manual_scroll
    &&& new.mode == old.mode
    &&& new.connection == old.connection
    &&& new.server_addr == old.server_addr
    &&& match reply {
        Ok(resp) => {
            &&& new.db_hash@ == meta_of_response(resp@).db_hash
            &&& new.db_name@ == meta_of_response(resp@).db_name
            &&& new.branch@ == meta_of_response(resp@).branch
            &&& match resp@ {
                ResponseV::Error { kind, message, .. } => {
                    &&& new.error_popup matches Some((k, m)) && k@ == kind && m@
                        == message
                    &&& new.messages@.last().rendered@ == Seq::<char>::empty()
                },
                _ => {
                    &&& new.error_popup == old.error_popup
                    &&& new.messages@.last().rendered@ == formatted(resp@)
                },
            }
        },
        Err(e) => {
            &&& new.messages@.last().rendered == e
            &&& new.db_hash == old.db_hash
            &&& new.db_name == old.db_name
            &&& new.branch == old.branch
            &&& new.error_popup == old.error_popup
        },
    }
}

impl<C> Repl<C> {
    /// Everything but the editor (input, cursor, line, history position) and
    /// the scroll offset is the same in `self` and `other`.
    pub open spec fn same_session(self, other: Self) -> bool {
        &&& self.mode == other.mode
        &&& self.messages@ == other.messages@
        &&& self.connection == other.connection
        &&& self.server_addr == other.server_addr
        &&& self.db_hash == other.db_hash
        &&& self.db_name == other.db_name
        &&& self.branch == other.branch
        &&& self.error_popup == other.error_popup
    }

    /// The whole session but the input text, its cursor and the cursor's
    /// line is the same.
    pub open spec fn same_but_text(self, other: Self) -> bool {
        &&& self.same_session(other)
        &&& self.manual_scroll == other.manual_scroll
        &&& self.history_index == other.history_index
    }

    /// A fresh session.
    pub fn new(connection: Option<C>, server_addr: String) -> (r: Self)
        ensures
            r.input@ == Seq::<char>::empty(),
            r.mode == InputMode::Normal,
            r.messages@ == Seq::<QueryEntry>::empty(),
            r.character_index == 0,
            r.manual_scroll == 0,
            r.connection == connection,
            r.server_addr == server_addr,
            r.db_hash@ == "--------"@,
            r.db_name@ == "?"@,
            r.branch@ == "--"@,
            r.history_index is None,
            r.cursor_line == 0,
            r.error_popup is None,
    {
        Self {
            input: String::new(),
            mode: InputMode::Normal,
            messages: Vec::new(),
            character_index: 0,
            manual_scroll: 0,
            connection,
            server_addr,
            db_hash: owned("--------"),
            db_name: owned("?"),
            branch: owned("--"),
            history_index: None,
            cursor_line: 0,
            error_popup: None,
        }
    }

    // Text editing

    /// Moves the cursor one character left, stopping at the start.
    pub fn move_cursor_left(&mut self)
        ensures
            moved_left(*old(self), *final(self)),
    {
        let ci = self.character_index;
        if ci > 0 {
            let cs = chars_of(self.input.as_str());
            if ci <= cs.len() && cs[ci - 1] == '\n' && self.cursor_line > 0 {
                self.cursor_line = self.cursor_line - 1;
            }
            self.character_index = ci - 1;
        }
    }

    /// Moves the cursor one character right, stopping at the end of the input.
    pub fn move_cursor_right(&mut self)
        ensures
            moved_right(*old(self), *final(self)),
    {
        let cs = chars_of(self.input.as_str());
        if self.character_index < cs.len() {
            if cs[self.character_index] == '\n' && self.cursor_line < usize::MAX {
                self.cursor_line = self.cursor_line + 1;
            }
            self.character_index += 1;
        }
    }

    /// The number of characters in the input.
    fn input_length(&self) -> (r: usize)
        ensures
            r == self.input@.len(),
    {
        chars_of(self.input.as_str()).len()
    }

    /// `self.input` with `c` put at the cursor.
    fn insert_at_cursor(&self, c: char) -> (r: String)
        ensures
            r@ == insert_at(self.input@, cursor_at(self.character_index, self.input@), c),
            r@.len() == self.input@.len() + 1,
    {
        let cs = chars_of(self.input.as_str());
        let p = if self.character_index < cs.len() {
            self.character_index
        } else {
            cs.len()
        };
        let mut r = String::new();
        push_range(&mut r, &cs, 0, p);
        r.push(c);
        push_range(&mut r, &cs, p, cs.len());
        proof {
            assert(cs@.subrange(0, p as int) == cs@.take(p as int));
            assert(cs@.subrange(p as int, cs@.len() as int) == cs@.skip(p as int));
        }
        r
    }

    /// Types `c` at the cursor and moves the cursor past it.
    pub fn enter_char(&mut self, c: char)
        ensures
            typed(*old(self), *final(self), c),
    {
        self.input = self.insert_at_cursor(c);
        let len = self.input_length();
        if self.character_index < len {
            self.character_index += 1;
        }
        if c == '\n' && self.cursor_line < usize::MAX {
            self.cursor_line = self.cursor_line + 1;
        }
    }

    /// Types a line break at the cursor and moves to the next line.
    pub fn enter_newline(&mut self)
        requires
            old(self).character_index < usize::MAX,
            old(self).cursor_line < usize::MAX,
        ensures
            new_line(*old(self), *final(self)),
    {
        self.input = self.insert_at_cursor('\n');
        self.character_index += 1;
        self.cursor_line += 1;
    }

    /// Deletes char before cursor (backspace behavior)
    pub fn delete_char(&mut self)
        requires
            old(self).character_index > 0 ==> old(self).input@.len() > 0,
        ensures
            deleted(*old(self), *final(self)),
    {
        if self.character_index == 0 {
            return;
        }
        let cs = chars_of(self.input.as_str());
        let p = if self.character_index < cs.len() {
            self.character_index
        } else {
            cs.len()
        };
        let deleted = cs[p - 1];
        let mut r = String::new();
        push_range(&mut r, &cs, 0, p - 1);
        push_range(&mut r, &cs, p, cs.len());
        proof {
            assert(cs@.subrange(0, p - 1) == cs@.take(p - 1));
            assert(cs@.subrange(p as int, cs@.len() as int) == cs@.skip(p as int));
        }
        self.input = r;
        self.character_index -= 1;

        if deleted == '\n' && self.cursor_line > 0 {
            self.cursor_line -= 1;
        }
    }

    /// Takes the input as a command: empties the editor, resets the scroll
    /// and history position, and either records a syntax error right away or
    /// hands back the command to send.
    pub fn submit_message(&mut self) -> (r: Submission)
        ensures
            submitted(*old(self), *final(self), r),
    {
        if self.input.as_str().is_empty() {
            return Submission::Nothing;
        }
        let mut cmd = String::new();
        std::mem::swap(&mut cmd, &mut self.input);
        self.character_index = 0;
        self.cursor_line = 0;
        self.manual_scroll = 0;
        self.history_index = None;

        match prepare_command(cmd.as_str()) {
            Ok(command) => Submission::Send { input: cmd, command },
            Err(rendered) => {
                self.messages.push(QueryEntry { input: cmd, rendered });
                proof {
                    assert(self.messages@.drop_last() =~= old(self).messages@);
                }
                Submission::Recorded
            },
        }
    }

    /// Records a sent command and the server's reply (or the error that
    /// stands for it) as a new entry.
    pub fn record_reply(&mut self, input: String, reply: Result<ServerResponse, String>)
        requires
            reply matches Ok(resp) ==> displayable(resp@),
        ensures
            recorded(*old(self), *final(self), input, reply),
    {
        let rendered = match reply {
            Ok(resp) => self.handle_response(&resp),
            Err(err) => err,
        };
        self.messages.push(QueryEntry { input, rendered });
        proof {
            assert(self.messages@.drop_last() =~= old(self).messages@);
        }
    }

    /// Process a successful server response: update metadata, show error popup or format output.
    fn handle_response(&mut self, resp: &ServerResponse) -> (r: String)
        requires
            displayable(resp@),
        ensures
            final(self).db_hash@ == meta_of_response(resp@).db_hash,
            final(self).db_name@ == meta_of_response(resp@).db_name,
            final(self).branch@ == meta_of_response(resp@).branch,
            match resp@ {
                ResponseV::Error { kind, message, .. } => {
                    &&& final(self).error_popup matches Some((k, m)) && k@ == kind && m@
                        == message
                    &&& r@ == Seq::<char>::empty()
                },
                _ => {
                    &&& final(self).error_popup == old(self).error_popup
                    &&& r@ == formatted(resp@)
                },
            },
            final(self).input == old(self).input,
            final(self).character_index == old(self).character_index,
            final(self).cursor_line == old(self).cursor_line,
            final(self).history_index == old(self).history_index,
            final(self).manual_scroll == old(self).manual_scroll,
            final(self).mode == old(self).mode,
            final(self).messages == old(self).messages,
            final(self).connection == old(self).connection,
            final(self).server_addr == old(self).server_addr,
    {
        let meta = resp.meta();
        self.db_hash = meta.db_hash.clone();
        self.db_name = meta.db_name.clone();
        self.branch = meta.branch.clone();

        if let Some((kind, msg)) = error_parts(resp) {
            self.error_popup = Some((owned(kind), owned(msg)));
            String::new()
        } else {
            format_response(resp)
        }
    }

    /// Loads history entry `idx` into the editor, cursor at its end.
    fn set_input_from_history(&mut self, idx: usize)
        requires
            idx < old(self).messages@.len(),
        ensures
            loaded(*old(self), *final(self), idx as int),
            final(self).history_index == old(self).history_index,
    {
        self.input = self.messages[idx].input.clone();
        self.character_index = self.input_length();
        self.cursor_line = count_line_feeds(self.input.as_str());
    }

    /// Recalls the previous (older) history entry.
    pub fn history_older(&mut self)
        requires
            old(self).history_index matches Some(i) ==> i <= old(self).messages@.len(),
        ensures
            went_older(*old(self), *final(self)),
    {
        if self.messages.len() == 0 {
            return;
        }
        let next = match self.history_index {
            None => self.messages.len() - 1,
            Some(0) => 0,
            Some(i) => i - 1,
        };
        self.history_index = Some(next);
        self.set_input_from_history(next);
    }

    /// Recalls the next (newer) history entry, or returns to an empty input
    /// past the newest one.
    pub fn history_newer(&mut self)
        requires
            old(self).history_index != Some(usize::MAX),
        ensures
            went_newer(*old(self), *final(self)),
    {
        match self.history_index {
            None => {},
            Some(i) => {
                if i + 1 >= self.messages.len() {
                    self.history_index = None;
                    self.input = String::new();
                    self.character_index = 0;
                    self.cursor_line = 0;
                } else {
                    self.history_index = Some(i + 1);
                    self.set_input_from_history(i + 1);
                }
            },
        }
    }

    /// The text `y` copies: the last result and a line break, if there is one.
    pub fn copy_last_result(&self) -> (r: Option<String>)
        ensures
            self.messages@.len() == 0 ==> r is None,
            self.messages@.len() > 0 ==> (r matches Some(t) && t@
                == self.messages@.last().rendered@ + "\n"@),
    {
        if self.messages.len() > 0 {
            let entry = &self.messages[self.messages.len() - 1];
            Some(concat(entry.rendered.as_str(), "\n"))
        } else {
            None
        }
    }

    /// The text Ctrl+Y copies: the input, unless it is empty.
    pub fn copy_input(&self) -> (r: Option<String>)
        ensures
            self.input@.len() == 0 ==> r is None,
            self.input@.len() > 0 ==> (r matches Some(t) && t@ == self.input@),
    {
        if !self.input.as_str().is_empty() {
            Some(self.input.clone())
        } else {
            None
        }
    }

    // Scrolling

    /// Scrolls one line up into the history.
    pub fn scroll_up(&mut self)
        ensures
            scrolled_up(*old(self), *final(self)),
    {
        if self.manual_scroll > i32::MIN {
            self.manual_scroll = self.manual_scroll - 1;
        }
    }

    /// Scrolls one line down, never past the latest output.
    pub fn scroll_down(&mut self)
        ensures
            scrolled_down(*old(self), *final(self)),
    {
        if self.manual_scroll < 0 {
            self.manual_scroll = self.manual_scroll + 1;
        } else {
            self.manual_scroll = 0;
        }
    }

    /// Lines in the results pane: each entry takes its prompt line(s), a
    /// blank line, its output (at least one line) and a separator, but the
    /// last has no separator.
    pub fn total_content_lines(&self) -> (r: u16)
        ensures
            r == content_lines(self.messages@),
    {
        let mut sum: usize = 0;
        let mut i: usize = 0;
        while i < self.messages.len()
            invariant
                i <= self.messages.len(),
                sum == if lines_sum(self.messages@.take(i as int)) <= usize::MAX {
                    lines_sum(self.messages@.take(i as int))
                } else {
                    usize::MAX as nat
                },
            decreases self.messages.len() - i,
        {
            let entry = &self.messages[i];
            let input_lines = count_lines(entry.input.as_str()).saturating_sub(1);
            let out_lines = count_lines(entry.rendered.as_str());
            let out_lines = if out_lines > 1 {
                out_lines
            } else {
                1
            };
            let lines = 3usize.saturating_add(input_lines).saturating_add(out_lines);
            proof {
                let t = self.messages@.take(i + 1);
                assert(t.drop_last() == self.messages@.take(i as int));
                assert(t.last() == *entry);
            }
            sum = sum.saturating_add(lines);
            i = i + 1;
        }
        proof {
            assert(self.messages@.take(self.messages@.len() as int) == self.messages@);
        }
        let total = sum.saturating_sub(1);
        total as u16
    }

    /// The scroll position that follows the latest output in a pane of
    /// `area_height` rows (two of which are its border).
    pub fn auto_scroll(&self, area_height: u16) -> (r: u16)
        ensures
            r == u16_minus(content_lines(self.messages@), u16_minus(area_height, 2)),
    {
        let total_lines = self.total_content_lines();
        let visible_lines = area_height.saturating_sub(2);
        total_lines.saturating_sub(visible_lines)
    }

    /// Calculates scroll position: auto-follows latest message with manual offset
    pub fn calculate_scroll_offset(&self, area_height: u16) -> (r: u16)
        requires
            u16_minus(content_lines(self.messages@), u16_minus(area_height, 2)) + self.manual_scroll
                <= i32::MAX,
        ensures
            ({
                let v = u16_minus(content_lines(self.messages@), u16_minus(area_height, 2))
                    + self.manual_scroll;
                r == if 0 <= v <= u16::MAX {
                    v as u16
                } else {
                    0
                }
            }),
    {
        let auto_scroll = self.auto_scroll(area_height);
        self.apply_manual_scroll(auto_scroll)
    }

    /// The auto-scroll position moved by the manual offset, clamped at 0;
    /// 0 when it does not fit a `u16`.
    fn apply_manual_scroll(&self, base: u16) -> (r: u16)
        requires
            base + self.manual_scroll <= i32::MAX,
        ensures
            ({
                let v = base + self.manual_scroll;
                r == if 0 <= v <= u16::MAX {
                    v as u16
                } else {
                    0
                }
            }),
    {
        let v = (base as i32) + self.manual_scroll;
        if v < 0 {
            0
        } else if v > 65535 {
            0
        } else {
            v as u16
        }
    }
}

/// Build the full query results text for display.
pub fn build_query_results<C>(repl: &Repl<C>) -> (r: String)
    ensures
        r@ == query_results(repl.messages@),
{
    let ghost es = repl.messages@;
    let ghost sep = "\n"@;
    let mut out = String::new();
    let mut i: usize = 0;
    while i < repl.messages.len()
        invariant
            i <= repl.messages.len(),
            es == repl.messages@,
            sep == "\n"@,
            out@ == join(Seq::new(i as nat, |k: int| entry_text(es[k])), sep),
        decreases repl.messages.len() - i,
    {
        let entry = &repl.messages[i];
        let ghost parts = Seq::new(i as nat, |k: int| entry_text(es[k]));
        let ghost before = out@;
        proof {
            lemma_join_push(parts, sep, entry_text(*entry));
            assert(Seq::new((i + 1) as nat, |k: int| entry_text(es[k])) =~= parts.push(
                entry_text(*entry),
            ));
        }
        if i > 0 {
            out.push('\n');
        }
        out.append("sakura=> ");
        out.append(entry.input.as_str());
        out.append("\n\n");
        out.append(entry.rendered.as_str());
        out.append("\n");
        proof {
            if i > 0 {
                assert(out@ =~= before + sep + entry_text(*entry)) by {
                    reveal_strlit("\n");
                }
            } else {
                assert(out@ =~= entry_text(*entry));
            }
        }
        i = i + 1;
    }
    proof {
        assert(Seq::new(i as nat, |k: int| entry_text(es[k])) =~= Seq::new(
            es.len(),
            |k: int| entry_text(es[k]),
        ));
    }
    out
}

// ---------------------------------------------------------------------------
// Laws of the session
// ---------------------------------------------------------------------------

/// Deleting right after typing a character gives back the whole editor:
/// input, cursor and line counter (short of the counter's largest value).
pub proof fn law_delete_undoes_typing<C>(a: Repl<C>, b: Repl<C>, c: Repl<C>, ch: char)
    requires
        a.character_index <= a.input@.len() < usize::MAX,
        a.cursor_line < usize::MAX,
        typed(a, b, ch),
        deleted(b, c),
    ensures
        c.input@ == a.input@,
        c.character_index == a.character_index,
        c.cursor_line == a.cursor_line,
        c.same_session(a),
        c.manual_scroll == a.manual_scroll,
        c.history_index == a.history_index,
{
    let p = a.character_index as int;
    assert(cursor_at(a.character_index, a.input@) == p);
    assert(b.input@.len() == a.input@.len() + 1);
    assert(cursor_at(b.character_index, b.input@) == p + 1);
    assert(b.input@[p] == ch);
    assert(remove_at(b.input@, p) =~= a.input@);
}

/// Deleting right after starting a new line gives back the whole editor:
/// input, cursor and line counter.
pub proof fn law_delete_undoes_new_line<C>(a: Repl<C>, b: Repl<C>, c: Repl<C>)
    requires
        a.character_index <= a.input@.len(),
        new_line(a, b),
        deleted(b, c),
    ensures
        c.input@ == a.input@,
        c.character_index == a.character_index,
        c.cursor_line == a.cursor_line,
        c.same_session(a),
        c.manual_scroll == a.manual_scroll,
        c.history_index == a.history_index,
{
    let p = a.character_index as int;
    assert(cursor_at(a.character_index, a.input@) == p);
    assert(b.input@.len() == a.input@.len() + 1);
    assert(cursor_at(b.character_index, b.input@) == p + 1);
    assert(b.input@[p] == '\n');
    assert(remove_at(b.input@, p) =~= a.input@);
}

/// Every editing step keeps the cursor within the input (at most just past
/// its last character).
pub proof fn law_editing_keeps_cursor_in_input<C>(a: Repl<C>, b: Repl<C>, ch: char, s: Submission)
    requires
        a.character_index <= a.input@.len(),
    ensures
        moved_left(a, b) ==> b.character_index <= b.input@.len(),
        moved_right(a, b) ==> b.character_index <= b.input@.len(),
        typed(a, b, ch) ==> b.character_index <= b.input@.len(),
        new_line(a, b) ==> b.character_index <= b.input@.len(),
        deleted(a, b) ==> b.character_index <= b.input@.len(),
        went_older(a, b) ==> b.character_index <= b.input@.len(),
        went_newer(a, b) ==> b.character_index <= b.input@.len(),
        submitted(a, b, s) ==> b.character_index <= b.input@.len(),
{
}

/// One more character of prefix adds its line feed, if it is one.
proof fn lemma_count_take_next(s: Seq<char>, k: int)
    requires
        0 <= k < s.len(),
    ensures
        count_char(s.take(k + 1), '\n') == count_char(s.take(k), '\n') + if s[k] == '\n' {
            1nat
        } else {
            0nat
        },
{
    assert(s.take(k + 1).drop_last() == s.take(k));
}

/// Inserting `c` at `p`: the text is one longer, and its first `p + 1`
/// characters hold the line feeds of `t`'s first `p` and `c`.
proof fn lemma_count_after_insert(t: Seq<char>, p: int, c: char)
    requires
        0 <= p <= t.len(),
    ensures
        insert_at(t, p, c).len() == t.len() + 1,
        count_char(insert_at(t, p, c).take(p + 1), '\n') == count_char(t.take(p), '\n') + if c
            == '\n' {
            1nat
        } else {
            0nat
        },
{
    let u = insert_at(t, p, c);
    assert(u.take(p + 1) =~= t.take(p).push(c));
    assert(u.take(p + 1).drop_last() == t.take(p));
}

/// The line counter is the line the cursor is on: when it counts the line
/// feeds before the cursor, it still does after every editing step, history
/// recall and submission (short of the counter's largest value).
pub proof fn law_line_counter_follows_cursor<C>(a: Repl<C>, b: Repl<C>, ch: char, s: Submission)
    requires
        a.character_index <= a.input@.len() < usize::MAX,
        a.cursor_line == line_of_cursor(a.input@, a.character_index),
        a.cursor_line < usize::MAX,
    ensures
        moved_left(a, b) ==> b.cursor_line == line_of_cursor(b.input@, b.character_index),
        moved_right(a, b) ==> b.cursor_line == line_of_cursor(b.input@, b.character_index),
        typed(a, b, ch) ==> b.cursor_line == line_of_cursor(b.input@, b.character_index),
        new_line(a, b) ==> b.cursor_line == line_of_cursor(b.input@, b.character_index),
        deleted(a, b) ==> b.cursor_line == line_of_cursor(b.input@, b.character_index),
        went_older(a, b) ==> b.cursor_line == line_of_cursor(b.input@, b.character_index),
        went_newer(a, b) ==> b.cursor_line == line_of_cursor(b.input@, b.character_index),
        submitted(a, b, s) ==> b.cursor_line == line_of_cursor(b.input@, b.character_index),
{
    let t = a.input@;
    let p = a.character_index as int;
    assert(cursor_at(a.character_index, t) == p);
    if moved_left(a, b) && p > 0 {
        lemma_count_take_next(t, p - 1);
    }
    if moved_right(a, b) && p < t.len() {
        lemma_count_take_next(t, p);
        assert(b.character_index == p + 1);
        assert(cursor_at(b.character_index, b.input@) == p + 1);
    }
    if typed(a, b, ch) {
        lemma_count_after_insert(t, p, ch);
        assert(b.character_index == p + 1);
        assert(cursor_at(b.character_index, b.input@) == p + 1);
    }
    if new_line(a, b) {
        lemma_count_after_insert(t, p, '\n');
        assert(b.character_index == p + 1);
        assert(cursor_at(b.character_index, b.input@) == p + 1);
    }
    if deleted(a, b) && p > 0 {
        lemma_count_take_next(t, p - 1);
        assert(remove_at(t, p - 1).take(p - 1) =~= t.take(p - 1));
    }
    if went_older(a, b) && a.messages@.len() > 0 {
        assert(b.input@.take(b.input@.len() as int) == b.input@);
    }
    if went_newer(a, b) && a.history_index is Some {
        assert(b.input@.take(b.input@.len() as int) == b.input@);
        assert(Seq::<char>::empty().take(0) =~= Seq::<char>::empty());
    }
    if submitted(a, b, s) && a.input@.len() > 0 {
        assert(b.input@.take(0) =~= Seq::<char>::empty());
    }
}

/// Scrolling down right after scrolling up returns to the same offset,
/// unless the offset was already at its lowest value or below the latest
/// output's position.
pub proof fn law_scroll_down_undoes_scroll_up<C>(a: Repl<C>, b: Repl<C>, c: Repl<C>)
    requires
        i32::MIN < a.manual_scroll <= 0,
        scrolled_up(a, b),
        scrolled_down(b, c),
    ensures
        c.manual_scroll == a.manual_scroll,
        same_but_scroll(a, c),
{
}

/// The view never scrolls past the latest output: scrolling down leaves the
/// offset at or above it, scrolling up and submitting keep it there.
pub proof fn law_scroll_offset_never_positive<C>(a: Repl<C>, b: Repl<C>, s: Submission)
    ensures
        scrolled_down(a, b) ==> b.manual_scroll <= 0,
        a.manual_scroll <= 0 && scrolled_up(a, b) ==> b.manual_scroll <= 0,
        a.manual_scroll <= 0 && submitted(a, b, s) ==> b.manual_scroll <= 0,
{
}

/// The reply to a submitted command is recorded as one new entry under the
/// input that was submitted, after all earlier entries, with the editor left
/// empty.
pub proof fn law_reply_recorded_under_submitted_input<C>(
    a: Repl<C>,
    b: Repl<C>,
    c: Repl<C>,
    s: Submission,
    reply: Result<ServerResponse, String>,
)
    requires
        submitted(a, b, s),
        s is Send,
        recorded(b, c, s->input, reply),
    ensures
        c.messages@.len() == a.messages@.len() + 1,
        c.messages@.drop_last() == a.messages@,
        c.messages@.last().input == a.input,
        c.input@ == Seq::<char>::empty(),
        c.character_index == 0,
        c.history_index is None,
{
    assert(a.input@.len() > 0);
    match prepared(a.input@) {
        Err(msg) => {},
        Ok(cmd) => {},
    }
}

/// Recalling the next entry right after recalling the previous one comes
/// back to the entry the history stood at, with its text in the editor.
pub proof fn law_history_newer_undoes_older<C>(a: Repl<C>, b: Repl<C>, c: Repl<C>, i: usize)
    requires
        a.history_index == Some(i),
        0 < i < a.messages@.len(),
        went_older(a, b),
        went_newer(b, c),
    ensures
        c.history_index == a.history_index,
        c.input == a.messages@[i as int].input,
        c.character_index == a.messages@[i as int].input@.len(),
        c.same_session(a),
        c.manual_scroll == a.manual_scroll,
{
}

/// The input just submitted is the first one history recall brings back,
/// whether it was refused before sending or its reply was recorded.
pub proof fn law_submitted_input_recalled_first<C>(
    a: Repl<C>,
    b: Repl<C>,
    c: Repl<C>,
    d: Repl<C>,
    s: Submission,
    reply: Result<ServerResponse, String>,
)
    requires
        submitted(a, b, s),
    ensures
        s is Recorded && went_older(b, d) ==> d.input == a.input && d.history_index == Some(
            a.messages@.len() as usize,
        ),
        s is Send && recorded(b, c, s->input, reply) && went_older(c, d) ==> d.input == a.input
            && d.history_index == Some(a.messages@.len() as usize),
{
    if a.input@.len() > 0 {
        match prepared(a.input@) {
            Err(msg) => {},
            Ok(cmd) => {},
        }
    }
}

/// A command handed out for sending is what the reader accepts and a single
/// line: the submitted input with its whitespace collapsed and the shortcut
/// rewritten, never one the reader refused.
pub proof fn law_sent_command_is_one_well_formed_line<C>(a: Repl<C>, b: Repl<C>, s: Submission)
    requires
        submitted(a, b, s),
        s is Send,
    ensures
        s->command@ == rewritten(collapse_whitespace(a.input@)),
        !(classification(collapse_whitespace(a.input@)) is MalformedSexp),
        !s->command@.contains('\n'),
{
    let c = collapse_whitespace(a.input@);
    lemma_collapsed_is_one_line(a.input@);
    reveal_strlit("(drl (Base sakura:attribute))");
    let q = schema_query();
    assert forall|i: int| 0 <= i < q.len() implies q[i] != '\n' by {}
    match classification(c) {
        ClassificationV::MalformedSexp(e) => {},
        _ => {},
    }
}

/// Whatever the reader accepts is sent: unless the reader refuses the input
/// with its whitespace collapsed (and trimmed), preparing it gives the
/// collapsed input to send, with the shortcut rewritten; envelopes of unknown
/// tags and legacy input included. When the reader refuses it, the error is
/// the reader's message after `Syntax error: `.
pub proof fn law_accepted_input_is_sent(input: Seq<char>)
    ensures
        trim(collapse_whitespace(input)) == schema_shortcut() || sexp_read(
            trim(collapse_whitespace(input)),
        ) is Ok ==> prepared(input) == Ok::<Seq<char>, Seq<char>>(
            rewritten(collapse_whitespace(input)),
        ),
        trim(collapse_whitespace(input)) == schema_shortcut() || sexp_read(
            trim(collapse_whitespace(input)),
        ) is Ok ==> (prepared(input) is Ok && (trim(collapse_whitespace(input))
            != schema_shortcut() ==> prepared(input)->Ok_0 == collapse_whitespace(input))),
        trim(collapse_whitespace(input)) != schema_shortcut() && sexp_read(
            trim(collapse_whitespace(input)),
        ) is Err ==> prepared(input) == Err::<Seq<char>, Seq<char>>(
            "Syntax error: "@ + sexp_read(trim(collapse_whitespace(input)))->Err_0,
        ),
{
    let c = collapse_whitespace(input);
    let t = trim(c);
    if t != schema_shortcut() {
        match sexp_read(t) {
            Err(e) => {},
            Ok(tree) => {
                match tree {
                    TreeV::List(items, _) => {
                        if items.len() > 0 {
                            match items[0] {
                                TreeV::Atom(AtomV::Str(tag, _)) => match tag_named(tag) {
                                    Some(g) => {},
                                    None => {},
                                },
                                _ => {},
                            }
                        }
                    },
                    _ => {},
                }
            },
        }
    }
}

/// Whether a text ends with a line feed.
pub open spec fn ends_with_newline(s: Seq<char>) -> bool {
    s.len() > 0 && s.last() == '\n'
}

/// Line feeds in a concatenation are those of both parts.
proof fn lemma_count_char_concat(a: Seq<char>, b: Seq<char>, c: char)
    ensures
        count_char(a + b, c) == count_char(a, c) + count_char(b, c),
    decreases b.len(),
{
    if b.len() > 0 {
        assert((a + b).drop_last() == a + b.drop_last());
        lemma_count_char_concat(a, b.drop_last(), c);
    } else {
        assert(a + b == a);
    }
}

/// A text without `c` counts none.
proof fn lemma_count_char_absent(s: Seq<char>, c: char)
    requires
        !s.contains(c),
    ensures
        count_char(s, c) == 0,
    decreases s.len(),
{
    if s.len() > 0 {
        assert(!s.drop_last().contains(c)) by {
            if s.drop_last().contains(c) {
                let k = choose|k: int| 0 <= k < s.drop_last().len() && s.drop_last()[k] == c;
                assert(s[k] == c);
            }
        }
        assert(s[s.len() - 1] == s.last());
        lemma_count_char_absent(s.drop_last(), c);
    }
}

/// One and two line feeds count as such.
proof fn lemma_count_line_feeds(s: Seq<char>)
    requires
        s == seq!['\n'] || s == seq!['\n', '\n'],
    ensures
        count_char(s, '\n') == s.len(),
{
    let one = seq!['\n'];
    assert(one.drop_last() =~= Seq::<char>::empty());
    assert(one.last() == '\n');
    assert(count_char(one.drop_last(), '\n') == 0);
    assert(count_char(one, '\n') == 1);
    if s.len() == 2 {
        assert(s.drop_last() =~= one);
    }
}

/// An entry's text has one line feed fewer than the lines it is counted for.
proof fn lemma_entry_text_lines(e: QueryEntry)
    requires
        !ends_with_newline(e.input@),
        !ends_with_newline(e.rendered@),
    ensures
        count_char(entry_text(e), '\n') + 1 == entry_lines(e),
        ends_with_newline(entry_text(e)),
{
    reveal_strlit("sakura=> ");
    reveal_strlit("\n\n");
    reveal_strlit("\n");
    let p = "sakura=> "@;
    let nn = "\n\n"@;
    let n = "\n"@;
    assert(nn =~= seq!['\n', '\n']);
    assert(n =~= seq!['\n']);
    assert(!p.contains('\n')) by {
        assert forall|k: int| 0 <= k < p.len() implies p[k] != '\n' by {}
    }
    lemma_count_char_absent(p, '\n');
    lemma_count_line_feeds(nn);
    lemma_count_line_feeds(n);
    lemma_count_char_concat(p, e.input@, '\n');
    lemma_count_char_concat(p + e.input@, nn, '\n');
    lemma_count_char_concat(p + e.input@ + nn, e.rendered@, '\n');
    lemma_count_char_concat(p + e.input@ + nn + e.rendered@, n, '\n');
    if e.input@.len() > 0 {
        assert(e.input@.drop_last() + seq![e.input@.last()] == e.input@);
    }
    let t = entry_text(e);
    assert(t.last() == '\n');
}

/// The results pane text has one line feed fewer than the lines counted for
/// its entries, and ends with a line feed when it has any entry.
proof fn lemma_results_lines(es: Seq<QueryEntry>)
    requires
        forall|i: int|
            0 <= i < es.len() ==> !ends_with_newline(#[trigger] es[i].input@)
                && !ends_with_newline(es[i].rendered@),
    ensures
        es.len() > 0 ==> count_char(query_results(es), '\n') + 1 == lines_sum(es),
        es.len() > 0 ==> ends_with_newline(query_results(es)),
        es.len() == 0 ==> query_results(es) == Seq::<char>::empty(),
    decreases es.len(),
{
    let parts = Seq::new(es.len(), |i: int| entry_text(es[i]));
    if es.len() == 0 {
        return;
    }
    let d = es.drop_last();
    assert forall|i: int|
        0 <= i < d.len() implies !ends_with_newline(#[trigger] d[i].input@)
        && !ends_with_newline(d[i].rendered@) by {
        assert(d[i] == es[i]);
    }
    lemma_results_lines(d);
    assert(es.last() == es[es.len() - 1]);
    lemma_entry_text_lines(es.last());
    assert(parts.drop_last() =~= Seq::new(d.len(), |i: int| entry_text(d[i])));
    assert(parts.last() == entry_text(es.last()));
    if es.len() == 1 {
        assert(query_results(es) == entry_text(es[0]));
        assert(lines_sum(d) == 0);
    } else {
        reveal_strlit("\n");
        let n = "\n"@;
        assert(n =~= seq!['\n']);
        assert(query_results(es) == query_results(d) + n + entry_text(es.last()));
        lemma_count_line_feeds(n);
        lemma_count_char_concat(query_results(d), n, '\n');
        lemma_count_char_concat(query_results(d) + n, entry_text(es.last()), '\n');
        let r = query_results(es);
        assert(r.last() == entry_text(es.last()).last());
    }
}

/// The line count of the results pane is the number of lines of its text,
/// as long as no query and no result ends with a line feed (such a line feed
/// gives the text a line the count does not know of): exactly so while the
/// text has at most `u16::MAX` lines, and cut to 16 bits beyond.
pub proof fn law_content_lines_match_results(es: Seq<QueryEntry>)
    requires
        forall|i: int|
            0 <= i < es.len() ==> !ends_with_newline(#[trigger] es[i].input@)
                && !ends_with_newline(es[i].rendered@),
        line_count(query_results(es)) < usize::MAX,
    ensures
        content_lines(es) == line_count(query_results(es)) as u16,
        line_count(query_results(es)) <= u16::MAX ==> content_lines(es) as nat == line_count(
            query_results(es),
        ),
{
    lemma_results_lines(es);
    if es.len() == 0 {
        assert(lines_sum(es) == 0);
    } else {
        let q = query_results(es);
        assert(line_count(q) == count_char(q, '\n'));
        assert(lines_sum(es) == line_count(q) + 1);
    }
}

} // verus!
