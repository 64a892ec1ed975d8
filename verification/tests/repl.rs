use sakura_repl::connection::{ResponseMeta, ServerResponse};
use sakura_repl::repl::{
    after_retry, build_query_results, first_attempt, prepare_command, InputMode, QueryEntry, Repl,
    Retry, FirstAttempt, Submission,
};

fn session() -> Repl<()> {
    Repl::new(None, "127.0.0.1:7777".to_string())
}

fn entry(input: &str, rendered: &str) -> QueryEntry {
    QueryEntry { input: input.to_string(), rendered: rendered.to_string() }
}

fn meta(h: &str, n: &str, b: &str) -> ResponseMeta {
    ResponseMeta { db_hash: h.to_string(), db_name: n.to_string(), branch: b.to_string() }
}

fn type_text(r: &mut Repl<()>, s: &str) {
    for c in s.chars() {
        r.enter_char(c);
    }
}

#[test]
fn fresh_session() {
    let r = session();
    assert_eq!(r.input, "");
    assert_eq!(r.character_index, 0);
    assert_eq!(r.mode, InputMode::Normal);
    assert!(r.messages.is_empty());
    assert_eq!(r.manual_scroll, 0);
    assert!(r.connection.is_none());
    assert_eq!(r.server_addr, "127.0.0.1:7777");
    assert_eq!(r.db_hash, "--------");
    assert_eq!(r.db_name, "?");
    assert_eq!(r.branch, "--");
    assert_eq!(r.history_index, None);
    assert_eq!(r.cursor_line, 0);
    assert!(r.error_popup.is_none());
}

#[test]
fn typing_and_moving_the_cursor() {
    let mut r = session();
    type_text(&mut r, "ab");
    assert_eq!(r.input, "ab");
    assert_eq!(r.character_index, 2);
    r.move_cursor_left();
    r.enter_char('é');
    assert_eq!(r.input, "aéb");
    assert_eq!(r.character_index, 2);
    r.move_cursor_right();
    r.move_cursor_right();
    assert_eq!(r.character_index, 3);
    r.move_cursor_left();
    r.move_cursor_left();
    r.move_cursor_left();
    r.move_cursor_left();
    assert_eq!(r.character_index, 0);
    r.enter_char('中');
    assert_eq!(r.input, "中aéb");
    assert_eq!(r.character_index, 1);
}

#[test]
fn cursor_beyond_the_end_types_at_the_end() {
    let mut r = session();
    type_text(&mut r, "ab");
    r.character_index = 10;
    r.enter_char('c');
    assert_eq!(r.input, "abc");
    // The cursor index is left where it was: it already points past the end.
    assert_eq!(r.character_index, 10);
}

#[test]
fn backspace_undoes_typing() {
    let mut r = session();
    type_text(&mut r, "héllo");
    r.move_cursor_left();
    r.move_cursor_left();
    r.enter_char('X');
    assert_eq!(r.input, "hélXlo");
    r.delete_char();
    assert_eq!(r.input, "héllo");
    assert_eq!(r.character_index, 3);
    r.delete_char();
    assert_eq!(r.input, "hélo");
    assert_eq!(r.character_index, 2);
}

#[test]
fn backspace_at_start_does_nothing() {
    let mut r = session();
    type_text(&mut r, "ab");
    r.character_index = 0;
    r.delete_char();
    assert_eq!(r.input, "ab");
    assert_eq!(r.character_index, 0);
}

#[test]
fn new_lines_and_their_removal() {
    let mut r = session();
    type_text(&mut r, "ab");
    r.move_cursor_left();
    r.enter_newline();
    assert_eq!(r.input, "a\nb");
    assert_eq!(r.character_index, 2);
    assert_eq!(r.cursor_line, 1);
    r.delete_char();
    assert_eq!(r.input, "ab");
    assert_eq!(r.character_index, 1);
    assert_eq!(r.cursor_line, 0);
}

#[test]
fn empty_input_submits_nothing() {
    let mut r = session();
    assert!(matches!(r.submit_message(), Submission::Nothing));
    assert!(r.messages.is_empty());
}

#[test]
fn malformed_input_is_recorded_with_its_syntax_error() {
    let mut r = session();
    type_text(&mut r, "(broken");
    r.manual_scroll = -3;
    assert!(matches!(r.submit_message(), Submission::Recorded));
    assert_eq!(r.input, "");
    assert_eq!(r.character_index, 0);
    assert_eq!(r.manual_scroll, 0);
    assert_eq!(r.messages.len(), 1);
    assert_eq!(r.messages[0].input, "(broken");
    assert_eq!(r.messages[0].rendered, "Syntax error: 1:6: unexpected eof");
}

#[test]
fn schema_shortcut_is_sent_rewritten() {
    let mut r = session();
    type_text(&mut r, "(schema)");
    match r.submit_message() {
        Submission::Send { input, command } => {
            assert_eq!(input, "(schema)");
            assert_eq!(command, "(drl (Base sakura:attribute))");
        }
        _ => panic!("expected a command to send"),
    }
    assert!(r.messages.is_empty());
    assert_eq!(r.input, "");
}

#[test]
fn multiline_input_is_sent_on_one_line() {
    let mut r = session();
    type_text(&mut r, "(dcl");
    r.enter_newline();
    type_text(&mut r, "   GetHead)");
    r.history_index = Some(0);
    match r.submit_message() {
        Submission::Send { input, command } => {
            assert_eq!(input, "(dcl\n   GetHead)");
            assert_eq!(command, "(dcl GetHead)");
        }
        _ => panic!("expected a command to send"),
    }
    assert_eq!(r.cursor_line, 0);
    assert_eq!(r.history_index, None);
}

#[test]
fn prepared_commands() {
    assert_eq!(prepare_command("  (schema)  "), Ok("(drl (Base sakura:attribute))".to_string()));
    assert_eq!(prepare_command("(ddl\t(CreateDatabase \"x\"))"), Ok("(ddl (CreateDatabase \"x\"))".to_string()));
    assert_eq!(prepare_command("GetHead"), Ok("GetHead".to_string()));
    assert_eq!(prepare_command("(a))"), Err("Syntax error: 1:3: unrecognized post-s-expression data".to_string()));
    assert_eq!(prepare_command("(a)\n  b"), Err("Syntax error: 1:4: unrecognized post-s-expression data".to_string()));
}

#[test]
fn ok_reply_is_recorded_and_updates_metadata() {
    let mut r = session();
    let reply = ServerResponse::Success { message: "done".to_string(), meta: meta("h1", "d1", "b1") };
    r.record_reply("(dcl GetHead)".to_string(), Ok(reply));
    assert_eq!(r.messages.len(), 1);
    assert_eq!(r.messages[0].input, "(dcl GetHead)");
    assert_eq!(r.messages[0].rendered, "OK  done");
    assert_eq!(r.db_hash, "h1");
    assert_eq!(r.db_name, "d1");
    assert_eq!(r.branch, "b1");
    assert!(r.error_popup.is_none());
}

#[test]
fn error_reply_opens_the_popup() {
    let mut r = session();
    let reply = ServerResponse::Error {
        kind: "TypeError".to_string(),
        message: "bad domain".to_string(),
        meta: meta("h2", "d2", "b2"),
    };
    r.record_reply("(drl x)".to_string(), Ok(reply));
    assert_eq!(r.messages[0].rendered, "");
    assert_eq!(r.error_popup, Some(("TypeError".to_string(), "bad domain".to_string())));
    assert_eq!(r.db_name, "d2");
}

#[test]
fn failed_send_is_recorded_as_its_error() {
    let mut r = session();
    r.record_reply("(dcl GetHead)".to_string(), Err("not connected".to_string()));
    assert_eq!(r.messages[0].rendered, "not connected");
    assert_eq!(r.db_name, "?");
}

#[test]
fn attempts_and_retries() {
    assert_eq!(first_attempt(FirstAttempt::NotConnected).unwrap_err(), "not connected");
    assert_eq!(first_attempt(FirstAttempt::Failed("broken pipe".to_string())).unwrap_err(), "broken pipe");
    let ok = ServerResponse::Success { message: "m".to_string(), meta: meta("", "", "--") };
    assert!(matches!(first_attempt(FirstAttempt::Replied(ok)), Ok(ServerResponse::Success { .. })));

    // A failed reconnect drops the connection.
    let mut conn: Option<u32> = Some(1);
    assert_eq!(
        after_retry(&mut conn, "/tmp/s.sock", "not connected", Retry::ConnectFailed("No such file".to_string()))
            .unwrap_err(),
        "ERROR: server unreachable (/tmp/s.sock): No such file"
    );
    assert_eq!(conn, None);
    // The fresh connection is kept whether its send failed or not.
    assert_eq!(
        after_retry(&mut conn, "a:1", "eof", Retry::SendFailed(2, "missing tag".to_string())).unwrap_err(),
        "ERROR: failed to parse server response: eof (retry error: missing tag)"
    );
    assert_eq!(conn, Some(2));
    let ok = ServerResponse::Success { message: "m".to_string(), meta: meta("", "", "--") };
    assert!(matches!(after_retry(&mut conn, "a:1", "eof", Retry::Replied(3, ok)), Ok(ServerResponse::Success { .. })));
    assert_eq!(conn, Some(3));
}

#[test]
fn line_counter_follows_the_cursor() {
    let mut r = session();
    type_text(&mut r, "a\nb");
    assert_eq!(r.cursor_line, 1);
    r.move_cursor_left();
    assert_eq!(r.cursor_line, 1);
    r.move_cursor_left();
    assert_eq!(r.character_index, 1);
    assert_eq!(r.cursor_line, 0);
    r.move_cursor_left();
    assert_eq!(r.cursor_line, 0);
    r.move_cursor_right();
    assert_eq!(r.cursor_line, 0);
    r.move_cursor_right();
    assert_eq!(r.character_index, 2);
    assert_eq!(r.cursor_line, 1);
    // Typing a line feed goes down a line; deleting it comes back.
    r.enter_char('\n');
    assert_eq!(r.cursor_line, 2);
    r.delete_char();
    assert_eq!(r.cursor_line, 1);
    assert_eq!(r.input, "a\nb");
}

#[test]
fn recalled_entry_ending_in_a_line_feed() {
    let mut r = session();
    r.messages.push(entry("a\n", "1"));
    r.history_older();
    assert_eq!(r.character_index, 2);
    assert_eq!(r.cursor_line, 1);
}

#[test]
fn history_recall() {
    let mut r = session();
    r.messages.push(entry("one", "1"));
    r.messages.push(entry("two\nthree", "2"));
    r.history_older();
    assert_eq!(r.history_index, Some(1));
    assert_eq!(r.input, "two\nthree");
    assert_eq!(r.character_index, 9);
    assert_eq!(r.cursor_line, 1);
    r.history_older();
    assert_eq!(r.history_index, Some(0));
    assert_eq!(r.input, "one");
    assert_eq!(r.cursor_line, 0);
    r.history_older();
    assert_eq!(r.history_index, Some(0));
    assert_eq!(r.input, "one");
    r.history_newer();
    assert_eq!(r.history_index, Some(1));
    assert_eq!(r.input, "two\nthree");
    r.history_newer();
    assert_eq!(r.history_index, None);
    assert_eq!(r.input, "");
    assert_eq!(r.character_index, 0);
    assert_eq!(r.cursor_line, 0);
    r.history_newer();
    assert_eq!(r.history_index, None);
}

#[test]
fn history_on_an_empty_session() {
    let mut r = session();
    type_text(&mut r, "draft");
    r.history_older();
    assert_eq!(r.history_index, None);
    assert_eq!(r.input, "draft");
}

#[test]
fn copying() {
    let mut r = session();
    assert_eq!(r.copy_last_result(), None);
    assert_eq!(r.copy_input(), None);
    r.messages.push(entry("q", "result"));
    type_text(&mut r, "next");
    assert_eq!(r.copy_last_result(), Some("result\n".to_string()));
    assert_eq!(r.copy_input(), Some("next".to_string()));
}

#[test]
fn scrolling_never_goes_below_the_latest_output() {
    let mut r = session();
    r.scroll_up();
    r.scroll_up();
    assert_eq!(r.manual_scroll, -2);
    r.scroll_down();
    assert_eq!(r.manual_scroll, -1);
    r.scroll_down();
    r.scroll_down();
    assert_eq!(r.manual_scroll, 0);
    r.manual_scroll = i32::MIN;
    r.scroll_up();
    assert_eq!(r.manual_scroll, i32::MIN);
}

#[test]
fn content_lines_and_results_text() {
    let mut r = session();
    assert_eq!(r.total_content_lines(), 0);
    assert_eq!(build_query_results(&r), "");
    r.messages.push(entry("a", "OK  x"));
    assert_eq!(r.total_content_lines(), 3);
    r.messages.push(entry("b\nc", "l1\nl2"));
    assert_eq!(r.total_content_lines(), 9);
    let text = build_query_results(&r);
    assert_eq!(text, "sakura=> a\n\nOK  x\n\nsakura=> b\nc\n\nl1\nl2\n");
    assert_eq!(text.lines().count(), 9);
}

#[test]
fn empty_output_still_takes_a_line() {
    let mut r = session();
    r.messages.push(entry("a", ""));
    assert_eq!(r.total_content_lines(), 3);
    assert_eq!(build_query_results(&r).lines().count(), 3);
}

#[test]
fn scroll_offset_follows_the_latest_output() {
    let mut r = session();
    r.messages.push(entry("a", "OK  x"));
    r.messages.push(entry("b", "OK  y"));
    assert_eq!(r.total_content_lines(), 7);
    assert_eq!(r.auto_scroll(5), 4);
    assert_eq!(r.calculate_scroll_offset(5), 4);
    assert_eq!(r.calculate_scroll_offset(20), 0);
    assert_eq!(r.calculate_scroll_offset(0), 7);
    r.manual_scroll = -2;
    assert_eq!(r.calculate_scroll_offset(5), 2);
    r.manual_scroll = -10;
    assert_eq!(r.calculate_scroll_offset(5), 0);
}

#[test]
fn last_submission_is_recalled_first() {
    let mut r = session();
    type_text(&mut r, "(dcl GetHead)");
    match r.submit_message() {
        Submission::Send { input, .. } => r.record_reply(input, Err("not connected".to_string())),
        _ => panic!("expected a command to send"),
    }
    type_text(&mut r, "(broken");
    assert!(matches!(r.submit_message(), Submission::Recorded));
    r.history_older();
    assert_eq!(r.input, "(broken");
    assert_eq!(r.history_index, Some(1));
    r.history_older();
    assert_eq!(r.input, "(dcl GetHead)");
    r.history_newer();
    assert_eq!(r.input, "(broken");
    assert_eq!(r.history_index, Some(1));
}
