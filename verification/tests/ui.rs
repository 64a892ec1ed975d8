use sakura_repl::repl::{InputMode, Repl};
use sakura_repl::ui::{
    close_hint_area, cursor_fits_screen, cursor_position, error_popup_area, help_text,
    input_area_height, input_style, popup_fits_screen, results_title, InputColor, CLOSE_HINT,
};

fn session() -> Repl<()> {
    Repl::new(None, "127.0.0.1:7777".to_string())
}

#[test]
fn normal_mode_help() {
    let (pieces, blinks) = help_text(InputMode::Normal);
    assert!(blinks);
    let text: String = pieces.iter().map(|(t, _)| *t).collect();
    assert_eq!(text, "Press q to exit, e to edit, \u{2191}\u{2193} to scroll, y to copy last result");
    let bold: Vec<&str> = pieces.iter().filter(|(_, b)| *b).map(|(t, _)| *t).collect();
    assert_eq!(bold, vec!["q", "e", "\u{2191}\u{2193}", "y"]);
}

#[test]
fn editing_mode_help() {
    let (pieces, blinks) = help_text(InputMode::Editing);
    assert!(!blinks);
    let text: String = pieces.iter().map(|(t, _)| *t).collect();
    assert_eq!(
        text,
        "Press Esc to stop, Alt+Enter to submit, Enter for newline, \u{2191}\u{2193} history, Ctrl+Y to copy"
    );
    let bold: Vec<&str> = pieces.iter().filter(|(_, b)| *b).map(|(t, _)| *t).collect();
    assert_eq!(bold, vec!["Esc", "Alt+Enter", "Enter", "\u{2191}\u{2193}", "Ctrl+Y"]);
}

#[test]
fn input_box_height() {
    assert_eq!(input_area_height(""), 3);
    assert_eq!(input_area_height("one line"), 3);
    assert_eq!(input_area_height("a\nb"), 4);
    assert_eq!(input_area_height("a\nb\nc"), 5);
    assert_eq!(input_area_height("a\n"), 3);
    let many = "x\n".repeat(40);
    assert_eq!(input_area_height(&many), 15);
}

#[test]
fn no_cursor_in_normal_mode() {
    let mut r = session();
    r.input = "abc".to_string();
    r.character_index = 1;
    assert_eq!(cursor_position(&r, 0, 10, 5), None);
}

#[test]
fn cursor_cell_while_editing() {
    let mut r = session();
    r.mode = InputMode::Editing;
    assert_eq!(cursor_position(&r, 0, 10, 5), Some((1, 11)));
    r.input = "ab\ncd".to_string();
    r.character_index = 4;
    assert_eq!(cursor_position(&r, 0, 10, 5), Some((2, 12)));
    r.character_index = 2;
    assert_eq!(cursor_position(&r, 3, 10, 5), Some((6, 11)));
    // The cursor goes to the start of the next line right after a line break.
    r.character_index = 3;
    assert_eq!(cursor_position(&r, 0, 0, 5), Some((1, 2)));
}

#[test]
fn cursor_row_stays_inside_the_box() {
    let mut r = session();
    r.mode = InputMode::Editing;
    r.input = "a\nb\nc\nd".to_string();
    r.character_index = 7;
    assert_eq!(cursor_position(&r, 0, 0, 4), Some((2, 3)));
    assert_eq!(cursor_position(&r, 0, 0, 10), Some((2, 4)));
}

#[test]
fn title_shows_the_metadata() {
    let mut r = session();
    assert_eq!(results_title(&r), "Query Results  [db: ? | branch: -- | hash: --------]");
    r.db_name = "shop".to_string();
    r.branch = "main".to_string();
    r.db_hash = "3f2a9c1d".to_string();
    assert_eq!(results_title(&r), "Query Results  [db: shop | branch: main | hash: 3f2a9c1d]");
}

#[test]
fn popup_on_a_wide_screen() {
    assert_eq!(error_popup_area(100, 40, "boom"), (17, 17, 66, 5));
    let long = "a".repeat(130);
    assert_eq!(error_popup_area(100, 40, &long), (17, 16, 66, 7));
    assert_eq!(error_popup_area(100, 40, "a\n\nb"), (17, 16, 66, 7));
    assert_eq!(error_popup_area(100, 40, ""), (17, 17, 66, 5));
}

#[test]
fn popup_on_a_small_screen() {
    assert_eq!(error_popup_area(30, 10, "x"), (2, 2, 26, 5));
    // The height is capped at the screen less 4.
    assert_eq!(error_popup_area(30, 7, "x"), (2, 2, 26, 3));
    // The width floor of 44 applies below 66 columns.
    assert_eq!(error_popup_area(60, 20, "x"), (8, 7, 44, 5));
}

#[test]
fn popup_wraps_by_bytes() {
    // 33 two-byte characters take 66 bytes: two rows at 64 bytes a row.
    let wide = "é".repeat(33);
    assert_eq!(error_popup_area(100, 40, &wide), (17, 17, 66, 6));
}

#[test]
fn close_hint() {
    assert_eq!(CLOSE_HINT, "[ press any key to close ]");
    assert_eq!(CLOSE_HINT.len(), 26);
    assert_eq!(close_hint_area(10, 20, 40), (17, 20, 26, 1));
    assert_eq!(close_hint_area(10, 20, 20), (10, 20, 26, 1));
}

#[test]
fn cursor_cell_range() {
    let mut r = session();
    r.input = "abc".to_string();
    r.character_index = 3;
    assert!(cursor_fits_screen(&r, u16::MAX, u16::MAX, 5));
    r.mode = InputMode::Editing;
    assert!(cursor_fits_screen(&r, 65531, 0, 5));
    assert_eq!(cursor_position(&r, 65531, 0, 5), Some((65535, 1)));
    assert!(!cursor_fits_screen(&r, 65532, 0, 5));
    assert!(cursor_fits_screen(&r, 0, 65534, 5));
    assert!(!cursor_fits_screen(&r, 0, 65535, 5));
}

#[test]
fn popup_layout_range() {
    assert!(popup_fits_screen(100, "boom"));
    assert!(popup_fits_screen(32767, "boom"));
    assert!(!popup_fits_screen(32768, "boom"));
    // Too narrow a screen leaves no room for text.
    assert!(!popup_fits_screen(5, "boom"));
    assert!(popup_fits_screen(5, ""));
    // Rows beyond what 16 bits hold.
    let many = "x\n".repeat(70000);
    assert!(!popup_fits_screen(100, &many));
    let enough = "x\n".repeat(65531);
    assert!(popup_fits_screen(100, &enough));
    let too_many = "x\n".repeat(65532);
    assert!(!popup_fits_screen(100, &too_many));
}

#[test]
fn input_colour() {
    assert_eq!(input_style(InputMode::Normal), InputColor::Plain);
    assert_eq!(input_style(InputMode::Editing), InputColor::Yellow);
}
