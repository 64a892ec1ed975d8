//! The geometry and text of the REPL screen: the help line, the height of
//! the input box, where the cursor goes, the results title, and where the
//! error popup sits. Drawing is left to the terminal front end.

use vstd::prelude::*;
use crate::repl::{u16_minus, InputMode, Repl};
use crate::text::{
    char_utf8_width, chars_of, count_char, count_lines, find_char_from, last_index_of,
    line_count, lines, owned, strip_cr, utf8_len,
};

verus! {

/// The help line for a mode: its pieces (text, shown in bold), and whether
/// the line blinks.
pub open spec fn help_line(mode: InputMode) -> (Seq<(Seq<char>, bool)>, bool) {
    match mode {
        InputMode::Normal => (
            seq![
                ("Press "@, false),
                ("q"@, true),
                (" to exit, "@, false),
                ("e"@, true),
                (" to edit, "@, false),
                ("\u{2191}\u{2193}"@, true),
                (" to scroll, "@, false),
                ("y"@, true),
                (" to copy last result"@, false),
            ],
            true,
        ),
        InputMode::Editing => (
            seq![
                ("Press "@, false),
                ("Esc"@, true),
                (" to stop, "@, false),
                ("Alt+Enter"@, true),
                (" to submit, "@, false),
                ("Enter"@, true),
                (" for newline, "@, false),
                ("\u{2191}\u{2193}"@, true),
                (" history, "@, false),
                ("Ctrl+Y"@, true),
                (" to copy"@, false),
            ],
            false,
        ),
    }
}

/// The values of the help line's pieces.
pub open spec fn pieces_view(v: Seq<(&'static str, bool)>) -> Seq<(Seq<char>, bool)> {
    Seq::new(v.len(), |i: int| (v[i].0@, v[i].1))
}

/// The help line for a mode: its pieces (text, bold) and whether it blinks.
pub fn help_text(mode: InputMode) -> (r: (Vec<(&'static str, bool)>, bool))
    ensures
        (pieces_view(r.0@), r.1) == help_line(mode),
{
    match mode {
        InputMode::Normal => {
            let v = vec![
                ("Press ", false),
                ("q", true),
                (" to exit, ", false),
                ("e", true),
                (" to edit, ", false),
                ("\u{2191}\u{2193}", true),
                (" to scroll, ", false),
                ("y", true),
                (" to copy last result", false),
            ];
            proof {
                assert(pieces_view(v@) =~= help_line(mode).0);
            }
            (v, true)
        },
        InputMode::Editing => {
            let v = vec![
                ("Press ", false),
                ("Esc", true),
                (" to stop, ", false),
                ("Alt+Enter", true),
                (" to submit, ", false),
                ("Enter", true),
                (" for newline, ", false),
                ("\u{2191}\u{2193}", true),
                (" history, ", false),
                ("Ctrl+Y", true),
                (" to copy", false),
            ];
            proof {
                assert(pieces_view(v@) =~= help_line(mode).0);
            }
            (v, false)
        },
    }
}

/// The height of the input box: its lines (at least one) and two border
/// rows (kept within `usize`), cut to 16 bits, then kept between 3 and 15.
pub open spec fn input_height(input: Seq<char>) -> u16 {
    let n = (if line_count(input) > 1 {
        line_count(input)
    } else {
        1
    }) + 2;
    let n = if n <= usize::MAX {
        n
    } else {
        usize::MAX as nat
    };
    let h = n as u16;
    if h > 15 {
        15
    } else if h < 3 {
        3
    } else {
        h
    }
}

/// Calculate input area height based on number of lines (min 3, max 15).
pub fn input_area_height(input: &str) -> (r: u16)
    ensures
        r == input_height(input@),
{
    let n = count_lines(input);
    let n = if n > 1 {
        n
    } else {
        1
    };
    let h = n.saturating_add(2) as u16;
    if h > 15 {
        15
    } else if h < 3 {
        3
    } else {
        h
    }
}

/// The colour the input box's text is drawn in.
#[derive(Debug, Clone, Copy, PartialEq, Eq, Structural)]
pub enum InputColor {
    /// The terminal's default colour.
    Plain,
    /// Yellow, marking that keys edit the input.
    Yellow,
}

/// The input text is yellow while editing and plain otherwise.
pub fn input_style(mode: InputMode) -> (r: InputColor)
    ensures
        r == (if mode == InputMode::Editing {
            InputColor::Yellow
        } else {
            InputColor::Plain
        }),
{
    match mode {
        InputMode::Normal => InputColor::Plain,
        InputMode::Editing => InputColor::Yellow,
    }
}

/// The row and column of the cursor within the input text: the line breaks
/// before it, and how far it is past the start of its line.
pub open spec fn cursor_row(input: Seq<char>, ci: usize) -> nat {
    count_char(input.take(if ci < input.len() {
        ci as int
    } else {
        input.len() as int
    }), '\n')
}

/// Where the cursor's line starts.
pub open spec fn cursor_line_start(input: Seq<char>, ci: usize) -> int {
    match last_index_of(
        input.take(if ci < input.len() {
            ci as int
        } else {
            input.len() as int
        }),
        '\n',
    ) {
        Some(k) => k + 1,
        None => 0,
    }
}

/// Where the terminal cursor goes while editing, inside a bordered box at
/// (`x`, `y`) of `height` rows: past the border, at the cursor's column, and
/// on its row but no lower than the box's last inner row.
pub open spec fn cursor_cell(input: Seq<char>, ci: usize, x: u16, y: u16, height: u16) -> (
    int,
    int,
) {
    let offset = ci - cursor_line_start(input, ci);
    let row = cursor_row(input, ci);
    let max_row = u16_minus(height, 2);
    let visible = if row < max_row {
        row
    } else {
        max_row as nat
    };
    (x + (offset as u16) + 1, y + (visible as u16) + 1)
}

/// Whether the cursor's cell fits the screen's 16-bit coordinates.
pub open spec fn cursor_fits(input: Seq<char>, ci: usize, x: u16, y: u16, height: u16) -> bool {
    cursor_cell(input, ci, x, y, height).0 <= u16::MAX && cursor_cell(input, ci, x, y, height).1
        <= u16::MAX
}

/// The cursor's row in the input text and where its line starts.
fn cursor_row_and_start(cs: &Vec<char>, ci: usize) -> (r: (usize, usize))
    ensures
        r.0 as nat == cursor_row(cs@, ci),
        r.1 as int == cursor_line_start(cs@, ci),
        r.1 <= ci,
{
    let end = if ci < cs.len() {
        ci
    } else {
        cs.len()
    };
    // Count characters up to cursor position and find which line it's on
    let mut cursor_row: usize = 0;
    let mut line_start: usize = 0;
    let mut i: usize = 0;
    while i < end
        invariant
            i <= end <= cs.len(),
            end as int == if ci < cs@.len() {
                ci as int
            } else {
                cs@.len() as int
            },
            cursor_row as nat == count_char(cs@.take(i as int), '\n'),
            cursor_row <= i,
            line_start as int == match last_index_of(cs@.take(i as int), '\n') {
                Some(k) => k + 1,
                None => 0,
            },
            line_start <= i,
        decreases end - i,
    {
        proof {
            let t = cs@.take(i + 1);
            assert(t.drop_last() == cs@.take(i as int));
            assert(t.last() == cs@[i as int]);
        }
        if cs[i] == '\n' {
            cursor_row = cursor_row + 1;
            line_start = i + 1;
        }
        i = i + 1;
    }
    (cursor_row, line_start)
}

/// The screen cell of the cursor while editing; none in normal mode.
pub fn cursor_position<C>(repl: &Repl<C>, x: u16, y: u16, height: u16) -> (r: Option<(u16, u16)>)
    requires
        repl.mode == InputMode::Editing ==> cursor_fits(
            repl.input@,
            repl.character_index,
            x,
            y,
            height,
        ),
    ensures
        repl.mode == InputMode::Normal ==> r is None,
        repl.mode == InputMode::Editing ==> (r matches Some((cx, cy)) && (cx as int, cy as int)
            == cursor_cell(repl.input@, repl.character_index, x, y, height)),
{
    if let InputMode::Normal = repl.mode {
        return None;
    }
    let cs = chars_of(repl.input.as_str());
    let (cursor_row, line_start) = cursor_row_and_start(&cs, repl.character_index);
    let line_offset = repl.character_index - line_start;
    // Clamp cursor row to stay inside the border (last usable row = area.height - 2)
    let max_row = height.saturating_sub(2) as usize;
    let visible_row = if cursor_row < max_row {
        cursor_row
    } else {
        max_row
    };
    Some((x + line_offset as u16 + 1, y + visible_row as u16 + 1))
}

/// Whether `cursor_position` can place the cursor of `repl` in a box at
/// (`x`, `y`) of `height` rows: always in normal mode, and while editing when
/// the cell's coordinates fit in 16 bits.
pub fn cursor_fits_screen<C>(repl: &Repl<C>, x: u16, y: u16, height: u16) -> (r: bool)
    ensures
        r == (repl.mode == InputMode::Editing ==> cursor_fits(
            repl.input@,
            repl.character_index,
            x,
            y,
            height,
        )),
{
    if let InputMode::Normal = repl.mode {
        return true;
    }
    let cs = chars_of(repl.input.as_str());
    let (cursor_row, line_start) = cursor_row_and_start(&cs, repl.character_index);
    let line_offset = (repl.character_index - line_start) as u16;
    let max_row = height.saturating_sub(2) as usize;
    let visible_row = if cursor_row < max_row {
        cursor_row
    } else {
        max_row
    } as u16;
    (x as u32) + (line_offset as u32) < 65535 && (y as u32) + (visible_row as u32) < 65535
}

/// The title of the results pane.
pub open spec fn title_text(db_name: Seq<char>, branch: Seq<char>, db_hash: Seq<char>) -> Seq<
    char,
> {
    "Query Results  [db: "@ + db_name + " | branch: "@ + branch + " | hash: "@ + db_hash + "]"@
}

/// The title of the results pane: database, branch and hash last seen.
pub fn results_title<C>(repl: &Repl<C>) -> (r: String)
    ensures
        r@ == title_text(repl.db_name@, repl.branch@, repl.db_hash@),
{
    let mut t = owned("Query Results  [db: ");
    t.append(repl.db_name.as_str());
    t.append(" | branch: ");
    t.append(repl.branch.as_str());
    t.append(" | hash: ");
    t.append(repl.db_hash.as_str());
    t.append("]");
    t
}

// ---------------------------------------------------------------------------
// The error popup
// ---------------------------------------------------------------------------

/// The popup's width: two thirds of the screen but at least 44 columns, and
/// at most the screen less 4.
pub open spec fn popup_width(area_w: u16) -> u16 {
    let w = (area_w * 2 / 3) as u16;
    let w = if w > 44 {
        w
    } else {
        44
    };
    let cap = u16_minus(area_w, 4);
    if w < cap {
        w
    } else {
        cap
    }
}

/// `n`, or 1 for 0.
pub open spec fn at_least_one(n: nat) -> nat {
    if n > 1 {
        n
    } else {
        1
    }
}

/// The rows a line of the message takes when wrapped at `inner` bytes (at
/// least one), cut to 16 bits.
pub open spec fn wrapped_rows(l: Seq<char>, inner: nat) -> nat {
    (((at_least_one(utf8_len(l)) + inner - 1) / (inner as int)) as u16) as nat
}

/// The rows all the lines take.
pub open spec fn rows_sum(ls: Seq<Seq<char>>, inner: nat) -> nat
    decreases ls.len(),
{
    if ls.len() == 0 {
        0
    } else {
        wrapped_rows(ls[0], inner) + rows_sum(ls.drop_first(), inner)
    }
}

/// Whether the message's rows can be counted at `inner` bytes a row: the
/// width is positive when there are lines, no line's rounding up overflows,
/// and the total fits in 16 bits.
pub open spec fn rows_countable(msg: Seq<char>, inner: nat) -> bool {
    &&& lines(msg).len() > 0 ==> inner > 0
    &&& forall|i: int|
        0 <= i < lines(msg).len() ==> at_least_one(utf8_len(#[trigger] lines(msg)[i])) + inner
            <= usize::MAX + 1
    &&& rows_sum(lines(msg), inner) <= u16::MAX
}

/// Whether the popup can be laid out: the width arithmetic stays in 16 bits,
/// the message's rows can be counted, and the popup's height stays in 16 bits.
pub open spec fn popup_fits(area_w: u16, msg: Seq<char>) -> bool {
    let inner = u16_minus(popup_width(area_w), 2) as nat;
    &&& area_w * 2 <= u16::MAX
    &&& rows_countable(msg, inner)
    &&& at_least_one(rows_sum(lines(msg), inner)) + 4 <= u16::MAX
}

/// Where the error popup sits on a screen of `area_w` by `area_h` cells:
/// centred, wide enough for the message's wrapped lines (with borders, a
/// footer row and a padding row), and no taller than the screen less 4.
pub open spec fn popup_rect(area_w: u16, area_h: u16, msg: Seq<char>) -> (u16, u16, u16, u16) {
    let width = popup_width(area_w);
    let inner = u16_minus(width, 2) as nat;
    let body = at_least_one(rows_sum(lines(msg), inner));
    let h = (body + 4) as u16;
    let cap = u16_minus(area_h, 4);
    let height = if h < cap {
        h
    } else {
        cap
    };
    (u16_minus(area_w, width) / 2, u16_minus(area_h, height) / 2, width, height)
}

/// `find_char_from` on a suffix is `find_char_from` on the whole, shifted.
proof fn lemma_find_in_suffix(s: Seq<char>, c: char, i: int, j: int)
    requires
        0 <= i <= s.len(),
        0 <= j,
    ensures
        find_char_from(s.skip(i), c, j) == match find_char_from(s, c, i + j) {
            Some(k) => Some(k - i),
            None => None::<int>,
        },
    decreases s.len() - i - j,
{
    let t = s.skip(i);
    if j < t.len() {
        assert(t[j] == s[i + j]);
        if t[j] != c {
            lemma_find_in_suffix(s, c, i, j + 1);
        }
    }
}

/// The UTF-8 length of `cs[from..to]`, if it fits in a `usize`.
fn utf8_len_range(cs: &Vec<char>, from: usize, to: usize) -> (r: Option<usize>)
    requires
        from <= to <= cs.len(),
    ensures
        match r {
            Some(n) => n as nat == utf8_len(cs@.subrange(from as int, to as int)),
            None => utf8_len(cs@.subrange(from as int, to as int)) > usize::MAX,
        },
{
    let mut n: usize = 0;
    let mut i = from;
    while i < to
        invariant
            from <= i <= to <= cs.len(),
            n as nat == utf8_len(cs@.subrange(from as int, i as int)),
        decreases to - i,
    {
        proof {
            assert(cs@.subrange(from as int, i + 1).drop_last() == cs@.subrange(
                from as int,
                i as int,
            ));
            lemma_utf8_len_prefix(cs@.subrange(from as int, to as int), i + 1 - from);
            assert(cs@.subrange(from as int, to as int).take(i + 1 - from) == cs@.subrange(
                from as int,
                i + 1,
            ));
        }
        match n.checked_add(char_utf8_width(cs[i])) {
            Some(m) => n = m,
            None => return None,
        }
        i = i + 1;
    }
    Some(n)
}

/// A prefix takes at most as many bytes as the whole.
proof fn lemma_utf8_len_prefix(s: Seq<char>, k: int)
    requires
        0 <= k <= s.len(),
    ensures
        utf8_len(s.take(k)) <= utf8_len(s),
    decreases s.len() - k,
{
    if k < s.len() {
        assert(s.take(k + 1).drop_last() == s.take(k));
        if k + 1 < s.len() {
            lemma_utf8_len_prefix(s, k + 1);
        } else {
            assert(s.take(k + 1) == s);
        }
    } else {
        assert(s.take(k) == s);
    }
}

/// A non-empty text has at least one line.
proof fn lemma_lines_nonempty(s: Seq<char>)
    requires
        s.len() > 0,
    ensures
        lines(s).len() > 0,
{
    match find_char_from(s, '\n', 0) {
        None => {},
        Some(k) => {
            lemma_find_char_bounds(s, '\n', 0);
        },
    }
}

/// What `find_char_from` finds lies in the searched range.
proof fn lemma_find_char_bounds(s: Seq<char>, c: char, i: int)
    ensures
        find_char_from(s, c, i) matches Some(k) ==> i <= k < s.len() && s[k] == c,
    decreases s.len() - i,
{
    if 0 <= i < s.len() && s[i] != c {
        lemma_find_char_bounds(s, c, i + 1);
    }
}

/// The rows the message takes in a popup whose text is `inner` bytes wide,
/// if they can be counted.
fn message_rows(msg: &str, inner: usize) -> (r: Option<u16>)
    ensures
        r == if rows_countable(msg@, inner as nat) {
            Some(rows_sum(lines(msg@), inner as nat) as u16)
        } else {
            None::<u16>
        },
{
    let cs = chars_of(msg);
    let ghost all = lines(msg@);
    let ghost mut done: Seq<Seq<char>> = seq![];
    if cs.len() > 0 && inner == 0 {
        proof {
            lemma_lines_nonempty(msg@);
        }
        return None;
    }
    let mut sum: u16 = 0;
    let mut i: usize = 0;
    proof {
        assert(cs@.skip(0) == cs@);
    }
    while i < cs.len()
        invariant
            i <= cs.len(),
            cs@ == msg@,
            cs.len() > 0 ==> inner > 0,
            all == lines(msg@),
            all == done + lines(cs@.skip(i as int)),
            sum as nat + rows_sum(lines(cs@.skip(i as int)), inner as nat) == rows_sum(
                all,
                inner as nat,
            ),
            forall|k: int|
                0 <= k < done.len() ==> at_least_one(utf8_len(#[trigger] all[k])) + inner
                    <= usize::MAX + 1,
        decreases cs.len() - i,
    {
        let ghost t = cs@.skip(i as int);
        // Find the end of this line.
        let mut k = i;
        while k < cs.len() && cs[k] != '\n'
            invariant
                i <= k <= cs.len(),
                t == cs@.skip(i as int),
                find_char_from(t, '\n', 0) == find_char_from(t, '\n', k - i),
            decreases cs.len() - k,
        {
            proof {
                assert(t[k - i] == cs@[k as int]);
            }
            k = k + 1;
        }
        let found = k < cs.len();
        let end = if found && k > i && cs[k - 1] == '\r' {
            k - 1
        } else {
            k
        };
        let ghost rest = if found {
            cs@.skip(k + 1)
        } else {
            seq![]
        };
        let ghost line = if found {
            strip_cr(t.take(k - i))
        } else {
            t
        };
        proof {
            if found {
                assert(t[k - i] == cs@[k as int]);
                assert(find_char_from(t, '\n', 0) == Some(k - i));
                assert(t.take(k - i) == cs@.subrange(i as int, k as int));
                if k > i && cs@[k - 1] == '\r' {
                    assert(t.take(k - i).last() == cs@[k - 1]);
                    assert(line == cs@.subrange(i as int, k - 1));
                } else {
                    assert(line == cs@.subrange(i as int, k as int));
                }
                assert(t.skip(k - i + 1) == cs@.skip(k + 1));
            } else {
                assert(find_char_from(t, '\n', 0) is None) by {
                    assert(find_char_from(t, '\n', k - i) is None);
                }
                assert(t == cs@.subrange(i as int, k as int));
                assert(line == cs@.subrange(i as int, end as int));
            }
            assert(lines(t) == seq![line] + lines(rest));
            assert(lines(t)[0] == line);
            assert((seq![line] + lines(rest)).drop_first() == lines(rest));
            assert(all[done.len() as int] == line);
        }
        let len = match utf8_len_range(&cs, i, end) {
            Some(n) => n,
            None => return None,
        };
        let len = if len > 1 {
            len
        } else {
            1
        };
        let wide = match len.checked_add(inner - 1) {
            Some(w) => w,
            None => return None,
        };
        let rows = (wide / inner) as u16;
        proof {
            assert(rows as nat == wrapped_rows(line, inner as nat));
        }
        sum = match sum.checked_add(rows) {
            Some(v) => v,
            None => return None,
        };
        proof {
            done = done.push(line);
        }
        if found {
            i = k + 1;
        } else {
            i = cs.len();
            proof {
                assert(cs@.skip(i as int) == Seq::<char>::empty());
            }
        }
        proof {
            assert(done + lines(cs@.skip(i as int)) =~= all);
        }
    }
    proof {
        assert(done == all);
    }
    Some(sum)
}

/// The popup's width, as `popup_width` gives it.
fn popup_width_of(area_w: u16) -> (r: u16)
    requires
        area_w * 2 <= u16::MAX,
    ensures
        r == popup_width(area_w),
{
    let third = area_w * 2 / 3;
    let w = if third > 44 {
        third
    } else {
        44
    };
    let cap = area_w.saturating_sub(4);
    if w < cap {
        w
    } else {
        cap
    }
}

/// Whether `error_popup_area` can lay out `msg` on a screen `area_w` wide.
pub fn popup_fits_screen(area_w: u16, msg: &str) -> (r: bool)
    ensures
        r == popup_fits(area_w, msg@),
{
    if area_w > 32767 {
        return false;
    }
    let width = popup_width_of(area_w);
    match message_rows(msg, width.saturating_sub(2) as usize) {
        Some(rows) => rows < 65532,
        None => false,
    }
}

/// Where the error popup sits on a screen of `area_w` by `area_h` cells, as
/// (x, y, width, height).
pub fn error_popup_area(area_w: u16, area_h: u16, msg: &str) -> (r: (u16, u16, u16, u16))
    requires
        popup_fits(area_w, msg@),
    ensures
        r == popup_rect(area_w, area_h, msg@),
{
    let width = popup_width_of(area_w);
    let inner_w = width.saturating_sub(2) as usize;
    let body = match message_rows(msg, inner_w) {
        Some(rows) => rows,
        None => 0,
    };
    let body = if body > 1 {
        body
    } else {
        1
    };
    // borders(2) + body + footer(1) + padding(1)
    let h = body + 4;
    let vcap = area_h.saturating_sub(4);
    let height = if h < vcap {
        h
    } else {
        vcap
    };
    ((area_w.saturating_sub(width)) / 2, (area_h.saturating_sub(height)) / 2, width, height)
}

/// The hint at the foot of the error popup (26 ASCII characters).
pub const CLOSE_HINT: &'static str = "[ press any key to close ]";

/// Where the close hint goes in the popup's footer row at (`x`, `y`) of
/// `width` cells: centred, one row high, as wide as the hint.
pub open spec fn hint_rect(x: u16, y: u16, width: u16) -> (int, int, int, int) {
    (x + u16_minus(width, 26) / 2, y as int, 26, 1)
}

/// Where the close hint goes in the popup's footer row, as (x, y, width, height).
pub fn close_hint_area(x: u16, y: u16, width: u16) -> (r: (u16, u16, u16, u16))
    requires
        x + u16_minus(width, 26) / 2 <= u16::MAX,
    ensures
        (r.0 as int, r.1 as int, r.2 as int, r.3 as int) == hint_rect(x, y, width),
{
    (x + width.saturating_sub(26) / 2, y, 26, 1)
}

} // verus!
