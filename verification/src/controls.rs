//! Decisions behind the terminal viewer's controls: which part has focus,
//! which dialog is open, the level-filter cycle, click counting, and the
//! row arithmetic of scrolling and caret movement.

use vstd::prelude::*;
use crate::desktop::adb::Device;
use crate::parser::LogLevel;
use crate::text::{chars_of, push_char, str_eq, string_from_chars};
use crate::ui::display::{lemma_chunk_at_col_bounds, spec_wrap_chunk_at_col, wrap_chunk_at_col};
use crate::ui::pointer::PointerShape;
use crate::ui::selection::Rect;
use crate::ui::text_input::TextInput;

verus! {

/// The part of the screen that receives keys.
#[derive(Debug, Clone, Copy, PartialEq, Eq, Structural)]
pub enum Focus {
    Logs,
    Level,
    Find,
    Modal,
}

/// The text filter edited in the filter dialog.
#[derive(Debug, Clone, Copy, PartialEq, Eq, Structural)]
pub enum FilterField {
    Tag,
    Message,
}

/// The dialog shown over the log view.
#[derive(Debug, Clone, PartialEq, Eq)]
pub enum ModalKind {
    Devices,
    Export { filtered_only: bool, path: String },
    Settings,
    ExportMenu,
    FilterEdit { field: FilterField },
}

/// File name proposed when an export dialog opens.
pub const DEFAULT_EXPORT_NAME: &'static str = "ohmylogcat.log";

/// Longest gap, in milliseconds, between clicks that count as one
/// double or triple click.
pub const MULTI_CLICK_MS: u128 = 500;

// ---------------------------------------------------------------------
// Level filter cycle
// ---------------------------------------------------------------------

/// The minimum-level choices in the order the level control steps
/// through them: All (no filter), then Verbose up to Error.
pub open spec fn level_choice_at(i: int) -> Option<LogLevel> {
    if i == 1 {
        Some(LogLevel::Verbose)
    } else if i == 2 {
        Some(LogLevel::Debug)
    } else if i == 3 {
        Some(LogLevel::Info)
    } else if i == 4 {
        Some(LogLevel::Warn)
    } else if i == 5 {
        Some(LogLevel::Error)
    } else {
        None
    }
}

/// Position of a choice in that order; a choice not in it (`Fatal`)
/// counts as the first.
pub open spec fn level_choice_index(l: Option<LogLevel>) -> int {
    match l {
        Some(LogLevel::Verbose) => 1,
        Some(LogLevel::Debug) => 2,
        Some(LogLevel::Info) => 3,
        Some(LogLevel::Warn) => 4,
        Some(LogLevel::Error) => 5,
        _ => 0,
    }
}

pub open spec fn spec_cycle_level(current: Option<LogLevel>, forward: bool) -> Option<LogLevel> {
    level_choice_at(
        if forward {
            (level_choice_index(current) + 1) % 6
        } else {
            (level_choice_index(current) + 5) % 6
        },
    )
}

/// The next (or, backwards, previous) minimum-level choice of All,
/// Verbose, Debug, Info, Warn, Error, wrapping around at both ends.
pub fn cycle_level(current: Option<LogLevel>, forward: bool) -> (r: Option<LogLevel>)
    ensures
        r == spec_cycle_level(current, forward),
{
    let idx: usize = match current {
        Some(LogLevel::Verbose) => 1,
        Some(LogLevel::Debug) => 2,
        Some(LogLevel::Info) => 3,
        Some(LogLevel::Warn) => 4,
        Some(LogLevel::Error) => 5,
        _ => 0,
    };
    let next: usize = if forward {
        (idx + 1) % 6
    } else {
        (idx + 5) % 6
    };
    match next {
        1 => Some(LogLevel::Verbose),
        2 => Some(LogLevel::Debug),
        3 => Some(LogLevel::Info),
        4 => Some(LogLevel::Warn),
        5 => Some(LogLevel::Error),
        _ => None,
    }
}

/// Stepping the level choice forward and back again returns it, for every
/// choice in the cycle; six steps forward come round.
pub proof fn law_level_cycle_returns(l: Option<LogLevel>)
    requires
        l != Some(LogLevel::Fatal),
    ensures
        spec_cycle_level(spec_cycle_level(l, true), false) == l,
        spec_cycle_level(spec_cycle_level(l, false), true) == l,
        spec_cycle_level(
            spec_cycle_level(
                spec_cycle_level(
                    spec_cycle_level(spec_cycle_level(spec_cycle_level(l, true), true), true),
                    true,
                ),
                true,
            ),
            true,
        ) == l,
{
}

// ---------------------------------------------------------------------
// Clicks
// ---------------------------------------------------------------------

/// The screen cell and count of the last click in the log view.
#[derive(Debug, Clone, Copy)]
pub struct ClickTracker {
    pub last_cell: Option<(u16, u16)>,
    pub count: u8,
}

pub open spec fn cells_near(a: (u16, u16), col: u16, row: u16) -> bool {
    &&& (a.0 - col <= 1 && col - a.0 <= 1)
    &&& (a.1 - row <= 1 && row - a.1 <= 1)
}

/// The count a click gets: one more than the last (a triple click is
/// followed by a single one) when it lands next to the last click soon
/// enough, else one.
pub open spec fn spec_next_click_count(t: ClickTracker, col: u16, row: u16, elapsed_ms: Option<u128>) -> u8 {
    let near = match t.last_cell {
        Some(cell) => cells_near(cell, col, row),
        None => false,
    };
    let quick = match elapsed_ms {
        Some(ms) => ms <= MULTI_CLICK_MS,
        None => false,
    };
    let repeat = near && quick;
    if repeat {
        if t.count == 1 {
            2
        } else if t.count == 2 {
            3
        } else {
            1
        }
    } else {
        1
    }
}

impl ClickTracker {
    pub fn new() -> (r: ClickTracker)
        ensures
            r.last_cell is None,
            r.count == 0,
    {
        ClickTracker { last_cell: None, count: 0 }
    }

    /// Records a click at `(col, row)`, `elapsed_ms` after the previous one
    /// (none for the first), and returns its count: 1, 2 or 3.
    pub fn register(&mut self, col: u16, row: u16, elapsed_ms: Option<u128>) -> (r: u8)
        ensures
            r == spec_next_click_count(*old(self), col, row, elapsed_ms),
            final(self).count == r,
            final(self).last_cell == Some((col, row)),
            1 <= r <= 3,
    {
        let near = match self.last_cell {
            Some((c, r)) => abs_diff(c, col) <= 1 && abs_diff(r, row) <= 1,
            None => false,
        };
        let quick = match elapsed_ms {
            Some(ms) => ms <= MULTI_CLICK_MS,
            None => false,
        };
        let count: u8 = if near && quick {
            if self.count == 1 {
                2
            } else if self.count == 2 {
                3
            } else {
                1
            }
        } else {
            1
        };
        self.count = count;
        self.last_cell = Some((col, row));
        count
    }
}

fn abs_diff(a: u16, b: u16) -> (r: u16)
    ensures
        r == if a >= b { a - b } else { b - a },
{
    if a >= b {
        a - b
    } else {
        b - a
    }
}

/// Whether a key with character `c` and these modifiers asks to copy:
/// `c` or `C` with Command, Meta or (where Command is not reported) Ctrl.
pub fn is_copy_shortcut(c: char, control: bool, super_key: bool, meta: bool) -> (r: bool)
    ensures
        r == ((c == 'c' || c == 'C') && (control || super_key || meta)),
{
    (c == 'c' || c == 'C') && (super_key || meta || control)
}

/// Pointer shape over a cell: a text beam over a text field, and over the
/// log view when no dialog is open.
pub fn pointer_shape_for(over_text_field: bool, modal_open: bool, over_log_view: bool) -> (r: PointerShape)
    ensures
        r == if over_text_field || (!modal_open && over_log_view) {
            PointerShape::Text
        } else {
            PointerShape::Default
        },
{
    if over_text_field {
        PointerShape::Text
    } else if modal_open {
        PointerShape::Default
    } else if over_log_view {
        PointerShape::Text
    } else {
        PointerShape::Default
    }
}

/// `Esc` in a Tag or Message dialog: a non-empty filter is cleared and the
/// dialog stays; an empty one closes the dialog. Returns whether to close.
pub fn filter_dialog_escape(input: &mut TextInput) -> (close: bool)
    ensures
        close == (old(input).text@.len() == 0),
        close ==> *final(input) == *old(input),
        !close ==> final(input).text@ == Seq::<char>::empty() && final(input).cursor == 0,
{
    if input.text.as_str().is_empty() {
        true
    } else {
        input.text = String::new();
        input.cursor = 0;
        false
    }
}

// ---------------------------------------------------------------------
// Small text and list helpers
// ---------------------------------------------------------------------

pub open spec fn spec_truncate_input(s: Seq<char>, max: int) -> Seq<char> {
    if s.len() <= max {
        s
    } else {
        s.take(if max >= 1 { max - 1 } else { 0 }).push('…')
    }
}

/// `s` when it has at most `max` characters, else its first `max - 1`
/// characters and an ellipsis.
pub fn truncate_input(s: &str, max: usize) -> (r: String)
    ensures
        r@ == spec_truncate_input(s@, max as int),
{
    let v = chars_of(s);
    if v.len() <= max {
        return string_from_chars(&v, 0, v.len());
    }
    let keep = if max >= 1 {
        max - 1
    } else {
        0
    };
    let mut t = string_from_chars(&v, 0, keep);
    push_char(&mut t, '…');
    t
}

/// The device-list line of the selected device: the first device with that
/// serial, or "no device" when there is none.
pub fn device_cursor_for(devices: &Vec<Device>, selected: &Option<String>) -> (r: usize)
    ensures
        r <= devices@.len(),
        selected is None ==> r == 0,
        selected matches Some(s) ==> {
            &&& r == 0 ==> forall|i: int| 0 <= i < devices@.len() ==> devices@[i].serial@ != s@
            &&& r > 0 ==> devices@[r - 1].serial@ == s@ && forall|j: int|
                0 <= j < r - 1 ==> devices@[j].serial@ != s@
        },
{
    match selected {
        None => 0,
        Some(s) => {
            let mut i: usize = 0;
            while i < devices.len()
                invariant
                    i <= devices@.len(),
                    selected matches Some(x) && x@ == s@,
                    forall|j: int| 0 <= j < i ==> devices@[j].serial@ != s@,
                decreases devices@.len() - i,
            {
                if str_eq(devices[i].serial.as_str(), s.as_str()) {
                    return i + 1;
                }
                i = i + 1;
            }
            0
        },
    }
}

/// Cursor of the device list after a step up or down; the list has the
/// "no device" line and `device_count` devices.
pub fn step_device_cursor(cursor: usize, down: bool, device_count: usize) -> (r: usize)
    ensures
        down ==> r == if cursor < device_count { cursor + 1 } else { cursor as int },
        !down ==> r == if cursor > 0 { cursor - 1 } else { cursor as int },
{
    if down {
        if cursor < device_count {
            cursor + 1
        } else {
            cursor
        }
    } else if cursor > 0 {
        cursor - 1
    } else {
        cursor
    }
}

// ---------------------------------------------------------------------
// Scrolling without wrapping: one screen row per log row
// ---------------------------------------------------------------------

/// Largest first row of the view: the last row when wrapping (one long row
/// may fill the screen), else the row that puts the last one at the bottom.
pub open spec fn spec_max_scroll(row_count: int, soft_wrap: bool, viewport_height: int) -> int {
    let h = if viewport_height < 1 { 1 } else { viewport_height };
    if soft_wrap {
        if row_count >= 1 { row_count - 1 } else { 0 }
    } else {
        if row_count >= h { row_count - h } else { 0 }
    }
}

pub fn max_scroll(row_count: usize, soft_wrap: bool, viewport_height: usize) -> (r: usize)
    ensures
        r == spec_max_scroll(row_count as int, soft_wrap, viewport_height as int),
{
    let h = if viewport_height < 1 {
        1
    } else {
        viewport_height
    };
    if soft_wrap {
        row_count.saturating_sub(1)
    } else {
        row_count.saturating_sub(h)
    }
}

/// The first row and skipped wrap lines of the view brought back inside
/// the rows: none when there are none; a first row past the end moves to
/// the last row; without wrapping, the first row is at most the largest one
/// and nothing is skipped. (The skipped lines of a wrapped first row are
/// bounded by `clamp_wrap_skip` once its height is known.)
pub fn clamp_top_row(offset: usize, skip: usize, row_count: usize, soft_wrap: bool, viewport_height: usize) -> (r: (usize, usize))
    ensures
        row_count == 0 ==> r == (0usize, 0usize),
        row_count > 0 && soft_wrap ==> r == if offset >= row_count {
            ((row_count - 1) as usize, 0usize)
        } else {
            (offset, skip)
        },
        row_count > 0 && !soft_wrap ==> r.1 == 0 && r.0 == if offset <= spec_max_scroll(row_count as int, false, viewport_height as int) {
            offset as int
        } else {
            spec_max_scroll(row_count as int, false, viewport_height as int)
        },
{
    if row_count == 0 {
        return (0, 0);
    }
    let mut o = offset;
    let mut s = skip;
    if o >= row_count {
        o = row_count - 1;
        s = 0;
    }
    if !soft_wrap {
        let max = max_scroll(row_count, false, viewport_height);
        if o > max {
            o = max;
        }
        s = 0;
    }
    (o, s)
}

/// Skipped lines of the first row kept below its height `top_height`.
pub fn clamp_wrap_skip(skip: usize, top_height: usize) -> (r: usize)
    ensures
        r == if skip >= top_height {
            if top_height >= 1 { top_height - 1 } else { 0 }
        } else {
            skip as int
        },
{
    if skip >= top_height {
        top_height.saturating_sub(1)
    } else {
        skip
    }
}

/// First row after scrolling `delta` rows (up when negative) without
/// wrapping: down to row 0 at most, and down the rows no further than
/// `max`.
pub fn scroll_rows(offset: usize, delta: isize, max: usize) -> (r: usize)
    ensures
        delta < 0 ==> r == if offset + delta >= 0 { offset + delta } else { 0 },
        delta >= 0 ==> r == if offset + delta <= max { offset + delta } else { max as int },
{
    if delta < 0 {
        let d = magnitude(delta);
        offset.saturating_sub(d)
    } else {
        let o = offset.saturating_add(delta as usize);
        if o <= max {
            o
        } else {
            max
        }
    }
}

/// `|delta|` as an unsigned number.
pub fn magnitude(delta: isize) -> (r: usize)
    ensures
        r == if delta < 0 { -delta } else { delta as int },
{
    if delta < 0 {
        ((-(delta + 1)) as usize) + 1
    } else {
        delta as usize
    }
}

/// First row of a window of `height` rows moved as little as possible so
/// that it shows `row`.
pub fn scroll_to_show(offset: usize, row: usize, height: usize) -> (r: usize)
    ensures
        row < offset ==> r == row,
        height >= 1 && row >= offset + height ==> r == row + 1 - height,
        height < 1 && row >= offset + 1 ==> r == row,
        row >= offset && row < offset + if height < 1 { 1 } else { height as int } ==> r == offset,
        r <= row < r + if height < 1 { 1 } else { height as int },
{
    let h = if height < 1 {
        1
    } else {
        height
    };
    if row < offset {
        row
    } else if row - offset >= h {
        row - h + 1
    } else {
        offset
    }
}

/// Row reached from `row` by `delta` rows, kept among `row_count` rows
/// (unchanged when there are none).
pub fn step_row(row: usize, delta: isize, row_count: usize) -> (r: usize)
    ensures
        row_count == 0 ==> r == row,
        row_count > 0 && delta < 0 ==> r == if row + delta >= 0 { row + delta } else { 0 },
        row_count > 0 && delta >= 0 ==> r == if row + delta <= row_count - 1 {
            row + delta
        } else {
            row_count - 1
        },
{
    if row_count == 0 {
        return row;
    }
    if delta < 0 {
        row.saturating_sub(magnitude(delta))
    } else {
        let r = row.saturating_add(delta as usize);
        if r <= row_count - 1 {
            r
        } else {
            row_count - 1
        }
    }
}

/// Column for a caret placed on a line of `len` characters at the
/// preferred column: on the line's last character at most.
pub fn clamp_col(len: usize, preferred: usize) -> (r: usize)
    ensures
        len == 0 ==> r == 0,
        len > 0 ==> r == if preferred <= len - 1 { preferred as int } else { len - 1 },
{
    if len == 0 {
        0
    } else if preferred <= len - 1 {
        preferred
    } else {
        len - 1
    }
}

/// Caret column after `Home` (or `End`) on `line` with the caret at `col`:
/// the start (or the end) of the display row holding the caret. Without
/// wrapping that row is the whole line and its end is the line end, just
/// past the last character, so that Shift+End selects through it. With
/// wrapping the row is the wrapped row at `width` with hanging `indent`;
/// the end of the last row is the line end, and of an earlier row its last
/// character (the next position already starts the row below).
pub fn line_bound_col(line: &str, col: usize, home: bool, soft_wrap: bool, width: usize, indent: usize) -> (r: usize)
    ensures
        !soft_wrap ==> r == if home { 0 } else { line@.len() as int },
        soft_wrap ==> ({
            let (k, start, len) = spec_wrap_chunk_at_col(line@.len() as int, width as int, indent as int, col as int);
            r == if home {
                start
            } else if start + len >= line@.len() {
                line@.len() as int
            } else {
                start + len - 1
            }
        }),
{
    let n = chars_of(line).len();
    if !soft_wrap {
        if home {
            return 0;
        }
        return n;
    }
    let (_, start, len) = wrap_chunk_at_col(line, width, indent, col);
    proof {
        if line@.len() > 0 {
            lemma_chunk_at_col_bounds(line@.len() as int, width as int, indent as int, col as int);
        }
    }
    if home {
        start
    } else if start >= n || len >= n - start {
        n
    } else {
        start + len - 1
    }
}

// ---------------------------------------------------------------------
// Scrolling with wrapping: rows of several display lines
// ---------------------------------------------------------------------

/// Display lines of the rows before `k`.
pub open spec fn lines_before(heights: Seq<usize>, k: int) -> int
    decreases k,
{
    if k <= 0 {
        0
    } else {
        lines_before(heights, k - 1) + heights[k - 1]
    }
}

/// Index, counted over all rows of `heights`, of line `skip` of row `row`.
pub open spec fn line_of(heights: Seq<usize>, row: int, skip: int) -> int {
    lines_before(heights, row) + skip
}

pub open spec fn total_lines(heights: Seq<usize>) -> int {
    lines_before(heights, heights.len() as int)
}

/// Every row takes at least one display line.
pub open spec fn rows_nonempty(heights: Seq<usize>) -> bool {
    forall|i: int| 0 <= i < heights.len() ==> #[trigger] heights[i] >= 1
}

pub proof fn lemma_lines_before_mono(heights: Seq<usize>, i: int, j: int)
    requires
        0 <= i <= j <= heights.len(),
    ensures
        lines_before(heights, i) <= lines_before(heights, j),
        rows_nonempty(heights) ==> lines_before(heights, j) - lines_before(heights, i) >= j - i,
    decreases j - i,
{
    if i < j {
        lemma_lines_before_mono(heights, i, j - 1);
    }
}

/// A line of a row lies before the end of all rows.
pub proof fn lemma_line_below_total(heights: Seq<usize>, row: int, skip: int)
    requires
        0 <= row < heights.len(),
        0 <= skip < heights[row],
    ensures
        0 <= line_of(heights, row, skip) < total_lines(heights),
{
    lemma_lines_before_mono(heights, 0, row);
    lemma_lines_before_mono(heights, row + 1, heights.len() as int);
}

/// Line `line + delta`, kept between the first and the last line of all rows.
pub open spec fn clamped_line(heights: Seq<usize>, line: int, delta: int) -> int {
    let target = line + delta;
    if target < 0 {
        0
    } else if target > total_lines(heights) - 1 {
        total_lines(heights) - 1
    } else {
        target
    }
}

/// Moving down `d` lines and back up `d` lines returns to the line started
/// from when the move down did not stop at the last line (and up then
/// down when the move up did not stop at the first).
pub proof fn law_step_lines_round_trip(heights: Seq<usize>, line: int, d: int)
    requires
        0 <= line < total_lines(heights),
        d >= 0,
    ensures
        line + d <= total_lines(heights) - 1 ==> clamped_line(heights, clamped_line(heights, line, d), -d) == line,
        line - d >= 0 ==> clamped_line(heights, clamped_line(heights, line, -d), d) == line,
{
}

/// The position `delta` display lines below line `skip` of row `row` (above
/// it when negative), where row `i` of the view takes `heights[i]` lines:
/// as far as the first line of the first row and the last line of the last
/// row at most. Scrolling and moving the caret up and down when lines wrap
/// both go this way.
pub fn step_display_lines(heights: &[usize], row: usize, skip: usize, delta: isize) -> (r: (usize, usize))
    requires
        row < heights@.len(),
        skip < heights@[row as int],
        rows_nonempty(heights@),
    ensures
        r.0 < heights@.len(),
        r.1 < heights@[r.0 as int],
        line_of(heights@, r.0 as int, r.1 as int) == clamped_line(
            heights@,
            line_of(heights@, row as int, skip as int),
            delta as int,
        ),
{
    let len = heights.len();
    let mut r = row;
    let mut s = skip;
    let ghost start = line_of(heights@, row as int, skip as int);
    proof {
        lemma_line_below_total(heights@, row as int, skip as int);
    }
    if delta >= 0 {
        let d = delta as usize;
        let mut left = d;
        while left > 0
            invariant
                len == heights@.len(),
                r < len,
                s < heights@[r as int],
                rows_nonempty(heights@),
                left <= d,
                line_of(heights@, r as int, s as int) + left == start + d,
            ensures
                r < len,
                s < heights@[r as int],
                line_of(heights@, r as int, s as int) + left == start + d,
                left == 0 || (r + 1 == len && s + 1 == heights@[r as int]),
            decreases left,
        {
            if s + 1 < heights[r] {
                s = s + 1;
            } else if r + 1 < len {
                assert(lines_before(heights@, r + 1) == lines_before(heights@, r as int) + heights@[r as int]);
                r = r + 1;
                s = 0;
            } else {
                break;
            }
            left = left - 1;
        }
        proof {
            lemma_line_below_total(heights@, r as int, s as int);
            if left > 0 {
                assert(lines_before(heights@, len as int) == lines_before(heights@, r as int) + heights@[r as int]);
            }
        }
    } else {
        let d = magnitude(delta);
        let mut left = d;
        while left > 0
            invariant
                len == heights@.len(),
                r < len,
                s < heights@[r as int],
                rows_nonempty(heights@),
                left <= d,
                line_of(heights@, r as int, s as int) + d == start + left,
            ensures
                r < len,
                s < heights@[r as int],
                line_of(heights@, r as int, s as int) + d == start + left,
                left == 0 || (r == 0 && s == 0),
            decreases left,
        {
            if s > 0 {
                let step = if s < left {
                    s
                } else {
                    left
                };
                s = s - step;
                left = left - step;
            } else if r > 0 {
                assert(lines_before(heights@, r as int) == lines_before(heights@, r - 1) + heights@[r - 1]);
                assert(heights@[r - 1] >= 1);
                r = r - 1;
                s = heights[r] - 1;
                left = left - 1;
            } else {
                break;
            }
        }
        proof {
            lemma_line_below_total(heights@, r as int, s as int);
        }
    }
    (r, s)
}

/// A display line belongs to one row and one line of it: distinct
/// positions have distinct line indices, so a line index names exactly one
/// position of the view.
pub proof fn law_line_of_injective(heights: Seq<usize>, r1: int, s1: int, r2: int, s2: int)
    requires
        0 <= r1 < heights.len(),
        0 <= s1 < heights[r1],
        0 <= r2 < heights.len(),
        0 <= s2 < heights[r2],
        line_of(heights, r1, s1) == line_of(heights, r2, s2),
    ensures
        r1 == r2 && s1 == s2,
{
    if r1 < r2 {
        lemma_lines_before_mono(heights, r1 + 1, r2);
    } else if r2 < r1 {
        lemma_lines_before_mono(heights, r2 + 1, r1);
    }
}

/// Display line of line `chunk` of row `target`, counted from line `skip`
/// of the first row of the view.
pub open spec fn view_line(heights: Seq<usize>, skip: int, target: int, chunk: int) -> int {
    line_of(heights, target, chunk) - skip
}

/// Whether line `chunk` of row `target` is on screen, when the view starts
/// at line `skip` of row 0 of `heights` and shows `view_lines` lines.
pub fn display_line_in_view(heights: &[usize], skip: usize, target: usize, chunk: usize, view_lines: usize) -> (r: bool)
    ensures
        r == (target < heights@.len() && chunk < heights@[target as int] && 0 <= view_line(
            heights@,
            skip as int,
            target as int,
            chunk as int,
        ) < view_lines),
{
    if target >= heights.len() || chunk >= heights[target] {
        return false;
    }
    let limit: u128 = skip as u128 + view_lines as u128;
    let mut acc: u128 = 0;
    let mut i: usize = 0;
    while i < target
        invariant
            target < heights@.len(),
            i <= target,
            acc == lines_before(heights@, i as int),
            acc <= limit + usize::MAX,
            limit == skip + view_lines,
        decreases target - i,
    {
        if acc >= limit {
            proof {
                lemma_lines_before_mono(heights@, i as int, target as int);
            }
            return false;
        }
        acc = acc + heights[i] as u128;
        i = i + 1;
    }
    let line: u128 = acc + chunk as u128;
    line >= skip as u128 && line - (skip as u128) < view_lines as u128
}

// ---------------------------------------------------------------------
// Click targets laid out along a row
// ---------------------------------------------------------------------

/// `a + b` held at `u16::MAX`.
pub open spec fn sat_add16(a: int, b: int) -> int {
    if a + b > u16::MAX { u16::MAX as int } else { a + b }
}

/// Column where label `i` starts: labels of `widths` placed left to right
/// from `x0` with `gap` columns between neighbours (columns held at the
/// screen's largest coordinate).
pub open spec fn label_x(x0: u16, widths: Seq<u16>, gap: u16, i: int) -> int
    decreases i,
{
    if i <= 0 {
        x0 as int
    } else {
        sat_add16(sat_add16(label_x(x0, widths, gap, i - 1), widths[i - 1] as int), gap as int)
    }
}

/// The click rectangles of labels of `widths` laid out along row `y` from
/// column `x0`, `gap` columns apart, one row high.
pub fn row_hit_rects(x0: u16, y: u16, widths: &Vec<u16>, gap: u16) -> (r: Vec<Rect>)
    ensures
        r@.len() == widths@.len(),
        forall|i: int| 0 <= i < r@.len() ==> #[trigger] r@[i] == (Rect {
            x: label_x(x0, widths@, gap, i) as u16,
            y,
            width: widths@[i],
            height: 1,
        }),
{
    let mut out: Vec<Rect> = Vec::new();
    let mut x = x0;
    let mut i: usize = 0;
    while i < widths.len()
        invariant
            i <= widths@.len(),
            out@.len() == i,
            x as int == label_x(x0, widths@, gap, i as int),
            forall|k: int| 0 <= k < i ==> #[trigger] out@[k] == (Rect {
                x: label_x(x0, widths@, gap, k) as u16,
                y,
                width: widths@[k],
                height: 1,
            }),
        decreases widths@.len() - i,
    {
        out.push(Rect { x, y, width: widths[i], height: 1 });
        x = x.saturating_add(widths[i]).saturating_add(gap);
        i = i + 1;
    }
    out
}

} // verus!
