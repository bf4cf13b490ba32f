//! Mouse text selection and caret geometry in the log viewport.
//!
//! Positions are gaps between characters: column `c` of a line sits just
//! before its `c`-th character, and `c == len` is the gap at the line end.
//! Lines are obtained through a caller-supplied lookup; what the lookup
//! answers is recorded in the contracts as the sequence of its replies.

use vstd::prelude::*;
use crate::filter::opt_view;
use crate::text::{chars_of, push_char, push_chars};
use crate::ui::display::{
    effective_hang_indent, lemma_chunks_bounds, lemma_chunks_count, spec_hang, wrap_chunks,
    WrapChunks,
};
use crate::ui::format::{message_column_indent_line, spec_message_column_indent_line};
use crate::ui::theme::{Color, Theme};
use crate::text::{spec_to_lowercase, to_lowercase, string_from_chars};

verus! {

/// Character position in the filtered log list.
#[derive(Debug, Clone, Copy, PartialEq, Eq, Structural, PartialOrd, Ord, Hash)]
pub struct LogPos {
    pub row: usize,
    pub col: usize,
}

/// Gap order: by row, then by column.
pub open spec fn pos_le(a: LogPos, b: LogPos) -> bool {
    a.row < b.row || (a.row == b.row && a.col <= b.col)
}

fn pos_le_exec(a: LogPos, b: LogPos) -> (r: bool)
    ensures
        r == pos_le(a, b),
{
    a.row < b.row || (a.row == b.row && a.col <= b.col)
}

/// The state of a selection: both ends (when set) and whether a mouse drag
/// is in progress.
pub struct SelectionView {
    pub anchor: Option<LogPos>,
    pub cursor: Option<LogPos>,
    pub dragging: bool,
}

#[derive(Debug, Clone)]
pub struct TextSelection {
    anchor: Option<LogPos>,
    cursor: Option<LogPos>,
    dragging: bool,
}

impl View for TextSelection {
    type V = SelectionView;

    closed spec fn view(&self) -> SelectionView {
        SelectionView { anchor: self.anchor, cursor: self.cursor, dragging: self.dragging }
    }
}

impl Default for TextSelection {
    fn default() -> (r: TextSelection)
        ensures
            r@ == (SelectionView { anchor: None, cursor: None, dragging: false }),
    {
        TextSelection { anchor: None, cursor: None, dragging: false }
    }
}

/// Half-open range `[start, end)` of a selection, ordered by gap order.
pub open spec fn spec_normalized(v: SelectionView) -> Option<(LogPos, LogPos)> {
    match (v.anchor, v.cursor) {
        (Some(a), Some(c)) => if pos_le(a, c) {
            Some((a, c))
        } else {
            Some((c, a))
        },
        _ => None,
    }
}

/// Both ends are set and differ.
pub open spec fn spec_has_extent(v: SelectionView) -> bool {
    v.anchor is Some && v.cursor is Some && v.anchor != v.cursor
}

/// Whether the character at `(row, col)` lies in the selection.
pub open spec fn spec_sel_contains(v: SelectionView, row: int, col: int) -> bool {
    match spec_normalized(v) {
        Some((s, e)) => {
            let p = LogPos { row: row as usize, col: col as usize };
            pos_le(s, p) && !pos_le(e, p)
        },
        None => false,
    }
}

/// The lookup `f` answered `outs[i]` when asked for row `base + i`.
pub open spec fn fetched<F: Fn(usize) -> Option<String>>(f: F, base: int, outs: Seq<Option<String>>) -> bool {
    forall|i: int| 0 <= i < outs.len() ==> call_ensures(f, ((base + i) as usize,), #[trigger] outs[i])
}

/// The text of each reply, taken as characters.
pub open spec fn reply_views(outs: Seq<Option<String>>) -> Seq<Option<Seq<char>>> {
    outs.map_values(|o: Option<String>| opt_view(o))
}

pub open spec fn min_int(a: int, b: int) -> int {
    if a <= b {
        a
    } else {
        b
    }
}

/// What row `row` (holding `line`) adds to the text copied out of `[s, e)`.
/// A non-empty row after the first is preceded by a line break; an empty row
/// before the last adds a line break of its own.
pub open spec fn row_piece(s: LogPos, e: LogPos, row: int, line: Seq<char>) -> Seq<char> {
    let len = line.len() as int;
    if len == 0 {
        if row < e.row {
            seq!['\n']
        } else {
            Seq::empty()
        }
    } else {
        let from = if row == s.row {
            min_int(s.col as int, len)
        } else {
            0
        };
        let to = if row == e.row {
            min_int(e.col as int, len)
        } else {
            len
        };
        (if row > s.row {
            seq!['\n']
        } else {
            Seq::empty()
        }) + (if from < to {
            line.subrange(from, to)
        } else {
            Seq::empty()
        })
    }
}

/// The pieces of the rows `s.row ..` whose texts are `lines`, joined.
pub open spec fn extract_pieces(s: LogPos, e: LogPos, lines: Seq<Seq<char>>) -> Seq<char>
    decreases lines.len(),
{
    if lines.len() == 0 {
        Seq::empty()
    } else {
        extract_pieces(s, e, lines.drop_last()) + row_piece(
            s,
            e,
            s.row + lines.len() - 1,
            lines.last(),
        )
    }
}

/// The lookup was asked for rows `s.row ..` in order, up to `e.row`, and
/// stopped early only at a row it had no line for.
pub open spec fn extract_replies_ok(s: LogPos, e: LogPos, outs: Seq<Option<Seq<char>>>) -> bool {
    let n = e.row - s.row + 1;
    &&& 1 <= outs.len() <= n
    &&& forall|i: int| 0 <= i < outs.len() - 1 ==> (#[trigger] outs[i]) is Some
    &&& outs.len() < n ==> outs.last() is None
}

/// The copied text given the lookup's replies: nothing when a row is
/// missing or when the text is empty.
pub open spec fn extract_outcome(s: LogPos, e: LogPos, outs: Seq<Option<Seq<char>>>) -> Option<Seq<char>> {
    if outs.last() is None {
        None
    } else {
        let t = extract_pieces(s, e, outs.map_values(|o: Option<Seq<char>>| o->0));
        if t.len() == 0 {
            None
        } else {
            Some(t)
        }
    }
}

/// Some replies of the lookup, asked for rows from `s.row` on, give `r`.
pub open spec fn extract_result_ok<F: Fn(usize) -> Option<String>>(
    line_at: F,
    s: LogPos,
    e: LogPos,
    r: Option<String>,
) -> bool {
    exists|outs: Seq<Option<String>>|
        #![trigger fetched(line_at, s.row as int, outs)]
        {
            &&& fetched(line_at, s.row as int, outs)
            &&& extract_replies_ok(s, e, reply_views(outs))
            &&& opt_view(r) == extract_outcome(s, e, reply_views(outs))
        }
}

impl TextSelection {
    pub fn clear(&mut self)
        ensures
            final(self)@ == (SelectionView { anchor: None, cursor: None, dragging: false }),
    {
        self.anchor = None;
        self.cursor = None;
        self.dragging = false;
    }

    pub fn is_active(&self) -> (r: bool)
        ensures
            r == (self@.anchor is Some && self@.cursor is Some),
    {
        self.anchor.is_some() && self.cursor.is_some()
    }

    pub fn dragging(&self) -> (r: bool)
        ensures
            r == self@.dragging,
    {
        self.dragging
    }

    pub fn start(&mut self, pos: LogPos)
        ensures
            final(self)@ == (SelectionView { anchor: Some(pos), cursor: Some(pos), dragging: true }),
    {
        self.anchor = Some(pos);
        self.cursor = Some(pos);
        self.dragging = true;
    }

    pub fn extend_to(&mut self, pos: LogPos)
        ensures
            final(self)@ == (SelectionView { cursor: Some(pos), ..old(self)@ }),
    {
        self.cursor = Some(pos);
    }

    /// Set a non-dragging selection range (word/line click, keyboard Shift).
    pub fn set_range(&mut self, anchor: LogPos, cursor: LogPos)
        ensures
            final(self)@ == (SelectionView { anchor: Some(anchor), cursor: Some(cursor), dragging: false }),
    {
        self.anchor = Some(anchor);
        self.cursor = Some(cursor);
        self.dragging = false;
    }

    pub fn finish_drag(&mut self)
        ensures
            final(self)@ == (SelectionView { dragging: false, ..old(self)@ }),
    {
        self.dragging = false;
    }

    /// Half-open range `[start, end)` ordered by gap order.
    /// `end` is exclusive: a selection ending at `col == line_len` includes the
    /// last character of that line.
    pub fn normalized_range(&self) -> (r: Option<(LogPos, LogPos)>)
        ensures
            r == spec_normalized(self@),
    {
        match (self.anchor, self.cursor) {
            (Some(a), Some(c)) => if pos_le_exec(a, c) {
                Some((a, c))
            } else {
                Some((c, a))
            },
            _ => None,
        }
    }

    pub fn has_extent(&self) -> (r: bool)
        ensures
            r == spec_has_extent(self@),
    {
        match (self.anchor, self.cursor) {
            (Some(a), Some(c)) => a != c,
            _ => false,
        }
    }

    /// A mouse drag reaching `pos`: while dragging the selection extends to
    /// it; otherwise a drag starts there when the pointer is over the log
    /// view and the selection has no extent (a word or line picked by a
    /// multi-click is kept). Returns whether the caret moves to `pos`.
    pub fn drag_to(&mut self, pos: LogPos, over_view: bool) -> (moved: bool)
        ensures
            old(self)@.dragging ==> moved && final(self)@ == (SelectionView {
                cursor: Some(pos),
                ..old(self)@
            }),
            !old(self)@.dragging && over_view && !spec_has_extent(old(self)@) ==> moved && final(self)@ == (SelectionView { anchor: Some(pos), cursor: Some(pos), dragging: true }),
            !old(self)@.dragging && !(over_view && !spec_has_extent(old(self)@)) ==> !moved && final(self)@ == old(self)@,
    {
        if self.dragging {
            self.extend_to(pos);
            true
        } else if over_view && !self.has_extent() {
            self.start(pos);
            true
        } else {
            false
        }
    }

    /// Releasing the mouse button ends a drag; a selection without extent
    /// is cleared.
    pub fn release(&mut self)
        ensures
            spec_has_extent(old(self)@) ==> final(self)@ == (SelectionView { dragging: false, ..old(self)@ }),
            !spec_has_extent(old(self)@) ==> final(self)@ == (SelectionView {
                anchor: None,
                cursor: None,
                dragging: false,
            }),
    {
        self.finish_drag();
        if !self.has_extent() {
            self.clear();
        }
    }

    pub fn contains(&self, row: usize, col: usize) -> (r: bool)
        ensures
            r == spec_sel_contains(self@, row as int, col as int),
    {
        let (start, end) = match self.normalized_range() {
            Some(p) => p,
            None => {
                return false;
            },
        };
        let pos = LogPos { row, col };
        pos_le_exec(start, pos) && !pos_le_exec(end, pos)
    }

    /// Extract selected plain text from formatted log lines using half-open
    /// endpoints `[start, end)`. A selection whose end gap is `col == line_len`
    /// includes the last character of that line.
    pub fn extract_text(&self, line_at: impl Fn(usize) -> Option<String>) -> (r: Option<String>)
        requires
            forall|row: usize| call_requires(line_at, (row,)),
        ensures
            match spec_normalized(self@) {
                None => r is None,
                Some((s, e)) => extract_result_ok(line_at, s, e, r),
            },
    {
        let (start, end) = match self.normalized_range() {
            Some(p) => p,
            None => {
                return None;
            },
        };
        let mut out = String::new();
        let mut row = start.row;
        let ghost mut outs: Seq<Option<String>> = Seq::empty();
        loop
            invariant
                forall|row: usize| call_requires(line_at, (row,)),
                spec_normalized(self@) == Some((start, end)),
                pos_le(start, end),
                start.row <= row <= end.row,
                outs.len() == row - start.row,
                fetched(line_at, start.row as int, outs),
                forall|i: int| 0 <= i < outs.len() ==> (#[trigger] outs[i]) is Some,
                out@ == extract_pieces(
                    start,
                    end,
                    reply_views(outs).map_values(|o: Option<Seq<char>>| o->0),
                ),
            decreases end.row - row,
        {
            let got = line_at(row);
            let ghost prev = outs;
            proof {
                outs = outs.push(got);
                assert(reply_views(outs).map_values(|o: Option<Seq<char>>| o->0).drop_last()
                    =~= reply_views(prev).map_values(|o: Option<Seq<char>>| o->0));
            }
            let line = match got {
                Some(l) => l,
                None => {
                    proof {
                        assert(reply_views(outs).last() is None);
                        assert forall|i: int| 0 <= i < reply_views(outs).len() - 1 implies (#[trigger] reply_views(outs)[i]) is Some by {
                            assert(outs[i] is Some);
                        }
                        assert(fetched(line_at, start.row as int, outs));
                        assert(extract_replies_ok(start, end, reply_views(outs)));
                        assert(opt_view(None) == extract_outcome(start, end, reply_views(outs)));
                        assert(extract_result_ok(line_at, start, end, None));
                    }
                    return None;
                },
            };
            let chars = chars_of(line.as_str());
            let len = chars.len();
            if len == 0 {
                if row < end.row {
                    push_char(&mut out, '\n');
                }
            } else {
                let from = if row == start.row {
                    if start.col < len {
                        start.col
                    } else {
                        len
                    }
                } else {
                    0
                };
                let to = if row == end.row {
                    if end.col < len {
                        end.col
                    } else {
                        len
                    }
                } else {
                    len
                };
                if row > start.row {
                    push_char(&mut out, '\n');
                }
                if from < to {
                    push_chars(&mut out, &chars, from, to);
                }
            }
            proof {
                let lines = reply_views(outs).map_values(|o: Option<Seq<char>>| o->0);
                assert(lines.last() == line@);
                assert(out@ =~= extract_pieces(start, end, lines));
            }
            if row == end.row {
                proof {
                    assert forall|i: int| 0 <= i < reply_views(outs).len() - 1 implies (#[trigger] reply_views(outs)[i]) is Some by {
                        assert(outs[i] is Some);
                    }
                    assert(fetched(line_at, start.row as int, outs));
                    assert(extract_replies_ok(start, end, reply_views(outs)));
                }
                if out.as_str().is_empty() {
                    assert(opt_view(None) == extract_outcome(start, end, reply_views(outs)));
                    assert(extract_result_ok(line_at, start, end, None));
                    return None;
                } else {
                    assert(opt_view(Some(out)) == extract_outcome(start, end, reply_views(outs)));
                    assert(extract_result_ok(line_at, start, end, Some(out)));
                    return Some(out);
                }
            }
            row = row + 1;
        }
    }
}


/// Word characters for double-click expand: ASCII letters, digits, underscore.
pub open spec fn spec_is_word_char(c: char) -> bool {
    ('0' <= c && c <= '9') || ('a' <= c && c <= 'z') || ('A' <= c && c <= 'Z') || c == '_'
}

pub fn is_word_char(c: char) -> (r: bool)
    ensures
        r == spec_is_word_char(c),
{
    ('0' <= c && c <= '9') || ('a' <= c && c <= 'z') || ('A' <= c && c <= 'Z') || c == '_'
}

/// `[start, end)` is the run of word characters around `c`, as long as it
/// can be made.
pub open spec fn is_word_run(s: Seq<char>, c: int, start: int, end: int) -> bool {
    &&& 0 <= start <= c < end <= s.len()
    &&& forall|k: int| start <= k < end ==> spec_is_word_char(#[trigger] s[k])
    &&& (start == 0 || !spec_is_word_char(s[start - 1]))
    &&& (end == s.len() || !spec_is_word_char(s[end]))
}

/// Half-open `[start, end_exclusive)` columns for the word (or single non-word
/// char) at `col`. An empty line returns `(0, 0)` (zero-width selection).
pub fn expand_word(line: &str, col: usize) -> (r: (usize, usize))
    ensures
        line@.len() == 0 ==> r == (0usize, 0usize),
        line@.len() > 0 ==> {
            let c = min_int(col as int, line@.len() - 1);
            if !spec_is_word_char(line@[c]) {
                r.0 == c && r.1 == c + 1
            } else {
                is_word_run(line@, c, r.0 as int, r.1 as int)
            }
        },
{
    let chars = chars_of(line);
    if chars.len() == 0 {
        return (0, 0);
    }
    let col = if col < chars.len() - 1 {
        col
    } else {
        chars.len() - 1
    };
    if !is_word_char(chars[col]) {
        return (col, col + 1);
    }
    let mut start = col;
    while start > 0 && is_word_char(chars[start - 1])
        invariant
            start <= col < chars@.len(),
            forall|k: int| start <= k <= col ==> spec_is_word_char(#[trigger] chars@[k]),
        decreases start,
    {
        start = start - 1;
    }
    let mut end = col;
    while end < chars.len() - 1 && is_word_char(chars[end + 1])
        invariant
            col <= end < chars@.len(),
            forall|k: int| col <= k <= end ==> spec_is_word_char(#[trigger] chars@[k]),
        decreases chars@.len() - end,
    {
        end = end + 1;
    }
    proof {
        assert forall|k: int| start <= k < end + 1 implies spec_is_word_char(#[trigger] chars@[k]) by {
            if k <= col {
            } else {
            }
        }
    }
    (start, end + 1)
}

/// Half-open columns covering the whole logical line: `(0, line_len)`.
/// An empty line returns `(0, 0)`.
pub fn expand_line(line: &str) -> (r: (usize, usize))
    ensures
        r.0 == 0,
        r.1 == line@.len(),
{
    let len = chars_of(line).len();
    (0, len)
}

/// The caret clamped to row `row` whose line the lookup gave as `reply`.
pub open spec fn clamp_outcome(pos: LogPos, row: int, reply: Option<String>) -> Option<LogPos> {
    match reply {
        Some(l) => Some(LogPos { row: row as usize, col: min_int(pos.col as int, l@.len() as int) as usize }),
        None => None,
    }
}

/// Clamp a caret into a valid position for the filtered list.
pub fn clamp_log_pos(pos: LogPos, row_count: usize, line_at: impl Fn(usize) -> Option<String>) -> (r: Option<LogPos>)
    requires
        forall|row: usize| call_requires(line_at, (row,)),
    ensures
        row_count == 0 ==> r is None,
        row_count > 0 ==> {
            let row = min_int(pos.row as int, row_count - 1);
            exists|reply: Option<String>|
                call_ensures(line_at, (row as usize,), reply) && r == #[trigger] clamp_outcome(pos, row, reply)
        },
{
    if row_count == 0 {
        return None;
    }
    let row = if pos.row < row_count - 1 {
        pos.row
    } else {
        row_count - 1
    };
    let reply = line_at(row);
    let ghost g = reply;
    let r = match reply {
        Some(line) => {
            let len = chars_of(line.as_str()).len();
            let col = if pos.col < len {
                pos.col
            } else {
                len
            };
            Some(LogPos { row, col })
        },
        None => None,
    };
    assert(min_int(pos.row as int, row_count - 1) == row);
    assert(call_ensures(line_at, (row,), g) && r == clamp_outcome(pos, row as int, g));
    r
}

/// The row whose length a horizontal caret step asks for, if any.
pub open spec fn step_asks(pos: LogPos, delta: int, row_count: int) -> Option<int> {
    let row = min_int(pos.row as int, row_count - 1);
    if row_count == 0 || delta == 0 {
        None
    } else if delta < 0 {
        if pos.col > 0 || row == 0 {
            None
        } else {
            Some(row - 1)
        }
    } else {
        Some(row)
    }
}

/// The caret after one step left (`delta < 0`) or right (`delta > 0`), with
/// `len` the length of the row that `step_asks` names.
pub open spec fn step_outcome(pos: LogPos, delta: int, row_count: int, len: int) -> LogPos {
    let row = min_int(pos.row as int, row_count - 1);
    if row_count == 0 || delta == 0 {
        pos
    } else if delta < 0 {
        if pos.col > 0 {
            LogPos { row: row as usize, col: (pos.col - 1) as usize }
        } else if row > 0 {
            LogPos { row: (row - 1) as usize, col: len as usize }
        } else {
            LogPos { row: row as usize, col: pos.col }
        }
    } else if pos.col < len {
        LogPos { row: row as usize, col: (pos.col + 1) as usize }
    } else if row + 1 < row_count {
        LogPos { row: (row + 1) as usize, col: 0 }
    } else {
        LogPos { row: row as usize, col: pos.col }
    }
}

/// Step caret left/right across logical line boundaries.
pub fn step_caret_horizontal(
    pos: LogPos,
    delta: isize,
    row_count: usize,
    line_len_at: impl Fn(usize) -> usize,
) -> (r: LogPos)
    requires
        forall|row: usize| call_requires(line_len_at, (row,)),
    ensures
        exists|len: usize|
            {
                &&& (step_asks(pos, delta as int, row_count as int) matches Some(q) ==> call_ensures(
                    line_len_at,
                    (q as usize,),
                    len,
                ))
                &&& r == #[trigger] step_outcome(pos, delta as int, row_count as int, len as int)
            },
{
    if row_count == 0 || delta == 0 {
        assert(pos == step_outcome(pos, delta as int, row_count as int, 0));
        return pos;
    }
    let mut row = if pos.row < row_count - 1 {
        pos.row
    } else {
        row_count - 1
    };
    let mut col = pos.col;
    if delta < 0 {
        if col > 0 {
            col = col - 1;
            assert(LogPos { row, col } == step_outcome(pos, delta as int, row_count as int, 0));
        } else if row > 0 {
            row = row - 1;
            col = line_len_at(row);
            assert(LogPos { row, col } == step_outcome(pos, delta as int, row_count as int, col as int));
        } else {
            assert(LogPos { row, col } == step_outcome(pos, delta as int, row_count as int, 0));
        }
    } else {
        let len = line_len_at(row);
        if col < len {
            col = col + 1;
        } else if row + 1 < row_count {
            row = row + 1;
            col = 0;
        }
        assert(LogPos { row, col } == step_outcome(pos, delta as int, row_count as int, len as int));
    }
    LogPos { row, col }
}


/// A screen rectangle in terminal cells.
#[derive(Debug, Clone, Copy, PartialEq, Eq, Structural, Default)]
pub struct Rect {
    pub x: u16,
    pub y: u16,
    pub width: u16,
    pub height: u16,
}

/// Viewport state needed to map screen coordinates to log positions.
#[derive(Debug, Clone, Copy)]
pub struct ViewportMap {
    pub area: Rect,
    pub scroll_offset: usize,
    pub wrap_skip: usize,
    pub col_offset: usize,
    pub soft_wrap: bool,
    pub viewport_width: usize,
    pub viewport_height: usize,
}

pub open spec fn rect_contains(r: Rect, col: u16, row: u16) -> bool {
    &&& col >= r.x
    &&& col < r.x.saturating_add(r.width)
    &&& row >= r.y
    &&& row < r.y.saturating_add(r.height)
}

fn contains(rect: Rect, col: u16, row: u16) -> (b: bool)
    ensures
        b == rect_contains(rect, col, row),
{
    col >= rect.x && col < rect.x.saturating_add(rect.width) && row >= rect.y && row
        < rect.y.saturating_add(rect.height)
}

/// The wrap width used by the viewport: at least one cell.
pub open spec fn view_width(map: ViewportMap) -> int {
    if map.viewport_width < 1 {
        1
    } else {
        map.viewport_width as int
    }
}

/// The wrap rows of a formatted line at width `w`, with the hanging indent
/// taken from the line's message column.
pub open spec fn line_chunks(line: Seq<char>, w: int) -> Seq<(int, int)> {
    wrap_chunks(line.len() as int, w, spec_message_column_indent_line(line))
}

/// Progress of a walk down the viewport: still going at display row `d`
/// with `skip` wrap rows left to skip, or finished with a result.
pub enum Walk<R> {
    Going(usize, usize),
    Done(R),
}

/// Where a click at `(col, row)` lands when lines are not wrapped, given the
/// line that the lookup gave for its row.
pub open spec fn mouse_nowrap_pick(col: u16, map: ViewportMap, log_row: int, reply: Option<Seq<char>>) -> Option<LogPos> {
    match reply {
        None => None,
        Some(line) => {
            let len = line.len() as int;
            if len == 0 {
                Some(LogPos { row: log_row as usize, col: 0 })
            } else {
                let t = map.col_offset + (col - map.area.x);
                Some(LogPos { row: log_row as usize, col: (if t >= len { len } else { t }) as usize })
            }
        },
    }
}

/// Outcome of a click when lines are not wrapped.
pub open spec fn mouse_nowrap_ok<F: Fn(usize) -> Option<String>>(
    line_at: F,
    col: u16,
    row: u16,
    map: ViewportMap,
    row_count: usize,
    r: Option<LogPos>,
) -> bool {
    let display_row = row - map.area.y;
    let log_row = map.scroll_offset + display_row;
    if display_row >= map.viewport_height || log_row >= row_count {
        r is None
    } else {
        exists|reply: Option<String>|
            call_ensures(line_at, (log_row as usize,), reply) && r == #[trigger] mouse_nowrap_pick(
                col,
                map,
                log_row,
                opt_view(reply),
            )
    }
}

/// Where a click at column `col_in` of the viewport lands on the wrap row
/// `(cstart, clen)` of line `log_row`, a line of `len` characters with
/// hanging indent `hang`.
pub open spec fn mouse_wrap_pick(len: int, cstart: int, clen: int, hang: int, col_in: int, log_row: int) -> LogPos {
    let is_cont = cstart > 0 && hang > 0;
    if is_cont && col_in < hang {
        LogPos { row: log_row as usize, col: cstart as usize }
    } else {
        let content = if is_cont {
            col_in - hang
        } else {
            col_in
        };
        let cic = if content >= clen {
            if cstart + clen == len {
                clen
            } else {
                clen - 1
            }
        } else {
            content
        };
        LogPos { row: log_row as usize, col: (cstart + cic) as usize }
    }
}

/// The click walk through the wrap rows `j..` of one line.
pub open spec fn mouse_line_walk(
    line: Seq<char>,
    cs: Seq<(int, int)>,
    j: int,
    d: usize,
    skip: usize,
    target: int,
    col_in: int,
    hang: int,
    log_row: int,
) -> Walk<Option<LogPos>>
    decreases cs.len() - j,
{
    if j >= cs.len() || j < 0 {
        Walk::Going(d, skip)
    } else if skip > 0 {
        mouse_line_walk(line, cs, j + 1, d, (skip - 1) as usize, target, col_in, hang, log_row)
    } else if d == target {
        Walk::Done(Some(mouse_wrap_pick(line.len() as int, cs[j].0, cs[j].1, hang, col_in, log_row)))
    } else {
        mouse_line_walk(line, cs, j + 1, (d + 1) as usize, skip, target, col_in, hang, log_row)
    }
}

/// The click walk after the lookup gave `replies` for rows from the scroll
/// offset on.
pub open spec fn mouse_wrap_fold(
    col: u16,
    row: u16,
    map: ViewportMap,
    row_count: usize,
    replies: Seq<Option<Seq<char>>>,
) -> Walk<Option<LogPos>>
    decreases replies.len(),
{
    if replies.len() == 0 {
        Walk::Going(0, map.wrap_skip)
    } else {
        match mouse_wrap_fold(col, row, map, row_count, replies.drop_last()) {
            Walk::Done(r) => Walk::Done(r),
            Walk::Going(d, skip) => if map.scroll_offset + replies.len() - 1 >= row_count {
                Walk::Done(None)
            } else {
                match replies.last() {
                None => Walk::Done(None),
                Some(line) => {
                    let w = view_width(map);
                    mouse_line_walk(
                        line,
                        line_chunks(line, w),
                        0,
                        d,
                        skip,
                        row - map.area.y,
                        col - map.area.x,
                        spec_hang(spec_message_column_indent_line(line), w),
                        map.scroll_offset + replies.len() - 1,
                    )
                },
            }},
        }
    }
}

/// Outcome of a click when lines are wrapped: for some replies of the
/// lookup, the walk finished with `r`, or ran out of rows with no result.
pub open spec fn mouse_wrap_ok<F: Fn(usize) -> Option<String>>(
    line_at: F,
    col: u16,
    row: u16,
    map: ViewportMap,
    row_count: usize,
    r: Option<LogPos>,
) -> bool {
    exists|outs: Seq<Option<String>>|
        #![trigger fetched(line_at, map.scroll_offset as int, outs)]
        {
            &&& fetched(line_at, map.scroll_offset as int, outs)
            &&& match mouse_wrap_fold(col, row, map, row_count, reply_views(outs)) {
                Walk::Done(x) => r == x,
                Walk::Going(_, _) => map.scroll_offset + outs.len() >= row_count && r is None,
            }
        }
}

fn mouse_to_log_pos_nowrap(
    col: u16,
    row: u16,
    map: &ViewportMap,
    line_at: impl Fn(usize) -> Option<String>,
    row_count: usize,
) -> (r: Option<LogPos>)
    requires
        forall|row: usize| call_requires(line_at, (row,)),
        rect_contains(map.area, col, row),
    ensures
        mouse_nowrap_ok(line_at, col, row, *map, row_count, r),
{
    let display_row = (row - map.area.y) as usize;
    if display_row >= map.viewport_height {
        return None;
    }
    if map.scroll_offset >= row_count || display_row >= row_count - map.scroll_offset {
        return None;
    }
    let log_row = map.scroll_offset + display_row;
    let reply = line_at(log_row);
    let ghost g = reply;
    let r = match reply {
        None => None,
        Some(line) => {
            let line_len = chars_of(line.as_str()).len();
            if line_len == 0 {
                Some(LogPos { row: log_row, col: 0 })
            } else {
                let col_in = (col - map.area.x) as usize;
                // Click within a cell maps to that cell's left gap; clicking past the last
                // character maps to the line-end gap (col == line_len).
                let char_col = if map.col_offset >= line_len || col_in >= line_len - map.col_offset {
                    line_len
                } else {
                    map.col_offset + col_in
                };
                Some(LogPos { row: log_row, col: char_col })
            }
        },
    };
    assert(call_ensures(line_at, (log_row,), g) && r == mouse_nowrap_pick(col, *map, log_row as int, opt_view(g)));
    r
}

fn mouse_to_log_pos_wrapped(
    col: u16,
    row: u16,
    map: &ViewportMap,
    line_at: impl Fn(usize) -> Option<String>,
    row_count: usize,
) -> (r: Option<LogPos>)
    requires
        forall|row: usize| call_requires(line_at, (row,)),
        rect_contains(map.area, col, row),
    ensures
        mouse_wrap_ok(line_at, col, row, *map, row_count, r),
{
    let target_display = (row - map.area.y) as usize;
    let width = if map.viewport_width >= 1 {
        map.viewport_width
    } else {
        1
    };
    let col_in = (col - map.area.x) as usize;
    let mut display_row: usize = 0;
    let mut idx = map.scroll_offset;
    let mut skip = map.wrap_skip;
    let ghost mut outs: Seq<Option<String>> = Seq::empty();
    while idx < row_count
        invariant
            forall|row: usize| call_requires(line_at, (row,)),
            width as int == view_width(*map),
            target_display == row - map.area.y,
            col_in == col - map.area.x,
            idx == map.scroll_offset + outs.len(),
            idx <= row_count || outs.len() == 0,
            fetched(line_at, map.scroll_offset as int, outs),
            mouse_wrap_fold(col, row, *map, row_count, reply_views(outs)) == Walk::<Option<LogPos>>::Going(display_row, skip),
            display_row <= target_display,
            map.scroll_offset <= idx,
        decreases row_count - idx,
    {
        let reply = line_at(idx);
        let ghost prev = outs;
        proof {
            outs = outs.push(reply);
            assert(reply_views(outs).drop_last() =~= reply_views(prev));
        }
        let line = match reply {
            Some(l) => l,
            None => {
                proof {
                    assert(fetched(line_at, map.scroll_offset as int, outs));
                    assert(mouse_wrap_ok(line_at, col, row, *map, row_count, None));
                }
                return None;
            },
        };
        let indent = message_column_indent_line(line.as_str());
        let hang = effective_hang_indent(indent, width);
        let mut it = WrapChunks::with_indent(line.as_str(), width, indent);
        let ghost cs = it.remaining();
        let ghost d0 = display_row;
        let ghost s0 = skip;
        let total = chars_of(line.as_str()).len();
        proof {
            lemma_chunks_bounds(line@.len() as int, width as int, hang as int, 0, true);
            lemma_chunks_count(line@.len() as int, width as int, hang as int, 0, true);
        }
        let mut j: usize = 0;
        loop
            invariant
                forall|row: usize| call_requires(line_at, (row,)),
                fetched(line_at, map.scroll_offset as int, outs),
                outs.len() >= 1,
                idx == map.scroll_offset + outs.len() - 1,
                idx < row_count,
                width as int == view_width(*map),
                target_display == row - map.area.y,
                col_in == col - map.area.x,
                reply_views(outs).last() == Some(line@),
                mouse_wrap_fold(col, row, *map, row_count, reply_views(outs).drop_last()) == Walk::<Option<LogPos>>::Going(d0, s0),
                indent == spec_message_column_indent_line(line@),
                cs.len() <= usize::MAX,
                it.wf(),
                it.text() == line@,
                cs == line_chunks(line@, width as int),
                cs == wrap_chunks(line@.len() as int, width as int, indent as int),
                hang == spec_hang(indent as int, width as int),
                total == line@.len(),
                j <= cs.len(),
                it.remaining() == cs.skip(j as int),
                display_row <= target_display,
                forall|k: int| 0 <= k < cs.len() ==> {
                    &&& 0 <= (#[trigger] cs[k]).0
                    &&& cs[k].1 >= 1
                    &&& cs[k].0 + cs[k].1 <= line@.len()
                },
                mouse_line_walk(line@, cs, 0, d0, s0, target_display as int, col_in as int, hang as int, idx as int)
                    == mouse_line_walk(line@, cs, j as int, display_row, skip, target_display as int, col_in as int, hang as int, idx as int),
            ensures
                j == cs.len(),
                mouse_line_walk(line@, cs, 0, d0, s0, target_display as int, col_in as int, hang as int, idx as int)
                    == Walk::<Option<LogPos>>::Going(display_row, skip),
            decreases cs.len() - j,
        {
            match it.next_span() {
                None => {
                    break;
                },
                Some((chunk_start, chunk_len)) => {
                    assert(cs.skip(j as int)[0] == cs[j as int]);
                    assert(it.remaining() =~= cs.skip(j + 1));
                    if skip > 0 {
                        skip = skip - 1;
                        j = j + 1;
                    } else if display_row == target_display {
                        let is_continuation = chunk_start > 0 && hang > 0;
                        let r = if is_continuation && col_in < hang {
                            LogPos { row: idx, col: chunk_start }
                        } else {
                            let content_col = if is_continuation {
                                col_in - hang
                            } else {
                                col_in
                            };
                            let is_final_chunk = chunk_start + chunk_len == total;
                            // Click within a cell maps to that cell's left gap; past the last
                            // char of the final chunk maps to the line-end gap.
                            let col_in_chunk = if content_col >= chunk_len {
                                if is_final_chunk {
                                    chunk_len
                                } else {
                                    chunk_len - 1
                                }
                            } else {
                                content_col
                            };
                            LogPos { row: idx, col: chunk_start + col_in_chunk }
                        };
                        proof {
                            assert(r == mouse_wrap_pick(line@.len() as int, cs[j as int].0, cs[j as int].1, hang as int, col_in as int, idx as int));
                            assert(mouse_wrap_fold(col, row, *map, row_count, reply_views(outs)) == Walk::<Option<LogPos>>::Done(Some(r)));
                            assert(fetched(line_at, map.scroll_offset as int, outs));
                            assert(mouse_wrap_ok(line_at, col, row, *map, row_count, Some(r)));
                        }
                        return Some(r);
                    } else {
                        display_row = display_row + 1;
                        j = j + 1;
                    }
                },
            }
        }
        proof {
            assert(mouse_wrap_fold(col, row, *map, row_count, reply_views(outs)) == Walk::<Option<LogPos>>::Going(display_row, skip));
        }
        idx = idx + 1;
    }
    proof {
        assert(mouse_wrap_ok(line_at, col, row, *map, row_count, None));
    }
    None
}

/// Map a click at screen cell `(col, row)` to a log position, or `None` when
/// it falls outside the rows shown.
pub fn mouse_to_log_pos(
    col: u16,
    row: u16,
    map: &ViewportMap,
    line_at: impl Fn(usize) -> Option<String>,
    row_count: usize,
) -> (r: Option<LogPos>)
    requires
        forall|row: usize| call_requires(line_at, (row,)),
    ensures
        row_count == 0 || !rect_contains(map.area, col, row) ==> r is None,
        row_count > 0 && rect_contains(map.area, col, row) ==> if map.soft_wrap {
            mouse_wrap_ok(line_at, col, row, *map, row_count, r)
        } else {
            mouse_nowrap_ok(line_at, col, row, *map, row_count, r)
        },
{
    if row_count == 0 || !contains(map.area, col, row) {
        return None;
    }
    if map.soft_wrap {
        mouse_to_log_pos_wrapped(col, row, map, line_at, row_count)
    } else {
        mouse_to_log_pos_nowrap(col, row, map, line_at, row_count)
    }
}


/// Screen cell of caret `pos` when lines are not wrapped, given the line that
/// the lookup gave for its row.
pub open spec fn screen_nowrap_pick(pos: LogPos, map: ViewportMap, reply: Option<Seq<char>>) -> Option<(u16, u16)> {
    match reply {
        None => None,
        Some(line) => {
            let len = line.len() as int;
            let col = min_int(pos.col as int, len);
            let width = view_width(map);
            if col < map.col_offset {
                None
            } else if col - map.col_offset > width {
                None
            } else if col - map.col_offset == width && col != len {
                None
            } else {
                Some(
                    (
                        map.area.x.saturating_add((col - map.col_offset) as u16),
                        map.area.y.saturating_add((pos.row - map.scroll_offset) as u16),
                    ),
                )
            }
        },
    }
}

/// Outcome of placing a caret when lines are not wrapped.
pub open spec fn screen_nowrap_ok<F: Fn(usize) -> Option<String>>(
    line_at: F,
    pos: LogPos,
    map: ViewportMap,
    r: Option<(u16, u16)>,
) -> bool {
    if pos.row < map.scroll_offset || pos.row - map.scroll_offset >= map.viewport_height {
        r is None
    } else {
        exists|reply: Option<String>|
            call_ensures(line_at, (pos.row,), reply) && r == #[trigger] screen_nowrap_pick(
                pos,
                map,
                opt_view(reply),
            )
    }
}

/// Screen cell of caret column `pcol` on the wrap row `(cstart, clen)` shown
/// at display row `d`, or `None` when it lies past the row's last cell.
pub open spec fn screen_wrap_pick(
    pcol: int,
    cstart: int,
    clen: int,
    hang: int,
    width: int,
    d: int,
    area: Rect,
) -> Option<(u16, u16)> {
    let is_cont = cstart > 0 && hang > 0;
    let col_in = min_int(pcol - cstart, clen);
    let cap = if is_cont {
        width - hang
    } else {
        width
    };
    if col_in > cap {
        None
    } else if col_in == cap && pcol != cstart + clen {
        None
    } else {
        let off = if is_cont {
            hang + col_in
        } else {
            col_in
        };
        Some((area.x.saturating_add(off as u16), area.y.saturating_add(d as u16)))
    }
}

/// The caret walk through the wrap rows `j..` of line `log_row`.
pub open spec fn screen_line_walk(
    len: int,
    cs: Seq<(int, int)>,
    j: int,
    d: usize,
    skip: usize,
    pos: LogPos,
    log_row: int,
    hang: int,
    width: int,
    map: ViewportMap,
) -> Walk<Option<(u16, u16)>>
    decreases cs.len() - j,
{
    if j >= cs.len() || j < 0 {
        Walk::Going(d, skip)
    } else if skip > 0 {
        screen_line_walk(len, cs, j + 1, d, (skip - 1) as usize, pos, log_row, hang, width, map)
    } else {
        let cstart = cs[j].0;
        let cend = cs[j].0 + cs[j].1;
        let in_chunk = if cend == len {
            cstart <= pos.col <= cend
        } else {
            cstart <= pos.col < cend
        };
        if log_row == pos.row && in_chunk {
            Walk::Done(screen_wrap_pick(pos.col as int, cstart, cs[j].1, hang, width, d as int, map.area))
        } else if d + 1 >= map.viewport_height {
            Walk::Done(None)
        } else {
            screen_line_walk(len, cs, j + 1, (d + 1) as usize, skip, pos, log_row, hang, width, map)
        }
    }
}

/// The caret walk after the lookup gave `replies` for rows from the scroll
/// offset on; it stops when the rows or the viewport run out.
pub open spec fn screen_wrap_fold(
    pos: LogPos,
    map: ViewportMap,
    row_count: usize,
    replies: Seq<Option<Seq<char>>>,
) -> Walk<Option<(u16, u16)>>
    decreases replies.len(),
{
    if replies.len() == 0 {
        Walk::Going(0, map.wrap_skip)
    } else {
        match screen_wrap_fold(pos, map, row_count, replies.drop_last()) {
            Walk::Done(r) => Walk::Done(r),
            Walk::Going(d, skip) => {
                let idx = map.scroll_offset + replies.len() - 1;
                if idx >= row_count || d >= map.viewport_height {
                    Walk::Done(None)
                } else {
                    match replies.last() {
                        None => Walk::Done(None),
                        Some(line) => if line.len() == 0 {
                            if skip > 0 {
                                Walk::Going(d, (skip - 1) as usize)
                            } else if idx == pos.row {
                                Walk::Done(Some((map.area.x, map.area.y.saturating_add(d as u16))))
                            } else {
                                Walk::Going((d + 1) as usize, skip)
                            }
                        } else {
                            let w = view_width(map);
                            screen_line_walk(
                                line.len() as int,
                                line_chunks(line, w),
                                0,
                                d,
                                skip,
                                pos,
                                idx,
                                spec_hang(spec_message_column_indent_line(line), w),
                                w,
                                map,
                            )
                        },
                    }
                }
            },
        }
    }
}

/// Outcome of placing a caret when lines are wrapped.
pub open spec fn screen_wrap_ok<F: Fn(usize) -> Option<String>>(
    line_at: F,
    pos: LogPos,
    map: ViewportMap,
    row_count: usize,
    r: Option<(u16, u16)>,
) -> bool {
    exists|outs: Seq<Option<String>>|
        #![trigger fetched(line_at, map.scroll_offset as int, outs)]
        {
            &&& fetched(line_at, map.scroll_offset as int, outs)
            &&& match screen_wrap_fold(pos, map, row_count, reply_views(outs)) {
                Walk::Done(x) => r == x,
                Walk::Going(d, _) => (map.scroll_offset + outs.len() >= row_count || d >= map.viewport_height)
                    && r is None,
            }
        }
}

fn log_pos_to_screen_nowrap(pos: LogPos, map: &ViewportMap, line_at: impl Fn(usize) -> Option<String>) -> (r: Option<(u16, u16)>)
    requires
        forall|row: usize| call_requires(line_at, (row,)),
    ensures
        screen_nowrap_ok(line_at, pos, *map, r),
{
    if pos.row < map.scroll_offset {
        return None;
    }
    let display_row = pos.row - map.scroll_offset;
    if display_row >= map.viewport_height {
        return None;
    }
    let reply = line_at(pos.row);
    let ghost g = reply;
    let r = match reply {
        None => None,
        Some(line) => {
            let line_len = chars_of(line.as_str()).len();
            let col = if pos.col < line_len {
                pos.col
            } else {
                line_len
            };
            if col < map.col_offset {
                None
            } else {
                let col_in = col - map.col_offset;
                let width = if map.viewport_width >= 1 {
                    map.viewport_width
                } else {
                    1
                };
                // A real character (col < line_len) is visible only when col_in < width.
                // The line-end gap (col == line_len) may sit at col_in == width (right edge
                // of the last cell when the line fills the viewport); terminals allow a
                // cursor column equal to the viewport width.
                if col_in > width {
                    None
                } else if col_in == width && col != line_len {
                    None
                } else {
                    let x = map.area.x.saturating_add(col_in as u16);
                    let y = map.area.y.saturating_add(display_row as u16);
                    Some((x, y))
                }
            }
        },
    };
    assert(call_ensures(line_at, (pos.row,), g) && r == screen_nowrap_pick(pos, *map, opt_view(g)));
    r
}

fn log_pos_to_screen_wrapped(
    pos: LogPos,
    map: &ViewportMap,
    line_at: impl Fn(usize) -> Option<String>,
    row_count: usize,
) -> (r: Option<(u16, u16)>)
    requires
        forall|row: usize| call_requires(line_at, (row,)),
    ensures
        screen_wrap_ok(line_at, pos, *map, row_count, r),
{
    let width = if map.viewport_width >= 1 {
        map.viewport_width
    } else {
        1
    };
    let mut display_row: usize = 0;
    let mut idx = map.scroll_offset;
    let mut skip = map.wrap_skip;
    let ghost mut outs: Seq<Option<String>> = Seq::empty();
    while idx < row_count && display_row < map.viewport_height
        invariant
            forall|row: usize| call_requires(line_at, (row,)),
            width as int == view_width(*map),
            idx == map.scroll_offset + outs.len(),
            map.scroll_offset <= idx,
            fetched(line_at, map.scroll_offset as int, outs),
            screen_wrap_fold(pos, *map, row_count, reply_views(outs)) == Walk::<Option<(u16, u16)>>::Going(display_row, skip),
        decreases row_count - idx,
    {
        let reply = line_at(idx);
        let ghost prev = outs;
        proof {
            outs = outs.push(reply);
            assert(reply_views(outs).drop_last() =~= reply_views(prev));
        }
        let line = match reply {
            Some(l) => l,
            None => {
                proof {
                    assert(fetched(line_at, map.scroll_offset as int, outs));
                    assert(screen_wrap_ok(line_at, pos, *map, row_count, None));
                }
                return None;
            },
        };
        let line_len = chars_of(line.as_str()).len();
        if line_len == 0 {
            if skip > 0 {
                skip = skip - 1;
            } else {
                if idx == pos.row {
                    let x = map.area.x;
                    let y = map.area.y.saturating_add(display_row as u16);
                    proof {
                        assert(fetched(line_at, map.scroll_offset as int, outs));
                        assert(screen_wrap_ok(line_at, pos, *map, row_count, Some((x, y))));
                    }
                    return Some((x, y));
                }
                display_row = display_row + 1;
            }
            proof {
                assert(screen_wrap_fold(pos, *map, row_count, reply_views(outs)) == Walk::<Option<(u16, u16)>>::Going(display_row, skip));
            }
            idx = idx + 1;
            continue;
        }
        let indent = message_column_indent_line(line.as_str());
        let hang = effective_hang_indent(indent, width);
        let mut it = WrapChunks::with_indent(line.as_str(), width, indent);
        let ghost cs = it.remaining();
        let ghost d0 = display_row;
        let ghost s0 = skip;
        proof {
            lemma_chunks_bounds(line@.len() as int, width as int, hang as int, 0, true);
            lemma_chunks_count(line@.len() as int, width as int, hang as int, 0, true);
        }
        let mut j: usize = 0;
        loop
            invariant
                forall|row: usize| call_requires(line_at, (row,)),
                fetched(line_at, map.scroll_offset as int, outs),
                outs.len() >= 1,
                idx == map.scroll_offset + outs.len() - 1,
                idx < row_count,
                d0 < map.viewport_height,
                display_row < map.viewport_height,
                width as int == view_width(*map),
                reply_views(outs).last() == Some(line@),
                line_len == line@.len(),
                line_len > 0,
                screen_wrap_fold(pos, *map, row_count, reply_views(outs).drop_last()) == Walk::<Option<(u16, u16)>>::Going(d0, s0),
                indent == spec_message_column_indent_line(line@),
                cs.len() <= usize::MAX,
                it.wf(),
                it.text() == line@,
                cs == line_chunks(line@, width as int),
                cs == wrap_chunks(line@.len() as int, width as int, indent as int),
                hang == spec_hang(indent as int, width as int),
                hang > 0 ==> hang < width,
                j <= cs.len(),
                it.remaining() == cs.skip(j as int),
                forall|k: int| 0 <= k < cs.len() ==> {
                    &&& 0 <= (#[trigger] cs[k]).0
                    &&& cs[k].1 >= 1
                    &&& cs[k].0 + cs[k].1 <= line@.len()
                },
                screen_line_walk(line@.len() as int, cs, 0, d0, s0, pos, idx as int, hang as int, width as int, *map)
                    == screen_line_walk(line@.len() as int, cs, j as int, display_row, skip, pos, idx as int, hang as int, width as int, *map),
            ensures
                j == cs.len(),
                screen_line_walk(line@.len() as int, cs, 0, d0, s0, pos, idx as int, hang as int, width as int, *map)
                    == Walk::<Option<(u16, u16)>>::Going(display_row, skip),
                display_row < map.viewport_height,
            decreases cs.len() - j,
        {
            match it.next_span() {
                None => {
                    break;
                },
                Some((chunk_start, chunk_chars)) => {
                    assert(cs.skip(j as int)[0] == cs[j as int]);
                    assert(it.remaining() =~= cs.skip(j + 1));
                    if skip > 0 {
                        skip = skip - 1;
                        j = j + 1;
                    } else {
                        let chunk_end = chunk_start + chunk_chars;
                        // The line-end gap (col == line_len) belongs to the final chunk.
                        let is_final_chunk = chunk_end == line_len;
                        let in_chunk = if is_final_chunk {
                            pos.col >= chunk_start && pos.col <= chunk_end
                        } else {
                            pos.col >= chunk_start && pos.col < chunk_end
                        };
                        if idx == pos.row && in_chunk {
                            let is_continuation = chunk_start > 0 && hang > 0;
                            let col_in = if pos.col - chunk_start < chunk_chars {
                                pos.col - chunk_start
                            } else {
                                chunk_chars
                            };
                            let cap = if is_continuation {
                                width - hang
                            } else {
                                width
                            };
                            // Line-end gap on a chunk that fills the available width sits at
                            // col_in == cap (right edge); allow it.
                            let r = if col_in > cap {
                                None
                            } else if col_in == cap && pos.col != chunk_end {
                                None
                            } else {
                                let screen_x_offset = if is_continuation {
                                    hang + col_in
                                } else {
                                    col_in
                                };
                                let x = map.area.x.saturating_add(screen_x_offset as u16);
                                let y = map.area.y.saturating_add(display_row as u16);
                                Some((x, y))
                            };
                            proof {
                                assert(r == screen_wrap_pick(pos.col as int, cs[j as int].0, cs[j as int].1, hang as int, width as int, display_row as int, map.area));
                                assert(screen_wrap_fold(pos, *map, row_count, reply_views(outs)) == Walk::<Option<(u16, u16)>>::Done(r));
                                assert(fetched(line_at, map.scroll_offset as int, outs));
                                assert(screen_wrap_ok(line_at, pos, *map, row_count, r));
                            }
                            return r;
                        }
                        display_row = display_row + 1;
                        if display_row >= map.viewport_height {
                            proof {
                                assert(screen_wrap_fold(pos, *map, row_count, reply_views(outs)) == Walk::<Option<(u16, u16)>>::Done(None));
                                assert(fetched(line_at, map.scroll_offset as int, outs));
                                assert(screen_wrap_ok(line_at, pos, *map, row_count, None));
                            }
                            return None;
                        }
                        j = j + 1;
                    }
                },
            }
        }
        proof {
            assert(screen_wrap_fold(pos, *map, row_count, reply_views(outs)) == Walk::<Option<(u16, u16)>>::Going(display_row, skip));
        }
        idx = idx + 1;
    }
    proof {
        assert(screen_wrap_ok(line_at, pos, *map, row_count, None));
    }
    None
}

/// Map a log caret position to a screen cell. Returns `None` when off-screen.
pub fn log_pos_to_screen(
    pos: LogPos,
    map: &ViewportMap,
    line_at: impl Fn(usize) -> Option<String>,
    row_count: usize,
) -> (r: Option<(u16, u16)>)
    requires
        forall|row: usize| call_requires(line_at, (row,)),
    ensures
        row_count == 0 || pos.row >= row_count ==> r is None,
        row_count > 0 && pos.row < row_count ==> if map.soft_wrap {
            screen_wrap_ok(line_at, pos, *map, row_count, r)
        } else {
            screen_nowrap_ok(line_at, pos, *map, r)
        },
{
    if row_count == 0 || pos.row >= row_count {
        return None;
    }
    if map.soft_wrap {
        log_pos_to_screen_wrapped(pos, map, line_at, row_count)
    } else {
        log_pos_to_screen_nowrap(pos, map, line_at)
    }
}

/// Without wrapping, a click on a character cell of a line and the caret
/// placed back on the screen land on the same cell.
pub proof fn law_click_caret_roundtrip_nowrap(col: u16, row: u16, map: ViewportMap, line: Seq<char>)
    requires
        rect_contains(map.area, col, row),
        row - map.area.y < map.viewport_height,
        map.scroll_offset + (row - map.area.y) <= usize::MAX,
        map.col_offset + (col - map.area.x) < line.len(),
        line.len() <= usize::MAX,
        col - map.area.x < view_width(map),
    ensures
        ({
            let log_row = map.scroll_offset + (row - map.area.y);
            match mouse_nowrap_pick(col, map, log_row, Some(line)) {
                Some(p) => screen_nowrap_pick(p, map, Some(line)) == Some((col, row)),
                None => false,
            }
        }),
{
    let log_row = map.scroll_offset + (row - map.area.y);
    let t = map.col_offset + (col - map.area.x);
    let p = LogPos { row: log_row as usize, col: t as usize };
    assert(mouse_nowrap_pick(col, map, log_row, Some(line)) == Some(p));
    let dx = (col - map.area.x) as u16;
    let dy = (row - map.area.y) as u16;
    assert(dx == col - map.area.x);
    assert(dy == row - map.area.y);
    assert(map.area.x.saturating_add(dx) == col);
    assert(map.area.y.saturating_add(dy) == row);
    assert(p.row - map.scroll_offset == row - map.area.y);
    assert(min_int(p.col as int, line.len() as int) - map.col_offset == col - map.area.x);
    assert(screen_nowrap_pick(p, map, Some(line)) == Some((col, row)));
}

/// With wrapping, on the wrap row `(cstart, clen)` shown at display row
/// `row - area.y`: a click on a character cell of the row and the caret
/// placed back on the screen land on the same cell.
pub proof fn law_click_caret_roundtrip_wrap_row(
    col: u16,
    row: u16,
    area: Rect,
    len: int,
    cstart: int,
    clen: int,
    hang: int,
    width: int,
    log_row: int,
)
    requires
        rect_contains(area, col, row),
        0 <= cstart,
        cstart + clen <= len <= usize::MAX,
        0 <= log_row <= usize::MAX,
        0 <= hang,
        ({
            let is_cont = cstart > 0 && hang > 0;
            let col_in = col - area.x;
            let content = if is_cont { col_in - hang } else { col_in };
            &&& is_cont ==> col_in >= hang
            &&& 0 <= content < clen
            &&& clen <= if is_cont { width - hang } else { width }
        }),
    ensures
        ({
            let p = mouse_wrap_pick(len, cstart, clen, hang, col - area.x, log_row);
            &&& p.row == log_row
            &&& screen_wrap_pick(p.col as int, cstart, clen, hang, width, row - area.y, area) == Some((col, row))
        }),
{
    let col_in = col - area.x;
    let d = row - area.y;
    assert(area.x.saturating_add(col_in as u16) == col);
    assert(area.y.saturating_add(d as u16) == row);
}


/// How a span of text is drawn.
#[derive(Debug, Clone, Copy, PartialEq, Eq, Structural)]
pub struct Style {
    pub fg: Option<Color>,
    pub bg: Option<Color>,
    pub bold: bool,
    pub underlined: bool,
    pub reversed: bool,
}

/// No colors and no modifiers: the terminal's defaults.
pub open spec fn plain_style() -> Style {
    Style { fg: None, bg: None, bold: false, underlined: false, reversed: false }
}

impl Default for Style {
    fn default() -> (r: Style)
        ensures
            r == plain_style(),
    {
        Style { fg: None, bg: None, bold: false, underlined: false, reversed: false }
    }
}

/// A piece of a line with the style it is drawn in.
#[derive(Debug, Clone, PartialEq, Eq)]
pub struct Span {
    pub content: String,
    pub style: Style,
}

/// Style of text that is not a find hit: selection colors (bold) when
/// selected, else the base color, reversed on the current find row.
pub open spec fn spec_base_style(theme: Theme, base: Color, is_find_current: bool, selected: bool) -> Style {
    if selected {
        Style { fg: Some(theme.selection_fg), bg: Some(theme.selection_bg), bold: true, underlined: false, reversed: false }
    } else {
        Style { fg: Some(base), bg: None, bold: false, underlined: false, reversed: is_find_current }
    }
}

/// Style of a find hit: selection colors (bold) when any of it is selected,
/// else the find colors, bold and underlined on the current hit.
pub open spec fn spec_find_style(theme: Theme, is_current: bool, selected: bool) -> Style {
    if selected {
        Style { fg: Some(theme.selection_fg), bg: Some(theme.selection_bg), bold: true, underlined: false, reversed: false }
    } else {
        Style { fg: Some(theme.find_fg), bg: Some(theme.find_bg), bold: is_current, underlined: is_current, reversed: false }
    }
}

fn base_style(theme: &Theme, base: Color, is_find_current: bool, selected: bool) -> (r: Style)
    ensures
        r == spec_base_style(*theme, base, is_find_current, selected),
{
    if selected {
        Style { fg: Some(theme.selection_fg), bg: Some(theme.selection_bg), bold: true, underlined: false, reversed: false }
    } else {
        Style { fg: Some(base), bg: None, bold: false, underlined: false, reversed: is_find_current }
    }
}

fn find_style(theme: &Theme, is_current: bool, selected: bool) -> (r: Style)
    ensures
        r == spec_find_style(*theme, is_current, selected),
{
    if selected {
        Style { fg: Some(theme.selection_fg), bg: Some(theme.selection_bg), bold: true, underlined: false, reversed: false }
    } else {
        Style { fg: Some(theme.find_fg), bg: Some(theme.find_bg), bold: is_current, underlined: is_current, reversed: false }
    }
}

/// Whether display character `di` of a row counts as selected. The first
/// `pad` characters are display-only padding: they count as selected when
/// any logical character of the row is (the row start, for an empty row).
pub open spec fn spec_display_selected(v: SelectionView, row: int, lcs: int, pad: int, llen: int, di: int) -> bool {
    if di < pad {
        if llen == 0 {
            spec_sel_contains(v, row, lcs)
        } else {
            exists|c: int| lcs <= c < lcs + llen && #[trigger] spec_sel_contains(v, row, c)
        }
    } else {
        spec_sel_contains(v, row, lcs + (di - pad))
    }
}

/// A find hit starts at display character `i`: after the padding, with the
/// lowercased text holding the query there.
pub open spec fn hit_at(lower: Seq<char>, q: Seq<char>, n: int, pad: int, i: int) -> bool {
    &&& q.len() > 0
    &&& i >= pad
    &&& i + q.len() <= n
    &&& i + q.len() <= lower.len()
    &&& lower.subrange(i, i + q.len()) == q
}

/// The parameters a row is split by.
pub struct SpanCtx {
    pub chars: Seq<char>,
    pub lower: Seq<char>,
    pub q: Seq<char>,
    pub sel: SelectionView,
    pub row: int,
    pub lcs: int,
    pub pad: int,
    pub llen: int,
    pub theme: Theme,
    pub base: Color,
    pub is_find_current: bool,
}

pub open spec fn ctx_selected(c: SpanCtx, i: int) -> bool {
    spec_display_selected(c.sel, c.row, c.lcs, c.pad, c.llen, i)
}

pub open spec fn ctx_hit(c: SpanCtx, i: int) -> bool {
    hit_at(c.lower, c.q, c.chars.len() as int, c.pad, i)
}

/// End of the run that starts at `i`, looking from `j` on: the first
/// character whose selection differs from `i`'s or where a hit starts.
pub open spec fn run_end(c: SpanCtx, i: int, j: int) -> int
    decreases c.chars.len() - j,
{
    if j >= c.chars.len() || j < 0 {
        c.chars.len() as int
    } else if ctx_selected(c, j) != ctx_selected(c, i) || ctx_hit(c, j) {
        j
    } else {
        run_end(c, i, j + 1)
    }
}

/// Whether character `k` of the hit at `i` is selected.
pub open spec fn hit_char_selected(c: SpanCtx, i: int, k: int) -> bool {
    spec_sel_contains(c.sel, c.row, c.lcs + (i - c.pad) + k)
}

/// Whether any logical character of the hit at `i` is selected.
pub open spec fn hit_selected(c: SpanCtx, i: int) -> bool {
    exists|k: int| 0 <= k < c.q.len() && #[trigger] hit_char_selected(c, i, k)
}

/// The spans of the characters from `i` on: each find hit on its own, the
/// text between hits in runs of equal selection.
pub open spec fn spans_from(c: SpanCtx, i: int) -> Seq<(Seq<char>, Style)>
    decreases c.chars.len() - i,
{
    if i >= c.chars.len() || i < 0 {
        Seq::empty()
    } else if ctx_hit(c, i) {
        seq![(c.chars.subrange(i, i + c.q.len()), spec_find_style(c.theme, c.is_find_current, hit_selected(c, i)))]
            + spans_from(c, i + c.q.len())
    } else {
        let j = run_end(c, i, i + 1);
        proof {
            lemma_run_end(c, i, i + 1);
        }
        seq![(c.chars.subrange(i, j), spec_base_style(c.theme, c.base, c.is_find_current && c.q.len() == 0, ctx_selected(c, i)))]
            + spans_from(c, j)
    }
}

pub proof fn lemma_run_end(c: SpanCtx, i: int, j: int)
    requires
        0 <= j <= c.chars.len(),
    ensures
        j <= run_end(c, i, j) <= c.chars.len(),
        forall|k: int| j <= k < run_end(c, i, j) ==> ctx_selected(c, k) == ctx_selected(c, i) && !ctx_hit(c, k),
    decreases c.chars.len() - j,
{
    if j < c.chars.len() && !(ctx_selected(c, j) != ctx_selected(c, i) || ctx_hit(c, j)) {
        lemma_run_end(c, i, j + 1);
    }
}

/// Spans as text and style.
pub open spec fn span_views(v: Seq<Span>) -> Seq<(Seq<char>, Style)> {
    v.map_values(|s: Span| (s.content@, s.style))
}

fn display_selected(selection: &TextSelection, log_row: usize, lcs: usize, pad: usize, llen: usize, di: usize) -> (r: bool)
    requires
        lcs + llen <= usize::MAX,
        di >= pad ==> lcs + (di - pad) <= usize::MAX,
    ensures
        r == spec_display_selected(selection@, log_row as int, lcs as int, pad as int, llen as int, di as int),
{
    if di < pad {
        if llen == 0 {
            return selection.contains(log_row, lcs);
        }
        let mut c = lcs;
        while c < lcs + llen
            invariant
                di < pad,
                llen > 0,
                lcs <= c <= lcs + llen,
                lcs + llen <= usize::MAX,
                forall|k: int| lcs <= k < c ==> !spec_sel_contains(selection@, log_row as int, k),
            decreases lcs + llen - c,
        {
            if selection.contains(log_row, c) {
                assert(spec_sel_contains(selection@, log_row as int, c as int));
                return true;
            }
            c = c + 1;
        }
        false
    } else {
        selection.contains(log_row, lcs + (di - pad))
    }
}

fn hit_at_exec(lower: &Vec<char>, q: &Vec<char>, n: usize, pad: usize, i: usize) -> (r: bool)
    requires
        i <= n,
    ensures
        r == hit_at(lower@, q@, n as int, pad as int, i as int),
{
    if q.len() == 0 || i < pad || q.len() > n - i || q.len() > lower.len() || i > lower.len() - q.len() {
        return false;
    }
    crate::text::matches_at(lower, q, i)
}

/// Build styled spans for a text segment with selection and optional find highlights.
///
/// `display_pad` is the number of leading display-only characters in `text` (e.g. hang-indent
/// spaces on soft-wrap continuation rows). They are not part of the logical line indices.
pub fn line_spans(
    text: &str,
    log_row: usize,
    line_char_start: usize,
    display_pad: usize,
    base_color: Color,
    theme: &Theme,
    selection: &TextSelection,
    find_q: &str,
    is_find_current: bool,
) -> (r: Vec<Span>)
    requires
        line_char_start + text@.len() <= usize::MAX,
    ensures
        text@.len() == 0 ==> span_views(r@) == seq![(Seq::<char>::empty(), plain_style())],
        text@.len() > 0 && find_q@.len() == 0 && !(selection@.anchor is Some && selection@.cursor is Some) ==> span_views(r@)
            == seq![(text@, spec_base_style(*theme, base_color, is_find_current, false))],
        text@.len() > 0 && (find_q@.len() > 0 || (selection@.anchor is Some && selection@.cursor is Some)) ==> span_views(r@)
            == spans_from(
            SpanCtx {
                chars: text@,
                lower: if find_q@.len() == 0 { Seq::empty() } else { spec_to_lowercase(text@) },
                q: find_q@,
                sel: selection@,
                row: log_row as int,
                lcs: line_char_start as int,
                pad: display_pad as int,
                llen: if text@.len() > display_pad { text@.len() - display_pad } else { 0 },
                theme: *theme,
                base: base_color,
                is_find_current,
            },
            0,
        ),
{
    let chars = chars_of(text);
    if chars.len() == 0 {
        let mut v: Vec<Span> = Vec::new();
        v.push(Span { content: String::new(), style: Style { fg: None, bg: None, bold: false, underlined: false, reversed: false } });
        assert(span_views(v@) =~= seq![(Seq::<char>::empty(), plain_style())]);
        return v;
    }
    if find_q.is_empty() && !selection.is_active() {
        let mut v: Vec<Span> = Vec::new();
        v.push(Span { content: text.to_owned(), style: base_style(theme, base_color, is_find_current, false) });
        assert(span_views(v@) =~= seq![(text@, spec_base_style(*theme, base_color, is_find_current, false))]);
        return v;
    }
    let n = chars.len();
    let logical_len = n.saturating_sub(display_pad);
    let lower = if find_q.is_empty() {
        Vec::new()
    } else {
        chars_of(to_lowercase(text).as_str())
    };
    let q = chars_of(find_q);
    let no_query = find_q.is_empty();
    let ghost c = SpanCtx {
        chars: text@,
        lower: lower@,
        q: q@,
        sel: selection@,
        row: log_row as int,
        lcs: line_char_start as int,
        pad: display_pad as int,
        llen: logical_len as int,
        theme: *theme,
        base: base_color,
        is_find_current,
    };
    let mut spans: Vec<Span> = Vec::new();
    let mut i: usize = 0;
    while i < n
        invariant
            chars@ == text@,
            n == chars@.len(),
            i <= n,
            no_query == (q@.len() == 0),
            line_char_start + n <= usize::MAX,
            logical_len == c.llen,
            c == (SpanCtx {
                chars: text@,
                lower: lower@,
                q: q@,
                sel: selection@,
                row: log_row as int,
                lcs: line_char_start as int,
                pad: display_pad as int,
                llen: logical_len as int,
                theme: *theme,
                base: base_color,
                is_find_current,
            }),
            logical_len as int == if n > display_pad { n - display_pad } else { 0 },
            span_views(spans@) + spans_from(c, i as int) == spans_from(c, 0),
        decreases n - i,
    {
        let selected = display_selected(selection, log_row, line_char_start, display_pad, logical_len, i);
        let ghost before = span_views(spans@);
        if hit_at_exec(&lower, &q, n, display_pad, i) {
            let qn = q.len();
            let matched = string_from_chars(&chars, i, i + qn);
            let logical_i = i - display_pad;
            let mut any_selected = false;
            let mut k: usize = 0;
            while k < qn && !any_selected
                invariant
                    k <= qn == q@.len(),
                    i + qn <= n,
                    i >= display_pad,
                    logical_i == i - display_pad,
                    line_char_start + n <= usize::MAX,
                    c.sel == selection@,
                    c.row == log_row,
                    c.lcs == line_char_start,
                    c.pad == display_pad,
                    c.q == q@,
                    any_selected ==> hit_selected(c, i as int),
                    !any_selected ==> forall|j: int| 0 <= j < k ==> !#[trigger] hit_char_selected(c, i as int, j),
                decreases qn - k,
            {
                if selection.contains(log_row, line_char_start + logical_i + k) {
                    assert(hit_char_selected(c, i as int, k as int));
                    any_selected = true;
                }
                k = k + 1;
            }
            spans.push(Span { content: matched, style: find_style(theme, is_find_current, any_selected) });
            proof {
                assert(span_views(spans@) =~= before.push((text@.subrange(i as int, i + qn), spec_find_style(*theme, is_find_current, hit_selected(c, i as int)))));
                assert(spans_from(c, i as int) == seq![(c.chars.subrange(i as int, i + q@.len()), spec_find_style(c.theme, c.is_find_current, hit_selected(c, i as int)))] + spans_from(c, i + q@.len()));
                assert(span_views(spans@) + spans_from(c, i + qn) =~= before + spans_from(c, i as int));
            }
            i = i + qn;
        } else {
            let mut j = i + 1;
            while j < n
                invariant
                    i < j <= n,
                    n == chars@.len(),
                    chars@ == text@,
                    line_char_start + n <= usize::MAX,
                    logical_len == c.llen,
                    c.chars == text@,
                    c.lower == lower@,
                    c.q == q@,
                    c.sel == selection@,
                    c.row == log_row,
                    c.lcs == line_char_start,
                    c.pad == display_pad,
                    selected == ctx_selected(c, i as int),
                    logical_len <= n,
                    run_end(c, i as int, j as int) == run_end(c, i as int, i + 1),
                ensures
                    run_end(c, i as int, i + 1) == j,
                    i < j <= n,
                decreases n - j,
            {
                let sel_j = display_selected(selection, log_row, line_char_start, display_pad, logical_len, j);
                if sel_j != selected {
                    break;
                }
                if hit_at_exec(&lower, &q, n, display_pad, j) {
                    break;
                }
                j = j + 1;
            }
            let run = string_from_chars(&chars, i, j);
            spans.push(Span { content: run, style: base_style(theme, base_color, is_find_current && no_query, selected) });
            proof {
                assert(run_end(c, i as int, i + 1) == j);
                assert(span_views(spans@) =~= before.push((text@.subrange(i as int, j as int), spec_base_style(*theme, base_color, is_find_current && q@.len() == 0, selected))));
                assert(span_views(spans@) + spans_from(c, j as int) =~= before + spans_from(c, i as int));
            }
            i = j;
        }
    }
    assert(spans_from(c, n as int) == Seq::<(Seq<char>, Style)>::empty());
    assert(span_views(spans@) =~= spans_from(c, 0));
    spans
}

/// Lines joined with a line break between each two.
pub open spec fn joined_lines(lines: Seq<Seq<char>>) -> Seq<char>
    decreases lines.len(),
{
    if lines.len() == 0 {
        Seq::empty()
    } else if lines.len() == 1 {
        lines[0]
    } else {
        joined_lines(lines.drop_last()) + seq!['\n'] + lines.last()
    }
}

/// A row strictly inside a selection is copied whole, after a line break.
pub proof fn law_middle_row_copied_whole(s: LogPos, e: LogPos, row: int, line: Seq<char>)
    requires
        s.row < row < e.row,
        line.len() > 0,
    ensures
        row_piece(s, e, row, line) == seq!['\n'] + line,
{
    assert(line.subrange(0, line.len() as int) =~= line);
}

/// Selecting whole non-empty lines, from the start of the first to the end
/// of the last, copies the lines joined by line breaks.
pub proof fn law_whole_lines_copy_joined(s: LogPos, e: LogPos, lines: Seq<Seq<char>>)
    requires
        s.col == 0,
        lines.len() >= 1,
        s.row + lines.len() - 1 <= e.row,
        s.row + lines.len() - 1 == e.row ==> e.col >= lines.last().len(),
        forall|k: int| 0 <= k < lines.len() ==> (#[trigger] lines[k]).len() > 0,
    ensures
        extract_pieces(s, e, lines) == joined_lines(lines),
    decreases lines.len(),
{
    let n = lines.len() as int;
    let last = lines.last();
    assert(lines[n - 1].len() > 0);
    assert(last.subrange(0, last.len() as int) =~= last);
    if n == 1 {
        assert(lines.drop_last() =~= Seq::<Seq<char>>::empty());
        assert(extract_pieces(s, e, lines.drop_last()) == Seq::<char>::empty());
        let rp = row_piece(s, e, s.row as int, last);
        assert(min_int(s.col as int, last.len() as int) == 0);
        assert(s.row == e.row ==> min_int(e.col as int, last.len() as int) == last.len());
        assert(rp =~= last);
        assert(extract_pieces(s, e, lines) =~= last);
    } else {
        let init = lines.drop_last();
        assert forall|k: int| 0 <= k < init.len() implies (#[trigger] init[k]).len() > 0 by {
            assert(init[k] == lines[k]);
        }
        law_whole_lines_copy_joined(s, e, init);
        assert(extract_pieces(s, e, lines) =~= joined_lines(init) + (seq!['\n'] + last));
        assert(joined_lines(lines) =~= joined_lines(init) + seq!['\n'] + last);
    }
}

/// A selection within one row copies the characters between its ends.
pub proof fn law_single_row_copy(s: LogPos, e: LogPos, line: Seq<char>)
    requires
        s.row == e.row,
        s.col < e.col <= line.len(),
    ensures
        extract_pieces(s, e, seq![line]) == line.subrange(s.col as int, e.col as int),
{
    let lines = seq![line];
    assert(lines.drop_last() =~= Seq::<Seq<char>>::empty());
    assert(extract_pieces(s, e, lines.drop_last()) == Seq::<char>::empty());
    assert(min_int(s.col as int, line.len() as int) == s.col);
    assert(min_int(e.col as int, line.len() as int) == e.col);
    assert(extract_pieces(s, e, lines) =~= row_piece(s, e, s.row as int, line));
}

} // verus!
