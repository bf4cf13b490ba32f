use ohmylogcat::ui::selection::{
    clamp_log_pos, expand_line, expand_word, is_word_char, line_spans, log_pos_to_screen,
    mouse_to_log_pos, step_caret_horizontal, LogPos, Rect, Style, TextSelection, ViewportMap,
};
use ohmylogcat::ui::theme::{Color, Theme};

fn lines<'a>(rows: &'a [&'a str]) -> impl Fn(usize) -> Option<String> + 'a {
    move |i| rows.get(i).map(|s| (*s).to_string())
}

fn map(soft_wrap: bool, scroll: usize, wrap_skip: usize, col_offset: usize) -> ViewportMap {
    ViewportMap {
        area: Rect {
            x: 2,
            y: 3,
            width: 10,
            height: 5,
        },
        scroll_offset: scroll,
        wrap_skip,
        col_offset,
        soft_wrap,
        viewport_width: 10,
        viewport_height: 5,
    }
}

#[test]
fn normalized_range_orders_positions() {
    let mut sel = TextSelection::default();
    sel.start(LogPos { row: 2, col: 5 });
    sel.extend_to(LogPos { row: 1, col: 3 });
    let (a, b) = sel.normalized_range().unwrap();
    assert_eq!(a, LogPos { row: 1, col: 3 });
    assert_eq!(b, LogPos { row: 2, col: 5 });
}

#[test]
fn extract_text_joins_lines() {
    let mut sel = TextSelection::default();
    sel.start(LogPos { row: 0, col: 0 });
    sel.extend_to(LogPos { row: 1, col: 3 });
    let text = sel
        .extract_text(|row| match row {
            0 => Some("hello".into()),
            1 => Some("world".into()),
            _ => None,
        })
        .unwrap();
    assert_eq!(text, "hello\nwor");
}

#[test]
fn log_pos_to_screen_nowrap_roundtrip() {
    let rows = ["abcdefghijXXXX", "second"];
    let m = map(false, 0, 0, 0);
    let pos = mouse_to_log_pos(2 + 3, 3 + 1, &m, lines(&rows), 2).unwrap();
    assert_eq!(pos, LogPos { row: 1, col: 3 });
    assert_eq!(log_pos_to_screen(pos, &m, lines(&rows), 2), Some((2 + 3, 3 + 1)));
}

#[test]
fn log_pos_to_screen_nowrap_respects_col_offset() {
    let rows = ["abcdefghijklmnop"];
    let m = map(false, 0, 0, 4);
    let pos = LogPos { row: 0, col: 6 };
    assert_eq!(log_pos_to_screen(pos, &m, lines(&rows), 1), Some((2 + 2, 3)));
    assert_eq!(log_pos_to_screen(LogPos { row: 0, col: 2 }, &m, lines(&rows), 1), None);
}

#[test]
fn log_pos_to_screen_wrapped_edges() {
    // width 10: "0123456789ABCDEF" -> chunk0 cols 0-9, chunk1 cols 10-15
    let rows = ["0123456789ABCDEF"];
    let m = map(true, 0, 0, 0);
    assert_eq!(log_pos_to_screen(LogPos { row: 0, col: 0 }, &m, lines(&rows), 1), Some((2, 3)));
    assert_eq!(log_pos_to_screen(LogPos { row: 0, col: 9 }, &m, lines(&rows), 1), Some((2 + 9, 3)));
    assert_eq!(log_pos_to_screen(LogPos { row: 0, col: 10 }, &m, lines(&rows), 1), Some((2, 3 + 1)));
    let m_skip = map(true, 0, 1, 0);
    assert_eq!(log_pos_to_screen(LogPos { row: 0, col: 10 }, &m_skip, lines(&rows), 1), Some((2, 3)));
    assert_eq!(log_pos_to_screen(LogPos { row: 0, col: 0 }, &m_skip, lines(&rows), 1), None);
}

#[test]
fn log_pos_to_screen_wrapped_hang_indent() {
    // "01234: 5678901234abcd" — indent 7 (message starts at col 7)
    let rows = ["01234: 5678901234abcd"];
    let m = map(true, 0, 0, 0);
    // col 12 is on continuation row (logical start 10), screen x = hang(7) + 2
    assert_eq!(
        log_pos_to_screen(LogPos { row: 0, col: 12 }, &m, lines(&rows), 1),
        Some((2 + 7 + 2, 3 + 1))
    );
    // click in pad maps to chunk start
    let pos = mouse_to_log_pos(2 + 3, 3 + 1, &m, lines(&rows), 1).unwrap();
    assert_eq!(pos, LogPos { row: 0, col: 10 });
}

#[test]
fn expand_word_identifier_and_non_word() {
    assert_eq!(expand_word("foo MyApp_1 bar", 6), (4, 11));
    assert_eq!(expand_word("a=b", 1), (1, 2));
    assert_eq!(expand_word("", 0), (0, 0));
}

#[test]
fn expand_line_covers_full_text() {
    assert_eq!(expand_line("hello"), (0, 5));
    assert_eq!(expand_line(""), (0, 0));
}

#[test]
fn clamp_log_pos_shrinks() {
    let rows = ["ab", "cdef"];
    assert_eq!(
        clamp_log_pos(LogPos { row: 9, col: 99 }, 2, lines(&rows)),
        Some(LogPos { row: 1, col: 4 })
    );
    assert_eq!(clamp_log_pos(LogPos { row: 0, col: 0 }, 0, lines(&rows)), None);
}

#[test]
fn step_caret_horizontal_crosses_line_bounds() {
    let lens = |row: usize| match row {
        0 => 3,
        1 => 1,
        2 => 0,
        _ => 0,
    };
    // Right within line 0 (gap before last char -> line-end gap)
    assert_eq!(step_caret_horizontal(LogPos { row: 0, col: 2 }, 1, 3, lens), LogPos { row: 0, col: 3 });
    // Right from line-end gap of line 0 -> start of line 1
    assert_eq!(step_caret_horizontal(LogPos { row: 0, col: 3 }, 1, 3, lens), LogPos { row: 1, col: 0 });
    // Right at end of last line stays at line-end gap
    assert_eq!(step_caret_horizontal(LogPos { row: 2, col: 0 }, 1, 3, lens), LogPos { row: 2, col: 0 });
    // Left from start of line 1 -> line-end gap of line 0
    assert_eq!(step_caret_horizontal(LogPos { row: 1, col: 0 }, -1, 3, lens), LogPos { row: 0, col: 3 });
    // Empty buffer: unchanged
    assert_eq!(step_caret_horizontal(LogPos { row: 0, col: 0 }, 1, 0, lens), LogPos { row: 0, col: 0 });
    // At buffer start, Left stays
    assert_eq!(step_caret_horizontal(LogPos { row: 0, col: 0 }, -1, 3, lens), LogPos { row: 0, col: 0 });
}

#[test]
fn extract_text_half_open_single_char() {
    let mut sel = TextSelection::default();
    sel.start(LogPos { row: 0, col: 2 });
    sel.extend_to(LogPos { row: 0, col: 3 });
    let text = sel
        .extract_text(|row| match row {
            0 => Some("hello".into()),
            _ => None,
        })
        .unwrap();
    assert_eq!(text, "l");
}

#[test]
fn extract_text_half_open_full_line() {
    let mut sel = TextSelection::default();
    sel.start(LogPos { row: 0, col: 0 });
    sel.extend_to(LogPos { row: 0, col: 5 });
    let text = sel
        .extract_text(|row| match row {
            0 => Some("hello".into()),
            _ => None,
        })
        .unwrap();
    assert_eq!(text, "hello");
}

#[test]
fn extract_text_half_open_multiline_end_at_len() {
    let mut sel = TextSelection::default();
    sel.start(LogPos { row: 0, col: 0 });
    sel.extend_to(LogPos { row: 1, col: 5 });
    let text = sel
        .extract_text(|row| match row {
            0 => Some("hello".into()),
            1 => Some("world".into()),
            _ => None,
        })
        .unwrap();
    assert_eq!(text, "hello\nworld");
}

#[test]
fn extract_text_shift_end_includes_last_char() {
    // Simulates Shift+End selecting through the last character: anchor at
    // col 0, caret at line_len. The last char must be included.
    let mut sel = TextSelection::default();
    sel.start(LogPos { row: 0, col: 0 });
    sel.extend_to(LogPos { row: 0, col: 5 });
    let text = sel
        .extract_text(|row| match row {
            0 => Some("hello".into()),
            _ => None,
        })
        .unwrap();
    assert_eq!(text, "hello");
    // contains uses strict upper bound: col 5 (line_len) is NOT in selection,
    // but col 4 (last char) IS.
    assert!(!sel.contains(0, 5));
    assert!(sel.contains(0, 4));
}

#[test]
fn log_pos_to_screen_nowrap_line_end_gap() {
    let rows = ["abc"];
    let m = map(false, 0, 0, 0);
    // col == line_len (3) maps to the right edge of the last char.
    assert_eq!(log_pos_to_screen(LogPos { row: 0, col: 3 }, &m, lines(&rows), 1), Some((2 + 3, 3)));
}

#[test]
fn log_pos_to_screen_nowrap_full_width_line_guard() {
    // Line fills the viewport exactly (width 10, line_len 10): the line-end
    // gap sits at col_in == width (one past the last visible cell).
    let rows = ["0123456789"];
    let m = map(false, 0, 0, 0);
    assert_eq!(log_pos_to_screen(LogPos { row: 0, col: 10 }, &m, lines(&rows), 1), Some((2 + 10, 3)));
    // A real char at col 10 doesn't exist; col 9 (last char) is visible.
    assert_eq!(log_pos_to_screen(LogPos { row: 0, col: 9 }, &m, lines(&rows), 1), Some((2 + 9, 3)));
}

#[test]
fn log_pos_to_screen_wrapped_line_end_gap() {
    // width 10: "0123456789ABCDEF" -> chunk0 "0123456789", chunk1 "ABCDEF".
    // Line-end gap (col 16) belongs to the final chunk's end.
    let rows = ["0123456789ABCDEF"];
    let m = map(true, 0, 0, 0);
    assert_eq!(log_pos_to_screen(LogPos { row: 0, col: 16 }, &m, lines(&rows), 1), Some((2 + 6, 3 + 1)));
}

#[test]
fn log_pos_to_screen_wrapped_full_width_chunk_guard() {
    // Final chunk fills the available width exactly: line-end gap at the
    // right edge. "0123456789AB" -> chunk0 "0123456789" (10), chunk1 "AB" (2).
    let rows = ["0123456789AB"];
    let m = map(true, 0, 0, 0);
    // col 12 == line_len, final chunk "AB" (start 10, len 2), col_in = 2.
    assert_eq!(log_pos_to_screen(LogPos { row: 0, col: 12 }, &m, lines(&rows), 1), Some((2 + 2, 3 + 1)));
}

#[test]
fn mouse_to_log_pos_nowrap_past_last_char_is_line_end_gap() {
    let rows = ["abc"];
    let m = map(false, 0, 0, 0);
    // Click on the last char (screen col 2) -> left gap (col 2).
    assert_eq!(mouse_to_log_pos(2 + 2, 3, &m, lines(&rows), 1), Some(LogPos { row: 0, col: 2 }));
    // Click past the last char (screen col 3) -> line-end gap (col 3).
    assert_eq!(mouse_to_log_pos(2 + 3, 3, &m, lines(&rows), 1), Some(LogPos { row: 0, col: 3 }));
}

#[test]
fn mouse_to_log_pos_wrapped_past_last_char_is_line_end_gap() {
    // "0123456789ABCDEF" width 10: chunk0 row 0, chunk1 "ABCDEF" row 1.
    let rows = ["0123456789ABCDEF"];
    let m = map(true, 0, 0, 0);
    // Click on the last char of chunk1 ('F' at screen col 5) -> left gap (col 15).
    assert_eq!(mouse_to_log_pos(2 + 5, 3 + 1, &m, lines(&rows), 1), Some(LogPos { row: 0, col: 15 }));
    // Click past the last char (screen col 6) -> line-end gap (col 16).
    assert_eq!(mouse_to_log_pos(2 + 6, 3 + 1, &m, lines(&rows), 1), Some(LogPos { row: 0, col: 16 }));
}

#[test]
fn selection_state_transitions() {
    let mut sel = TextSelection::default();
    assert!(!sel.is_active());
    assert!(sel.normalized_range().is_none());
    assert!(sel.extract_text(|_| Some("x".to_string())).is_none());
    sel.start(LogPos { row: 0, col: 1 });
    assert!(sel.dragging());
    assert!(sel.is_active());
    assert!(!sel.has_extent());
    sel.extend_to(LogPos { row: 0, col: 2 });
    assert!(sel.has_extent());
    sel.finish_drag();
    assert!(!sel.dragging());
    sel.set_range(LogPos { row: 3, col: 0 }, LogPos { row: 1, col: 0 });
    assert_eq!(sel.normalized_range(), Some((LogPos { row: 1, col: 0 }, LogPos { row: 3, col: 0 })));
    sel.clear();
    assert!(!sel.is_active());
}

#[test]
fn extract_text_empty_rows_and_missing_row() {
    let mut sel = TextSelection::default();
    sel.set_range(LogPos { row: 0, col: 1 }, LogPos { row: 2, col: 2 });
    let t = sel.extract_text(|row| match row {
        0 => Some("abc".into()),
        1 => Some(String::new()),
        2 => Some("xyz".into()),
        _ => None,
    });
    assert_eq!(t.as_deref(), Some("bc\n\nxy"));
    let missing = sel.extract_text(|row| if row == 0 { Some("abc".into()) } else { None });
    assert!(missing.is_none());
    sel.set_range(LogPos { row: 0, col: 3 }, LogPos { row: 0, col: 3 });
    assert!(sel.extract_text(|_| Some("abc".into())).is_none());
}

#[test]
fn mouse_outside_area_and_rows() {
    let rows = ["abc", "", "def"];
    let m = map(false, 0, 0, 0);
    assert_eq!(mouse_to_log_pos(1, 3, &m, lines(&rows), 3), None);
    assert_eq!(mouse_to_log_pos(2, 3 + 5, &m, lines(&rows), 3), None);
    assert_eq!(mouse_to_log_pos(2, 3 + 4, &m, lines(&rows), 3), None);
    assert_eq!(mouse_to_log_pos(2 + 7, 3 + 1, &m, lines(&rows), 3), Some(LogPos { row: 1, col: 0 }));
    assert_eq!(mouse_to_log_pos(2, 3, &m, lines(&rows), 0), None);
    // Wrapped: empty lines take no rows, so the second display row is "def".
    let w = map(true, 0, 0, 0);
    assert_eq!(mouse_to_log_pos(2 + 1, 3 + 1, &w, lines(&rows), 3), Some(LogPos { row: 2, col: 1 }));
    assert_eq!(log_pos_to_screen(LogPos { row: 1, col: 0 }, &w, lines(&rows), 3), Some((2, 3 + 1)));
    assert_eq!(log_pos_to_screen(LogPos { row: 5, col: 0 }, &w, lines(&rows), 3), None);
    assert!(is_word_char('_') && is_word_char('Z') && !is_word_char('-') && !is_word_char('é'));
}

#[test]
fn line_spans_hang_indent_selection_includes_pad() {
    let theme = Theme::dark_accents();
    let mut sel = TextSelection::default();
    sel.start(LogPos { row: 0, col: 10 });
    sel.extend_to(LogPos { row: 0, col: 13 });

    let spans = line_spans("   abc", 0, 10, 3, Color::White, &theme, &sel, "", false);

    assert_eq!(spans.len(), 1);
    assert_eq!(spans[0].style.bg, Some(theme.selection_bg));
    assert_eq!(spans[0].content, "   abc");
}

#[test]
fn line_spans_hang_indent_pad_not_selected_before_chunk() {
    let theme = Theme::dark_accents();
    let mut sel = TextSelection::default();
    sel.start(LogPos { row: 0, col: 5 });
    sel.extend_to(LogPos { row: 0, col: 8 });

    let spans = line_spans("   abc", 0, 10, 3, Color::White, &theme, &sel, "", false);

    assert_eq!(spans.len(), 1);
    assert_ne!(spans[0].style.bg, Some(theme.selection_bg));
}

#[test]
fn line_spans_split_find_hits_and_selection() {
    let theme = Theme::dark_accents();
    let sel = TextSelection::default();
    let spans = line_spans("a Foo b foo", 0, 0, 0, Color::White, &theme, &sel, "foo", true);
    let parts: Vec<&str> = spans.iter().map(|s| s.content.as_str()).collect();
    assert_eq!(parts, vec!["a ", "Foo", " b ", "foo"]);
    assert_eq!(spans[1].style.bg, Some(theme.find_bg));
    assert!(spans[1].style.bold && spans[1].style.underlined);
    assert!(!spans[0].style.reversed);
    let mut sel = TextSelection::default();
    sel.set_range(LogPos { row: 0, col: 3 }, LogPos { row: 0, col: 6 });
    let spans = line_spans("a Foo b foo", 0, 0, 0, Color::White, &theme, &sel, "foo", false);
    assert_eq!(spans[1].style.bg, Some(theme.selection_bg));
    let spans = line_spans("abcdef", 0, 0, 0, Color::White, &theme, &sel, "", false);
    let parts: Vec<&str> = spans.iter().map(|s| s.content.as_str()).collect();
    assert_eq!(parts, vec!["abc", "def"]);
    let plain = line_spans("abc", 0, 0, 0, Color::White, &theme, &TextSelection::default(), "", true);
    assert_eq!(plain.len(), 1);
    assert!(plain[0].style.reversed);
    let empty = line_spans("", 0, 0, 0, Color::White, &theme, &sel, "x", false);
    assert_eq!(empty[0].content, "");
    assert_eq!(empty[0].style, Style::default());
}

#[test]
fn drag_starts_only_without_extent_and_release_clears_a_click() {
    let mut sel = TextSelection::default();
    // Not over the log view: nothing happens.
    assert!(!sel.drag_to(LogPos { row: 0, col: 3 }, false));
    assert!(!sel.is_active());
    // Over the view with no extent: a drag starts at the pointer.
    assert!(sel.drag_to(LogPos { row: 0, col: 3 }, true));
    assert!(sel.dragging());
    assert!(sel.drag_to(LogPos { row: 1, col: 2 }, false));
    assert_eq!(sel.normalized_range(), Some((LogPos { row: 0, col: 3 }, LogPos { row: 1, col: 2 })));
    sel.release();
    assert!(!sel.dragging());
    assert_eq!(sel.normalized_range(), Some((LogPos { row: 0, col: 3 }, LogPos { row: 1, col: 2 })));
    // A selection with extent (such as a double-clicked word) is kept.
    assert!(!sel.drag_to(LogPos { row: 5, col: 0 }, true));
    assert_eq!(sel.normalized_range(), Some((LogPos { row: 0, col: 3 }, LogPos { row: 1, col: 2 })));
    // A click without movement leaves nothing selected on release.
    sel.clear();
    assert!(sel.drag_to(LogPos { row: 2, col: 2 }, true));
    sel.release();
    assert!(!sel.is_active());
    assert!(sel.normalized_range().is_none());
}
