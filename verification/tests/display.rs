use ohmylogcat::ui::display::{
    effective_hang_indent, scroll_bottom_position, visible_chars, wrap_chunk_at_col,
    wrap_chunk_by_index, wrap_display_col, wrap_display_row_for_col, wrap_display_text,
    wrap_line_count, wrap_logical_col_from_display, wrap_rows_shown, WrapChunks,
};

#[test]
fn lazy_wrap_matches_count() {
    let s = "hello world";
    let width = 5;
    let chunks: Vec<_> = WrapChunks::with_indent(s, width, 0)
        .collect_all()
        .into_iter()
        .map(|(_, c)| c)
        .collect();
    assert_eq!(chunks, vec!["hello", " worl", "d"]);
    assert_eq!(wrap_line_count(s, width, 0), chunks.len());
}

#[test]
fn hang_indent_wrap_row_count() {
    let s = "0123456789abcdefghij";
    let width = 10;
    let indent = 5;
    assert_eq!(wrap_line_count(s, width, indent), 3);
}

#[test]
fn hang_indent_first_vs_continuation_capacity() {
    let s = "0123456789abcdefghij";
    let width = 10;
    let indent = 5;
    let chunks: Vec<_> = WrapChunks::with_indent(s, width, indent).collect_all();
    assert_eq!(chunks.len(), 3);
    assert_eq!(chunks[0], (0, "0123456789".to_string()));
    assert_eq!(chunks[1], (10, "abcde".to_string()));
    assert_eq!(chunks[2], (15, "fghij".to_string()));
}

#[test]
fn hang_indent_narrow_viewport_fallback() {
    let s = "0123456789";
    let width = 8;
    let indent = 10;
    assert_eq!(effective_hang_indent(indent, width), 0);
    assert_eq!(wrap_line_count(s, width, indent), 2);
    let chunks: Vec<_> = WrapChunks::with_indent(s, width, indent).collect_all();
    assert_eq!(chunks[0], (0, "01234567".to_string()));
    assert_eq!(chunks[1], (8, "89".to_string()));
}

#[test]
fn wrap_display_text_adds_pad_on_continuation() {
    assert_eq!(wrap_display_text("abc", 10, 5, 20), "     abc");
    assert_eq!(wrap_display_text("abc", 0, 5, 20), "abc");
}

#[test]
fn wrap_display_col_roundtrip_with_hang_indent() {
    let s = "01234: 5678901234abcd";
    let width = 10;
    let indent = 7;
    for col in [0, 8, 10, 12, 15] {
        let (chunk, _, _) = wrap_chunk_at_col(s, width, indent, col);
        let display = wrap_display_col(s, width, indent, col);
        let back = wrap_logical_col_from_display(s, width, indent, chunk, display);
        assert_eq!(back, col, "col {col} display {display} chunk {chunk}");
    }
}

#[test]
fn wrap_display_col_vertical_column_stable() {
    let s = "01234: 5678901234abcd";
    let width = 10;
    let indent = 7;
    // Logical cols 8 and 11 both sit at display column 8 on their respective rows.
    assert_eq!(wrap_display_col(s, width, indent, 8), 8);
    assert_eq!(wrap_display_col(s, width, indent, 11), 8);
}

#[test]
fn visible_chars_skips_and_truncates() {
    assert_eq!(visible_chars("abcdef", 2, 3), "cde");
}

#[test]
fn scroll_bottom_shows_new_entry_after_huge_line() {
    let (offset, skip) = scroll_bottom_position(&[100, 1], 30);
    assert_eq!(offset, 0);
    assert_eq!(skip, 71);
    let (offset, skip) = scroll_bottom_position(&[100, 1, 1], 30);
    assert_eq!(offset, 0);
    assert_eq!(skip, 72);
}

#[test]
fn scroll_bottom_single_short_entry() {
    let (offset, skip) = scroll_bottom_position(&[5], 30);
    assert_eq!(offset, 0);
    assert_eq!(skip, 0);
}

#[test]
fn scroll_bottom_uses_viewport_height_for_huge_line() {
    let (offset_small, skip_small) = scroll_bottom_position(&[100], 10);
    let (offset_large, skip_large) = scroll_bottom_position(&[100], 40);
    assert_eq!(offset_small, 0);
    assert_eq!(skip_small, 90);
    assert_eq!(offset_large, 0);
    assert_eq!(skip_large, 60);
    assert_ne!(skip_small, skip_large);
}

#[test]
fn wrap_rows_for_columns_and_indices() {
    let s = "0123456789abcdefghij";
    assert_eq!(wrap_display_row_for_col(s, 10, 5, 0), 0);
    assert_eq!(wrap_display_row_for_col(s, 10, 5, 12), 1);
    assert_eq!(wrap_display_row_for_col(s, 10, 5, 99), 2);
    assert_eq!(wrap_display_row_for_col("", 10, 5, 3), 0);
    assert_eq!(wrap_chunk_by_index(s, 10, 5, 2), (2, 15, 5));
    assert_eq!(wrap_chunk_by_index(s, 10, 5, 3), (0, 0, 0));
    assert_eq!(wrap_chunk_at_col(s, 10, 5, 99), (2, 15, 5));
    assert_eq!(wrap_line_count("", 10, 0), 1);
    assert_eq!(wrap_line_count("abc", 0, 0), 3);
    assert_eq!(visible_chars("abc", 9, 3), "");
}

#[test]
fn scroll_bottom_empty_and_zero_heights() {
    assert_eq!(scroll_bottom_position(&[], 10), (0, 0));
    assert_eq!(scroll_bottom_position(&[0, 0, 0], 2), (1, 0));
    assert_eq!(scroll_bottom_position(&[3, 4], 0), (1, 3));
}

#[test]
fn wrap_rows_shown_skips_into_the_first_row_and_stops_at_the_height() {
    let heights = [2usize, 3, 1];
    assert_eq!(wrap_rows_shown(&heights, 1, 3), vec![(0, 1), (1, 0), (1, 1)]);
    assert_eq!(
        wrap_rows_shown(&heights, 1, 10),
        vec![(0, 1), (1, 0), (1, 1), (1, 2), (2, 0)]
    );
    // Skipping past the whole first row starts with the second.
    assert_eq!(wrap_rows_shown(&heights, 5, 2), vec![(1, 0), (1, 1)]);
    assert_eq!(wrap_rows_shown(&heights, 0, 0), Vec::<(usize, usize)>::new());
    assert_eq!(wrap_rows_shown(&[], 0, 4), Vec::<(usize, usize)>::new());
}

#[test]
fn wrap_display_col_with_huge_indent_on_the_first_row() {
    // The hang is dropped when the indent leaves no room, so a column on the
    // first row maps to itself whatever the indent.
    let s = "abcdefghij";
    assert_eq!(wrap_display_col(s, 4, usize::MAX, 1), 1);
    assert_eq!(wrap_display_col(s, 4, usize::MAX, 5), 1);
    assert_eq!(effective_hang_indent(usize::MAX, 4), 0);
}
