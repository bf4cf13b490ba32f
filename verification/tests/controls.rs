use ohmylogcat::controls::{
    clamp_col, clamp_top_row, clamp_wrap_skip, cycle_level, device_cursor_for,
    display_line_in_view, filter_dialog_escape, is_copy_shortcut, line_bound_col, magnitude, max_scroll, pointer_shape_for,
    row_hit_rects, scroll_rows, scroll_to_show, step_device_cursor, step_display_lines, step_row,
    truncate_input, ClickTracker, FilterField, Focus, ModalKind, DEFAULT_EXPORT_NAME,
};
use ohmylogcat::desktop::adb::Device;
use ohmylogcat::panel::{PanelKey, PanelOutcome, SettingsField, SettingsPanelState};
use ohmylogcat::ui::i18n::LanguagePreference;
use ohmylogcat::parser::LogLevel;
use ohmylogcat::settings::{BufferPreset, Settings};
use ohmylogcat::ui::pointer::PointerShape;
use ohmylogcat::ui::selection::{LogPos, Rect, TextSelection};

#[test]
fn level_cycle_steps_and_wraps() {
    // All, Verbose, Debug, Info, Warn, Error, and round again.
    let mut x = None;
    let mut seen = Vec::new();
    for _ in 0..6 {
        x = cycle_level(x, true);
        seen.push(x);
    }
    assert_eq!(
        seen,
        vec![
            Some(LogLevel::Verbose),
            Some(LogLevel::Debug),
            Some(LogLevel::Info),
            Some(LogLevel::Warn),
            Some(LogLevel::Error),
            None,
        ]
    );
    assert_eq!(cycle_level(None, false), Some(LogLevel::Error));
    assert_eq!(cycle_level(Some(LogLevel::Verbose), false), None);
    assert_eq!(cycle_level(Some(LogLevel::Warn), false), Some(LogLevel::Info));
    // Fatal is not among the choices: it counts as "All".
    assert_eq!(cycle_level(Some(LogLevel::Fatal), true), Some(LogLevel::Verbose));
}

#[test]
fn level_cycle_forward_then_back_returns() {
    let choices = [
        None,
        Some(LogLevel::Verbose),
        Some(LogLevel::Debug),
        Some(LogLevel::Info),
        Some(LogLevel::Warn),
        Some(LogLevel::Error),
    ];
    for c in choices {
        assert_eq!(cycle_level(cycle_level(c, true), false), c);
        let mut x = c;
        for _ in 0..6 {
            x = cycle_level(x, true);
        }
        assert_eq!(x, c);
    }
}

#[test]
fn clicks_count_up_to_three_then_restart() {
    let mut t = ClickTracker::new();
    assert_eq!(t.register(10, 5, None), 1);
    assert_eq!(t.register(11, 5, Some(120)), 2);
    assert_eq!(t.register(11, 6, Some(500)), 3);
    assert_eq!(t.register(11, 6, Some(10)), 1);
    // Too slow, or too far away: a new single click.
    assert_eq!(t.register(11, 6, Some(501)), 1);
    assert_eq!(t.register(14, 6, Some(10)), 1);
    assert_eq!(t.last_cell, Some((14, 6)));
}

#[test]
fn copy_shortcut_and_pointer_shape() {
    assert!(is_copy_shortcut('c', true, false, false));
    assert!(is_copy_shortcut('C', false, true, false));
    assert!(is_copy_shortcut('c', false, false, true));
    assert!(!is_copy_shortcut('c', false, false, false));
    assert!(!is_copy_shortcut('v', true, false, false));
    assert_eq!(pointer_shape_for(true, true, false), PointerShape::Text);
    assert_eq!(pointer_shape_for(false, true, true), PointerShape::Default);
    assert_eq!(pointer_shape_for(false, false, true), PointerShape::Text);
    assert_eq!(pointer_shape_for(false, false, false), PointerShape::Default);
}

#[test]
fn truncated_inputs_end_with_ellipsis() {
    assert_eq!(truncate_input("abc", 3), "abc");
    assert_eq!(truncate_input("abcdef", 4), "abc…");
    assert_eq!(truncate_input("日本語テキスト", 3), "日本…");
    assert_eq!(truncate_input("ab", 0), "…");
    assert_eq!(truncate_input("", 0), "");
}

#[test]
fn device_cursor_follows_selected_serial() {
    let devices = vec![
        Device { serial: "emu-1".into(), state: "device".into() },
        Device { serial: "R58M".into(), state: "offline".into() },
    ];
    assert_eq!(device_cursor_for(&devices, &None), 0);
    assert_eq!(device_cursor_for(&devices, &Some("R58M".into())), 2);
    assert_eq!(device_cursor_for(&devices, &Some("gone".into())), 0);
    assert_eq!(step_device_cursor(0, false, 2), 0);
    assert_eq!(step_device_cursor(0, true, 2), 1);
    assert_eq!(step_device_cursor(2, true, 2), 2);
    assert_eq!(step_device_cursor(2, false, 2), 1);
}

#[test]
fn row_scrolling_without_wrap() {
    assert_eq!(max_scroll(10, false, 3), 7);
    assert_eq!(max_scroll(10, true, 3), 9);
    assert_eq!(max_scroll(0, false, 3), 0);
    assert_eq!(max_scroll(10, false, 0), 9);
    assert_eq!(scroll_rows(5, -3, 7), 2);
    assert_eq!(scroll_rows(1, -3, 7), 0);
    assert_eq!(scroll_rows(5, 3, 7), 7);
    assert_eq!(scroll_rows(2, 3, 7), 5);
    assert_eq!(magnitude(isize::MIN), isize::MAX as usize + 1);
    assert_eq!(scroll_to_show(10, 4, 5), 4);
    assert_eq!(scroll_to_show(10, 12, 5), 10);
    assert_eq!(scroll_to_show(10, 17, 5), 13);
    assert_eq!(step_row(3, -5, 10), 0);
    assert_eq!(step_row(3, 4, 10), 7);
    assert_eq!(step_row(8, 4, 10), 9);
    assert_eq!(step_row(8, 4, 0), 8);
    assert_eq!(clamp_col(0, 7), 0);
    assert_eq!(clamp_col(5, 7), 4);
    assert_eq!(clamp_col(9, 7), 7);
}

#[test]
fn top_row_clamping() {
    assert_eq!(clamp_top_row(4, 2, 0, true, 5), (0, 0));
    assert_eq!(clamp_top_row(12, 2, 10, true, 5), (9, 0));
    assert_eq!(clamp_top_row(3, 2, 10, true, 5), (3, 2));
    assert_eq!(clamp_top_row(8, 2, 10, false, 5), (5, 0));
    assert_eq!(clamp_top_row(2, 2, 10, false, 5), (2, 0));
    assert_eq!(clamp_wrap_skip(4, 3), 2);
    assert_eq!(clamp_wrap_skip(1, 3), 1);
    assert_eq!(clamp_wrap_skip(1, 0), 0);
}

#[test]
fn wrapped_lines_step_across_rows() {
    // Rows of 2, 3 and 1 display lines: lines 0-1, 2-4 and 5.
    let h = [2usize, 3, 1];
    assert_eq!(step_display_lines(&h, 0, 0, 4), (1, 2));
    assert_eq!(step_display_lines(&h, 0, 1, 1), (1, 0));
    assert_eq!(step_display_lines(&h, 0, 0, 10), (2, 0));
    assert_eq!(step_display_lines(&h, 2, 0, -3), (1, 0));
    assert_eq!(step_display_lines(&h, 1, 1, -10), (0, 0));
    assert_eq!(step_display_lines(&h, 1, 1, 0), (1, 1));
}

#[test]
fn wrapped_step_down_then_up_returns() {
    let h = [3usize, 1, 4, 2, 2];
    for row in 0..h.len() {
        for skip in 0..h[row] {
            for d in 0..4isize {
                let (r, s) = step_display_lines(&h, row, skip, d);
                let back = step_display_lines(&h, r, s, -d);
                let last = r == h.len() - 1 && s == h[r] - 1;
                if !last || d == 0 {
                    assert_eq!(back, (row, skip));
                }
            }
        }
    }
}

#[test]
fn lines_in_view_window() {
    // View starts on line 1 of row 0 and shows 3 lines.
    let h = [2usize, 3, 1];
    assert!(display_line_in_view(&h, 1, 0, 1, 3));
    assert!(!display_line_in_view(&h, 1, 0, 0, 3));
    assert!(display_line_in_view(&h, 1, 1, 0, 3));
    assert!(display_line_in_view(&h, 1, 1, 1, 3));
    assert!(!display_line_in_view(&h, 1, 1, 2, 3));
    assert!(!display_line_in_view(&h, 1, 2, 0, 3));
    assert!(!display_line_in_view(&h, 1, 1, 3, 10));
    assert!(!display_line_in_view(&h, 1, 3, 0, 10));
    assert!(!display_line_in_view(&h, 0, 0, 0, 0));
}

#[test]
fn dialog_kinds_and_defaults() {
    let m = ModalKind::Export { filtered_only: true, path: DEFAULT_EXPORT_NAME.into() };
    assert_eq!(m.clone(), m);
    assert_ne!(ModalKind::FilterEdit { field: FilterField::Tag }, ModalKind::Settings);
    assert_ne!(Focus::Logs, Focus::Find);
    assert_eq!(DEFAULT_EXPORT_NAME, "ohmylogcat.log");
}

#[test]
fn preset_cycling_in_the_form() {
    let mut s = Settings::default();
    s.buffer_capacity = 4321;
    let mut form = SettingsPanelState::from_settings(&s, None);
    assert_eq!(form.preset, BufferPreset::Custom);
    form.focus_field = SettingsField::Custom;
    form.cycle_preset(true);
    assert_eq!(form.preset, BufferPreset::Light);
    assert_eq!(form.custom_capacity, "50000");
    assert_eq!(form.focus_field, SettingsField::Preset);
    form.cycle_preset(false);
    assert_eq!(form.preset, BufferPreset::Custom);
    assert_eq!(form.custom_capacity, "50000");
    form.cycle_preset(false);
    assert_eq!(form.preset, BufferPreset::Marathon);
    assert_eq!(form.capacity(), 1_000_000);
}

#[test]
fn form_to_settings_trims_adb_override() {
    let s = Settings::default();
    let mut form = SettingsPanelState::from_settings(&s, None);
    form.adb_path = "  /opt/adb  ".into();
    let out = form.to_settings(false, true);
    assert_eq!(out.adb_path.as_deref(), Some("/opt/adb"));
    assert_eq!(out.buffer_capacity, 200_000);
    assert!(!out.auto_scroll_to_end && out.soft_wrap);
    form.adb_path = "   ".into();
    assert_eq!(form.to_settings(true, false).adb_path, None);
}

#[test]
fn labels_laid_out_left_to_right() {
    let rects = row_hit_rects(2, 1, &vec![5, 4, 6], 3);
    assert_eq!(
        rects,
        vec![
            Rect { x: 2, y: 1, width: 5, height: 1 },
            Rect { x: 10, y: 1, width: 4, height: 1 },
            Rect { x: 17, y: 1, width: 6, height: 1 },
        ]
    );
    let far = row_hit_rects(u16::MAX - 3, 0, &vec![10, 1], 1);
    assert_eq!(far[1].x, u16::MAX);
    assert!(row_hit_rects(0, 0, &vec![], 1).is_empty());
}

#[test]
fn filter_dialog_escape_clears_then_closes() {
    let mut input = ohmylogcat::ui::text_input::TextInput::new();
    input.text = "Activity".into();
    input.cursor = 3;
    assert!(!filter_dialog_escape(&mut input));
    assert_eq!(input.text, "");
    assert_eq!(input.cursor, 0);
    assert!(filter_dialog_escape(&mut input));
}

#[test]
fn settings_dialog_keys() {
    let s = Settings::default();
    let mut form = SettingsPanelState::from_settings(&s, Some("/usr/bin/adb".into()));
    // The adb row is locked: typing does nothing until `e`.
    assert_eq!(form.handle_key(PanelKey::Char { c: 'x', control: false }), PanelOutcome::Stay);
    assert_eq!(form.adb_path, "");
    assert_eq!(form.handle_key(PanelKey::Char { c: 'e', control: false }), PanelOutcome::Stay);
    assert!(form.adb_editing);
    assert_eq!(form.handle_key(PanelKey::Char { c: '/', control: false }), PanelOutcome::Commit);
    assert_eq!(form.handle_key(PanelKey::Char { c: 'a', control: false }), PanelOutcome::Commit);
    assert_eq!(form.handle_key(PanelKey::Backspace), PanelOutcome::Commit);
    assert_eq!(form.adb_path, "/");
    // Esc leaves editing first, then dismisses.
    assert_eq!(form.handle_key(PanelKey::Esc), PanelOutcome::Stay);
    assert!(!form.adb_editing);
    assert_eq!(form.handle_key(PanelKey::Char { c: 'r', control: false }), PanelOutcome::Commit);
    assert_eq!(form.adb_path, "");
    assert_eq!(form.handle_key(PanelKey::Esc), PanelOutcome::Close);
    // Preset row: arrows step the preset.
    assert_eq!(form.handle_key(PanelKey::Down), PanelOutcome::Stay);
    assert_eq!(form.focus_field, SettingsField::Preset);
    assert_eq!(form.handle_key(PanelKey::Right), PanelOutcome::Commit);
    assert_eq!(form.preset, BufferPreset::Heavy);
    assert_eq!(form.handle_key(PanelKey::Char { c: '5', control: false }), PanelOutcome::Stay);
    // Custom row takes digits only.
    form.preset = BufferPreset::Custom;
    form.custom_capacity = "12".into();
    assert_eq!(form.handle_key(PanelKey::Down), PanelOutcome::Stay);
    assert_eq!(form.focus_field, SettingsField::Custom);
    assert_eq!(form.handle_key(PanelKey::Char { c: '3', control: false }), PanelOutcome::Commit);
    assert_eq!(form.handle_key(PanelKey::Char { c: 'z', control: false }), PanelOutcome::Stay);
    assert_eq!(form.custom_capacity, "123");
    assert_eq!(form.handle_key(PanelKey::Backspace), PanelOutcome::Commit);
    assert_eq!(form.capacity(), 12);
    // Language row.
    assert_eq!(form.handle_key(PanelKey::Down), PanelOutcome::Stay);
    assert_eq!(form.focus_field, SettingsField::Language);
    assert_eq!(form.handle_key(PanelKey::Left), PanelOutcome::Commit);
    assert_eq!(form.language, LanguagePreference::ZhHant);
    assert_eq!(form.handle_key(PanelKey::Enter), PanelOutcome::Close);
}

#[test]
fn home_and_end_stay_on_the_display_row() {
    // Without wrapping, End goes to the line end, past the last character.
    assert_eq!(line_bound_col("abcdef", 2, false, false, 10, 0), 6);
    assert_eq!(line_bound_col("abcdef", 2, true, false, 10, 0), 0);
    assert_eq!(line_bound_col("", 0, false, false, 10, 0), 0);
    let line = "abcdefghijklmnopqrstuvwxy"; // 25 characters: rows 0-9, 10-19, 20-24
    assert_eq!(line_bound_col(line, 12, false, true, 10, 0), 19);
    assert_eq!(line_bound_col(line, 12, true, true, 10, 0), 10);
    assert_eq!(line_bound_col(line, 22, false, true, 10, 0), 25);
    assert_eq!(line_bound_col("", 3, false, true, 10, 0), 0);
}

#[test]
fn shift_end_selects_through_the_last_character() {
    let line = "hello";
    let end = line_bound_col(line, 0, false, false, 80, 0);
    let mut sel = TextSelection::default();
    sel.set_range(LogPos { row: 0, col: 0 }, LogPos { row: 0, col: end });
    let text = sel.extract_text(|r| if r == 0 { Some(line.to_string()) } else { None });
    assert_eq!(text.as_deref(), Some("hello"));
}
