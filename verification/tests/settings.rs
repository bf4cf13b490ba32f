use ohmylogcat::panel::{SettingsField, SettingsPanelState};
use ohmylogcat::settings::{BufferPreset, Settings};
use ohmylogcat::ui::i18n::LanguagePreference;

#[test]
fn presets_round_trip_capacities() {
    for p in BufferPreset::all() {
        match p.capacity() {
            Some(c) => assert_eq!(BufferPreset::from_capacity(c), p),
            None => assert_eq!(p, BufferPreset::Custom),
        }
    }
    assert_eq!(BufferPreset::from_capacity(123), BufferPreset::Custom);
    assert_eq!(BufferPreset::Marathon.label(), "Marathon (1M)");
    let s = Settings::default();
    assert_eq!(s.buffer_capacity, 200_000);
    assert!(s.auto_scroll_to_end && !s.soft_wrap && s.adb_path.is_none());
}

#[test]
fn settings_form_from_settings_and_capacity() {
    let mut s = Settings::default();
    s.buffer_capacity = 1234;
    s.language = LanguagePreference::ZhHant;
    let mut form = SettingsPanelState::from_settings(&s, Some("/usr/bin/adb".into()));
    assert_eq!(form.preset, BufferPreset::Custom);
    assert_eq!(form.custom_capacity, "1234");
    assert_eq!(form.capacity(), 1234);
    assert_eq!(form.language, LanguagePreference::ZhHant);
    assert!(!form.adb_is_custom());
    assert_eq!(form.adb_display_path(), "/usr/bin/adb");
    form.adb_path = "  /opt/adb ".into();
    assert!(form.adb_is_custom());
    assert_eq!(form.adb_display_path(), "  /opt/adb ");
    form.custom_capacity = "+77".into();
    assert_eq!(form.capacity(), 77);
    form.custom_capacity = "-1".into();
    assert_eq!(form.capacity(), 200_000);
    form.preset = BufferPreset::Heavy;
    assert_eq!(form.capacity(), 500_000);
    let window_form = ohmylogcat::ui::settings_panel::SettingsPanelState::from_settings(&s);
    assert_eq!(window_form.capacity(), 1234);
}

#[test]
fn settings_focus_moves_and_wraps() {
    let s = Settings::default();
    let mut form = SettingsPanelState::from_settings(&s, None);
    assert_eq!(form.focus_field, SettingsField::Adb);
    form.adb_editing = true;
    form.move_focus(1);
    assert_eq!(form.focus_field, SettingsField::Preset);
    assert!(!form.adb_editing);
    form.move_focus(-2);
    assert_eq!(form.focus_field, SettingsField::Language);
    form.move_focus(7);
    assert_eq!(form.focus_field, SettingsField::Adb);
    form.focus_field = SettingsField::Custom;
    form.move_focus(1);
    assert_eq!(form.focus_field, SettingsField::Preset);
    form.preset = BufferPreset::Custom;
    form.move_focus(1);
    assert_eq!(form.focus_field, SettingsField::Custom);
    form.move_focus(isize::MIN);
    assert_eq!(form.focus_field, SettingsField::Custom);
    assert_eq!(SettingsPanelState::visible_fields(BufferPreset::Custom).len(), 4);
}
