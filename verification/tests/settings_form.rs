use ohmylogcat::settings::{BufferPreset, Settings};
use ohmylogcat::ui::i18n::LanguagePreference;
use ohmylogcat::ui::settings_panel::SettingsPanelState;

#[test]
fn selecting_a_sized_preset_fills_custom_field() {
    let mut form = SettingsPanelState::from_settings(&Settings::default());
    assert_eq!(form.preset, BufferPreset::Normal);
    form.select_preset(BufferPreset::Heavy);
    assert_eq!(form.custom_capacity, "500000");
    form.select_preset(BufferPreset::Custom);
    assert_eq!(form.custom_capacity, "500000");
    form.custom_capacity = "777".into();
    assert_eq!(form.capacity(), 777);
}

#[test]
fn saving_the_form_trims_adb_path() {
    let mut form = SettingsPanelState::from_settings(&Settings::default());
    form.adb_path = " C:\\adb.exe ".into();
    form.select_preset(BufferPreset::Light);
    let s = form.saved_settings(true, false, LanguagePreference::English);
    assert_eq!(s.adb_path.as_deref(), Some("C:\\adb.exe"));
    assert_eq!(s.buffer_capacity, 50_000);
    assert!(s.auto_scroll_to_end && !s.soft_wrap);
    assert_eq!(s.language, LanguagePreference::English);
    form.adb_path.clear();
    assert_eq!(form.saved_settings(true, true, LanguagePreference::Auto).adb_path, None);
}
