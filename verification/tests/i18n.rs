use ohmylogcat::ui::i18n::{LanguagePreference, Locale, UiStrings};

#[test]
fn language_preference_cycles() {
    assert_eq!(LanguagePreference::Auto.cycle(true), LanguagePreference::English);
    assert_eq!(LanguagePreference::ZhHant.cycle(true), LanguagePreference::Auto);
    assert_eq!(LanguagePreference::English.cycle(false), LanguagePreference::Auto);
}

#[test]
fn language_labels_are_fixed() {
    assert_eq!(LanguagePreference::Auto.label(), "Auto");
    assert_eq!(LanguagePreference::English.label(), "English");
    assert_eq!(LanguagePreference::ZhHans.label(), "简体中文");
    assert_eq!(LanguagePreference::ZhHant.label(), "繁體中文");
}

#[test]
fn auto_resolve_simplified() {
    assert_eq!(Locale::from_locale_str("zh-CN"), Locale::ZhHans);
    assert_eq!(Locale::from_locale_str("zh-Hans"), Locale::ZhHans);
    assert_eq!(Locale::from_locale_str("zh_CN"), Locale::ZhHans);
    assert_eq!(Locale::from_locale_str("zh-SG"), Locale::ZhHans);
    assert_eq!(Locale::from_locale_str("zh-Hans-CN"), Locale::ZhHans);
}

#[test]
fn auto_resolve_traditional() {
    assert_eq!(Locale::from_locale_str("zh-TW"), Locale::ZhHant);
    assert_eq!(Locale::from_locale_str("zh-HK"), Locale::ZhHant);
    assert_eq!(Locale::from_locale_str("zh-MO"), Locale::ZhHant);
    assert_eq!(Locale::from_locale_str("zh-Hant"), Locale::ZhHant);
    assert_eq!(Locale::from_locale_str("zh_TW"), Locale::ZhHant);
}

#[test]
fn auto_resolve_bare_zh() {
    assert_eq!(Locale::from_locale_str("zh"), Locale::ZhHans);
}

#[test]
fn auto_resolve_english() {
    assert_eq!(Locale::from_locale_str("en"), Locale::En);
    assert_eq!(Locale::from_locale_str("en-US"), Locale::En);
    assert_eq!(Locale::from_locale_str("en_GB"), Locale::En);
}

#[test]
fn auto_resolve_unsupported_and_missing() {
    assert_eq!(Locale::from_locale_str("ja-JP"), Locale::En);
    assert_eq!(Locale::from_locale_str("de-DE"), Locale::En);
    assert_eq!(Locale::from_locale_str(""), Locale::En);
    assert_eq!(Locale::from_locale_str("   "), Locale::En);
}

#[test]
fn explicit_preference_ignores_system() {
    assert_eq!(Locale::resolve(LanguagePreference::English), Locale::En);
    assert_eq!(Locale::resolve(LanguagePreference::ZhHans), Locale::ZhHans);
    assert_eq!(Locale::resolve(LanguagePreference::ZhHant), Locale::ZhHant);
}

#[test]
fn ui_strings_cover_all_locales() {
    let _ = UiStrings::for_locale(Locale::En);
    let _ = UiStrings::for_locale(Locale::ZhHans);
    let _ = UiStrings::for_locale(Locale::ZhHant);
}

#[test]
fn cycle_there_and_back_is_identity() {
    for p in LanguagePreference::all() {
        assert_eq!(p.cycle(true).cycle(false), p);
        assert_eq!(p.cycle(false).cycle(true), p);
    }
    assert_eq!(Locale::from_locale_str("  ZH-hant-TW "), Locale::ZhHant);
}

#[test]
fn resolve_with_system_locale() {
    assert_eq!(Locale::resolve_with(LanguagePreference::Auto, Some("zh_TW")), Locale::ZhHant);
    assert_eq!(Locale::resolve_with(LanguagePreference::Auto, Some("zh-CN")), Locale::ZhHans);
    assert_eq!(Locale::resolve_with(LanguagePreference::Auto, Some("de-DE")), Locale::En);
    assert_eq!(Locale::resolve_with(LanguagePreference::Auto, None), Locale::En);
    assert_eq!(Locale::resolve_with(LanguagePreference::English, Some("zh")), Locale::En);
    assert_eq!(Locale::resolve_with(LanguagePreference::ZhHans, None), Locale::ZhHans);
}
