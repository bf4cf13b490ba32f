use ohmylogcat::parser::LogLevel;
use ohmylogcat::ui::theme::{detect_light_background_from, Color, Theme};

#[test]
fn light_and_dark_level_rgb_match_as_logcat() {
    let light = Theme::light_accents();
    assert_eq!(light.level_verbose, Color::Rgb(0, 0, 0)); // #000000
    assert_eq!(light.level_debug, Color::Rgb(56, 159, 214)); // #389FD6
    assert_eq!(light.level_info, Color::Rgb(89, 168, 105)); // #59A869
    assert_eq!(light.level_warn, Color::Rgb(100, 86, 7)); // #645607
    assert_eq!(light.level_error, Color::Rgb(205, 0, 0)); // #CD0000

    let dark = Theme::dark_accents();
    assert_eq!(dark.level_verbose, Color::Rgb(187, 187, 187)); // #BBBBBB
    assert_eq!(dark.level_debug, Color::Rgb(41, 153, 153)); // #299999
    assert_eq!(dark.level_info, Color::Rgb(171, 192, 35)); // #ABC023
    assert_eq!(dark.level_warn, Color::Rgb(187, 181, 41)); // #BBB529
    assert_eq!(dark.level_error, Color::Rgb(255, 107, 104)); // #FF6B68

    assert_ne!(dark.level_info, light.level_info);
    assert_ne!(dark.level_error, dark.level_info);
    assert_ne!(light.level_error, light.level_info);
    assert_eq!(dark.find_bg, light.find_bg);
    assert_eq!(dark.find_fg, Color::Black);
    assert_eq!(dark.find_bg, Color::Yellow);
    assert_ne!(dark.find_bg, dark.selection_bg);
}

#[test]
fn light_colorfgbg_selects_light_accents() {
    assert!(detect_light_background_from(Some("15;15")));
    assert!(detect_light_background_from(Some("0;7")));
    assert!(!detect_light_background_from(Some("15;0")));
    assert!(!detect_light_background_from(Some("not-a-number")));
    assert!(!detect_light_background_from(None));

    let theme = if detect_light_background_from(Some("15;15")) {
        Theme::light_accents()
    } else {
        Theme::dark_accents()
    };
    assert_eq!(theme.level_info, Theme::light_accents().level_info);
    assert_eq!(theme.level_info, Color::Rgb(89, 168, 105)); // #59A869
}

#[test]
fn level_color_maps_error_and_fatal() {
    let theme = Theme::dark_accents();
    assert_eq!(theme.level_color(LogLevel::Error), theme.level_error);
    assert_eq!(theme.level_color(LogLevel::Fatal), theme.level_error);
    assert_eq!(theme.level_color(LogLevel::Info), theme.level_info);
}

#[test]
fn resolve_from_colorfgbg_values() {
    assert_eq!(Theme::resolve_from(None), Theme::dark_accents());
    assert_eq!(Theme::resolve_from(Some("0;15")), Theme::light_accents());
    assert_eq!(Theme::resolve_from(Some("7")), Theme::light_accents());
    assert_eq!(Theme::resolve_from(Some("0;256")), Theme::dark_accents());
    assert_eq!(Theme::resolve_from(Some("0;")), Theme::dark_accents());
}
