use ohmylogcat::ui::find_bar::{handle_find_shortcuts, FindState};

#[test]
fn find_shortcut_opens_and_escape_closes() {
    let mut f = FindState::default();
    handle_find_shortcuts(&mut f, false, true);
    assert!(!f.open);
    handle_find_shortcuts(&mut f, true, false);
    assert!(f.open && f.focus_request);
    f.query = "crash".into();
    f.matches = vec![3, 9];
    f.current = 1;
    handle_find_shortcuts(&mut f, false, false);
    assert!(f.open);
    assert_eq!(f.query, "crash");
    handle_find_shortcuts(&mut f, false, true);
    assert!(!f.open);
    assert_eq!(f.query, "");
    assert!(f.matches.is_empty());
    assert_eq!(f.current, 0);
}
