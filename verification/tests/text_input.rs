use ohmylogcat::ui::text_input::{cursor_from_widths, str_display_width, TextInput, TextKey};

fn from_text(text: String) -> TextInput {
    let cursor = text.chars().count();
    TextInput { text, cursor }
}

fn key(code: TextKey) -> TextKey {
    code
}

fn char_key(c: char) -> TextKey {
    TextKey::Char { c, control: false, super_key: false }
}

#[test]
fn insert_at_cursor() {
    let mut input = from_text("ab".into());
    input.cursor = 1;
    assert!(input.handle_key(char_key('X')));
    assert_eq!(input.text, "aXb");
    assert_eq!(input.cursor, 2);
}

#[test]
fn backspace_at_cursor() {
    let mut input = from_text("abc".into());
    input.cursor = 2;
    assert!(input.handle_key(key(TextKey::Backspace)));
    assert_eq!(input.text, "ac");
    assert_eq!(input.cursor, 1);
}

#[test]
fn delete_at_cursor() {
    let mut input = from_text("abc".into());
    input.cursor = 1;
    assert!(input.handle_key(key(TextKey::Delete)));
    assert_eq!(input.text, "ac");
    assert_eq!(input.cursor, 1);
}

#[test]
fn arrow_and_home_end() {
    let mut input = from_text("abc".into());
    input.handle_key(key(TextKey::Home));
    assert_eq!(input.cursor, 0);
    input.handle_key(key(TextKey::Right));
    assert_eq!(input.cursor, 1);
    input.handle_key(key(TextKey::End));
    assert_eq!(input.cursor, 3);
}

#[test]
fn cursor_from_click_clamps() {
    assert_eq!(TextInput::cursor_from_click(12, 10, "hi"), 2);
    assert_eq!(TextInput::cursor_from_click(11, 10, "hi"), 1);
    assert_eq!(TextInput::cursor_from_click(99, 10, "hi"), 2);
}

#[test]
fn display_width_counts_cjk_as_two() {
    let mut input = from_text("标签".into());
    input.cursor = 1;
    assert_eq!(input.display_width_before_cursor(), 2);
    input.cursor = 2;
    assert_eq!(input.display_width_before_cursor(), 4);
    assert_eq!(str_display_width("消息包含: ["), 11); // 4*2 + 3 ascii = 11
}

#[test]
fn cursor_from_click_respects_cjk_width() {
    // "中" is 2 cols; click at col+1 (mid glyph) → after the char
    assert_eq!(TextInput::cursor_from_click(11, 10, "中a"), 1);
    assert_eq!(TextInput::cursor_from_click(12, 10, "中a"), 1);
    assert_eq!(TextInput::cursor_from_click(13, 10, "中a"), 2);
}

#[test]
fn editing_keys_on_multibyte_text_and_edges() {
    let mut input = from_text("日本語".into());
    input.cursor = 1;
    assert!(input.handle_key(TextKey::Backspace));
    assert_eq!(input.text, "本語");
    assert_eq!(input.cursor, 0);
    assert!(!input.handle_key(TextKey::Backspace));
    assert!(!input.handle_key(TextKey::Left));
    assert_eq!(input.cursor, 0);
    assert!(input.handle_key(TextKey::Delete));
    assert_eq!(input.text, "語");
    input.handle_key(TextKey::End);
    assert!(!input.handle_key(TextKey::Delete));
    assert!(!input.handle_key(TextKey::Right));
    assert_eq!(input.cursor, 1);
    assert!(!input.handle_key(TextKey::Char { c: 'c', control: true, super_key: false }));
    assert!(!input.handle_key(TextKey::Other));
    assert!(input.handle_key(char_key('!')));
    assert_eq!(input.text, "語!");
    let mut fresh = TextInput::new();
    fresh.text = "abc".into();
    fresh.set_cursor_end();
    assert_eq!(fresh.cursor, 3);
    assert_eq!(cursor_from_widths(3, &vec![1, 1, 1, 1]), 3);
    assert_eq!(cursor_from_widths(0, &vec![2, 2]), 0);
    assert_eq!(cursor_from_widths(9, &vec![2, 2]), 2);
}
