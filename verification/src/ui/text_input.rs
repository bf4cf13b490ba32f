//! Shared single-line text input with a cursor counted in characters, and
//! terminal display widths.

use vstd::prelude::*;
use crate::text::{chars_of, push_char, push_chars};

verus! {

/// The display width that `unicode_width` gives a string (East Asian wide
/// and fullwidth characters count as two columns).
pub uninterp spec fn spec_str_width(s: Seq<char>) -> usize;

/// `UnicodeWidthStr::width` of the `unicode-width` crate. Its result is
/// named by `spec_str_width`; nothing more is claimed of it here.
#[verifier::external_body]
fn str_width(s: &str) -> (r: usize)
    ensures
        r == spec_str_width(s@),
{
    unicode_width::UnicodeWidthStr::width(s)
}

/// Terminal display width of `s` (CJK / fullwidth count as 2), truncated to
/// a terminal coordinate.
pub fn str_display_width(s: &str) -> (r: u16)
    ensures
        r == spec_str_width(s@) as u16,
{
    str_width(s) as u16
}

/// An editing key for a text field.
#[derive(Debug, Clone, Copy, PartialEq, Eq, Structural)]
pub enum TextKey {
    Left,
    Right,
    Home,
    End,
    Backspace,
    Delete,
    /// A typed character, with the modifier keys held with it.
    Char { c: char, control: bool, super_key: bool },
    Other,
}

#[derive(Debug, Clone, PartialEq, Eq)]
pub struct TextInput {
    pub text: String,
    pub cursor: usize,
}

impl Default for TextInput {
    fn default() -> (r: TextInput)
        ensures
            r.text@ == Seq::<char>::empty(),
            r.cursor == 0,
    {
        TextInput { text: String::new(), cursor: 0 }
    }
}

/// The cursor as a character position inside the text.
pub open spec fn clamp_cursor(cursor: int, len: int) -> int {
    if cursor < len {
        cursor
    } else {
        len
    }
}

/// The text and cursor after `key`, and whether the text changed.
pub open spec fn spec_handle_key(text: Seq<char>, cursor: usize, key: TextKey) -> (Seq<char>, int, bool) {
    let len = text.len() as int;
    match key {
        TextKey::Left => (text, if cursor > 0 { cursor - 1 } else { cursor as int }, false),
        TextKey::Right => (text, if cursor < len { cursor + 1 } else { cursor as int }, false),
        TextKey::Home => (text, 0, false),
        TextKey::End => (text, len, false),
        TextKey::Backspace => if cursor == 0 {
            (text, 0, false)
        } else {
            (
                text.take(clamp_cursor(cursor - 1, len)) + text.skip(clamp_cursor(cursor as int, len)),
                cursor - 1,
                true,
            )
        },
        TextKey::Delete => if cursor >= len {
            (text, cursor as int, false)
        } else {
            (text.take(cursor as int) + text.skip(cursor + 1), cursor as int, true)
        },
        TextKey::Char { c, control, super_key } => if !control && !super_key {
            (
                text.take(clamp_cursor(cursor as int, len)) + seq![c] + text.skip(
                    clamp_cursor(cursor as int, len),
                ),
                cursor + 1,
                true,
            )
        } else {
            (text, cursor as int, false)
        },
        TextKey::Other => (text, cursor as int, false),
    }
}

/// Click position from the widths of the characters: the first index at or
/// after `i` where the columns passed (`acc` so far) reach `target`, or the
/// character count when none does.
pub open spec fn spec_click_index(widths: Seq<usize>, target: int, i: int, acc: int) -> int
    decreases widths.len() - i,
{
    if i < 0 || i >= widths.len() {
        widths.len() as int
    } else if acc >= target {
        i
    } else {
        spec_click_index(widths, target, i + 1, acc + widths[i])
    }
}

/// Index of the character under a click `target` columns into a field
/// whose characters have display widths `widths`.
pub fn cursor_from_widths(target: usize, widths: &Vec<usize>) -> (r: usize)
    requires
        target < usize::MAX,
    ensures
        r == spec_click_index(widths@, target as int, 0, 0),
{
    let mut width: usize = 0;
    let ghost mut acc: int = 0;
    let mut i: usize = 0;
    while i < widths.len()
        invariant
            i <= widths@.len(),
            target < usize::MAX,
            spec_click_index(widths@, target as int, i as int, acc) == spec_click_index(widths@, target as int, 0, 0),
            acc >= 0,
            width == acc || (width == usize::MAX && acc >= usize::MAX),
        decreases widths@.len() - i,
    {
        if width >= target {
            return i;
        }
        proof {
            acc = acc + widths@[i as int];
        }
        width = width.saturating_add(widths[i]);
        i = i + 1;
    }
    widths.len()
}

/// The display width of each character of `s`, taken alone.
fn char_widths(s: &str) -> (r: Vec<usize>)
    ensures
        r@.len() == s@.len(),
        forall|i: int| 0 <= i < s@.len() ==> #[trigger] r@[i] == spec_str_width(seq![s@[i]]),
{
    let v = chars_of(s);
    let mut out: Vec<usize> = Vec::new();
    let mut i: usize = 0;
    while i < v.len()
        invariant
            v@ == s@,
            i <= v@.len(),
            out@.len() == i,
            forall|k: int| 0 <= k < i ==> #[trigger] out@[k] == spec_str_width(seq![s@[k]]),
        decreases v@.len() - i,
    {
        // Isolate each char so the width accounts for East Asian Width.
        let mut one = String::new();
        push_char(&mut one, v[i]);
        assert(one@ =~= seq![s@[i as int]]);
        out.push(str_width(one.as_str()));
        i = i + 1;
    }
    out
}

/// The display width of each character of `s`, taken alone.
pub open spec fn char_width_seq(s: Seq<char>) -> Seq<usize> {
    Seq::new(s.len(), |i: int| spec_str_width(seq![s[i]]))
}

impl TextInput {
    pub fn new() -> (r: TextInput)
        ensures
            r.text@ == Seq::<char>::empty(),
            r.cursor == 0,
    {
        Self::default()
    }

    pub fn set_cursor_end(&mut self)
        ensures
            final(self).text == old(self).text,
            final(self).cursor == old(self).text@.len(),
    {
        self.cursor = chars_of(self.text.as_str()).len();
    }

    /// Handle editing keys. Returns `true` when `text` changed.
    pub fn handle_key(&mut self, key: TextKey) -> (changed: bool)
        requires
            (key matches TextKey::Char { control, super_key, .. } && !control && !super_key) ==> old(
                self,
            ).cursor < usize::MAX,
        ensures
            (final(self).text@, final(self).cursor as int, changed) == spec_handle_key(
                old(self).text@,
                old(self).cursor,
                key,
            ),
    {
        let chars = chars_of(self.text.as_str());
        let len = chars.len();
        match key {
            TextKey::Left => {
                if self.cursor > 0 {
                    self.cursor = self.cursor - 1;
                }
                false
            },
            TextKey::Right => {
                if self.cursor < len {
                    self.cursor = self.cursor + 1;
                }
                false
            },
            TextKey::Home => {
                self.cursor = 0;
                false
            },
            TextKey::End => {
                self.set_cursor_end();
                false
            },
            TextKey::Backspace => {
                if self.cursor == 0 {
                    return false;
                }
                let from = if self.cursor - 1 < len {
                    self.cursor - 1
                } else {
                    len
                };
                let to = if self.cursor < len {
                    self.cursor
                } else {
                    len
                };
                let mut t = String::new();
                push_chars(&mut t, &chars, 0, from);
                push_chars(&mut t, &chars, to, len);
                assert(t@ =~= chars@.take(from as int) + chars@.skip(to as int));
                self.text = t;
                self.cursor = self.cursor - 1;
                true
            },
            TextKey::Delete => {
                if self.cursor >= len {
                    return false;
                }
                let mut t = String::new();
                push_chars(&mut t, &chars, 0, self.cursor);
                push_chars(&mut t, &chars, self.cursor + 1, len);
                assert(t@ =~= chars@.take(self.cursor as int) + chars@.skip(self.cursor + 1));
                self.text = t;
                true
            },
            TextKey::Char { c, control, super_key } => {
                if control || super_key {
                    return false;
                }
                let at = if self.cursor < len {
                    self.cursor
                } else {
                    len
                };
                let mut t = String::new();
                push_chars(&mut t, &chars, 0, at);
                push_char(&mut t, c);
                push_chars(&mut t, &chars, at, len);
                assert(t@ =~= chars@.take(at as int) + seq![c] + chars@.skip(at as int));
                self.text = t;
                self.cursor = self.cursor + 1;
                true
            },
            TextKey::Other => false,
        }
    }

    /// Map a terminal column click to a char index into `text`.
    pub fn cursor_from_click(click_col: u16, value_start_col: u16, text: &str) -> (r: usize)
        ensures
            r == spec_click_index(
                char_width_seq(text@),
                click_col.saturating_sub(value_start_col) as int,
                0,
                0,
            ),
    {
        let target = click_col.saturating_sub(value_start_col) as usize;
        let widths = char_widths(text);
        assert(widths@ =~= char_width_seq(text@));
        cursor_from_widths(target, &widths)
    }

    /// Display width (terminal columns) from start of string to cursor.
    pub fn display_width_before_cursor(&self) -> (r: u16)
        ensures
            r == spec_str_width(self.text@.take(clamp_cursor(self.cursor as int, self.text@.len() as int))) as u16,
    {
        let chars = chars_of(self.text.as_str());
        let end = if self.cursor < chars.len() {
            self.cursor
        } else {
            chars.len()
        };
        let mut prefix = String::new();
        push_chars(&mut prefix, &chars, 0, end);
        assert(prefix@ =~= self.text@.take(end as int));
        str_display_width(prefix.as_str())
    }
}


/// Typing a character and then deleting it with Backspace leaves the text
/// as it was, with the cursor back in place.
pub proof fn law_type_then_backspace(text: Seq<char>, cursor: usize, c: char)
    requires
        cursor <= text.len(),
        cursor < usize::MAX,
    ensures
        ({
            let (t1, c1, _) = spec_handle_key(text, cursor, TextKey::Char { c, control: false, super_key: false });
            let (t2, c2, changed) = spec_handle_key(t1, c1 as usize, TextKey::Backspace);
            t2 == text && c2 == cursor && changed
        }),
{
    let t1 = text.take(cursor as int) + seq![c] + text.skip(cursor as int);
    assert(t1.take(cursor as int) =~= text.take(cursor as int));
    assert(t1.skip(cursor + 1) =~= text.skip(cursor as int));
    assert(text.take(cursor as int) + text.skip(cursor as int) =~= text);
}

} // verus!
