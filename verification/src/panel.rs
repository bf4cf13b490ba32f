//! State of the keyboard-driven Settings form: its fields, which one has
//! focus, and the capacity the form currently describes.

use vstd::prelude::*;
use crate::settings::{preset_at, spec_preset_capacity, spec_preset_from_capacity, BufferPreset, Settings};
use crate::text::{
    decimal, parse_usize, pop_char, push_char, spec_parse_decimal, spec_trim, trim_bounds, trim_str, chars_of,
    usize_to_string,
};
use crate::ui::i18n::{spec_cycle, LanguagePreference};

verus! {

#[derive(Debug, Clone, Copy, PartialEq, Eq, Structural)]
pub enum SettingsField {
    Adb,
    Preset,
    Custom,
    Language,
}

#[derive(Debug)]
pub struct SettingsPanelState {
    pub adb_path: String,
    /// Resolved auto path (PATH / platform defaults); shown as read-only hint when override empty.
    pub auto_adb: Option<String>,
    pub preset: BufferPreset,
    pub custom_capacity: String,
    pub language: LanguagePreference,
    pub status: Option<String>,
    pub focus_field: SettingsField,
    pub adb_editing: bool,
}

/// The fields shown for a preset, top to bottom: the custom-size field only
/// for `Custom`.
pub open spec fn spec_visible_fields(preset: BufferPreset) -> Seq<SettingsField> {
    if preset == BufferPreset::Custom {
        seq![SettingsField::Adb, SettingsField::Preset, SettingsField::Custom, SettingsField::Language]
    } else {
        seq![SettingsField::Adb, SettingsField::Preset, SettingsField::Language]
    }
}

/// The capacity a form describes: the custom text read as a number (the
/// default size when it is not one), or the preset's size.
pub open spec fn spec_form_capacity(preset: BufferPreset, custom: Seq<char>) -> usize {
    if preset == BufferPreset::Custom {
        match spec_parse_decimal(custom, usize::MAX as nat) {
            Some(n) => n as usize,
            None => 200_000,
        }
    } else {
        match spec_preset_capacity(preset) {
            Some(c) => c,
            None => 200_000,
        }
    }
}

/// The field reached from `fields[idx]` by moving `delta` places, wrapping
/// around at both ends.
pub open spec fn spec_step_field(fields: Seq<SettingsField>, idx: int, delta: int) -> SettingsField {
    fields[(idx + delta) % (fields.len() as int)]
}

impl SettingsPanelState {
    /// The form for `settings`; `auto_adb` is the adb path found without an
    /// override, shown when the override is empty.
    pub fn from_settings(settings: &Settings, auto_adb: Option<String>) -> (r: SettingsPanelState)
        ensures
            r.adb_path@ == match settings.adb_path {
                Some(p) => p@,
                None => Seq::empty(),
            },
            r.auto_adb == auto_adb,
            r.preset == spec_preset_from_capacity(settings.buffer_capacity),
            r.custom_capacity@ == decimal(settings.buffer_capacity as nat),
            r.language == settings.language,
            r.status is None,
            r.focus_field == SettingsField::Adb,
            !r.adb_editing,
    {
        let preset = BufferPreset::from_capacity(settings.buffer_capacity);
        let adb_path = match &settings.adb_path {
            Some(p) => p.clone(),
            None => String::new(),
        };
        SettingsPanelState {
            adb_path,
            auto_adb,
            preset,
            custom_capacity: usize_to_string(settings.buffer_capacity),
            language: settings.language,
            status: None,
            focus_field: SettingsField::Adb,
            adb_editing: false,
        }
    }

    pub fn visible_fields(preset: BufferPreset) -> (r: Vec<SettingsField>)
        ensures
            r@ == spec_visible_fields(preset),
    {
        let mut v: Vec<SettingsField> = Vec::new();
        v.push(SettingsField::Adb);
        v.push(SettingsField::Preset);
        if preset == BufferPreset::Custom {
            v.push(SettingsField::Custom);
        }
        v.push(SettingsField::Language);
        assert(v@ =~= spec_visible_fields(preset));
        v
    }

    /// Move focus `delta` fields down (up when negative), wrapping around.
    /// A focus on a field that is not shown moves to the preset field.
    /// Leaving the adb field ends its editing.
    pub fn move_focus(&mut self, delta: isize)
        ensures
            final(self).adb_path == old(self).adb_path,
            final(self).auto_adb == old(self).auto_adb,
            final(self).preset == old(self).preset,
            final(self).custom_capacity == old(self).custom_capacity,
            final(self).language == old(self).language,
            final(self).status == old(self).status,
            !spec_visible_fields(old(self).preset).contains(old(self).focus_field) ==> {
                &&& final(self).focus_field == SettingsField::Preset
                &&& final(self).adb_editing == old(self).adb_editing
            },
            spec_visible_fields(old(self).preset).contains(old(self).focus_field) ==> {
                let fields = spec_visible_fields(old(self).preset);
                let next = spec_step_field(fields, fields.index_of(old(self).focus_field), delta as int);
                &&& final(self).focus_field == next
                &&& final(self).adb_editing == (old(self).adb_editing && !(old(self).focus_field
                    == SettingsField::Adb && next != SettingsField::Adb))
            },
    {
        let fields = Self::visible_fields(self.preset);
        let mut idx: usize = 0;
        while idx < fields.len() && fields[idx] != self.focus_field
            invariant
                idx <= fields@.len(),
                fields@ == spec_visible_fields(self.preset),
                forall|k: int| 0 <= k < idx ==> fields@[k] != self.focus_field,
            decreases fields@.len() - idx,
        {
            idx = idx + 1;
        }
        if idx == fields.len() {
            assert(!fields@.contains(self.focus_field));
            self.focus_field = SettingsField::Preset;
            return;
        }
        proof {
            assert(fields@.contains(self.focus_field));
            assert(fields@.index_of(self.focus_field) == idx) by {
                let j = fields@.index_of(self.focus_field);
                assert(fields@[j] == self.focus_field);
                if j < idx {
                } else if j > idx {
                }
            }
        }
        let len = fields.len();
        let next = step_index(idx, delta, len);
        let next_field = fields[next];
        if self.focus_field == SettingsField::Adb && next_field != SettingsField::Adb {
            self.adb_editing = false;
        }
        self.focus_field = next_field;
    }

    pub fn adb_is_custom(&self) -> (r: bool)
        ensures
            r == (spec_trim(self.adb_path@).len() > 0),
    {
        let v = chars_of(self.adb_path.as_str());
        let (a, b) = trim_bounds(&v);
        a < b
    }

    pub fn adb_display_path(&self) -> (r: String)
        ensures
            r@ == if spec_trim(self.adb_path@).len() > 0 {
                self.adb_path@
            } else {
                match self.auto_adb {
                    Some(p) => p@,
                    None => Seq::empty(),
                }
            },
    {
        if self.adb_is_custom() {
            self.adb_path.clone()
        } else {
            match &self.auto_adb {
                Some(path) => path.clone(),
                None => String::new(),
            }
        }
    }

    pub fn capacity(&self) -> (r: usize)
        ensures
            r == spec_form_capacity(self.preset, self.custom_capacity@),
    {
        form_capacity(self.preset, self.custom_capacity.as_str())
    }
}

/// Position of a preset in the display order.
pub open spec fn preset_index(p: BufferPreset) -> int {
    match p {
        BufferPreset::Light => 0,
        BufferPreset::Normal => 1,
        BufferPreset::Heavy => 2,
        BufferPreset::Marathon => 3,
        BufferPreset::Custom => 4,
    }
}

impl SettingsPanelState {
    /// Step the preset to the next (or previous) one, wrapping around. A
    /// preset with a size writes that size into the custom field; focus on
    /// the custom field, which a sized preset hides, moves to the preset.
    pub fn cycle_preset(&mut self, forward: bool)
        ensures
            final(self).preset == preset_at(
                if forward {
                    (preset_index(old(self).preset) + 1) % 5
                } else {
                    (preset_index(old(self).preset) + 4) % 5
                },
            ),
            spec_preset_capacity(final(self).preset) matches Some(c) ==> final(self).custom_capacity@
                == decimal(c as nat),
            spec_preset_capacity(final(self).preset) is None ==> final(self).custom_capacity
                == old(self).custom_capacity,
            final(self).focus_field == if old(self).focus_field == SettingsField::Custom
                && final(self).preset != BufferPreset::Custom {
                SettingsField::Preset
            } else {
                old(self).focus_field
            },
            final(self).adb_path == old(self).adb_path,
            final(self).auto_adb == old(self).auto_adb,
            final(self).language == old(self).language,
            final(self).status == old(self).status,
            final(self).adb_editing == old(self).adb_editing,
    {
        let was_custom_focus = self.focus_field == SettingsField::Custom;
        let idx: usize = match self.preset {
            BufferPreset::Light => 0,
            BufferPreset::Normal => 1,
            BufferPreset::Heavy => 2,
            BufferPreset::Marathon => 3,
            BufferPreset::Custom => 4,
        };
        let next = if forward {
            (idx + 1) % 5
        } else {
            (idx + 4) % 5
        };
        let all = BufferPreset::all();
        self.preset = all[next];
        if let Some(cap) = self.preset.capacity() {
            self.custom_capacity = usize_to_string(cap);
        }
        if was_custom_focus && self.preset != BufferPreset::Custom {
            self.focus_field = SettingsField::Preset;
        }
    }

    /// The settings the form describes, with the display preferences given:
    /// the adb override trimmed, and none when only spaces are left.
    pub fn to_settings(&self, auto_scroll_to_end: bool, soft_wrap: bool) -> (r: Settings)
        ensures
            spec_trim(self.adb_path@).len() == 0 ==> r.adb_path is None,
            spec_trim(self.adb_path@).len() > 0 ==> (r.adb_path matches Some(p) && p@ == spec_trim(
                self.adb_path@,
            )),
            r.buffer_capacity == spec_form_capacity(self.preset, self.custom_capacity@),
            r.auto_scroll_to_end == auto_scroll_to_end,
            r.soft_wrap == soft_wrap,
            r.language == self.language,
    {
        let trimmed = trim_str(self.adb_path.as_str());
        let adb_path = if self.adb_is_custom() {
            Some(trimmed)
        } else {
            None
        };
        Settings {
            adb_path,
            buffer_capacity: self.capacity(),
            auto_scroll_to_end,
            soft_wrap,
            language: self.language,
        }
    }
}

/// A key pressed in the Settings dialog.
#[derive(Debug, Clone, Copy, PartialEq, Eq, Structural)]
pub enum PanelKey {
    Enter,
    Esc,
    Up,
    Down,
    Left,
    Right,
    Backspace,
    /// A typed character; `control` when Ctrl was held.
    Char { c: char, control: bool },
    Other,
}

/// What the dialog asks of the application after a key.
#[derive(Debug, Clone, Copy, PartialEq, Eq, Structural)]
pub enum PanelOutcome {
    /// Nothing to do beyond the form's own change, if any.
    Stay,
    /// The form changed what it describes: save and apply it.
    Commit,
    /// Dismiss the dialog (changes are already saved).
    Close,
}

pub open spec fn is_ascii_digit(c: char) -> bool {
    '0' <= c <= '9'
}

impl SettingsPanelState {
    /// Handle a key: `Enter` dismisses; `Esc` leaves adb editing, else
    /// dismisses; `Up`/`Down` move between rows; `Left`/`Right` step the
    /// preset or the language; while editing the adb row, characters and
    /// `Backspace` edit the path; on the locked adb row `e` starts editing
    /// and `r` restores automatic resolution; the custom row takes digits
    /// and `Backspace`. Keys with Ctrl, and keys a row does not use, change
    /// nothing.
    pub fn handle_key(&mut self, key: PanelKey) -> (r: PanelOutcome)
        ensures
            final(self).auto_adb == old(self).auto_adb,
            final(self).status == old(self).status,
            key == PanelKey::Enter ==> r == PanelOutcome::Close && *final(self) == *old(self),
            key == PanelKey::Esc ==> if old(self).focus_field == SettingsField::Adb && old(self).adb_editing {
                r == PanelOutcome::Stay && *final(self) == (SettingsPanelState {
                    adb_editing: false,
                    ..*old(self)
                })
            } else {
                r == PanelOutcome::Close && *final(self) == *old(self)
            },
            (key == PanelKey::Up || key == PanelKey::Down) ==> {
                let fields = spec_visible_fields(old(self).preset);
                let delta: int = if key == PanelKey::Up { -1 } else { 1 };
                &&& r == PanelOutcome::Stay
                &&& final(self).preset == old(self).preset
                &&& final(self).adb_path == old(self).adb_path
                &&& final(self).custom_capacity == old(self).custom_capacity
                &&& final(self).language == old(self).language
                &&& !fields.contains(old(self).focus_field) ==> final(self).focus_field
                    == SettingsField::Preset && final(self).adb_editing == old(self).adb_editing
                &&& fields.contains(old(self).focus_field) ==> {
                    let next = spec_step_field(fields, fields.index_of(old(self).focus_field), delta);
                    &&& final(self).focus_field == next
                    &&& final(self).adb_editing == (old(self).adb_editing && !(old(self).focus_field
                        == SettingsField::Adb && next != SettingsField::Adb))
                }
            },
            (key == PanelKey::Left || key == PanelKey::Right) ==> {
                &&& old(self).focus_field == SettingsField::Preset ==> {
                    let p = preset_at(
                        if key == PanelKey::Right {
                            (preset_index(old(self).preset) + 1) % 5
                        } else {
                            (preset_index(old(self).preset) + 4) % 5
                        },
                    );
                    &&& r == PanelOutcome::Commit
                    &&& final(self).preset == p
                    &&& spec_preset_capacity(p) matches Some(c) ==> final(self).custom_capacity@
                        == decimal(c as nat)
                    &&& spec_preset_capacity(p) is None ==> final(self).custom_capacity == old(
                        self,
                    ).custom_capacity
                    &&& final(self).focus_field == SettingsField::Preset
                    &&& final(self).language == old(self).language
                    &&& final(self).adb_path == old(self).adb_path
                    &&& final(self).adb_editing == old(self).adb_editing
                }
                &&& old(self).focus_field == SettingsField::Language ==> r == PanelOutcome::Commit
                    && *final(self) == (SettingsPanelState {
                    language: spec_cycle(old(self).language, key == PanelKey::Right),
                    ..*old(self)
                })
                &&& old(self).focus_field != SettingsField::Preset && old(self).focus_field
                    != SettingsField::Language ==> r == PanelOutcome::Stay && *final(self) == *old(self)
            },
            key == PanelKey::Backspace ==> {
                &&& old(self).focus_field == SettingsField::Adb && old(self).adb_editing ==> r
                    == PanelOutcome::Commit && final(self).adb_path@ == (if old(self).adb_path@.len()
                    > 0 {
                    old(self).adb_path@.drop_last()
                } else {
                    old(self).adb_path@
                }) && final(self).custom_capacity == old(self).custom_capacity && final(self).preset
                    == old(self).preset && final(self).focus_field == old(self).focus_field
                    && final(self).adb_editing
                &&& old(self).focus_field == SettingsField::Custom ==> r == PanelOutcome::Commit
                    && final(self).custom_capacity@ == (if old(self).custom_capacity@.len() > 0 {
                    old(self).custom_capacity@.drop_last()
                } else {
                    old(self).custom_capacity@
                }) && final(self).adb_path == old(self).adb_path && final(self).preset
                    == old(self).preset && final(self).focus_field == old(self).focus_field
                &&& !(old(self).focus_field == SettingsField::Adb && old(self).adb_editing)
                    && old(self).focus_field != SettingsField::Custom ==> r == PanelOutcome::Stay
                    && *final(self) == *old(self)
            },
            key matches PanelKey::Char { c, control } ==> {
                &&& (control || old(self).focus_field == SettingsField::Preset || old(self).focus_field
                    == SettingsField::Language) ==> r == PanelOutcome::Stay && *final(self) == *old(self)
                &&& (!control && old(self).focus_field == SettingsField::Adb && old(self).adb_editing)
                    ==> r == PanelOutcome::Commit && final(self).adb_path@ == old(self).adb_path@.push(c)
                    && final(self).adb_editing && final(self).custom_capacity == old(self).custom_capacity
                    && final(self).preset == old(self).preset && final(self).focus_field == old(self).focus_field
                &&& (!control && old(self).focus_field == SettingsField::Adb && !old(self).adb_editing)
                    ==> if c == 'e' {
                    r == PanelOutcome::Stay && *final(self) == (SettingsPanelState {
                        adb_editing: true,
                        ..*old(self)
                    })
                } else if c == 'r' {
                    r == PanelOutcome::Commit && final(self).adb_path@ == Seq::<char>::empty()
                        && !final(self).adb_editing && final(self).custom_capacity == old(self).custom_capacity
                        && final(self).preset == old(self).preset && final(self).focus_field
                        == old(self).focus_field
                } else {
                    r == PanelOutcome::Stay && *final(self) == *old(self)
                }
                &&& (!control && old(self).focus_field == SettingsField::Custom) ==> if is_ascii_digit(c) {
                    r == PanelOutcome::Commit && final(self).custom_capacity@ == old(
                        self,
                    ).custom_capacity@.push(c) && final(self).adb_path == old(self).adb_path
                        && final(self).preset == old(self).preset && final(self).focus_field
                        == old(self).focus_field
                } else {
                    r == PanelOutcome::Stay && *final(self) == *old(self)
                }
            },
            key == PanelKey::Other ==> r == PanelOutcome::Stay && *final(self) == *old(self),
    {
        let focus = self.focus_field;
        match key {
            PanelKey::Enter => PanelOutcome::Close,
            PanelKey::Esc => {
                if focus == SettingsField::Adb && self.adb_editing {
                    self.adb_editing = false;
                    PanelOutcome::Stay
                } else {
                    PanelOutcome::Close
                }
            },
            PanelKey::Up => {
                self.move_focus(-1);
                PanelOutcome::Stay
            },
            PanelKey::Down => {
                self.move_focus(1);
                PanelOutcome::Stay
            },
            PanelKey::Left | PanelKey::Right => {
                let forward = key == PanelKey::Right;
                if focus == SettingsField::Preset {
                    self.cycle_preset(forward);
                    PanelOutcome::Commit
                } else if focus == SettingsField::Language {
                    self.language = self.language.cycle(forward);
                    PanelOutcome::Commit
                } else {
                    PanelOutcome::Stay
                }
            },
            PanelKey::Backspace => {
                if focus == SettingsField::Adb && self.adb_editing {
                    pop_char(&mut self.adb_path);
                    PanelOutcome::Commit
                } else if focus == SettingsField::Custom {
                    pop_char(&mut self.custom_capacity);
                    PanelOutcome::Commit
                } else {
                    PanelOutcome::Stay
                }
            },
            PanelKey::Char { c, control } => {
                if control || focus == SettingsField::Preset || focus == SettingsField::Language {
                    PanelOutcome::Stay
                } else if focus == SettingsField::Adb {
                    if self.adb_editing {
                        push_char(&mut self.adb_path, c);
                        PanelOutcome::Commit
                    } else if c == 'e' {
                        self.adb_editing = true;
                        PanelOutcome::Stay
                    } else if c == 'r' {
                        self.adb_path = String::new();
                        PanelOutcome::Commit
                    } else {
                        PanelOutcome::Stay
                    }
                } else if '0' <= c && c <= '9' {
                    push_char(&mut self.custom_capacity, c);
                    PanelOutcome::Commit
                } else {
                    PanelOutcome::Stay
                }
            },
            PanelKey::Other => PanelOutcome::Stay,
        }
    }
}

/// The capacity a form with `preset` and custom text `custom` describes.
pub fn form_capacity(preset: BufferPreset, custom: &str) -> (r: usize)
    ensures
        r == spec_form_capacity(preset, custom@),
{
    if preset == BufferPreset::Custom {
        match parse_usize(custom) {
            Some(n) => n,
            None => 200_000,
        }
    } else {
        match preset.capacity() {
            Some(c) => c,
            None => 200_000,
        }
    }
}

/// `(idx + delta)` taken modulo `len`, in `0..len`.
fn step_index(idx: usize, delta: isize, len: usize) -> (r: usize)
    requires
        idx < len <= 4,
    ensures
        r < len,
        r == (idx + delta) % (len as int),
{
    if delta >= 0 {
        let d = (delta as usize) % len;
        proof {
            vstd::arithmetic::div_mod::lemma_mod_bound(delta as int, len as int);
            vstd::arithmetic::div_mod::lemma_add_mod_noop(idx as int, delta as int, len as int);
            vstd::arithmetic::div_mod::lemma_small_mod(idx as nat, len as nat);
            vstd::arithmetic::div_mod::lemma_mod_bound(idx + d, len as int);
        }
        (idx + d) % len
    } else {
        let k = (-(delta + 1)) as usize;
        let m = k % len;
        proof {
            vstd::arithmetic::div_mod::lemma_mod_bound(k as int, len as int);
            vstd::arithmetic::div_mod::lemma_fundamental_div_mod(k as int, len as int);
            let q = k as int / len as int;
            assert(idx + len - 1 - m == (idx + delta) + len * (q + 1)) by (nonlinear_arith)
                requires
                    k == len * q + m,
                    k == -(delta + 1),
            ;
            vstd::arithmetic::div_mod::lemma_mod_multiples_vanish(q + 1, idx + delta, len as int);
            assert(len * (q + 1) + (idx + delta) == (idx + delta) + len * (q + 1));
        }
        (idx + len - 1 - m) % len
    }
}

} // verus!
