//! State of the windowed Settings form: adb override, buffer preset and the
//! custom capacity text.

use vstd::prelude::*;
use crate::panel::{form_capacity, spec_form_capacity};
use crate::settings::{spec_preset_capacity, spec_preset_from_capacity, BufferPreset, Settings};
use crate::text::{chars_of, decimal, spec_trim, trim_bounds, trim_str, usize_to_string};
use crate::ui::i18n::LanguagePreference;

verus! {

#[derive(Debug)]
pub struct SettingsPanelState {
    pub adb_path: String,
    pub preset: BufferPreset,
    pub custom_capacity: String,
    pub status: Option<String>,
}

impl SettingsPanelState {
    pub fn from_settings(settings: &Settings) -> (r: SettingsPanelState)
        ensures
            r.adb_path@ == match settings.adb_path {
                Some(p) => p@,
                None => Seq::empty(),
            },
            r.preset == spec_preset_from_capacity(settings.buffer_capacity),
            r.custom_capacity@ == decimal(settings.buffer_capacity as nat),
            r.status is None,
    {
        let preset = BufferPreset::from_capacity(settings.buffer_capacity);
        let adb_path = match &settings.adb_path {
            Some(p) => p.clone(),
            None => String::new(),
        };
        SettingsPanelState {
            adb_path,
            preset,
            custom_capacity: usize_to_string(settings.buffer_capacity),
            status: None,
        }
    }

    pub fn capacity(&self) -> (r: usize)
        ensures
            r == spec_form_capacity(self.preset, self.custom_capacity@),
    {
        form_capacity(self.preset, self.custom_capacity.as_str())
    }

    /// Choose `preset`; a preset with a size writes it into the custom field.
    pub fn select_preset(&mut self, preset: BufferPreset)
        ensures
            final(self).preset == preset,
            spec_preset_capacity(preset) matches Some(c) ==> final(self).custom_capacity@ == decimal(
                c as nat,
            ),
            spec_preset_capacity(preset) is None ==> final(self).custom_capacity == old(
                self,
            ).custom_capacity,
            final(self).adb_path == old(self).adb_path,
            final(self).status == old(self).status,
    {
        self.preset = preset;
        if let Some(cap) = preset.capacity() {
            self.custom_capacity = usize_to_string(cap);
        }
    }

    /// The settings saved from the form: the adb override trimmed (none when
    /// only spaces are left), the form's capacity, and the preferences the
    /// form does not edit as given.
    pub fn saved_settings(&self, auto_scroll_to_end: bool, soft_wrap: bool, language: LanguagePreference) -> (r: Settings)
        ensures
            spec_trim(self.adb_path@).len() == 0 ==> r.adb_path is None,
            spec_trim(self.adb_path@).len() > 0 ==> (r.adb_path matches Some(p) && p@ == spec_trim(
                self.adb_path@,
            )),
            r.buffer_capacity == spec_form_capacity(self.preset, self.custom_capacity@),
            r.auto_scroll_to_end == auto_scroll_to_end,
            r.soft_wrap == soft_wrap,
            r.language == language,
    {
        let v = chars_of(self.adb_path.as_str());
        let (a, b) = trim_bounds(&v);
        let adb_path = if a < b {
            Some(trim_str(self.adb_path.as_str()))
        } else {
            None
        };
        Settings { adb_path, buffer_capacity: self.capacity(), auto_scroll_to_end, soft_wrap, language }
    }
}

} // verus!
