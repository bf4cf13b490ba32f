//! Persisted preferences and the buffer-size presets offered in Settings.

use vstd::prelude::*;
use crate::ui::i18n::LanguagePreference;

verus! {

/// The preferences kept between runs.
#[derive(Debug, Clone)]
pub struct Settings {
    pub adb_path: Option<String>,
    pub buffer_capacity: usize,
    pub auto_scroll_to_end: bool,
    pub soft_wrap: bool,
    pub language: LanguagePreference,
}

impl Default for Settings {
    fn default() -> (r: Settings)
        ensures
            r.adb_path is None,
            r.buffer_capacity == 200_000,
            r.auto_scroll_to_end,
            !r.soft_wrap,
            r.language == LanguagePreference::Auto,
    {
        Settings {
            adb_path: None,
            buffer_capacity: 200_000,
            auto_scroll_to_end: true,
            soft_wrap: false,
            language: LanguagePreference::Auto,
        }
    }
}

#[derive(Debug, Clone, Copy, PartialEq, Eq, Structural)]
pub enum BufferPreset {
    Light,
    Normal,
    Heavy,
    Marathon,
    Custom,
}

/// The capacity a preset stands for; none for `Custom`.
pub open spec fn spec_preset_capacity(p: BufferPreset) -> Option<usize> {
    match p {
        BufferPreset::Light => Some(50_000),
        BufferPreset::Normal => Some(200_000),
        BufferPreset::Heavy => Some(500_000),
        BufferPreset::Marathon => Some(1_000_000),
        BufferPreset::Custom => None,
    }
}

pub open spec fn spec_preset_label(p: BufferPreset) -> &'static str {
    match p {
        BufferPreset::Light => "Light (50k)",
        BufferPreset::Normal => "Normal (200k)",
        BufferPreset::Heavy => "Heavy (500k)",
        BufferPreset::Marathon => "Marathon (1M)",
        BufferPreset::Custom => "Custom",
    }
}

/// The preset at position `i` of the display order.
pub open spec fn preset_at(i: int) -> BufferPreset {
    if i == 0 {
        BufferPreset::Light
    } else if i == 1 {
        BufferPreset::Normal
    } else if i == 2 {
        BufferPreset::Heavy
    } else if i == 3 {
        BufferPreset::Marathon
    } else {
        BufferPreset::Custom
    }
}

/// The preset for a capacity: the one whose size it is, else `Custom`.
pub open spec fn spec_preset_from_capacity(cap: usize) -> BufferPreset {
    if cap == 50_000 {
        BufferPreset::Light
    } else if cap == 200_000 {
        BufferPreset::Normal
    } else if cap == 500_000 {
        BufferPreset::Heavy
    } else if cap == 1_000_000 {
        BufferPreset::Marathon
    } else {
        BufferPreset::Custom
    }
}

impl BufferPreset {
    /// All presets in display order.
    pub fn all() -> (r: [BufferPreset; 5])
        ensures
            forall|i: int| 0 <= i < 5 ==> #[trigger] r@[i] == preset_at(i),
    {
        [
            BufferPreset::Light,
            BufferPreset::Normal,
            BufferPreset::Heavy,
            BufferPreset::Marathon,
            BufferPreset::Custom,
        ]
    }

    pub fn label(self) -> (r: &'static str)
        ensures
            r == spec_preset_label(self),
    {
        match self {
            BufferPreset::Light => "Light (50k)",
            BufferPreset::Normal => "Normal (200k)",
            BufferPreset::Heavy => "Heavy (500k)",
            BufferPreset::Marathon => "Marathon (1M)",
            BufferPreset::Custom => "Custom",
        }
    }

    pub fn capacity(self) -> (r: Option<usize>)
        ensures
            r == spec_preset_capacity(self),
    {
        match self {
            BufferPreset::Light => Some(50_000),
            BufferPreset::Normal => Some(200_000),
            BufferPreset::Heavy => Some(500_000),
            BufferPreset::Marathon => Some(1_000_000),
            BufferPreset::Custom => None,
        }
    }

    pub fn from_capacity(cap: usize) -> (r: BufferPreset)
        ensures
            r == spec_preset_from_capacity(cap),
            r != BufferPreset::Custom ==> spec_preset_capacity(r) == Some(cap),
    {
        let all = Self::all();
        let mut i: usize = 0;
        while i < 5
            invariant
                i <= 5,
                forall|k: int| 0 <= k < 5 ==> #[trigger] all@[k] == preset_at(k),
                forall|k: int| 0 <= k < i ==> spec_preset_capacity(preset_at(k)) != Some(cap),
            decreases 5 - i,
        {
            let preset = all[i];
            if preset.capacity() == Some(cap) {
                return preset;
            }
            i = i + 1;
        }
        proof {
            assert(spec_preset_capacity(preset_at(0)) != Some(cap));
            assert(spec_preset_capacity(preset_at(1)) != Some(cap));
            assert(spec_preset_capacity(preset_at(2)) != Some(cap));
            assert(spec_preset_capacity(preset_at(3)) != Some(cap));
        }
        BufferPreset::Custom
    }
}

/// Choosing the preset of a capacity and reading its size back gives the
/// capacity again, for every preset size.
pub proof fn law_preset_capacity_roundtrip(p: BufferPreset)
    requires
        p != BufferPreset::Custom,
    ensures
        spec_preset_capacity(p) matches Some(c) && spec_preset_from_capacity(c) == p,
{
}

} // verus!
