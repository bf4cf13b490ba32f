//! Semantic accent palette. Shell chrome inherits the terminal default;
//! only levels, focus, selection, and find use these colors.
//! Level colors come from Android Studio → Color Scheme → Android Logcat;
//! light vs dark is chosen once at startup via host-background detection.

use vstd::prelude::*;
use crate::parser::LogLevel;
use crate::text::{chars_of, parse_decimal_range, spec_parse_decimal};

verus! {

/// A terminal color.
#[derive(Debug, Clone, Copy, PartialEq, Eq, Structural)]
pub enum Color {
    /// The terminal's own default.
    Reset,
    Black,
    Yellow,
    Blue,
    White,
    Rgb(u8, u8, u8),
}

#[derive(Debug, Clone, Copy, PartialEq, Eq, Structural)]
pub struct Theme {
    pub level_verbose: Color,
    pub level_debug: Color,
    pub level_info: Color,
    pub level_warn: Color,
    pub level_error: Color,
    pub focus_fg: Color,
    pub focus_bg: Color,
    pub selection_fg: Color,
    pub selection_bg: Color,
    pub find_fg: Color,
    pub find_bg: Color,
}

/// The colors shared by both schemes; levels use the terminal default.
pub open spec fn spec_interaction_accents() -> Theme {
    Theme {
        level_verbose: Color::Reset,
        level_debug: Color::Reset,
        level_info: Color::Reset,
        level_warn: Color::Reset,
        level_error: Color::Reset,
        focus_fg: Color::Black,
        focus_bg: Color::Yellow,
        selection_fg: Color::White,
        selection_bg: Color::Blue,
        find_fg: Color::Black,
        find_bg: Color::Yellow,
    }
}

/// Android Studio Logcat light scheme level colors.
pub open spec fn spec_light_accents() -> Theme {
    Theme {
        level_verbose: Color::Rgb(0, 0, 0),
        level_debug: Color::Rgb(56, 159, 214),
        level_info: Color::Rgb(89, 168, 105),
        level_warn: Color::Rgb(100, 86, 7),
        level_error: Color::Rgb(205, 0, 0),
        ..spec_interaction_accents()
    }
}

/// Android Studio Logcat dark scheme level colors.
pub open spec fn spec_dark_accents() -> Theme {
    Theme {
        level_verbose: Color::Rgb(187, 187, 187),
        level_debug: Color::Rgb(41, 153, 153),
        level_info: Color::Rgb(171, 192, 35),
        level_warn: Color::Rgb(187, 181, 41),
        level_error: Color::Rgb(255, 107, 104),
        ..spec_interaction_accents()
    }
}

/// The last `;`-separated part of `s` (all of `s` without a `;`).
pub open spec fn last_field_start(s: Seq<char>, j: int) -> int
    decreases j,
{
    if 0 < j <= s.len() && s[j - 1] != ';' {
        last_field_start(s, j - 1)
    } else {
        j
    }
}

/// Light background when the last field of `$COLORFGBG` is a color index of
/// 7 or more; dark when unset or unparsable.
pub open spec fn spec_light_background(colorfgbg: Option<Seq<char>>) -> bool {
    match colorfgbg {
        None => false,
        Some(v) => match spec_parse_decimal(v.skip(last_field_start(v, v.len() as int)), 255) {
            Some(bg) => bg >= 7,
            None => false,
        },
    }
}

impl Theme {
    /// Android Studio Logcat light scheme level colors (HEX → RGB).
    pub fn light_accents() -> (r: Theme)
        ensures
            r == spec_light_accents(),
    {
        Theme {
            level_verbose: Color::Rgb(0, 0, 0),  // #000000
            level_debug: Color::Rgb(56, 159, 214),  // #389FD6
            level_info: Color::Rgb(89, 168, 105),  // #59A869
            level_warn: Color::Rgb(100, 86, 7),  // #645607
            level_error: Color::Rgb(205, 0, 0),  // #CD0000
            ..Self::interaction_accents()
        }
    }

    /// Android Studio Logcat dark scheme level colors (HEX → RGB).
    pub fn dark_accents() -> (r: Theme)
        ensures
            r == spec_dark_accents(),
    {
        Theme {
            level_verbose: Color::Rgb(187, 187, 187),  // #BBBBBB
            level_debug: Color::Rgb(41, 153, 153),  // #299999
            level_info: Color::Rgb(171, 192, 35),  // #ABC023
            level_warn: Color::Rgb(187, 181, 41),  // #BBB529
            level_error: Color::Rgb(255, 107, 104),  // #FF6B68
            ..Self::interaction_accents()
        }
    }

    /// Pick light or dark accents from the value of `$COLORFGBG`; dark when
    /// unset or unparsable.
    pub fn resolve_from(colorfgbg: Option<&str>) -> (r: Theme)
        ensures
            r == if spec_light_background(match colorfgbg {
                Some(s) => Some(s@),
                None => None,
            }) {
                spec_light_accents()
            } else {
                spec_dark_accents()
            },
    {
        if detect_light_background_from(colorfgbg) {
            Self::light_accents()
        } else {
            Self::dark_accents()
        }
    }

    fn interaction_accents() -> (r: Theme)
        ensures
            r == spec_interaction_accents(),
    {
        Theme {
            level_verbose: Color::Reset,
            level_debug: Color::Reset,
            level_info: Color::Reset,
            level_warn: Color::Reset,
            level_error: Color::Reset,
            focus_fg: Color::Black,
            focus_bg: Color::Yellow,
            selection_fg: Color::White,
            selection_bg: Color::Blue,
            find_fg: Color::Black,
            find_bg: Color::Yellow,
        }
    }

    pub fn level_color(&self, level: LogLevel) -> (r: Color)
        ensures
            r == match level {
                LogLevel::Verbose => self.level_verbose,
                LogLevel::Debug => self.level_debug,
                LogLevel::Info => self.level_info,
                LogLevel::Warn => self.level_warn,
                LogLevel::Error | LogLevel::Fatal => self.level_error,
            },
    {
        match level {
            LogLevel::Verbose => self.level_verbose,
            LogLevel::Debug => self.level_debug,
            LogLevel::Info => self.level_info,
            LogLevel::Warn => self.level_warn,
            LogLevel::Error | LogLevel::Fatal => self.level_error,
        }
    }
}

/// Heuristic from `$COLORFGBG` (fg;bg). Light when background index >= 7.
/// When unset/unparsable, assume dark.
pub fn detect_light_background_from(colorfgbg: Option<&str>) -> (r: bool)
    ensures
        r == spec_light_background(match colorfgbg {
            Some(s) => Some(s@),
            None => None,
        }),
{
    match colorfgbg {
        None => false,
        Some(value) => {
            let v = chars_of(value);
            let mut j = v.len();
            while j > 0 && v[j - 1] != ';'
                invariant
                    j <= v@.len(),
                    last_field_start(v@, j as int) == last_field_start(v@, v@.len() as int),
                decreases j,
            {
                j = j - 1;
            }
            assert(v@.subrange(j as int, v@.len() as int) =~= v@.skip(j as int));
            match parse_decimal_range(&v, j, v.len(), 255) {
                Some(bg) => bg >= 7,
                None => false,
            }
        },
    }
}

} // verus!
