//! Localised chrome strings and the UI language preference. Log content
//! is never translated.

use vstd::prelude::*;
use crate::text::{chars_of, occurs_at, spec_to_lowercase, spec_trim, to_lowercase, trim_str};

verus! {

/// Persisted language preference.
#[derive(Debug, Clone, Copy, PartialEq, Eq, Structural)]
pub enum LanguagePreference {
    Auto,
    English,
    ZhHans,
    ZhHant,
}

impl Default for LanguagePreference {
    fn default() -> (r: LanguagePreference)
        ensures
            r == LanguagePreference::Auto,
    {
        LanguagePreference::Auto
    }
}

/// Position of a preference in the fixed option order Auto, English,
/// Simplified Chinese, Traditional Chinese.
pub open spec fn pref_index(p: LanguagePreference) -> int {
    match p {
        LanguagePreference::Auto => 0,
        LanguagePreference::English => 1,
        LanguagePreference::ZhHans => 2,
        LanguagePreference::ZhHant => 3,
    }
}

pub open spec fn pref_at(i: int) -> LanguagePreference {
    if i == 0 {
        LanguagePreference::Auto
    } else if i == 1 {
        LanguagePreference::English
    } else if i == 2 {
        LanguagePreference::ZhHans
    } else {
        LanguagePreference::ZhHant
    }
}

pub open spec fn spec_pref_label(p: LanguagePreference) -> &'static str {
    match p {
        LanguagePreference::Auto => "Auto",
        LanguagePreference::English => "English",
        LanguagePreference::ZhHans => "简体中文",
        LanguagePreference::ZhHant => "繁體中文",
    }
}

impl LanguagePreference {
    /// The options in display order.
    pub fn all() -> (r: [LanguagePreference; 4])
        ensures
            forall|i: int| 0 <= i < 4 ==> #[trigger] r@[i] == pref_at(i),
    {
        [
            LanguagePreference::Auto,
            LanguagePreference::English,
            LanguagePreference::ZhHans,
            LanguagePreference::ZhHant,
        ]
    }

    fn index(self) -> (r: usize)
        ensures
            r == pref_index(self),
    {
        match self {
            LanguagePreference::Auto => 0,
            LanguagePreference::English => 1,
            LanguagePreference::ZhHans => 2,
            LanguagePreference::ZhHant => 3,
        }
    }

    /// Fixed option labels, independent of the active UI locale.
    pub fn label(self) -> (r: &'static str)
        ensures
            r == spec_pref_label(self),
    {
        match self {
            LanguagePreference::Auto => "Auto",
            LanguagePreference::English => "English",
            LanguagePreference::ZhHans => "简体中文",
            LanguagePreference::ZhHant => "繁體中文",
        }
    }

    /// The next (or, backwards, previous) option, wrapping around.
    pub fn cycle(self, forward: bool) -> (r: LanguagePreference)
        ensures
            r == pref_at(
                if forward {
                    (pref_index(self) + 1) % 4
                } else {
                    (pref_index(self) + 3) % 4
                },
            ),
    {
        let all = Self::all();
        let idx = self.index();
        let next = if forward {
            (idx + 1) % 4
        } else {
            (idx + 4 - 1) % 4
        };
        all[next]
    }
}

/// The option `forward` (or backwards) from `p`.
pub open spec fn spec_cycle(p: LanguagePreference, forward: bool) -> LanguagePreference {
    pref_at(
        if forward {
            (pref_index(p) + 1) % 4
        } else {
            (pref_index(p) + 3) % 4
        },
    )
}

/// Stepping to the next option and back again, or back and then forward,
/// returns the option started from; four steps the same way come round.
pub proof fn law_cycle_returns(p: LanguagePreference)
    ensures
        spec_cycle(spec_cycle(p, true), false) == p,
        spec_cycle(spec_cycle(p, false), true) == p,
        spec_cycle(spec_cycle(spec_cycle(spec_cycle(p, true), true), true), true) == p,
{
}

/// Resolved active UI locale.
#[derive(Debug, Clone, Copy, PartialEq, Eq, Structural)]
pub enum Locale {
    En,
    ZhHans,
    ZhHant,
}

pub open spec fn is_tag_sep(c: char) -> bool {
    c == '-' || c == '.'
}

/// Whether `tag` is one of the `-`/`.`-separated parts of `locale`
/// (for tags that contain no separator).
pub open spec fn spec_has_tag(locale: Seq<char>, tag: Seq<char>) -> bool {
    exists|i: int|
        occurs_at(locale, tag, i) && (i == 0 || is_tag_sep(locale[i - 1])) && (i + tag.len()
            == locale.len() || is_tag_sep(locale[i + tag.len()]))
}

fn has_tag(locale: &Vec<char>, tag: &str) -> (r: bool)
    ensures
        r == spec_has_tag(locale@, tag@),
{
    let t = chars_of(tag);
    let ll = locale.len();
    if t.len() > ll {
        proof {
            assert forall|j: int| !occurs_at(locale@, tag@, j) by {}
        }
        return false;
    }
    let last = ll - t.len();
    let mut i: usize = 0;
    loop
        invariant
            ll == locale@.len(),
            last == ll - t@.len(),
            t@ == tag@,
            i <= last,
            forall|j: int|
                0 <= j < i ==> !(occurs_at(locale@, t@, j) && (j == 0 || is_tag_sep(locale@[j - 1]))
                    && (j + t@.len() == locale@.len() || is_tag_sep(locale@[j + t@.len()]))),
        decreases last - i,
    {
        let same = crate::text::matches_at(locale, &t, i);
        let left = i == 0 || locale[i - 1] == '-' || locale[i - 1] == '.';
        let e = i + t.len();
        let right = e == ll || locale[e] == '-' || locale[e] == '.';
        if same && left && right {
            return true;
        }
        if i == last {
            proof {
                assert forall|j: int|
                    !(occurs_at(locale@, t@, j) && (j == 0 || is_tag_sep(locale@[j - 1])) && (j
                        + t@.len() == locale@.len() || is_tag_sep(locale@[j + t@.len()]))) by {
                    if j > last as int {
                        assert(!occurs_at(locale@, t@, j));
                    }
                }
            }
            return false;
        }
        i = i + 1;
    }
}

/// The locale string normalised: trimmed, lowercased, `_` read as `-`.
pub open spec fn normalize_locale(raw: Seq<char>) -> Seq<char> {
    spec_to_lowercase(spec_trim(raw)).map_values(|c: char| if c == '_' { '-' } else { c })
}

pub open spec fn starts_with(s: Seq<char>, p: Seq<char>) -> bool {
    p.len() <= s.len() && s.take(p.len() as int) == p
}

/// Auto rules: Chinese tags resolve to Traditional for Hant, TW, HK or MO
/// and to Simplified otherwise; everything else (and nothing) is English.
pub open spec fn spec_from_locale_str(raw: Seq<char>) -> Locale {
    let s = normalize_locale(raw);
    if s.len() == 0 {
        Locale::En
    } else if s == "zh"@ || starts_with(s, "zh-"@) {
        if crate::text::seq_contains(s, "hant"@) || spec_has_tag(s, "tw"@) || spec_has_tag(s, "hk"@)
            || spec_has_tag(s, "mo"@) {
            Locale::ZhHant
        } else {
            Locale::ZhHans
        }
    } else {
        Locale::En
    }
}

/// The locale for a preference and an optional system locale string.
pub open spec fn spec_resolve_with(pref: LanguagePreference, sys: Option<Seq<char>>) -> Locale {
    match pref {
        LanguagePreference::English => Locale::En,
        LanguagePreference::ZhHans => Locale::ZhHans,
        LanguagePreference::ZhHant => Locale::ZhHant,
        LanguagePreference::Auto => match sys {
            Some(raw) => spec_from_locale_str(raw),
            None => Locale::En,
        },
    }
}

/// The system's preferred locale (`sys_locale::get_locale`); it depends on
/// the environment, so nothing is stated of it.
#[verifier::external_body]
fn system_locale() -> Option<String> {
    sys_locale::get_locale()
}

impl Locale {
    /// The active locale for a preference; `Auto` follows the system locale,
    /// which depends on the machine, so only its form is stated here (see
    /// `resolve_with` for the rule applied to it).
    pub fn resolve(pref: LanguagePreference) -> (r: Locale)
        ensures
            pref != LanguagePreference::Auto ==> r == spec_resolve_with(pref, None),
            pref == LanguagePreference::Auto ==> exists|sys: Option<Seq<char>>| r == spec_resolve_with(pref, sys),
    {
        match pref {
            LanguagePreference::Auto => {
                let sys = system_locale();
                let r = Self::resolve_with(pref, match &sys {
                    Some(s) => Some(s.as_str()),
                    None => None,
                });
                assert(r == spec_resolve_with(pref, match sys {
                    Some(s) => Some(s@),
                    None => None,
                }));
                r
            },
            _ => Self::resolve_with(pref, None),
        }
    }

    /// The locale for a preference given the system locale string (none
    /// when the system reports none): explicit choices win, `Auto` applies
    /// the locale rules to the system string (English without one).
    pub fn resolve_with(pref: LanguagePreference, system_locale: Option<&str>) -> (r: Locale)
        ensures
            r == spec_resolve_with(
                pref,
                match system_locale {
                    Some(s) => Some(s@),
                    None => None,
                },
            ),
    {
        match pref {
            LanguagePreference::English => Locale::En,
            LanguagePreference::ZhHans => Locale::ZhHans,
            LanguagePreference::ZhHant => Locale::ZhHant,
            LanguagePreference::Auto => match system_locale {
                Some(raw) => Self::from_locale_str(raw),
                None => Locale::En,
            },
        }
    }

    /// Resolve Auto rules against a locale string.
    pub fn from_locale_str(raw: &str) -> (r: Locale)
        ensures
            r == spec_from_locale_str(raw@),
    {
        let trimmed = trim_str(raw);
        let lower = to_lowercase(trimmed.as_str());
        let l = chars_of(lower.as_str());
        let mut s: Vec<char> = Vec::new();
        let mut i: usize = 0;
        while i < l.len()
            invariant
                i <= l@.len(),
                s@ == l@.take(i as int).map_values(|c: char| if c == '_' { '-' } else { c }),
            decreases l@.len() - i,
        {
            let c = l[i];
            s.push(if c == '_' { '-' } else { c });
            assert(l@.take(i + 1).map_values(|c: char| if c == '_' { '-' } else { c }) =~= l@.take(i as int).map_values(|c: char| if c == '_' { '-' } else { c }).push(if c == '_' { '-' } else { c }));
            i = i + 1;
        }
        assert(l@.take(i as int) =~= l@);
        assert(s@ == normalize_locale(raw@));
        if s.len() == 0 {
            return Locale::En;
        }
        proof {
            reveal_strlit("zh");
            reveal_strlit("zh-");
        }
        let is_zh = (s.len() == 2 && s[0] == 'z' && s[1] == 'h') || (s.len() >= 3 && s[0] == 'z'
            && s[1] == 'h' && s[2] == '-');
        proof {
            if s@.len() == 2 && s@[0] == 'z' && s@[1] == 'h' {
                assert(s@ =~= "zh"@);
            }
            if s@ == "zh"@ {
                assert(s@[0] == 'z' && s@[1] == 'h');
            }
            if s@.len() >= 3 && s@[0] == 'z' && s@[1] == 'h' && s@[2] == '-' {
                assert(s@.take(3) =~= "zh-"@);
            }
            if starts_with(s@, "zh-"@) {
                assert(s@.take(3)[0] == 'z' && s@.take(3)[1] == 'h' && s@.take(3)[2] == '-');
            }
        }
        if is_zh {
            let hant = chars_of("hant");
            if crate::text::contains_chars(&s, &hant) || has_tag(&s, "tw") || has_tag(&s, "hk")
                || has_tag(&s, "mo") {
                return Locale::ZhHant;
            }
            if crate::text::contains_chars(&s, &chars_of("hans")) || has_tag(&s, "cn") || has_tag(
                &s,
                "sg",
            ) {
                return Locale::ZhHans;
            }
            return Locale::ZhHans;
        }
        Locale::En
    }
}

/// The table for each locale.
pub open spec fn spec_for_locale(locale: Locale) -> UiStrings {
    match locale {
        Locale::En => spec_en(),
        Locale::ZhHans => spec_zh_hans(),
        Locale::ZhHant => spec_zh_hant(),
    }
}

/// Localized TUI chrome strings. Every locale fills every field.
#[derive(Debug, Clone, Copy)]
pub struct UiStrings {
    // Toolbar
    pub toolbar_dev: &'static str,
    pub toolbar_pause: &'static str,
    pub toolbar_resume: &'static str,
    pub toolbar_clear: &'static str,
    pub toolbar_follow: &'static str,
    pub toolbar_wrap: &'static str,
    pub toolbar_export: &'static str,
    pub toolbar_settings: &'static str,
    pub toolbar_quit: &'static str,
    pub none_device: &'static str,

    // Filters
    pub filter_tag: &'static str,
    pub filter_message: &'static str,
    pub filter_level: &'static str,
    pub filter_click_hint: &'static str,

    // Find
    pub find_prefix: &'static str,
    pub find_help_suffix: &'static str,
    pub find_zero_matches: &'static str,

    // Empty state
    pub empty_logs: &'static str,

    // Status bar
    pub status_live: &'static str,
    pub status_idle: &'static str,
    pub focus_logs: &'static str,
    pub focus_level: &'static str,
    pub focus_find: &'static str,
    pub focus_modal: &'static str,
    pub wrap_on: &'static str,
    pub wrap_off: &'static str,

    // Ephemeral status
    pub status_exported_to: &'static str,
    pub status_copied: &'static str,
    pub status_copy_failed: &'static str,
    pub tip_keyboard_enhancement: &'static str,

    // Devices modal
    pub modal_devices_title: &'static str,
    pub modal_devices_help: &'static str,

    // Export modal / menu
    pub modal_export_title: &'static str,
    pub modal_export_filtered: &'static str,
    pub modal_export_all: &'static str,
    pub modal_export_cancel: &'static str,
    pub modal_export_path_prompt: &'static str,
    pub modal_export_filtered_title: &'static str,
    pub modal_export_all_title: &'static str,

    // Settings modal
    pub modal_settings_title: &'static str,
    pub modal_settings_help: &'static str,
    pub settings_adb: &'static str,
    pub settings_adb_auto: &'static str,
    pub settings_adb_custom: &'static str,
    pub settings_adb_locked_hint: &'static str,
    pub settings_preset: &'static str,
    pub settings_custom: &'static str,
    pub settings_language: &'static str,
    pub settings_adb_not_found: &'static str,

    // Filter edit modal
    pub modal_tag_filter_title: &'static str,
    pub modal_message_filter_title: &'static str,
    pub filter_tag_contains: &'static str,
    pub filter_message_contains: &'static str,
    pub filter_live_hint: &'static str,
}

/// The en table.
pub open spec fn spec_en() -> UiStrings {
    UiStrings {
        toolbar_dev: "Device",
        toolbar_pause: "Pause",
        toolbar_resume: "Resume",
        toolbar_clear: "Clear",
        toolbar_follow: "Follow",
        toolbar_wrap: "Wrap",
        toolbar_export: "Export",
        toolbar_settings: "Settings",
        toolbar_quit: "Quit",
        none_device: "(none)",
        filter_tag: "Tag",
        filter_message: "Message",
        filter_level: "Level",
        filter_click_hint: "  (click Tag/Message)",
        find_prefix: "Find:[",
        find_help_suffix: "  (Enter next · Shift+Enter prev · Esc close)",
        find_zero_matches: "0 matches",
        empty_logs: "No logs — press [d] to select a device",
        status_live: "● Live",
        status_idle: "○ Idle",
        focus_logs: "focus:logs",
        focus_level: "focus:level",
        focus_find: "focus:find",
        focus_modal: "focus:modal",
        wrap_on: "wrap:on",
        wrap_off: "wrap:off",
        status_exported_to: "Exported to {}",
        status_copied: "Copied selection",
        status_copy_failed: "Copy failed: {}",
        tip_keyboard_enhancement: "Tip: keyboard enhancement unavailable — use Windows Terminal for full key support",
        modal_devices_title: " Devices ",
        modal_devices_help: "Select device  (↑↓ · enter · r refresh · esc exit)",
        modal_export_title: " Export ",
        modal_export_filtered: "[1]/f] export filtered",
        modal_export_all: "[2]/a] export all",
        modal_export_cancel: "esc cancel",
        modal_export_path_prompt: "Path (enter confirm · esc cancel):",
        modal_export_filtered_title: " export filtered ",
        modal_export_all_title: " export all ",
        modal_settings_title: " Settings ",
        modal_settings_help: "↑/↓ move · ←/→ adjust · ADB: e edit · r restore · esc exit edit/dismiss · Custom: type digits · enter dismiss",
        settings_adb: "ADB",
        settings_adb_auto: "Auto",
        settings_adb_custom: "Custom",
        settings_adb_locked_hint: "  (e edit · r restore)",
        settings_preset: "Preset",
        settings_custom: "Custom",
        settings_language: "Language",
        settings_adb_not_found: "  (adb not found)",
        modal_tag_filter_title: " Tag filter ",
        modal_message_filter_title: " Message filter ",
        filter_tag_contains: "Tag contains:",
        filter_message_contains: "Message contains:",
        filter_live_hint: "Live filter · esc clear/close · enter done",
    }
}

/// The zh-hans table.
pub open spec fn spec_zh_hans() -> UiStrings {
    UiStrings {
        toolbar_dev: "设备",
        toolbar_pause: "暂停",
        toolbar_resume: "继续",
        toolbar_clear: "清除",
        toolbar_follow: "跟随",
        toolbar_wrap: "换行",
        toolbar_export: "导出",
        toolbar_settings: "设置",
        toolbar_quit: "退出",
        none_device: "(无)",
        filter_tag: "标签",
        filter_message: "消息",
        filter_level: "级别",
        filter_click_hint: "  (点击标签/消息)",
        find_prefix: "查找:[",
        find_help_suffix: "  (Enter 下一个 · Shift+Enter 上一个 · Esc 关闭)",
        find_zero_matches: "0 个匹配",
        empty_logs: "暂无日志 — 按 [d] 选择设备",
        status_live: "● 实时",
        status_idle: "○ 空闲",
        focus_logs: "焦点:日志",
        focus_level: "焦点:级别",
        focus_find: "焦点:查找",
        focus_modal: "焦点:弹窗",
        wrap_on: "换行:开",
        wrap_off: "换行:关",
        status_exported_to: "已导出到 {}",
        status_copied: "已复制选区",
        status_copy_failed: "复制失败: {}",
        tip_keyboard_enhancement: "提示: 键盘增强不可用 — 请使用 Windows Terminal 以获得完整按键支持",
        modal_devices_title: " 设备 ",
        modal_devices_help: "选择设备  (↑↓ · Enter · r 刷新 · Esc)",
        modal_export_title: " 导出 ",
        modal_export_filtered: "[1]/f] 导出筛选结果",
        modal_export_all: "[2]/a] 导出全部",
        modal_export_cancel: "Esc 取消",
        modal_export_path_prompt: "路径 (Enter 确认 · Esc 取消):",
        modal_export_filtered_title: " 导出筛选结果 ",
        modal_export_all_title: " 导出全部 ",
        modal_settings_title: " 设置 ",
        modal_settings_help: "↑/↓ 移动 · ←/→ 调整 · ADB: e 编辑 · r 自动 · Esc 退出编辑/关闭 · 自定义: 输入数字 · Enter 关闭",
        settings_adb: "ADB",
        settings_adb_auto: "自动",
        settings_adb_custom: "自定义",
        settings_adb_locked_hint: "  (e 编辑 · r 恢复自动)",
        settings_preset: "预设",
        settings_custom: "自定义",
        settings_language: "语言",
        settings_adb_not_found: "  (未找到 adb)",
        modal_tag_filter_title: " 标签筛选 ",
        modal_message_filter_title: " 消息筛选 ",
        filter_tag_contains: "标签包含:",
        filter_message_contains: "消息包含:",
        filter_live_hint: "实时筛选 · Esc 清空/关闭 · Enter 完成",
    }
}

/// The zh-hant table.
pub open spec fn spec_zh_hant() -> UiStrings {
    UiStrings {
        toolbar_dev: "裝置",
        toolbar_pause: "暫停",
        toolbar_resume: "繼續",
        toolbar_clear: "清除",
        toolbar_follow: "跟隨",
        toolbar_wrap: "換行",
        toolbar_export: "匯出",
        toolbar_settings: "設定",
        toolbar_quit: "退出",
        none_device: "(無)",
        filter_tag: "標籤",
        filter_message: "訊息",
        filter_level: "級別",
        filter_click_hint: "  (點擊標籤/訊息)",
        find_prefix: "尋找:[",
        find_help_suffix: "  (Enter 下一個 · Shift+Enter 上一個 · Esc 關閉)",
        find_zero_matches: "0 個符合",
        empty_logs: "暫無日誌 — 按 [d] 選擇裝置",
        status_live: "● 即時",
        status_idle: "○ 閒置",
        focus_logs: "焦點:日誌",
        focus_level: "焦點:級別",
        focus_find: "焦點:尋找",
        focus_modal: "焦點:彈窗",
        wrap_on: "換行:開",
        wrap_off: "換行:關",
        status_exported_to: "已匯出到 {}",
        status_copied: "已複製選區",
        status_copy_failed: "複製失敗: {}",
        tip_keyboard_enhancement: "提示: 鍵盤增強不可用 — 請使用 Windows Terminal 以獲得完整按鍵支援",
        modal_devices_title: " 裝置 ",
        modal_devices_help: "選擇裝置  (↑↓ · Enter · r 重新整理 · Esc)",
        modal_export_title: " 匯出 ",
        modal_export_filtered: "[1]/f] 匯出篩選結果",
        modal_export_all: "[2]/a] 匯出全部",
        modal_export_cancel: "Esc 取消",
        modal_export_path_prompt: "路徑 (Enter 確認 · Esc 取消):",
        modal_export_filtered_title: " 匯出篩選結果 ",
        modal_export_all_title: " 匯出全部 ",
        modal_settings_title: " 設定 ",
        modal_settings_help: "↑/↓ 移動 · ←/→ 調整 · ADB: e 編輯 · r 自動 · Esc 退出編輯/關閉 · 自訂: 輸入數字 · Enter 關閉",
        settings_adb: "ADB",
        settings_adb_auto: "自動",
        settings_adb_custom: "自訂",
        settings_adb_locked_hint: "  (e 編輯 · r 恢復自動)",
        settings_preset: "預設",
        settings_custom: "自訂",
        settings_language: "語言",
        settings_adb_not_found: "  (找不到 adb)",
        modal_tag_filter_title: " 標籤篩選 ",
        modal_message_filter_title: " 訊息篩選 ",
        filter_tag_contains: "標籤包含:",
        filter_message_contains: "訊息包含:",
        filter_live_hint: "即時篩選 · Esc 清空/關閉 · Enter 完成",
    }
}

impl UiStrings {
    pub fn for_locale(locale: Locale) -> (r: UiStrings)
        ensures
            r == spec_for_locale(locale),
    {
        match locale {
            Locale::En => Self::en(),
            Locale::ZhHans => Self::zh_hans(),
            Locale::ZhHant => Self::zh_hant(),
        }
    }

    fn en() -> (r: UiStrings)
        ensures
            r == spec_en(),
    {
        UiStrings {
            toolbar_dev: "Device",
            toolbar_pause: "Pause",
            toolbar_resume: "Resume",
            toolbar_clear: "Clear",
            toolbar_follow: "Follow",
            toolbar_wrap: "Wrap",
            toolbar_export: "Export",
            toolbar_settings: "Settings",
            toolbar_quit: "Quit",
            none_device: "(none)",
            filter_tag: "Tag",
            filter_message: "Message",
            filter_level: "Level",
            filter_click_hint: "  (click Tag/Message)",
            find_prefix: "Find:[",
            find_help_suffix: "  (Enter next · Shift+Enter prev · Esc close)",
            find_zero_matches: "0 matches",
            empty_logs: "No logs — press [d] to select a device",
            status_live: "● Live",
            status_idle: "○ Idle",
            focus_logs: "focus:logs",
            focus_level: "focus:level",
            focus_find: "focus:find",
            focus_modal: "focus:modal",
            wrap_on: "wrap:on",
            wrap_off: "wrap:off",
            status_exported_to: "Exported to {}",
            status_copied: "Copied selection",
            status_copy_failed: "Copy failed: {}",
            tip_keyboard_enhancement: "Tip: keyboard enhancement unavailable — use Windows Terminal for full key support",
            modal_devices_title: " Devices ",
            modal_devices_help: "Select device  (↑↓ · enter · r refresh · esc exit)",
            modal_export_title: " Export ",
            modal_export_filtered: "[1]/f] export filtered",
            modal_export_all: "[2]/a] export all",
            modal_export_cancel: "esc cancel",
            modal_export_path_prompt: "Path (enter confirm · esc cancel):",
            modal_export_filtered_title: " export filtered ",
            modal_export_all_title: " export all ",
            modal_settings_title: " Settings ",
            modal_settings_help: "↑/↓ move · ←/→ adjust · ADB: e edit · r restore · esc exit edit/dismiss · Custom: type digits · enter dismiss",
            settings_adb: "ADB",
            settings_adb_auto: "Auto",
            settings_adb_custom: "Custom",
            settings_adb_locked_hint: "  (e edit · r restore)",
            settings_preset: "Preset",
            settings_custom: "Custom",
            settings_language: "Language",
            settings_adb_not_found: "  (adb not found)",
            modal_tag_filter_title: " Tag filter ",
            modal_message_filter_title: " Message filter ",
            filter_tag_contains: "Tag contains:",
            filter_message_contains: "Message contains:",
            filter_live_hint: "Live filter · esc clear/close · enter done",
        }
    }

    fn zh_hans() -> (r: UiStrings)
        ensures
            r == spec_zh_hans(),
    {
        UiStrings {
            toolbar_dev: "设备",
            toolbar_pause: "暂停",
            toolbar_resume: "继续",
            toolbar_clear: "清除",
            toolbar_follow: "跟随",
            toolbar_wrap: "换行",
            toolbar_export: "导出",
            toolbar_settings: "设置",
            toolbar_quit: "退出",
            none_device: "(无)",
            filter_tag: "标签",
            filter_message: "消息",
            filter_level: "级别",
            filter_click_hint: "  (点击标签/消息)",
            find_prefix: "查找:[",
            find_help_suffix: "  (Enter 下一个 · Shift+Enter 上一个 · Esc 关闭)",
            find_zero_matches: "0 个匹配",
            empty_logs: "暂无日志 — 按 [d] 选择设备",
            status_live: "● 实时",
            status_idle: "○ 空闲",
            focus_logs: "焦点:日志",
            focus_level: "焦点:级别",
            focus_find: "焦点:查找",
            focus_modal: "焦点:弹窗",
            wrap_on: "换行:开",
            wrap_off: "换行:关",
            status_exported_to: "已导出到 {}",
            status_copied: "已复制选区",
            status_copy_failed: "复制失败: {}",
            tip_keyboard_enhancement: "提示: 键盘增强不可用 — 请使用 Windows Terminal 以获得完整按键支持",
            modal_devices_title: " 设备 ",
            modal_devices_help: "选择设备  (↑↓ · Enter · r 刷新 · Esc)",
            modal_export_title: " 导出 ",
            modal_export_filtered: "[1]/f] 导出筛选结果",
            modal_export_all: "[2]/a] 导出全部",
            modal_export_cancel: "Esc 取消",
            modal_export_path_prompt: "路径 (Enter 确认 · Esc 取消):",
            modal_export_filtered_title: " 导出筛选结果 ",
            modal_export_all_title: " 导出全部 ",
            modal_settings_title: " 设置 ",
            modal_settings_help: "↑/↓ 移动 · ←/→ 调整 · ADB: e 编辑 · r 自动 · Esc 退出编辑/关闭 · 自定义: 输入数字 · Enter 关闭",
            settings_adb: "ADB",
            settings_adb_auto: "自动",
            settings_adb_custom: "自定义",
            settings_adb_locked_hint: "  (e 编辑 · r 恢复自动)",
            settings_preset: "预设",
            settings_custom: "自定义",
            settings_language: "语言",
            settings_adb_not_found: "  (未找到 adb)",
            modal_tag_filter_title: " 标签筛选 ",
            modal_message_filter_title: " 消息筛选 ",
            filter_tag_contains: "标签包含:",
            filter_message_contains: "消息包含:",
            filter_live_hint: "实时筛选 · Esc 清空/关闭 · Enter 完成",
        }
    }

    fn zh_hant() -> (r: UiStrings)
        ensures
            r == spec_zh_hant(),
    {
        UiStrings {
            toolbar_dev: "裝置",
            toolbar_pause: "暫停",
            toolbar_resume: "繼續",
            toolbar_clear: "清除",
            toolbar_follow: "跟隨",
            toolbar_wrap: "換行",
            toolbar_export: "匯出",
            toolbar_settings: "設定",
            toolbar_quit: "退出",
            none_device: "(無)",
            filter_tag: "標籤",
            filter_message: "訊息",
            filter_level: "級別",
            filter_click_hint: "  (點擊標籤/訊息)",
            find_prefix: "尋找:[",
            find_help_suffix: "  (Enter 下一個 · Shift+Enter 上一個 · Esc 關閉)",
            find_zero_matches: "0 個符合",
            empty_logs: "暫無日誌 — 按 [d] 選擇裝置",
            status_live: "● 即時",
            status_idle: "○ 閒置",
            focus_logs: "焦點:日誌",
            focus_level: "焦點:級別",
            focus_find: "焦點:尋找",
            focus_modal: "焦點:彈窗",
            wrap_on: "換行:開",
            wrap_off: "換行:關",
            status_exported_to: "已匯出到 {}",
            status_copied: "已複製選區",
            status_copy_failed: "複製失敗: {}",
            tip_keyboard_enhancement: "提示: 鍵盤增強不可用 — 請使用 Windows Terminal 以獲得完整按鍵支援",
            modal_devices_title: " 裝置 ",
            modal_devices_help: "選擇裝置  (↑↓ · Enter · r 重新整理 · Esc)",
            modal_export_title: " 匯出 ",
            modal_export_filtered: "[1]/f] 匯出篩選結果",
            modal_export_all: "[2]/a] 匯出全部",
            modal_export_cancel: "Esc 取消",
            modal_export_path_prompt: "路徑 (Enter 確認 · Esc 取消):",
            modal_export_filtered_title: " 匯出篩選結果 ",
            modal_export_all_title: " 匯出全部 ",
            modal_settings_title: " 設定 ",
            modal_settings_help: "↑/↓ 移動 · ←/→ 調整 · ADB: e 編輯 · r 自動 · Esc 退出編輯/關閉 · 自訂: 輸入數字 · Enter 關閉",
            settings_adb: "ADB",
            settings_adb_auto: "自動",
            settings_adb_custom: "自訂",
            settings_adb_locked_hint: "  (e 編輯 · r 恢復自動)",
            settings_preset: "預設",
            settings_custom: "自訂",
            settings_language: "語言",
            settings_adb_not_found: "  (找不到 adb)",
            modal_tag_filter_title: " 標籤篩選 ",
            modal_message_filter_title: " 訊息篩選 ",
            filter_tag_contains: "標籤包含:",
            filter_message_contains: "訊息包含:",
            filter_live_hint: "即時篩選 · Esc 清空/關閉 · Enter 完成",
        }
    }

}

/// A Chinese locale naming a Taiwan, Hong Kong or Macau region resolves to
/// Traditional Chinese, whether the region ends the string or is followed
/// by another `-` part or by a `.` codeset (`zh_TW.UTF-8`).
pub proof fn law_chinese_region_resolves_traditional(raw: Seq<char>, region: Seq<char>, tail: Seq<char>)
    requires
        region == "tw"@ || region == "hk"@ || region == "mo"@,
        tail.len() == 0 || tail[0] == '-' || tail[0] == '.',
        normalize_locale(raw) == "zh-"@ + region + tail,
    ensures
        spec_from_locale_str(raw) == Locale::ZhHant,
{
    reveal_strlit("tw");
    reveal_strlit("hk");
    reveal_strlit("mo");
    reveal_strlit("zh-");
    reveal_strlit("zh");
    let s = normalize_locale(raw);
    assert(region.len() == 2);
    assert(s.len() == 5 + tail.len());
    assert(s.take(3) =~= "zh-"@);
    assert(starts_with(s, "zh-"@));
    assert(s.subrange(3, 5) =~= region);
    assert(occurs_at(s, region, 3));
    assert(s[2] == '-');
    assert(tail.len() > 0 ==> s[5] == tail[0]);
    assert(spec_has_tag(s, region));
}

} // verus!
