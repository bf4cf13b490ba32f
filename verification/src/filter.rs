//! Log filters: tag substring (case-sensitive), message substring
//! (case-insensitive) and minimum level, combined with AND.

use vstd::prelude::*;
use vstd::utf8::is_ascii_chars;
use crate::parser::{level_rank, LogEntry, LogEntryView, LogLevel};
use crate::text::{
    ascii_lower, ascii_lower_seq, chars_of, contains_chars, occurs_at, seq_contains, spec_to_lowercase,
    str_contains, to_ascii_lower, to_lowercase,
};

verus! {

/// A filter with its texts taken as character sequences.
pub struct FilterView {
    pub tag: Option<Seq<char>>,
    pub message: Option<Seq<char>>,
    pub min_level: Option<LogLevel>,
}

/// Filter criteria combined with AND logic.
#[derive(Debug, Clone)]
pub struct FilterCriteria {
    pub tag_substring: Option<String>,
    /// Stored lowercased for case-insensitive matching.
    pub message_substring: Option<String>,
    pub min_level: Option<LogLevel>,
}

pub open spec fn opt_view(o: Option<String>) -> Option<Seq<char>> {
    match o {
        Some(s) => Some(s@),
        None => None,
    }
}

impl View for FilterCriteria {
    type V = FilterView;

    open spec fn view(&self) -> FilterView {
        FilterView {
            tag: opt_view(self.tag_substring),
            message: opt_view(self.message_substring),
            min_level: self.min_level,
        }
    }
}

impl Default for FilterCriteria {
    fn default() -> (r: FilterCriteria)
        ensures
            r.tag_substring is None,
            r.message_substring is None,
            r.min_level is None,
    {
        FilterCriteria { tag_substring: None, message_substring: None, min_level: None }
    }
}

/// Case-insensitive containment of an already lowercased needle. ASCII text
/// is compared with ASCII case folding; other text is lowercased first.
pub open spec fn spec_contains_ignore_case(hay: Seq<char>, needle_lower: Seq<char>) -> bool {
    if needle_lower.len() == 0 {
        true
    } else if is_ascii_chars(hay) && is_ascii_chars(needle_lower) {
        seq_contains(ascii_lower_seq(hay), ascii_lower_seq(needle_lower))
    } else {
        seq_contains(spec_to_lowercase(hay), needle_lower)
    }
}

/// Whether an entry passes the tag filter (empty means no constraint).
pub open spec fn tag_passes(tag: Option<Seq<char>>, entry_tag: Seq<char>) -> bool {
    match tag {
        Some(t) => t.len() == 0 || seq_contains(entry_tag, t),
        None => true,
    }
}

/// Whether an entry passes the minimum-level filter.
pub open spec fn level_passes(min: Option<LogLevel>, level: LogLevel) -> bool {
    match min {
        Some(m) => level_rank(level) >= level_rank(m),
        None => true,
    }
}

/// Whether an entry passes every set criterion.
pub open spec fn spec_matches(f: FilterView, e: LogEntryView) -> bool {
    &&& tag_passes(f.tag, e.tag)
    &&& match f.message {
        Some(m) => spec_contains_ignore_case(e.message, m),
        None => true,
    }
    &&& level_passes(f.min_level, e.level)
}

/// The stored form of a message filter: lowercased, and absent when empty.
pub open spec fn spec_message_filter(message: Option<Seq<char>>) -> Option<Seq<char>> {
    match message {
        Some(m) => if spec_to_lowercase(m).len() == 0 {
            None
        } else {
            Some(spec_to_lowercase(m))
        },
        None => None,
    }
}

fn ascii_lower_vec(v: &Vec<char>) -> (r: Vec<char>)
    ensures
        r@ == ascii_lower_seq(v@),
{
    let mut r: Vec<char> = Vec::new();
    let mut i: usize = 0;
    while i < v.len()
        invariant
            i <= v@.len(),
            r@ == ascii_lower_seq(v@.take(i as int)),
        decreases v@.len() - i,
    {
        r.push(to_ascii_lower(v[i]));
        assert(ascii_lower_seq(v@.take(i + 1)) =~= ascii_lower_seq(v@.take(i as int)).push(ascii_lower(v@[i as int])));
        i = i + 1;
    }
    assert(v@.take(i as int) =~= v@);
    r
}

/// Case-insensitive substring check against a lowercased needle.
pub fn contains_ignore_case(haystack: &str, needle_lower: &str) -> (r: bool)
    ensures
        r == spec_contains_ignore_case(haystack@, needle_lower@),
{
    if needle_lower.is_empty() {
        return true;
    }
    if haystack.is_ascii() && needle_lower.is_ascii() {
        let hay = ascii_lower_vec(&chars_of(haystack));
        let needle = ascii_lower_vec(&chars_of(needle_lower));
        return contains_chars(&hay, &needle);
    }
    let lower = to_lowercase(haystack);
    str_contains(lower.as_str(), needle_lower)
}

impl FilterCriteria {
    /// Store a message filter lowercased; an empty one is dropped.
    pub fn set_message_filter(&mut self, message: Option<String>)
        ensures
            final(self)@.message == spec_message_filter(opt_view(message)),
            final(self)@.tag == old(self)@.tag,
            final(self)@.min_level == old(self)@.min_level,
    {
        self.message_substring = match message {
            Some(m) => {
                let l = to_lowercase(m.as_str());
                if l.as_str().is_empty() {
                    None
                } else {
                    Some(l)
                }
            },
            None => None,
        };
    }

    /// Check if an entry matches all non-None filter criteria.
    pub fn matches(&self, entry: &LogEntry) -> (r: bool)
        ensures
            r == spec_matches(self@, entry@),
    {
        if let Some(tag) = &self.tag_substring {
            if !tag.as_str().is_empty() && !str_contains(entry.tag.as_str(), tag.as_str()) {
                return false;
            }
        }
        if let Some(msg) = &self.message_substring {
            if !contains_ignore_case(entry.message.as_str(), msg.as_str()) {
                return false;
            }
        }
        if let Some(min) = &self.min_level {
            if entry.level.rank() < min.rank() {
                return false;
            }
        }
        true
    }
}


/// A filter with no criteria lets every entry through.
pub proof fn law_empty_filter_accepts_all(e: LogEntryView)
    ensures
        spec_matches(FilterView { tag: None, message: None, min_level: None }, e),
{
}

/// The message test ignores ASCII case: two ASCII messages that differ only
/// in case pass or fail it together.
pub proof fn law_message_test_ignores_ascii_case(m1: Seq<char>, m2: Seq<char>, needle_lower: Seq<char>)
    requires
        is_ascii_chars(m1),
        is_ascii_chars(m2),
        is_ascii_chars(needle_lower),
        ascii_lower_seq(m1) == ascii_lower_seq(m2),
    ensures
        spec_contains_ignore_case(m1, needle_lower) == spec_contains_ignore_case(m2, needle_lower),
{
}

/// Tag, message and level filters combine with AND: an entry passes a
/// filter exactly when it passes each part of it set alone.
pub proof fn law_filter_parts_combine_with_and(f: FilterView, e: LogEntryView)
    ensures
        spec_matches(f, e) == (spec_matches(FilterView { message: None, min_level: None, ..f }, e)
            && spec_matches(FilterView { tag: None, min_level: None, ..f }, e) && spec_matches(
            FilterView { tag: None, message: None, ..f },
            e,
        )),
{
}

/// Raising the minimum level only hides entries: whatever passes the
/// higher minimum passes the lower one.
pub proof fn law_higher_minimum_passes_less(f: FilterView, low: LogLevel, high: LogLevel, e: LogEntryView)
    requires
        level_rank(low) <= level_rank(high),
    ensures
        spec_matches(FilterView { min_level: Some(high), ..f }, e) ==> spec_matches(
            FilterView { min_level: Some(low), ..f },
            e,
        ),
{
}

/// The tag test reads the entry's tag and nothing else: with a tag filter
/// `t` alone, an entry passes exactly when `t` is empty or occurs in its
/// tag (case-sensitive), whatever its message and level.
pub proof fn law_tag_filter_reads_only_the_tag(t: Seq<char>, e: LogEntryView)
    ensures
        spec_matches(FilterView { tag: Some(t), message: None, min_level: None }, e) == (t.len()
            == 0 || exists|i: int|
            0 <= i && i + t.len() <= e.tag.len() && #[trigger] e.tag.subrange(i, i + t.len()) == t),
{
    if seq_contains(e.tag, t) {
        let i = choose|i: int| occurs_at(e.tag, t, i);
        assert(e.tag.subrange(i, i + t.len()) == t);
    }
    if exists|i: int| 0 <= i && i + t.len() <= e.tag.len() && #[trigger] e.tag.subrange(i, i + t.len()) == t {
        let i = choose|i: int| 0 <= i && i + t.len() <= e.tag.len() && #[trigger] e.tag.subrange(i, i + t.len()) == t;
        assert(occurs_at(e.tag, t, i));
    }
}

/// Whatever else a filter sets, an entry it lets through has the non-empty
/// tag filter text inside its tag.
pub proof fn law_passing_entry_has_the_tag_text(f: FilterView, e: LogEntryView)
    requires
        f.tag matches Some(t) && t.len() > 0,
        spec_matches(f, e),
    ensures
        exists|i: int|
            0 <= i && i + f.tag->0.len() <= e.tag.len() && #[trigger] e.tag.subrange(i, i + f.tag->0.len())
                == f.tag->0,
{
    let t = f.tag->0;
    let i = choose|i: int| occurs_at(e.tag, t, i);
    assert(e.tag.subrange(i, i + t.len()) == t);
}

/// With a message filter alone, an ASCII entry passes exactly when the
/// lowercased filter text occurs in its message with ASCII case ignored;
/// tag and level play no part.
pub proof fn law_message_filter_reads_only_the_message(m: Seq<char>, e: LogEntryView)
    requires
        m.len() > 0,
        is_ascii_chars(m),
        is_ascii_chars(e.message),
    ensures
        spec_matches(FilterView { tag: None, message: Some(m), min_level: None }, e) == exists|i: int|
            0 <= i && i + m.len() <= e.message.len() && #[trigger] ascii_lower_seq(e.message).subrange(
                i,
                i + m.len(),
            ) == ascii_lower_seq(m),
{
    let h = ascii_lower_seq(e.message);
    let n = ascii_lower_seq(m);
    if seq_contains(h, n) {
        let i = choose|i: int| occurs_at(h, n, i);
        assert(h.subrange(i, i + m.len()) == n);
    }
    if exists|i: int| 0 <= i && i + m.len() <= e.message.len() && #[trigger] h.subrange(i, i + m.len()) == n {
        let i = choose|i: int| 0 <= i && i + m.len() <= e.message.len() && #[trigger] h.subrange(i, i + m.len()) == n;
        assert(occurs_at(h, n, i));
    }
}

/// With a minimum level alone, an entry passes exactly when its level is
/// at least that severe (Verbose < Debug < Info < Warn < Error < Fatal).
pub proof fn law_level_filter_reads_only_the_level(min: LogLevel, e: LogEntryView)
    ensures
        spec_matches(FilterView { tag: None, message: None, min_level: Some(min) }, e) == (level_rank(
            e.level,
        ) >= level_rank(min)),
        level_rank(LogLevel::Verbose) < level_rank(LogLevel::Debug) < level_rank(LogLevel::Info)
            < level_rank(LogLevel::Warn) < level_rank(LogLevel::Error) < level_rank(LogLevel::Fatal),
{
}

} // verus!
