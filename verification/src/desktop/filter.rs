//! The desktop view's filter: tag substring (case-sensitive), message
//! substring (case-insensitive) and minimum level, combined with AND.

use vstd::prelude::*;
use crate::parser::{LogEntry, LogEntryView, LogLevel};
use crate::filter::{level_passes, opt_view, tag_passes, FilterView};
use crate::text::{seq_contains, spec_to_lowercase, str_contains, to_lowercase};

verus! {

/// Filter criteria combined with AND logic.
#[derive(Debug, Clone)]
pub struct FilterCriteria {
    pub tag_substring: Option<String>,
    pub message_substring: Option<String>,
    pub min_level: Option<LogLevel>,
}

impl View for FilterCriteria {
    type V = FilterView;

    open spec fn view(&self) -> FilterView {
        FilterView {
            tag: opt_view(self.tag_substring),
            message: opt_view(self.message_substring),
            min_level: self.min_level,
        }
    }
}

impl Default for FilterCriteria {
    fn default() -> (r: FilterCriteria)
        ensures
            r.tag_substring is None,
            r.message_substring is None,
            r.min_level is None,
    {
        FilterCriteria { tag_substring: None, message_substring: None, min_level: None }
    }
}

/// Whether an entry passes every set criterion; both sides of the message
/// test are lowercased.
pub open spec fn spec_matches(f: FilterView, e: LogEntryView) -> bool {
    &&& tag_passes(f.tag, e.tag)
    &&& match f.message {
        Some(m) => m.len() == 0 || seq_contains(spec_to_lowercase(e.message), spec_to_lowercase(m)),
        None => true,
    }
    &&& level_passes(f.min_level, e.level)
}

impl FilterCriteria {
    /// Check if an entry matches all non-None filter criteria.
    pub fn matches(&self, entry: &LogEntry) -> (r: bool)
        ensures
            r == spec_matches(self@, entry@),
    {
        if let Some(tag) = &self.tag_substring {
            if !tag.as_str().is_empty() && !str_contains(entry.tag.as_str(), tag.as_str()) {
                return false;
            }
        }
        if let Some(msg) = &self.message_substring {
            if !msg.as_str().is_empty() {
                let hay = to_lowercase(entry.message.as_str());
                let needle = to_lowercase(msg.as_str());
                if !str_contains(hay.as_str(), needle.as_str()) {
                    return false;
                }
            }
        }
        if let Some(min) = &self.min_level {
            if entry.level.rank() < min.rank() {
                return false;
            }
        }
        true
    }
}

/// The entries (in order) that pass the filter.
pub open spec fn spec_filter(f: FilterView, s: Seq<LogEntryView>) -> Seq<LogEntryView>
    decreases s.len(),
{
    if s.len() == 0 {
        s
    } else {
        let rest = spec_filter(f, s.drop_last());
        if spec_matches(f, s.last()) {
            rest.push(s.last())
        } else {
            rest
        }
    }
}

/// `slice::Iter::as_slice`: the items the iterator has still to yield.
#[verifier::external_body]
fn iter_as_slice<'a>(it: std::slice::Iter<'a, LogEntry>) -> (r: &'a [LogEntry])
    ensures
        r@ == vstd::std_specs::iter::IteratorSpec::remaining(&it).map_values(|e: &LogEntry| *e),
{
    it.as_slice()
}

/// Apply a filter to a sequence of entries, returning copies of the matching ones.
pub fn apply_filter<'a>(entries: std::slice::Iter<'a, LogEntry>, criteria: &FilterCriteria) -> (r: Vec<LogEntry>)
    ensures
        r@.map_values(|e: LogEntry| e@) == spec_filter(
            criteria@,
            vstd::std_specs::iter::IteratorSpec::remaining(&entries).map_values(|e: &LogEntry| e@),
        ),
{
    let slice = iter_as_slice(entries);
    let ghost src = slice@.map_values(|e: LogEntry| e@);
    let mut out: Vec<LogEntry> = Vec::new();
    let mut k: usize = 0;
    while k < slice.len()
        invariant
            k <= slice@.len(),
            src == slice@.map_values(|e: LogEntry| e@),
            out@.map_values(|e: LogEntry| e@) == spec_filter(criteria@, src.take(k as int)),
        decreases slice@.len() - k,
    {
        let e = &slice[k];
        assert(src.take(k + 1).drop_last() =~= src.take(k as int));
        assert(src.take(k + 1).last() == e@);
        if criteria.matches(e) {
            out.push(e.duplicate());
            assert(out@.map_values(|e: LogEntry| e@) =~= spec_filter(criteria@, src.take(k as int)).push(e@));
        }
        k = k + 1;
    }
    assert(src.take(k as int) =~= src);
    assert(vstd::std_specs::iter::IteratorSpec::remaining(&entries).map_values(|e: &LogEntry| e@) =~= src);
    out
}

} // verus!
