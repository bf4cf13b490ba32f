//! The log store behind the desktop view: a slot ring buffer, the filter,
//! and the batch of matching entries not yet delivered to the window.
//! Streaming, locking and event delivery are the caller's.

use vstd::prelude::*;
use crate::buffer::keep_newest;
use crate::desktop::buffer::RingBuffer;
use crate::desktop::filter::{spec_filter, spec_matches, FilterCriteria};
use crate::engine::{export_line, spec_export_line};
use crate::filter::{opt_view, FilterView};
use crate::parser::{LogEntry, LogEntryView, LogLevel};
use crate::text::{push_str_chars, str_eq};

verus! {

/// Cap pending UI batches so a slow frontend cannot stall the ingest path.
pub const MAX_PENDING_BATCH: usize = 5_000;

/// The snapshot sent after a filter change holds at most this many entries.
pub const FRONTEND_DISPLAY_LIMIT: usize = 10_000;

pub struct Engine {
    pub buffer: RingBuffer,
    pub filter: FilterCriteria,
    pub is_paused: bool,
    pub settings_bufcap: usize,
    /// Accumulated entries since last batch emit (already filtered).
    pub pending_batch: Vec<LogEntry>,
    pub total_received: u64,
    pub total_matched: u64,
}

/// Views of a sequence of entries.
pub open spec fn views(s: Seq<LogEntry>) -> Seq<LogEntryView> {
    s.map_values(|e: LogEntry| e@)
}

/// A level named by its display name, as the window sends it.
pub open spec fn spec_level_from_name(name: Seq<char>) -> Option<LogLevel> {
    if name == "Verbose"@ {
        Some(LogLevel::Verbose)
    } else if name == "Debug"@ {
        Some(LogLevel::Debug)
    } else if name == "Info"@ {
        Some(LogLevel::Info)
    } else if name == "Warn"@ {
        Some(LogLevel::Warn)
    } else if name == "Error"@ {
        Some(LogLevel::Error)
    } else if name == "Fatal"@ {
        Some(LogLevel::Fatal)
    } else {
        None
    }
}

pub fn level_from_name(name: &str) -> (r: Option<LogLevel>)
    ensures
        r == spec_level_from_name(name@),
{
    if str_eq(name, "Verbose") {
        Some(LogLevel::Verbose)
    } else if str_eq(name, "Debug") {
        Some(LogLevel::Debug)
    } else if str_eq(name, "Info") {
        Some(LogLevel::Info)
    } else if str_eq(name, "Warn") {
        Some(LogLevel::Warn)
    } else if str_eq(name, "Error") {
        Some(LogLevel::Error)
    } else if str_eq(name, "Fatal") {
        Some(LogLevel::Fatal)
    } else {
        None
    }
}

impl Engine {
    pub fn new(capacity: usize) -> (r: Engine)
        ensures
            r.buffer.wf(),
            r.buffer.view() == Seq::<LogEntryView>::empty(),
            r.buffer.cap() == capacity,
            r.filter@ == (FilterView { tag: None, message: None, min_level: None }),
            !r.is_paused,
            r.settings_bufcap == capacity,
            r.pending_batch@ == Seq::<LogEntry>::empty(),
            r.total_received == 0,
            r.total_matched == 0,
    {
        Engine {
            buffer: RingBuffer::new(capacity),
            filter: FilterCriteria::default(),
            is_paused: false,
            settings_bufcap: capacity,
            pending_batch: Vec::new(),
            total_received: 0,
            total_matched: 0,
        }
    }

    /// Store one entry; when not paused and it passes the filter, it also
    /// joins the pending batch, which keeps only its newest entries.
    pub fn ingest_entry(&mut self, entry: LogEntry)
        requires
            old(self).buffer.wf(),
            old(self).buffer.cap() > 0,
        ensures
            final(self).buffer.wf(),
            final(self).buffer.cap() == old(self).buffer.cap(),
            final(self).buffer.view() == keep_newest(old(self).buffer.view().push(entry@), old(self).buffer.cap()),
            final(self).filter == old(self).filter,
            final(self).is_paused == old(self).is_paused,
            final(self).settings_bufcap == old(self).settings_bufcap,
            final(self).total_received == if old(self).total_received == u64::MAX {
                u64::MAX
            } else {
                (old(self).total_received + 1) as u64
            },
            ({
                let emit = !old(self).is_paused && spec_matches(old(self).filter@, entry@);
                &&& final(self).total_matched == if emit && old(self).total_matched < u64::MAX {
                    (old(self).total_matched + 1) as u64
                } else {
                    old(self).total_matched
                }
                &&& views(final(self).pending_batch@) == if emit {
                    keep_newest(views(old(self).pending_batch@).push(entry@), MAX_PENDING_BATCH as nat)
                } else {
                    views(old(self).pending_batch@)
                }
            }),
    {
        let should_emit = if self.is_paused {
            false
        } else {
            self.filter.matches(&entry)
        };
        self.buffer.push(entry.duplicate());
        self.total_received = self.total_received.saturating_add(1);
        if should_emit {
            self.total_matched = self.total_matched.saturating_add(1);
        }
        if should_emit {
            let ghost before = views(self.pending_batch@);
            self.pending_batch.push(entry);
            if self.pending_batch.len() > MAX_PENDING_BATCH {
                let excess = self.pending_batch.len() - MAX_PENDING_BATCH;
                let kept = self.pending_batch.split_off(excess);
                self.pending_batch = kept;
                proof {
                    assert(views(self.pending_batch@) =~= keep_newest(before.push(entry@), MAX_PENDING_BATCH as nat));
                }
            } else {
                proof {
                    assert(views(self.pending_batch@) =~= before.push(entry@));
                }
            }
        }
    }
}


impl Engine {
    /// Reset for a new stream: empty buffer and batch, zero totals, running.
    pub fn start_stream(&mut self)
        requires
            old(self).buffer.wf(),
        ensures
            final(self).buffer.wf(),
            final(self).buffer.cap() == old(self).buffer.cap(),
            final(self).buffer.view() == Seq::<LogEntryView>::empty(),
            final(self).pending_batch@ == Seq::<LogEntry>::empty(),
            final(self).total_received == 0,
            final(self).total_matched == 0,
            !final(self).is_paused,
            final(self).filter == old(self).filter,
            final(self).settings_bufcap == old(self).settings_bufcap,
    {
        self.buffer.clear();
        self.pending_batch = Vec::new();
        self.total_received = 0;
        self.total_matched = 0;
        self.is_paused = false;
    }

    /// Drop every stored entry and the pending batch.
    pub fn clear_buffer(&mut self)
        requires
            old(self).buffer.wf(),
        ensures
            final(self).buffer.wf(),
            final(self).buffer.cap() == old(self).buffer.cap(),
            final(self).buffer.view() == Seq::<LogEntryView>::empty(),
            final(self).pending_batch@ == Seq::<LogEntry>::empty(),
            final(self).filter == old(self).filter,
            final(self).is_paused == old(self).is_paused,
            final(self).settings_bufcap == old(self).settings_bufcap,
            final(self).total_received == old(self).total_received,
            final(self).total_matched == old(self).total_matched,
    {
        self.buffer.clear();
        self.pending_batch = Vec::new();
    }

    /// The pending batch, leaving it empty.
    pub fn take_batch(&mut self) -> (r: Vec<LogEntry>)
        ensures
            r@ == old(self).pending_batch@,
            final(self).pending_batch@ == Seq::<LogEntry>::empty(),
            final(self).buffer == old(self).buffer,
            final(self).filter == old(self).filter,
            final(self).is_paused == old(self).is_paused,
            final(self).settings_bufcap == old(self).settings_bufcap,
            final(self).total_received == old(self).total_received,
            final(self).total_matched == old(self).total_matched,
    {
        let mut batch: Vec<LogEntry> = Vec::new();
        std::mem::swap(&mut batch, &mut self.pending_batch);
        batch
    }

    /// The stored entries that pass the filter, at most the newest
    /// `FRONTEND_DISPLAY_LIMIT` of them, oldest first.
    pub fn re_filter(&self) -> (r: Vec<LogEntry>)
        requires
            self.buffer.wf(),
        ensures
            views(r@) == keep_newest(spec_filter(self.filter@, self.buffer.view()), FRONTEND_DISPLAY_LIMIT as nat),
    {
        let refs = self.buffer.iter();
        let ghost src = self.buffer.view();
        let mut filtered: Vec<LogEntry> = Vec::new();
        let mut k: usize = 0;
        while k < refs.len()
            invariant
                k <= refs@.len(),
                refs@.len() == src.len(),
                forall|i: int| 0 <= i < refs@.len() ==> (#[trigger] refs@[i])@ == src[i],
                views(filtered@) == spec_filter(self.filter@, src.take(k as int)),
            decreases refs@.len() - k,
        {
            let e = refs[k];
            assert(src.take(k + 1).drop_last() =~= src.take(k as int));
            assert(src.take(k + 1).last() == e@);
            if self.filter.matches(e) {
                filtered.push(e.duplicate());
                assert(views(filtered@) =~= spec_filter(self.filter@, src.take(k as int)).push(e@));
            }
            k = k + 1;
        }
        assert(src.take(k as int) =~= src);
        if filtered.len() > FRONTEND_DISPLAY_LIMIT {
            let ghost all = views(filtered@);
            let tail = filtered.split_off(filtered.len() - FRONTEND_DISPLAY_LIMIT);
            assert(views(tail@) =~= keep_newest(all, FRONTEND_DISPLAY_LIMIT as nat));
            tail
        } else {
            filtered
        }
    }

    /// Replace the filter as the window sends it: tag and message as given,
    /// the level by its display name (unknown names set no minimum).
    pub fn set_filter(&mut self, tag: Option<String>, message: Option<String>, level: Option<String>)
        ensures
            final(self).filter@ == (FilterView {
                tag: opt_view(tag),
                message: opt_view(message),
                min_level: match level {
                    Some(l) => spec_level_from_name(l@),
                    None => None,
                },
            }),
            final(self).buffer == old(self).buffer,
            final(self).pending_batch == old(self).pending_batch,
            final(self).is_paused == old(self).is_paused,
            final(self).settings_bufcap == old(self).settings_bufcap,
            final(self).total_received == old(self).total_received,
            final(self).total_matched == old(self).total_matched,
    {
        let min_level = match level {
            Some(l) => level_from_name(l.as_str()),
            None => None,
        };
        self.filter.tag_substring = tag;
        self.filter.message_substring = message;
        self.filter.min_level = min_level;
    }

    /// Change the capacity, keeping the newest entries.
    pub fn set_capacity(&mut self, capacity: usize)
        requires
            old(self).buffer.wf(),
            capacity > 0 || old(self).buffer.view().len() == 0,
        ensures
            final(self).buffer.wf(),
            final(self).buffer.cap() == capacity,
            final(self).buffer.view() == keep_newest(old(self).buffer.view(), capacity as nat),
            final(self).settings_bufcap == capacity,
            final(self).filter == old(self).filter,
            final(self).pending_batch == old(self).pending_batch,
            final(self).is_paused == old(self).is_paused,
    {
        self.settings_bufcap = capacity;
        self.buffer.set_capacity(capacity);
    }

    /// The export lines of the stored entries that pass the filter (or of
    /// all of them), oldest first; an error when there is nothing to export.
    pub fn export_lines(&self, filtered_only: bool) -> (r: Result<Vec<String>, String>)
        requires
            self.buffer.wf(),
        ensures
            ({
                let rows = if filtered_only {
                    spec_filter(self.filter@, self.buffer.view())
                } else {
                    self.buffer.view()
                };
                match r {
                    Err(e) => rows.len() == 0 && e@ == "No log entries to export"@,
                    Ok(lines) => rows.len() > 0 && lines@.len() == rows.len() && forall|k: int|
                        0 <= k < lines@.len() ==> (#[trigger] lines@[k])@ == spec_export_line(rows[k]),
                }
            }),
    {
        let refs = self.buffer.iter();
        let ghost src = self.buffer.view();
        let mut rows: Vec<&LogEntry> = Vec::new();
        let mut k: usize = 0;
        while k < refs.len()
            invariant
                k <= refs@.len(),
                refs@.len() == src.len(),
                forall|i: int| 0 <= i < refs@.len() ==> (#[trigger] refs@[i])@ == src[i],
                rows@.map_values(|e: &LogEntry| e@) == if filtered_only {
                    spec_filter(self.filter@, src.take(k as int))
                } else {
                    src.take(k as int)
                },
            decreases refs@.len() - k,
        {
            let e = refs[k];
            assert(src.take(k + 1).drop_last() =~= src.take(k as int));
            assert(src.take(k + 1).last() == e@);
            if !filtered_only || self.filter.matches(e) {
                let ghost before = rows@.map_values(|e: &LogEntry| e@);
                rows.push(e);
                assert(rows@.map_values(|e: &LogEntry| e@) =~= before.push(e@));
            }
            k = k + 1;
        }
        assert(src.take(k as int) =~= src);
        if rows.len() == 0 {
            let mut e = String::new();
            push_str_chars(&mut e, "No log entries to export");
            return Err(e);
        }
        let mut lines: Vec<String> = Vec::new();
        let mut j: usize = 0;
        while j < rows.len()
            invariant
                j <= rows@.len(),
                lines@.len() == j,
                forall|i: int| 0 <= i < j ==> (#[trigger] lines@[i])@ == spec_export_line(rows@[i]@),
            decreases rows@.len() - j,
        {
            lines.push(export_line(rows[j]));
            j = j + 1;
        }
        proof {
            let rv = rows@.map_values(|e: &LogEntry| e@);
            assert forall|i: int| 0 <= i < lines@.len() implies (#[trigger] lines@[i])@ == spec_export_line(rv[i]) by {
                assert(rv[i] == rows@[i]@);
            }
        }
        Ok(lines)
    }
}

} // verus!
