//! The log store behind the terminal viewer: a bounded buffer, the current
//! filter, and the list of buffer positions that pass the filter, kept up
//! to date as entries arrive, the filter changes or the buffer is resized.
//!
//! Log bodies live only in the buffer; the filtered view is a list of
//! indices into it. Streaming, locking and event delivery are the caller's.

use vstd::prelude::*;
use crate::buffer::{keep_newest, RingBuffer};
use crate::stream::lemma_encode_utf8_concat;
use crate::filter::{opt_view, spec_matches, spec_message_filter, FilterCriteria, FilterView};
use crate::parser::{
    colon_space_from, lemma_colon_after_tag, lemma_join_normal,
    spec_level_from_char, spec_parse_fields, spec_parse_threadtime_line, words_normal_from, LogEntry, LogEntryView, LogLevel,
};
use crate::ui::format::level_letter;
use crate::text::{
    decimal, is_ws, lemma_decimal_digits, lemma_parse_decimal_of, lemma_word_end_at, lemma_ws_end_at,
    pad_left, push_char, push_padded_u32, push_str_chars, word_end, ws_end,
};
use vstd::utf8::{encode_utf8, encode_utf8_decode_utf8};

verus! {

/// Positions (oldest first) of the entries of `s` that pass filter `f`.
pub open spec fn match_indices(s: Seq<LogEntryView>, f: FilterView) -> Seq<usize>
    decreases s.len(),
{
    if s.len() == 0 {
        Seq::empty()
    } else {
        let r = match_indices(s.drop_last(), f);
        if spec_matches(f, s.last()) {
            r.push((s.len() - 1) as usize)
        } else {
            r
        }
    }
}

/// Index list after the oldest entry left the buffer: position 0 goes,
/// every other position moves down by one.
pub open spec fn shift_front(idx: Seq<usize>) -> Seq<usize>
    decreases idx.len(),
{
    if idx.len() == 0 {
        Seq::empty()
    } else {
        let r = shift_front(idx.drop_last());
        if idx.last() == 0 {
            r
        } else {
            r.push((idx.last() - 1) as usize)
        }
    }
}

proof fn lemma_match_indices_len(s: Seq<LogEntryView>, f: FilterView)
    requires
        s.len() <= usize::MAX + 1,
    ensures
        match_indices(s, f).len() <= s.len(),
        forall|k: int| 0 <= k < match_indices(s, f).len() ==> #[trigger] match_indices(s, f)[k] < s.len(),
        forall|k: int| 0 <= k < match_indices(s, f).len() ==> spec_matches(f, s[#[trigger] match_indices(s, f)[k] as int]),
        forall|a: int, b: int| 0 <= a < b < match_indices(s, f).len() ==> #[trigger] match_indices(s, f)[a] < #[trigger] match_indices(s, f)[b],
    decreases s.len(),
{
    if s.len() > 0 {
        let p = s.drop_last();
        lemma_match_indices_len(p, f);
        let r = match_indices(p, f);
        assert forall|k: int| 0 <= k < r.len() implies spec_matches(f, s[#[trigger] r[k] as int]) by {
            assert(p[r[k] as int] == s[r[k] as int]);
        }
        if spec_matches(f, s.last()) {
            let m = r.push((s.len() - 1) as usize);
            assert(match_indices(s, f) == m);
            assert forall|k: int| 0 <= k < m.len() implies spec_matches(f, s[#[trigger] m[k] as int]) by {
                if k < r.len() {
                    assert(m[k] == r[k]);
                }
            }
            assert forall|a: int, b: int| 0 <= a < b < m.len() implies #[trigger] m[a] < #[trigger] m[b] by {
                assert(m[a] == r[a]);
                if b < r.len() {
                    assert(m[b] == r[b]);
                }
            }
            assert forall|k: int| 0 <= k < m.len() implies #[trigger] m[k] < s.len() by {
                if k < r.len() {
                    assert(m[k] == r[k]);
                }
            }
        }
    }
}

/// Dropping the oldest entry shifts the filtered positions: the first entry
/// leaves the view if it was in it, and the others move down by one.
proof fn lemma_match_indices_drop_first(s: Seq<LogEntryView>, f: FilterView)
    requires
        1 <= s.len() <= usize::MAX + 1,
    ensures
        match_indices(s.drop_first(), f) == shift_front(match_indices(s, f)),
    decreases s.len(),
{
    if s.len() == 1 {
        let t = s.drop_first();
        assert(t.len() == 0);
        assert(match_indices(t, f) == Seq::<usize>::empty());
        let r = match_indices(s, f);
        assert(s.drop_last().len() == 0);
        assert(match_indices(s.drop_last(), f) == Seq::<usize>::empty());
        if spec_matches(f, s.last()) {
            assert(r == seq![0usize]);
            assert(r.drop_last() =~= Seq::<usize>::empty());
            assert(shift_front(Seq::<usize>::empty()) == Seq::<usize>::empty());
            assert(shift_front(r) == shift_front(r.drop_last()));
        } else {
            assert(r == Seq::<usize>::empty());
        }
    } else {
        let t = s.drop_first();
        let p = s.drop_last();
        assert(t.drop_last() =~= p.drop_first());
        lemma_match_indices_drop_first(p, f);
        assert(t.last() == s.last());
        let m = match_indices(p, f);
        let v = (s.len() - 1) as usize;
        if spec_matches(f, s.last()) {
            assert(match_indices(s, f) == m.push(v));
            assert(m.push(v).drop_last() =~= m);
            assert(m.push(v).last() == v);
            assert(shift_front(m.push(v)) == shift_front(m).push((v - 1) as usize));
            assert(match_indices(t, f) == match_indices(t.drop_last(), f).push((t.len() - 1) as usize));
        } else {
            assert(match_indices(s, f) == m);
            assert(match_indices(t, f) == match_indices(t.drop_last(), f));
        }
    }
}

proof fn lemma_shift_front_bounds(idx: Seq<usize>)
    ensures
        shift_front(idx).len() <= idx.len(),
    decreases idx.len(),
{
    if idx.len() > 0 {
        lemma_shift_front_bounds(idx.drop_last());
    }
}

/// `{timestamp} {pid:5} {tid:5} {letter} {tag}: {message}` and a line break:
/// the line an entry is exported as.
pub open spec fn spec_export_line(e: LogEntryView) -> Seq<char> {
    e.timestamp + seq![' '] + pad_left(decimal(e.pid as nat), 5) + seq![' '] + pad_left(
        decimal(e.tid as nat),
        5,
    ) + seq![' ', level_letter(e.level), ' '] + e.tag + seq![':', ' ']
        + e.message + seq!['\n']
}

/// `pad_left` puts spaces before the text.
proof fn lemma_pad_left(d: Seq<char>, width: nat)
    ensures
        pad_left(d, width) == Seq::new(
            (if d.len() < width { width - d.len() } else { 0 }) as nat,
            |i: int| ' ',
        ) + d,
{
    if d.len() >= width {
        assert(Seq::new(0, |i: int| ' ') + d =~= d);
    }
}

/// Entries that a threadtime line can carry unchanged: a timestamp of 18
/// bytes, a tag without `": "`, and a tag and message whose words are
/// separated by single spaces (with a non-empty message).
pub open spec fn exportable(e: LogEntryView) -> bool {
    &&& encode_utf8(e.timestamp).len() == 18
    &&& colon_space_from(e.tag, 0) is None
    &&& words_normal_from(e.tag + seq![':', ' '] + e.message, 0)
}

/// The exported line after its timestamp, without the line break.
pub open spec fn export_fields(e: LogEntryView) -> Seq<char> {
    seq![' '] + pad_left(decimal(e.pid as nat), 5) + seq![' '] + pad_left(decimal(e.tid as nat), 5)
        + seq![' '] + seq![level_letter(e.level)] + seq![' '] + (e.tag + seq![':', ' '] + e.message)
}

/// Reading an exported line takes its timestamp as the first 18 bytes and
/// parses the fields after it.
proof fn lemma_export_split(e: LogEntryView)
    requires
        encode_utf8(e.timestamp).len() == 18,
    ensures
        spec_parse_threadtime_line(spec_export_line(e).drop_last()) == spec_parse_fields(
            e.timestamp,
            export_fields(e),
        ),
{
    let ts = e.timestamp;
    let r = export_fields(e);
    let line = spec_export_line(e).drop_last();
    assert(line =~= ts + r);
    lemma_encode_utf8_concat(ts, r);
    assert(encode_utf8(line).take(18) =~= encode_utf8(ts));
    assert(encode_utf8(line).skip(18) =~= encode_utf8(r));
    encode_utf8_decode_utf8(ts);
    encode_utf8_decode_utf8(r);
}

/// A level's letter is no space and reads back as the level.
proof fn lemma_level_letter(level: LogLevel)
    ensures
        !is_ws(level_letter(level)),
        spec_level_from_char(level_letter(level)) == Some(level),
{
    reveal_strlit("Verbose");
    reveal_strlit("Debug");
    reveal_strlit("Info");
    reveal_strlit("Warn");
    reveal_strlit("Error");
    reveal_strlit("Fatal");
}

/// Where each field sits in the exported fields, and how the word scanner
/// of the parser walks over them.
#[verifier::spinoff_prover]
#[verifier::rlimit(50)]
proof fn lemma_fields_layout(e: LogEntryView)
    requires
        exportable(e),
    ensures
        ({
            let dp = decimal(e.pid as nat);
            let dt = decimal(e.tid as nat);
            let lv = seq![level_letter(e.level)];
            let r = export_fields(e);
            let a0 = 1 + (if dp.len() < 5 { 5 - dp.len() } else { 0 });
            let a1 = a0 + dp.len();
            let b0 = a1 + 1 + (if dt.len() < 5 { 5 - dt.len() } else { 0 });
            let b1 = b0 + dt.len();
            let c0 = b1 + 1;
            let c1 = c0 + lv.len();
            let d0 = c1 + 1;
            &&& ws_end(r, 0) == a0 && word_end(r, a0) == a1
            &&& ws_end(r, a1) == b0 && word_end(r, b0) == b1
            &&& ws_end(r, b1) == c0 && word_end(r, c0) == c1
            &&& ws_end(r, c1) == d0
            &&& a0 < r.len() && b0 < r.len() && c0 < r.len()
            &&& r.subrange(a0, a1) == dp && r.subrange(b0, b1) == dt && r[c0] == lv[0]
            &&& words_normal_from(r, d0)
            &&& r.subrange(d0, r.len() as int) == e.tag + seq![':', ' '] + e.message
        }),
{
    let dp = decimal(e.pid as nat);
    let dt = decimal(e.tid as nat);
    let p1 = pad_left(dp, 5);
    let p2 = pad_left(dt, 5);
    let lv = seq![level_letter(e.level)];
    let sw = e.tag + seq![':', ' '] + e.message;
    let a = seq![' '] + p1;
    let b = a + seq![' '] + p2;
    let c = b + seq![' '] + lv;
    let r = c + seq![' '] + sw;
    assert(r =~= export_fields(e));
    lemma_decimal_digits(e.pid as nat);
    lemma_decimal_digits(e.tid as nat);
    lemma_pad_left(dp, 5);
    lemma_pad_left(dt, 5);
    lemma_level_letter(e.level);
    let k1: int = if dp.len() < 5 { 5 - dp.len() } else { 0 };
    let k2: int = if dt.len() < 5 { 5 - dt.len() } else { 0 };
    let a0 = 1 + k1;
    let a1 = a.len() as int;
    let o2 = a1 + 1;
    let b0 = o2 + k2;
    let b1 = b.len() as int;
    let c0 = b1 + 1;
    let c1 = c.len() as int;
    let d0 = c1 + 1;
    assert forall|k: int| 0 <= k < d0 + sw.len() implies #[trigger] r[k] == if k < a1 {
        if k == 0 { ' ' } else { p1[k - 1] }
    } else if k == a1 {
        ' '
    } else if k < b1 {
        p2[k - o2]
    } else if k == b1 {
        ' '
    } else if k < c1 {
        lv[k - c0]
    } else if k == c1 {
        ' '
    } else {
        sw[k - d0]
    } by {
        if k < c1 {
            assert(r[k] == c[k]);
            if k < b1 {
                assert(c[k] == b[k]);
                if k < a1 {
                    assert(b[k] == a[k]);
                }
            }
        }
    }
    lemma_ws_end_at(r, 0, a0);
    lemma_word_end_at(r, a0, a1);
    lemma_ws_end_at(r, a1, b0);
    lemma_word_end_at(r, b0, b1);
    lemma_ws_end_at(r, b1, c0);
    lemma_word_end_at(r, c0, c1);
    lemma_ws_end_at(r, c1, d0);
    assert(r.subrange(a0, a1) =~= dp);
    assert(r.subrange(b0, b1) =~= dt);
    assert forall|k: int| d0 <= k < r.len() && is_ws(#[trigger] r[k]) implies r[k] == ' ' && k + 1
        < r.len() && !is_ws(r[k + 1]) by {
        assert(r[k + 1] == sw[k + 1 - d0]);
    }
    assert(r.subrange(d0, r.len() as int) =~= sw);
}

/// An exported line reads back as the entry it was written from: parsing
/// the export of an entry (without its line break) gives the entry, for
/// every entry a threadtime line can carry.
pub proof fn law_export_reads_back(e: LogEntryView)
    requires
        exportable(e),
    ensures
        spec_parse_threadtime_line(spec_export_line(e).drop_last()) == Some(e),
{
    lemma_export_split(e);
    lemma_fields_layout(e);
    let r = export_fields(e);
    let dp = decimal(e.pid as nat);
    let lv = seq![level_letter(e.level)];
    let d0 = 1 + (if dp.len() < 5 { 5 - dp.len() } else { 0 }) + dp.len() + 1 + (if decimal(
        e.tid as nat,
    ).len() < 5 { 5 - decimal(e.tid as nat).len() } else { 0 }) + decimal(e.tid as nat).len() + 1
        + lv.len() + 1;
    lemma_parse_decimal_of(e.pid as nat, u32::MAX as nat);
    lemma_parse_decimal_of(e.tid as nat, u32::MAX as nat);
    lemma_level_letter(e.level);
    lemma_join_normal(r, d0);
    let sw = e.tag + seq![':', ' '] + e.message;
    lemma_colon_after_tag(e.tag, e.message, 0);
    assert(sw.take(e.tag.len() as int) =~= e.tag);
    assert(sw.skip(e.tag.len() as int + 2) =~= e.message);
}

pub fn export_line(entry: &LogEntry) -> (r: String)
    ensures
        r@ == spec_export_line(entry@),
{
    let mut s = String::new();
    push_str_chars(&mut s, entry.timestamp.as_str());
    push_char(&mut s, ' ');
    push_padded_u32(&mut s, entry.pid, 5);
    push_char(&mut s, ' ');
    push_padded_u32(&mut s, entry.tid, 5);
    push_char(&mut s, ' ');
    push_char(&mut s, entry.level.letter());
    push_char(&mut s, ' ');
    push_str_chars(&mut s, entry.tag.as_str());
    push_char(&mut s, ':');
    push_char(&mut s, ' ');
    push_str_chars(&mut s, entry.message.as_str());
    push_char(&mut s, '\n');
    assert(s@ =~= spec_export_line(entry@));
    s
}

/// Manages the buffer, the filter and the filtered index list.
pub struct Engine {
    buffer: RingBuffer,
    filter: FilterCriteria,
    /// Indices into `buffer` (0 = oldest) for entries matching the current filter.
    filtered_indices: Vec<usize>,
    is_paused: bool,
    settings_bufcap: usize,
    /// Count of new filtered rows since last UI notify (suppressed while paused).
    pending_appended: usize,
    /// Count of filtered-front drops since last UI notify.
    pending_dropped: usize,
    is_streaming: bool,
    total_received: u64,
    total_matched: u64,
}

/// What an engine holds, as values.
pub struct EngineView {
    /// Stored entries, oldest first.
    pub entries: Seq<LogEntryView>,
    pub cap: nat,
    pub filter: FilterView,
    pub paused: bool,
    pub streaming: bool,
    pub bufcap: usize,
    pub pending_appended: usize,
    pub pending_dropped: usize,
    pub total_received: u64,
    pub total_matched: u64,
}

impl View for Engine {
    type V = EngineView;

    closed spec fn view(&self) -> EngineView {
        EngineView {
            entries: self.buffer@,
            cap: self.buffer.cap(),
            filter: self.filter@,
            paused: self.is_paused,
            streaming: self.is_streaming,
            bufcap: self.settings_bufcap,
            pending_appended: self.pending_appended,
            pending_dropped: self.pending_dropped,
            total_received: self.total_received,
            total_matched: self.total_matched,
        }
    }
}

/// The rows of the filtered view: positions in the buffer of the entries
/// that pass the filter, oldest first.
pub open spec fn filtered_view(v: EngineView) -> Seq<usize> {
    match_indices(v.entries, v.filter)
}

/// `x + 1`, held at the maximum.
pub open spec fn sat_inc(x: usize) -> usize {
    if x == usize::MAX {
        x
    } else {
        (x + 1) as usize
    }
}

pub open spec fn sat_inc64(x: u64) -> u64 {
    if x == u64::MAX {
        x
    } else {
        (x + 1) as u64
    }
}

/// The engine after storing entry `e`: the buffer keeps the newest entries,
/// the totals and the counts of rows added to and dropped from the filtered
/// view grow (rows added while paused are not counted for display).
pub open spec fn spec_ingest(v: EngineView, e: LogEntryView) -> EngineView {
    let matched = spec_matches(v.filter, e);
    EngineView {
        entries: keep_newest(v.entries.push(e), v.cap),
        total_received: sat_inc64(v.total_received),
        total_matched: if matched { sat_inc64(v.total_matched) } else { v.total_matched },
        pending_dropped: if v.entries.len() >= v.cap && spec_matches(v.filter, v.entries[0]) {
            sat_inc(v.pending_dropped)
        } else {
            v.pending_dropped
        },
        pending_appended: if matched && !v.paused {
            sat_inc(v.pending_appended)
        } else {
            v.pending_appended
        },
        ..v
    }
}

/// The engine with the display paused or resumed.
pub open spec fn with_paused(v: EngineView, paused: bool) -> EngineView {
    EngineView { paused, ..v }
}

/// Pausing only holds the display back: entries that arrive while paused
/// are stored and filtered as when running, the stream keeps running, and
/// resuming gives back the state that pausing left.
pub proof fn law_pause_holds_display_only(v: EngineView, e: LogEntryView)
    ensures
        spec_ingest(with_paused(v, true), e).entries == spec_ingest(v, e).entries,
        filtered_view(spec_ingest(with_paused(v, true), e)) == filtered_view(spec_ingest(v, e)),
        spec_ingest(with_paused(v, true), e).streaming == v.streaming,
        spec_ingest(with_paused(v, true), e).total_matched == spec_ingest(v, e).total_matched,
        with_paused(with_paused(v, true), v.paused) == v,
{
}

/// The entries of `s` that pass filter `f`, oldest first.
pub open spec fn passing(s: Seq<LogEntryView>, f: FilterView) -> Seq<LogEntryView>
    decreases s.len(),
{
    if s.len() == 0 {
        Seq::empty()
    } else if spec_matches(f, s.last()) {
        passing(s.drop_last(), f).push(s.last())
    } else {
        passing(s.drop_last(), f)
    }
}

/// The rows named by the filtered positions are the passing entries.
proof fn lemma_rows_are_passing(s: Seq<LogEntryView>, f: FilterView)
    requires
        s.len() <= usize::MAX + 1,
    ensures
        match_indices(s, f).map_values(|i: usize| s[i as int]) == passing(s, f),
    decreases s.len(),
{
    if s.len() > 0 {
        let p = s.drop_last();
        lemma_rows_are_passing(p, f);
        lemma_match_indices_len(p, f);
        let m = match_indices(p, f);
        assert forall|k: int| 0 <= k < m.len() implies #[trigger] s[m[k] as int] == p[m[k] as int] by {}
        if spec_matches(f, s.last()) {
            assert(match_indices(s, f).map_values(|i: usize| s[i as int]) =~= m.map_values(
                |i: usize| p[i as int],
            ).push(s.last()));
        } else {
            assert(match_indices(s, f).map_values(|i: usize| s[i as int]) =~= m.map_values(
                |i: usize| p[i as int],
            ));
        }
    }
}

/// Without the oldest entry, the passing entries lose it when it passed.
proof fn lemma_passing_drop_first(s: Seq<LogEntryView>, f: FilterView)
    requires
        s.len() >= 1,
    ensures
        passing(s, f) == (if spec_matches(f, s[0]) { seq![s[0]] } else { Seq::empty() }) + passing(
            s.drop_first(),
            f,
        ),
    decreases s.len(),
{
    if s.len() == 1 {
        assert(s.drop_first().len() == 0);
        assert(s.drop_last().len() == 0);
        assert(passing(s.drop_last(), f) == Seq::<LogEntryView>::empty());
        assert(passing(s.drop_first(), f) == Seq::<LogEntryView>::empty());
        if spec_matches(f, s[0]) {
            assert(passing(s, f) =~= seq![s[0]]);
        }
    } else {
        let p = s.drop_last();
        lemma_passing_drop_first(p, f);
        assert(s.drop_first().drop_last() =~= p.drop_first());
        assert(s.drop_first().last() == s.last());
        assert(p[0] == s[0]);
        let head = if spec_matches(f, s[0]) { seq![s[0]] } else { Seq::<LogEntryView>::empty() };
        if spec_matches(f, s.last()) {
            assert(passing(s, f) =~= head + passing(s.drop_first(), f));
        } else {
            assert(passing(s, f) =~= head + passing(s.drop_first(), f));
        }
    }
}

/// The filtered rows follow each arrival: when the buffer is full the
/// oldest entry leaves (and its row leaves the view if it had one), and the
/// new entry gets a row at the end when it passes the filter. The numbers
/// of rows dropped and added are the ones the engine reports.
pub proof fn law_view_follows_ingest(v: EngineView, e: LogEntryView)
    requires
        v.cap >= 1,
        v.entries.len() <= v.cap,
        v.cap <= usize::MAX,
    ensures
        ({
            let dropped = v.entries.len() >= v.cap && spec_matches(v.filter, v.entries[0]);
            let added = spec_matches(v.filter, e);
            let before = filtered_view(v).map_values(|i: usize| v.entries[i as int]);
            let w = spec_ingest(v, e);
            &&& filtered_view(w).map_values(|i: usize| w.entries[i as int]) == before.skip(
                if dropped { 1int } else { 0int },
            ) + (if added { seq![e] } else { Seq::<LogEntryView>::empty() })
            &&& (w.pending_dropped != v.pending_dropped) ==> dropped
            &&& dropped && v.pending_dropped < usize::MAX ==> w.pending_dropped == v.pending_dropped + 1
            &&& (w.pending_appended != v.pending_appended) ==> added
            &&& added && !v.paused && v.pending_appended < usize::MAX ==> w.pending_appended
                == v.pending_appended + 1
        }),
{
    let s = v.entries;
    let f = v.filter;
    let pushed = s.push(e);
    let w = spec_ingest(v, e);
    lemma_rows_are_passing(s, f);
    lemma_rows_are_passing(w.entries, f);
    assert(pushed.drop_last() =~= s);
    let tail = if spec_matches(f, e) { seq![e] } else { Seq::<LogEntryView>::empty() };
    assert(passing(pushed, f) =~= passing(s, f) + tail);
    if s.len() >= v.cap {
        assert(w.entries =~= pushed.drop_first());
        lemma_passing_drop_first(pushed, f);
        assert(pushed[0] == s[0]);
        if spec_matches(f, s[0]) {
            lemma_passing_drop_first(s, f);
            assert(passing(s, f).len() >= 1);
            assert(passing(pushed, f) == seq![s[0]] + passing(w.entries, f));
            assert(passing(w.entries, f) =~= passing(pushed, f).skip(1));
            assert(passing(pushed, f).skip(1) =~= passing(s, f).skip(1) + tail);
        } else {
            assert(passing(w.entries, f) =~= passing(s, f).skip(0) + tail);
        }
    } else {
        assert(w.entries == pushed);
        assert(passing(s, f).skip(0) =~= passing(s, f));
    }
}

impl Engine {
    /// The filtered index list agrees with the buffer and the filter.
    pub closed spec fn wf(&self) -> bool {
        &&& self.buffer.wf()
        &&& self.filtered_indices@ == match_indices(self.buffer@, self.filter@)
    }

    pub fn new(capacity: usize) -> (r: Engine)
        ensures
            r.wf(),
            r@.entries == Seq::<LogEntryView>::empty(),
            r@.cap == if capacity >= 1 { capacity as nat } else { 1 },
            r@.filter == (FilterView { tag: None, message: None, min_level: None }),
            !r@.paused,
            !r@.streaming,
            r@.bufcap == capacity,
            r@.pending_appended == 0,
            r@.pending_dropped == 0,
            r@.total_received == 0,
            r@.total_matched == 0,
    {
        let r = Engine {
            buffer: RingBuffer::new(capacity),
            filter: FilterCriteria { tag_substring: None, message_substring: None, min_level: None },
            filtered_indices: Vec::new(),
            is_paused: false,
            settings_bufcap: capacity,
            pending_appended: 0,
            pending_dropped: 0,
            is_streaming: false,
            total_received: 0,
            total_matched: 0,
        };
        assert(r.filtered_indices@ =~= match_indices(r.buffer@, r.filter@));
        r
    }

    /// Store one entry: the buffer keeps the newest entries, the filtered
    /// view follows, and the counts of rows added to and dropped from the
    /// view since the last report grow.
    pub fn ingest_entry(&mut self, entry: LogEntry)
        requires
            old(self).wf(),
        ensures
            final(self).wf(),
            final(self)@ == spec_ingest(old(self)@, entry@),
    {
        let ghost e = entry@;
        let ghost before = self.buffer@;
        let ghost f = self.filter@;
        let paused = self.is_paused;
        let matches = self.filter.matches(&entry);
        proof {
            self.buffer.lemma_wf();
        }
        let dropped = self.buffer.push(entry);
        proof {
            self.buffer.lemma_wf();
            assert(self.buffer@.len() >= 1);
        }
        let new_idx = self.buffer.len() - 1;
        let mut dropped_match = false;
        proof {
            lemma_match_indices_len(before, f);
        }
        proof {
            lemma_ingest_indices(before, e, f, self.buffer.cap());
        }
        if dropped.is_some() {
            let mut old_indices: Vec<usize> = Vec::new();
            std::mem::swap(&mut old_indices, &mut self.filtered_indices);
            let mut kept: Vec<usize> = Vec::new();
            let mut k: usize = 0;
            while k < old_indices.len()
                invariant
                    k <= old_indices@.len(),
                    kept@ == shift_front(old_indices@.take(k as int)),
                    dropped_match == (k > 0 && old_indices@[0] == 0),
                    forall|a: int, b: int| 0 <= a < b < old_indices@.len() ==> #[trigger] old_indices@[a] < #[trigger] old_indices@[b],
                decreases old_indices@.len() - k,
            {
                let idx = old_indices[k];
                assert(old_indices@.take(k + 1).drop_last() =~= old_indices@.take(k as int));
                if idx == 0 {
                    if k > 0 {
                        assert(old_indices@[0] < old_indices@[k as int]);
                    }
                    dropped_match = true;
                } else {
                    kept.push(idx - 1);
                }
                k = k + 1;
            }
            assert(old_indices@.take(old_indices@.len() as int) =~= old_indices@);
            self.filtered_indices = kept;
        }
        if matches {
            self.filtered_indices.push(new_idx);
        }
        self.total_received = self.total_received.saturating_add(1);
        if matches {
            self.total_matched = self.total_matched.saturating_add(1);
        }
        if dropped_match {
            self.pending_dropped = self.pending_dropped.saturating_add(1);
        }
        if matches && !paused {
            self.pending_appended = self.pending_appended.saturating_add(1);
        }
    }
}

impl Engine {
    /// Reset the state for a new stream: an empty buffer (with room reserved
    /// for the first burst), no pending counts or totals, running and not
    /// paused.
    pub fn start_stream(&mut self)
        requires
            old(self).wf(),
        ensures
            final(self).wf(),
            final(self)@ == (EngineView {
                entries: Seq::empty(),
                paused: false,
                streaming: true,
                pending_appended: 0,
                pending_dropped: 0,
                total_received: 0,
                total_matched: 0,
                ..old(self)@
            }),
    {
        let grow_hint = if self.settings_bufcap < 16_384 {
            self.settings_bufcap
        } else {
            16_384
        };
        self.buffer.clear();
        self.buffer.reserve(grow_hint);
        self.filtered_indices = Vec::new();
        self.pending_appended = 0;
        self.pending_dropped = 0;
        self.total_received = 0;
        self.total_matched = 0;
        self.is_paused = false;
        self.is_streaming = true;
        assert(self.filtered_indices@ =~= match_indices(self.buffer@, self.filter@));
    }

    /// Mark the stream as stopped (by the user or because it ended).
    pub fn stop_stream(&mut self)
        ensures
            final(self)@ == (EngineView { streaming: false, ..old(self)@ }),
            final(self).wf() == old(self).wf(),
    {
        self.is_streaming = false;
    }

    pub fn pause(&mut self)
        ensures
            final(self)@ == with_paused(old(self)@, true),
            final(self).wf() == old(self).wf(),
    {
        self.is_paused = true;
    }

    pub fn resume(&mut self)
        ensures
            final(self)@ == with_paused(old(self)@, false),
            final(self).wf() == old(self).wf(),
    {
        self.is_paused = false;
    }

    pub fn is_paused(&self) -> (r: bool)
        ensures
            r == self@.paused,
    {
        self.is_paused
    }

    pub fn is_streaming(&self) -> (r: bool)
        ensures
            r == self@.streaming,
    {
        self.is_streaming
    }

    /// The counts of rows added to and dropped from the filtered view since
    /// the last call, which start again from zero.
    pub fn take_pending(&mut self) -> (r: (usize, usize))
        ensures
            r == (old(self)@.pending_appended, old(self)@.pending_dropped),
            final(self)@ == (EngineView { pending_appended: 0, pending_dropped: 0, ..old(self)@ }),
            final(self).wf() == old(self).wf(),
    {
        let r = (self.pending_appended, self.pending_dropped);
        self.pending_appended = 0;
        self.pending_dropped = 0;
        r
    }

    /// Re-apply the filter to the whole buffer and rebuild the index list.
    pub fn re_filter(&mut self)
        requires
            old(self).wf(),
        ensures
            final(self).wf(),
            final(self)@ == (EngineView { pending_appended: 0, pending_dropped: 0, ..old(self)@ }),
    {
        self.rebuild();
    }

    fn rebuild(&mut self)
        requires
            old(self).buffer.wf(),
        ensures
            final(self).wf(),
            final(self)@ == (EngineView { pending_appended: 0, pending_dropped: 0, ..old(self)@ }),
    {
        let n = self.buffer.len();
        let mut indices: Vec<usize> = Vec::new();
        let mut i: usize = 0;
        while i < n
            invariant
                n == self.buffer@.len(),
                i <= n,
                indices@ == match_indices(self.buffer@.take(i as int), self.filter@),
            decreases n - i,
        {
            let ghost t = self.buffer@.take(i + 1);
            assert(t.drop_last() =~= self.buffer@.take(i as int));
            assert(t.last() == self.buffer@[i as int]);
            match self.buffer.get(i) {
                Some(entry) => {
                    if self.filter.matches(entry) {
                        indices.push(i);
                    }
                },
                None => {},
            }
            i = i + 1;
        }
        assert(self.buffer@.take(n as int) =~= self.buffer@);
        self.filtered_indices = indices;
        self.pending_appended = 0;
        self.pending_dropped = 0;
    }

    /// Replace the filter (an empty tag filter counts as none; the message
    /// filter is stored lowercased) and rebuild the filtered view.
    pub fn set_filter(&mut self, tag: Option<String>, message: Option<String>, min_level: Option<LogLevel>)
        requires
            old(self).wf(),
        ensures
            final(self).wf(),
            final(self)@ == (EngineView {
                filter: FilterView {
                    tag: match opt_view(tag) {
                        Some(t) => if t.len() > 0 { Some(t) } else { None },
                        None => None,
                    },
                    message: spec_message_filter(opt_view(message)),
                    min_level,
                },
                pending_appended: 0,
                pending_dropped: 0,
                ..old(self)@
            }),
    {
        self.filter.tag_substring = match tag {
            Some(t) => if t.as_str().is_empty() {
                None
            } else {
                Some(t)
            },
            None => None,
        };
        self.filter.set_message_filter(message);
        self.filter.min_level = min_level;
        self.rebuild();
    }

    /// Empty the buffer and release its spare storage.
    pub fn clear_buffer(&mut self)
        requires
            old(self).wf(),
        ensures
            final(self).wf(),
            final(self)@ == (EngineView {
                entries: Seq::empty(),
                pending_appended: 0,
                pending_dropped: 0,
                ..old(self)@
            }),
    {
        self.buffer.clear_compact();
        self.filtered_indices = Vec::new();
        self.pending_appended = 0;
        self.pending_dropped = 0;
        assert(self.filtered_indices@ =~= match_indices(self.buffer@, self.filter@));
    }

    /// Entries received since the stream started.
    pub fn total_received(&self) -> (r: u64)
        ensures
            r == self@.total_received,
    {
        self.total_received
    }

    /// Entries received since the stream started that passed the filter.
    pub fn total_matched(&self) -> (r: u64)
        ensures
            r == self@.total_matched,
    {
        self.total_matched
    }

    /// Number of stored entries.
    pub fn buffer_len(&self) -> (r: usize)
        ensures
            r == self@.entries.len(),
    {
        self.buffer.len()
    }

    /// The buffer's capacity limit.
    pub fn capacity(&self) -> (r: usize)
        ensures
            r == self@.cap,
    {
        self.buffer.capacity()
    }

    pub fn filtered_len(&self) -> (r: usize)
        requires
            self.wf(),
        ensures
            r == filtered_view(self@).len(),
    {
        self.filtered_indices.len()
    }

    /// A copy of row `index` of the filtered view.
    pub fn filtered_get(&self, index: usize) -> (r: Option<LogEntry>)
        requires
            self.wf(),
        ensures
            index < filtered_view(self@).len() ==> (r matches Some(e) && e@ == self@.entries[filtered_view(self@)[index as int] as int]),
            index >= filtered_view(self@).len() ==> r is None,
    {
        proof {
            self.buffer.lemma_wf();
            lemma_match_indices_len(self.buffer@, self.filter@);
        }
        if index >= self.filtered_indices.len() {
            return None;
        }
        let buf_idx = self.filtered_indices[index];
        match self.buffer.get(buf_idx) {
            Some(e) => Some(e.duplicate()),
            None => None,
        }
    }

    /// Copies of the filtered rows `[start, end)`, both clamped to the view.
    pub fn copy_filtered_range(&self, start: usize, end: usize) -> (r: Vec<LogEntry>)
        requires
            self.wf(),
        ensures
            ({
                let fv = filtered_view(self@);
                let e = if end < fv.len() { end as int } else { fv.len() as int };
                let s = if start < e { start as int } else { e };
                &&& r@.len() == e - s
                &&& forall|k: int| 0 <= k < r@.len() ==> (#[trigger] r@[k])@ == self@.entries[fv[s + k] as int]
            }),
    {
        proof {
            self.buffer.lemma_wf();
            lemma_match_indices_len(self.buffer@, self.filter@);
        }
        let len = self.filtered_indices.len();
        let end = if end < len {
            end
        } else {
            len
        };
        let start = if start < end {
            start
        } else {
            end
        };
        let mut out: Vec<LogEntry> = Vec::new();
        let mut k = start;
        while k < end
            invariant
                start <= k <= end <= self.filtered_indices@.len(),
                self.filtered_indices@ == filtered_view(self@),
                forall|j: int| 0 <= j < self.filtered_indices@.len() ==> #[trigger] self.filtered_indices@[j] < self@.entries.len(),
                out@.len() == k - start,
                forall|j: int| 0 <= j < out@.len() ==> (#[trigger] out@[j])@ == self@.entries[self.filtered_indices@[start + j] as int],
            decreases end - k,
        {
            let buf_idx = self.filtered_indices[k];
            match self.buffer.get(buf_idx) {
                Some(e) => out.push(e.duplicate()),
                None => {},
            }
            k = k + 1;
        }
        out
    }

    /// Change the capacity (keeping the newest entries) and rebuild the view.
    pub fn set_capacity(&mut self, capacity: usize)
        requires
            old(self).wf(),
        ensures
            final(self).wf(),
            final(self)@ == (EngineView {
                entries: keep_newest(old(self)@.entries, final(self)@.cap),
                cap: if capacity >= 1 { capacity as nat } else { 1 },
                bufcap: capacity,
                pending_appended: 0,
                pending_dropped: 0,
                ..old(self)@
            }),
    {
        self.settings_bufcap = capacity;
        self.buffer.set_capacity(capacity);
        self.rebuild();
    }

    /// The export lines of the filtered rows (or of every stored entry),
    /// oldest first; an error when there is nothing to export.
    pub fn export_lines(&self, filtered_only: bool) -> (r: Result<Vec<String>, String>)
        requires
            self.wf(),
        ensures
            ({
                let rows = if filtered_only {
                    filtered_view(self@).map_values(|i: usize| self@.entries[i as int])
                } else {
                    self@.entries
                };
                match r {
                    Err(e) => rows.len() == 0 && e@ == "No log entries to export"@,
                    Ok(lines) => rows.len() > 0 && lines@.len() == rows.len() && forall|k: int|
                        0 <= k < lines@.len() ==> (#[trigger] lines@[k])@ == spec_export_line(rows[k]),
                }
            }),
    {
        proof {
            self.buffer.lemma_wf();
            lemma_match_indices_len(self.buffer@, self.filter@);
        }
        let ghost rows = if filtered_only {
            filtered_view(self@).map_values(|i: usize| self@.entries[i as int])
        } else {
            self@.entries
        };
        let n = if filtered_only {
            self.filtered_indices.len()
        } else {
            self.buffer.len()
        };
        if n == 0 {
            let mut e = String::new();
            push_str_chars(&mut e, "No log entries to export");
            return Err(e);
        }
        let mut lines: Vec<String> = Vec::new();
        let mut k: usize = 0;
        while k < n
            invariant
                k <= n == rows.len(),
                rows == (if filtered_only {
                    filtered_view(self@).map_values(|i: usize| self@.entries[i as int])
                } else {
                    self@.entries
                }),
                self.filtered_indices@ == filtered_view(self@),
                forall|j: int| 0 <= j < self.filtered_indices@.len() ==> #[trigger] self.filtered_indices@[j] < self@.entries.len(),
                lines@.len() == k,
                forall|j: int| 0 <= j < k ==> (#[trigger] lines@[j])@ == spec_export_line(rows[j]),
            decreases n - k,
        {
            let idx = if filtered_only {
                self.filtered_indices[k]
            } else {
                k
            };
            match self.buffer.get(idx) {
                Some(e) => lines.push(export_line(e)),
                None => {},
            }
            k = k + 1;
        }
        Ok(lines)
    }
}

/// How one more entry changes the filtered positions of a buffer holding
/// `before` with room for `cap` entries.
proof fn lemma_ingest_indices(before: Seq<LogEntryView>, e: LogEntryView, f: FilterView, cap: nat)
    requires
        1 <= cap <= usize::MAX,
        before.len() <= cap,
    ensures
        forall|a: int, b: int| 0 <= a < b < match_indices(before, f).len() ==> #[trigger] match_indices(before, f)[a] < #[trigger] match_indices(before, f)[b],
        match_indices(before, f).len() > 0 ==> (match_indices(before, f)[0] == 0 <==> spec_matches(f, before[0])),
        match_indices(before, f).len() == 0 ==> !(before.len() > 0 && spec_matches(f, before[0])),
        before.len() >= cap ==> match_indices(keep_newest(before.push(e), cap), f) == if spec_matches(f, e) {
            shift_front(match_indices(before, f)).push((cap - 1) as usize)
        } else {
            shift_front(match_indices(before, f))
        },
        before.len() < cap ==> match_indices(keep_newest(before.push(e), cap), f) == if spec_matches(f, e) {
            match_indices(before, f).push(before.len() as usize)
        } else {
            match_indices(before, f)
        },
{
    lemma_match_indices_len(before, f);
    lemma_first_index_zero(before, f);
    let pushed = before.push(e);
    assert(pushed.drop_last() =~= before);
    assert(pushed.last() == e);
    if before.len() >= cap {
        assert(keep_newest(pushed, cap) =~= pushed.drop_first());
        lemma_match_indices_drop_first(pushed, f);
        let m = match_indices(before, f);
        if spec_matches(f, e) {
            assert(match_indices(pushed, f) == m.push(before.len() as usize));
            assert(m.push(before.len() as usize).drop_last() =~= m);
            assert(shift_front(m.push(before.len() as usize)) == shift_front(m).push((cap - 1) as usize));
        } else {
            assert(match_indices(pushed, f) == m);
        }
    } else {
        assert(keep_newest(pushed, cap) == pushed);
    }
}

/// The filtered list starts with position 0 exactly when the oldest entry
/// passes the filter.
proof fn lemma_first_index_zero(s: Seq<LogEntryView>, f: FilterView)
    requires
        s.len() <= usize::MAX + 1,
    ensures
        s.len() > 0 && spec_matches(f, s[0]) ==> match_indices(s, f).len() > 0 && match_indices(s, f)[0] == 0,
        match_indices(s, f).len() > 0 ==> (match_indices(s, f)[0] == 0 <==> spec_matches(f, s[0])),
    decreases s.len(),
{
    lemma_match_indices_len(s, f);
    if s.len() > 1 {
        lemma_first_index_zero(s.drop_last(), f);
        assert(s.drop_last()[0] == s[0]);
    } else if s.len() == 1 {
        assert(match_indices(s.drop_last(), f).len() == 0);
    }
}


/// The filtered view holds exactly the positions of the stored entries that
/// pass the filter, each once, oldest first.
pub proof fn law_filtered_view_is_exact(v: EngineView, i: int)
    requires
        v.entries.len() <= usize::MAX,
        0 <= i < v.entries.len(),
    ensures
        filtered_view(v).contains(i as usize) <==> spec_matches(v.filter, v.entries[i]),
        forall|a: int, b: int| 0 <= a < b < filtered_view(v).len() ==> #[trigger] filtered_view(v)[a] < #[trigger] filtered_view(v)[b],
{
    lemma_match_indices_len(v.entries, v.filter);
    lemma_match_indices_contains(v.entries, v.filter, i);
}

proof fn lemma_match_indices_contains(s: Seq<LogEntryView>, f: FilterView, i: int)
    requires
        s.len() <= usize::MAX,
        0 <= i < s.len(),
    ensures
        match_indices(s, f).contains(i as usize) <==> spec_matches(f, s[i]),
    decreases s.len(),
{
    let p = s.drop_last();
    let m = match_indices(p, f);
    lemma_match_indices_len(p, f);
    if i < s.len() - 1 {
        lemma_match_indices_contains(p, f, i);
        assert(p[i] == s[i]);
        if spec_matches(f, s.last()) {
            let r = m.push((s.len() - 1) as usize);
            assert(match_indices(s, f) == r);
            if r.contains(i as usize) {
                let k = choose|k: int| 0 <= k < r.len() && r[k] == i as usize;
                if k < m.len() {
                    assert(m[k] == i as usize);
                }
            }
            if m.contains(i as usize) {
                let k = choose|k: int| 0 <= k < m.len() && m[k] == i as usize;
                assert(r[k] == i as usize);
            }
        }
    } else {
        if spec_matches(f, s.last()) {
            let r = m.push((s.len() - 1) as usize);
            assert(r[m.len() as int] == i as usize);
        } else {
            if m.contains(i as usize) {
                let k = choose|k: int| 0 <= k < m.len() && m[k] == i as usize;
                assert(m[k] < p.len());
            }
        }
    }
}

} // verus!
