//! In-view search: which filtered rows contain the query (ignoring case),
//! which of them is current, and how the list follows new and dropped rows.

use vstd::prelude::*;
use crate::engine::{filtered_view, Engine};
use crate::parser::LogEntryView;
use crate::text::{
    ascii_lower_seq, chars_of, occurs_at, push_char, push_str_chars, seq_contains, spec_to_lowercase,
    spec_trim, str_contains,
    string_from_chars, to_lowercase, trim_bounds, decimal, usize_to_string,
};
use crate::ui::format::{format_log_line, level_letter, spec_format_log_line, spec_meta_prefix};
use crate::ui::text_input::TextInput;

verus! {

/// Whether the display line of `e` contains query `q` (already lowercased),
/// ignoring case.
pub open spec fn row_hits(e: LogEntryView, q: Seq<char>) -> bool {
    seq_contains(spec_to_lowercase(spec_format_log_line(e)), q)
}

/// The rows of the filtered view, as entries.
pub open spec fn filtered_rows(engine: crate::engine::EngineView) -> Seq<LogEntryView> {
    filtered_view(engine).map_values(|i: usize| engine.entries[i as int])
}

/// Positions `i` in `[from, to)` of rows that contain `q`, in order.
pub open spec fn hits_in(rows: Seq<LogEntryView>, q: Seq<char>, from: int, to: int) -> Seq<usize>
    decreases to - from,
{
    if to <= from {
        Seq::empty()
    } else {
        let r = hits_in(rows, q, from, to - 1);
        if row_hits(rows[to - 1], q) {
            r.push((to - 1) as usize)
        } else {
            r
        }
    }
}

/// The query used for searching: the input trimmed and lowercased.
pub open spec fn search_query(text: Seq<char>) -> Seq<char> {
    spec_to_lowercase(spec_trim(text))
}

/// Match list after the oldest `n` rows left the view: matches among them
/// go, the others move down by `n`.
pub open spec fn drop_front_matches(m: Seq<usize>, n: usize) -> Seq<usize>
    decreases m.len(),
{
    if m.len() == 0 {
        Seq::empty()
    } else {
        let r = drop_front_matches(m.drop_last(), n);
        if m.last() < n {
            r
        } else {
            r.push((m.last() - n) as usize)
        }
    }
}

/// `current` moved into the list: 0 for an empty list, else at most the last.
pub open spec fn clamp_current(current: usize, len: int) -> usize {
    if len == 0 {
        0
    } else if current >= len {
        (len - 1) as usize
    } else {
        current
    }
}

/// Hits of `[from, to)` lie in that range, in increasing order.
pub proof fn lemma_hits_in_range(rows: Seq<LogEntryView>, q: Seq<char>, from: int, to: int)
    requires
        0 <= from,
        to <= usize::MAX + 1,
    ensures
        forall|j: int| 0 <= j < hits_in(rows, q, from, to).len() ==> from <= #[trigger] hits_in(rows, q, from, to)[j] < to,
    decreases to - from,
{
    if to > from {
        lemma_hits_in_range(rows, q, from, to - 1);
        let r = hits_in(rows, q, from, to - 1);
        assert forall|j: int| 0 <= j < hits_in(rows, q, from, to).len() implies from <= #[trigger] hits_in(
            rows,
            q,
            from,
            to,
        )[j] < to by {
            if j < r.len() {
                assert(hits_in(rows, q, from, to)[j] == r[j]);
            }
        }
    }
}

/// Searching `[a, c)` finds the hits of `[a, b)` followed by those of `[b, c)`.
pub proof fn lemma_hits_split(rows: Seq<LogEntryView>, q: Seq<char>, a: int, b: int, c: int)
    requires
        a <= b <= c,
    ensures
        hits_in(rows, q, a, c) == hits_in(rows, q, a, b) + hits_in(rows, q, b, c),
    decreases c - b,
{
    if c == b {
        assert(hits_in(rows, q, a, b) + hits_in(rows, q, b, c) =~= hits_in(rows, q, a, b));
    } else {
        lemma_hits_split(rows, q, a, b, c - 1);
        if row_hits(rows[c - 1], q) {
            assert(hits_in(rows, q, a, b) + hits_in(rows, q, b, c) =~= (hits_in(rows, q, a, b) + hits_in(
                rows,
                q,
                b,
                c - 1,
            )).push((c - 1) as usize));
        } else {
            assert(hits_in(rows, q, a, b) + hits_in(rows, q, b, c) =~= hits_in(rows, q, a, b) + hits_in(
                rows,
                q,
                b,
                c - 1,
            ));
        }
    }
}

/// The hits of a range depend only on the rows in it.
pub proof fn lemma_hits_same_rows(r1: Seq<LogEntryView>, r2: Seq<LogEntryView>, q: Seq<char>, from: int, to: int)
    requires
        forall|i: int| from <= i < to ==> r1[i] == r2[i],
    ensures
        hits_in(r1, q, from, to) == hits_in(r2, q, from, to),
    decreases to - from,
{
    if to > from {
        lemma_hits_same_rows(r1, r2, q, from, to - 1);
    }
}

proof fn lemma_drop_front_push(m: Seq<usize>, x: usize, n: usize)
    ensures
        drop_front_matches(m.push(x), n) == if x < n {
            drop_front_matches(m, n)
        } else {
            drop_front_matches(m, n).push((x - n) as usize)
        },
{
    assert(m.push(x).drop_last() =~= m);
}

proof fn lemma_drop_front_all_below(m: Seq<usize>, n: usize)
    requires
        forall|j: int| 0 <= j < m.len() ==> #[trigger] m[j] < n,
    ensures
        drop_front_matches(m, n) == Seq::<usize>::empty(),
    decreases m.len(),
{
    if m.len() > 0 {
        lemma_drop_front_all_below(m.drop_last(), n);
    }
}

/// Searching the rows left after the oldest `k` are dropped finds the old
/// hits past them, moved down by `k`.
pub proof fn lemma_hits_after_drop(rows: Seq<LogEntryView>, q: Seq<char>, k: usize, m: int)
    requires
        0 <= m,
        k + m <= rows.len(),
        k + m <= usize::MAX,
    ensures
        hits_in(rows.skip(k as int), q, 0, m) == drop_front_matches(hits_in(rows, q, 0, k + m), k),
    decreases m,
{
    if m == 0 {
        lemma_hits_in_range(rows, q, 0, k as int);
        lemma_drop_front_all_below(hits_in(rows, q, 0, k as int), k);
    } else {
        lemma_hits_after_drop(rows, q, k, m - 1);
        lemma_drop_front_push(hits_in(rows, q, 0, k + m - 1), (k + m - 1) as usize, k);
        assert(rows.skip(k as int)[m - 1] == rows[k + m - 1]);
    }
}

/// The match list kept up to date while the view streams equals a fresh
/// search: after the oldest `dropped` rows leave and `appended` rows arrive,
/// shifting the old matches and searching only the new rows gives the
/// matches of searching the whole new view.
pub proof fn law_find_follows_stream(
    old_rows: Seq<LogEntryView>,
    added: Seq<LogEntryView>,
    q: Seq<char>,
    dropped: usize,
)
    requires
        dropped <= old_rows.len() <= usize::MAX,
    ensures
        ({
            let new_rows = old_rows.skip(dropped as int) + added;
            let n = new_rows.len() as int;
            drop_front_matches(hits_in(old_rows, q, 0, old_rows.len() as int), dropped) + hits_in(
                new_rows,
                q,
                n - added.len(),
                n,
            ) == hits_in(new_rows, q, 0, n)
        }),
{
    let kept = old_rows.skip(dropped as int);
    let new_rows = kept + added;
    let n = new_rows.len() as int;
    let m = kept.len() as int;
    lemma_hits_split(new_rows, q, 0, m, n);
    lemma_hits_same_rows(new_rows, kept, q, 0, m);
    lemma_hits_after_drop(old_rows, q, dropped, m);
}

/// The query of `text`: trimmed, then lowercased.
pub(crate) fn query_of(text: &str) -> (r: String)
    ensures
        r@ == search_query(text@),
{
    let v = chars_of(text);
    let (a, b) = trim_bounds(&v);
    let t = string_from_chars(&v, a, b);
    to_lowercase(t.as_str())
}

/// Append to `out` the filtered rows in `[from, to)` that contain `q`.
pub(crate) fn collect_hits(engine: &Engine, q: &str, from: usize, to: usize, out: &mut Vec<usize>)
    requires
        engine.wf(),
        from <= to <= filtered_view(engine@).len(),
    ensures
        final(out)@ == old(out)@ + hits_in(filtered_rows(engine@), q@, from as int, to as int),
{
    let ghost rows = filtered_rows(engine@);
    let mut i = from;
    while i < to
        invariant
            engine.wf(),
            from <= i <= to <= filtered_view(engine@).len(),
            rows == filtered_rows(engine@),
            out@ == old(out)@ + hits_in(rows, q@, from as int, i as int),
        decreases to - i,
    {
        match engine.filtered_get(i) {
            Some(entry) => {
                assert(entry@ == rows[i as int]);
                let line = format_log_line(&entry);
                let lower = to_lowercase(line.as_str());
                if str_contains(lower.as_str(), q) {
                    out.push(i);
                }
            },
            None => {},
        }
        assert(hits_in(rows, q@, from as int, i + 1) == if row_hits(rows[i as int], q@) {
            hits_in(rows, q@, from as int, i as int).push(i)
        } else {
            hits_in(rows, q@, from as int, i as int)
        });
        i = i + 1;
    }
}

/// Drop matches below `n` and move the rest down by `n`.
pub(crate) fn drop_front(matches: &mut Vec<usize>, n: usize)
    ensures
        final(matches)@ == drop_front_matches(old(matches)@, n),
{
    let mut old_m: Vec<usize> = Vec::new();
    std::mem::swap(&mut old_m, matches);
    let mut k: usize = 0;
    while k < old_m.len()
        invariant
            k <= old_m@.len(),
            matches@ == drop_front_matches(old_m@.take(k as int), n),
        decreases old_m@.len() - k,
    {
        assert(old_m@.take(k + 1).drop_last() =~= old_m@.take(k as int));
        let idx = old_m[k];
        if idx >= n {
            matches.push(idx - n);
        }
        k = k + 1;
    }
    assert(old_m@.take(old_m@.len() as int) =~= old_m@);
}

/// `"{current + 1}/{len}"`.
pub(crate) fn position_text(current: usize, len: usize) -> (r: String)
    requires
        current < usize::MAX,
    ensures
        r@ == decimal((current + 1) as nat) + seq!['/'] + decimal(len as nat),
{
    let mut s = usize_to_string(current + 1);
    push_char(&mut s, '/');
    push_str_chars(&mut s, usize_to_string(len).as_str());
    s
}

#[derive(Debug)]
pub struct FindState {
    pub open: bool,
    pub input: TextInput,
    pub matches: Vec<usize>,
    pub current: usize,
    pub scroll_to_match: Option<usize>,
}

impl Default for FindState {
    fn default() -> (r: FindState)
        ensures
            !r.open,
            r.input.text@ == Seq::<char>::empty(),
            r.input.cursor == 0,
            r.matches@ == Seq::<usize>::empty(),
            r.current == 0,
            r.scroll_to_match is None,
    {
        FindState { open: false, input: TextInput::default(), matches: Vec::new(), current: 0, scroll_to_match: None }
    }
}

impl FindState {
    pub fn open_bar(&mut self)
        ensures
            final(self).open,
            final(self).input.text == old(self).input.text,
            final(self).input.cursor == old(self).input.text@.len(),
            final(self).matches == old(self).matches,
            final(self).current == old(self).current,
            final(self).scroll_to_match == old(self).scroll_to_match,
    {
        self.open = true;
        self.input.set_cursor_end();
    }

    pub fn close(&mut self)
        ensures
            !final(self).open,
            final(self).input.text@ == Seq::<char>::empty(),
            final(self).input.cursor == 0,
            final(self).matches@ == Seq::<usize>::empty(),
            final(self).current == 0,
            final(self).scroll_to_match is None,
    {
        self.open = false;
        self.input = TextInput::default();
        self.matches = Vec::new();
        self.current = 0;
        self.scroll_to_match = None;
    }

    pub fn is_active_with_matches(&self) -> (r: bool)
        ensures
            r == (self.open && spec_trim(self.input.text@).len() > 0 && self.matches@.len() > 0),
    {
        if !self.open {
            return false;
        }
        let v = chars_of(self.input.text.as_str());
        let (a, b) = trim_bounds(&v);
        a < b && self.matches.len() > 0
    }

    /// Search the whole filtered view again.
    pub fn recompute(&mut self, engine: &Engine)
        requires
            engine.wf(),
        ensures
            ({
                let q = search_query(old(self).input.text@);
                &&& q.len() == 0 ==> final(self).matches@ == Seq::<usize>::empty() && final(self).current == 0
                &&& q.len() > 0 ==> final(self).matches@ == hits_in(filtered_rows(engine@), q, 0, filtered_view(engine@).len() as int)
                    && final(self).current == clamp_current(old(self).current, final(self).matches@.len() as int)
            }),
            final(self).open == old(self).open,
            final(self).input == old(self).input,
            final(self).scroll_to_match == old(self).scroll_to_match,
    {
        self.matches = Vec::new();
        let q = query_of(self.input.text.as_str());
        if q.as_str().is_empty() {
            self.current = 0;
            return;
        }
        let n = engine.filtered_len();
        collect_hits(engine, q.as_str(), 0, n, &mut self.matches);
        assert(self.matches@ =~= hits_in(filtered_rows(engine@), q@, 0, n as int));
        if self.matches.len() == 0 {
            self.current = 0;
        } else if self.current >= self.matches.len() {
            self.current = self.matches.len() - 1;
        }
    }

    /// Search only the newest `appended` filtered rows (after a live batch).
    pub fn append_search(&mut self, engine: &Engine, appended: usize)
        requires
            engine.wf(),
        ensures
            ({
                let q = search_query(old(self).input.text@);
                let n = filtered_view(engine@).len() as int;
                let start = if appended < n { n - appended } else { 0 };
                &&& (q.len() == 0 || appended == 0) ==> final(self).matches == old(self).matches
                &&& (q.len() > 0 && appended > 0) ==> final(self).matches@ == old(self).matches@ + hits_in(filtered_rows(engine@), q, start, n)
            }),
            final(self).current == old(self).current,
            final(self).open == old(self).open,
            final(self).input == old(self).input,
            final(self).scroll_to_match == old(self).scroll_to_match,
    {
        let q = query_of(self.input.text.as_str());
        if q.as_str().is_empty() || appended == 0 {
            return;
        }
        let n = engine.filtered_len();
        let start = n.saturating_sub(appended);
        collect_hits(engine, q.as_str(), start, n, &mut self.matches);
    }

    /// After the oldest `n` filtered rows were dropped, shift match indices.
    pub fn on_dropped_front(&mut self, n: usize)
        ensures
            n == 0 ==> final(self).matches == old(self).matches && final(self).current == old(self).current,
            n > 0 ==> final(self).matches@ == drop_front_matches(old(self).matches@, n)
                && final(self).current == clamp_current(old(self).current, final(self).matches@.len() as int),
            final(self).open == old(self).open,
            final(self).input == old(self).input,
            final(self).scroll_to_match == old(self).scroll_to_match,
    {
        if n == 0 {
            return;
        }
        drop_front(&mut self.matches, n);
        if self.matches.len() == 0 {
            self.current = 0;
        } else if self.current >= self.matches.len() {
            self.current = self.matches.len() - 1;
        }
    }

    /// Step to the next match, wrapping around, and ask to scroll to it.
    pub fn next(&mut self)
        requires
            old(self).matches@.len() > 0 ==> old(self).current < usize::MAX,
        ensures
            old(self).matches@.len() == 0 ==> final(self).current == old(self).current
                && final(self).scroll_to_match == old(self).scroll_to_match,
            old(self).matches@.len() > 0 ==> {
                &&& final(self).current == (old(self).current + 1) % (old(self).matches@.len() as int)
                &&& final(self).scroll_to_match == Some(old(self).matches@[final(self).current as int])
            },
            final(self).matches == old(self).matches,
            final(self).open == old(self).open,
            final(self).input == old(self).input,
    {
        if self.matches.len() == 0 {
            return;
        }
        self.current = (self.current + 1) % self.matches.len();
        self.scroll_to_match = Some(self.matches[self.current]);
    }

    /// Step to the previous match, wrapping around, and ask to scroll to it.
    pub fn prev(&mut self)
        requires
            old(self).matches@.len() > 0 ==> old(self).current <= old(self).matches@.len(),
        ensures
            old(self).matches@.len() == 0 ==> final(self).current == old(self).current
                && final(self).scroll_to_match == old(self).scroll_to_match,
            old(self).matches@.len() > 0 ==> {
                &&& final(self).current == if old(self).current == 0 {
                    old(self).matches@.len() - 1
                } else {
                    old(self).current - 1
                }
                &&& final(self).scroll_to_match == Some(old(self).matches@[final(self).current as int])
            },
            final(self).matches == old(self).matches,
            final(self).open == old(self).open,
            final(self).input == old(self).input,
    {
        if self.matches.len() == 0 {
            return;
        }
        if self.current == 0 {
            self.current = self.matches.len() - 1;
        } else {
            self.current = self.current - 1;
        }
        self.scroll_to_match = Some(self.matches[self.current]);
    }

    pub fn current_row(&self) -> (r: Option<usize>)
        ensures
            r == if self.current < self.matches@.len() {
                Some(self.matches@[self.current as int])
            } else {
                None::<usize>
            },
    {
        if self.current < self.matches.len() {
            Some(self.matches[self.current])
        } else {
            None
        }
    }

    /// `""` without a query, `"0 matches"` without matches, else `"{n}/{total}"`.
    pub fn counter_text(&self) -> (r: String)
        requires
            self.matches@.len() > 0 ==> self.current < usize::MAX,
        ensures
            spec_trim(self.input.text@).len() == 0 ==> r@ == Seq::<char>::empty(),
            spec_trim(self.input.text@).len() > 0 && self.matches@.len() == 0 ==> r@ == "0 matches"@,
            spec_trim(self.input.text@).len() > 0 && self.matches@.len() > 0 ==> r@ == decimal(
                (self.current + 1) as nat,
            ) + seq!['/'] + decimal(self.matches@.len() as nat),
    {
        let v = chars_of(self.input.text.as_str());
        let (a, b) = trim_bounds(&v);
        if a == b {
            String::new()
        } else if self.matches.len() == 0 {
            let mut s = String::new();
            push_str_chars(&mut s, "0 matches");
            s
        } else {
            position_text(self.current, self.matches.len())
        }
    }
}

/// The rows found among the first `n` are exactly those whose whole display
/// line (timestamp, pid, tid, level, tag and message), lowercased, contains
/// the query.
pub proof fn law_find_hits_are_the_lines_containing_the_query(rows: Seq<LogEntryView>, q: Seq<char>, n: int)
    requires
        0 <= n <= rows.len(),
        n <= usize::MAX,
    ensures
        forall|j: int|
            0 <= j < n ==> (hits_in(rows, q, 0, n).contains(j as usize) <==> seq_contains(
                spec_to_lowercase(#[trigger] spec_format_log_line(rows[j])),
                q,
            )),
    decreases n,
{
    if n > 0 {
        law_find_hits_are_the_lines_containing_the_query(rows, q, n - 1);
        lemma_hits_in_range(rows, q, 0, n - 1);
        let r = hits_in(rows, q, 0, n - 1);
        let full = hits_in(rows, q, 0, n);
        assert forall|j: int| 0 <= j < n implies (full.contains(j as usize) <==> seq_contains(
            spec_to_lowercase(#[trigger] spec_format_log_line(rows[j])),
            q,
        )) by {
            if j < n - 1 {
                if full.contains(j as usize) {
                    let k = choose|k: int| 0 <= k < full.len() && full[k] == j as usize;
                    if k < r.len() {
                        assert(r[k] == j as usize);
                    }
                }
                if r.contains(j as usize) {
                    let k = choose|k: int| 0 <= k < r.len() && r[k] == j as usize;
                    assert(full[k] == j as usize);
                }
            } else {
                if row_hits(rows[j], q) {
                    assert(full[r.len() as int] == j as usize);
                } else if full.contains(j as usize) {
                    let k = choose|k: int| 0 <= k < full.len() && full[k] == j as usize;
                    assert(r[k] < n - 1);
                }
            }
        }
    }
}

/// A row whose tag contains the query is found: the search covers the tag
/// (and every other part of the displayed line), not the message alone.
/// Stated for lines whose lowercase form is their ASCII lowercase, as
/// `str::to_lowercase` gives for ASCII text.
pub proof fn law_find_searches_the_tag(rows: Seq<LogEntryView>, q: Seq<char>, n: int, j: int)
    requires
        0 <= j < n <= rows.len(),
        n <= usize::MAX,
        spec_to_lowercase(spec_format_log_line(rows[j])) == ascii_lower_seq(spec_format_log_line(rows[j])),
        seq_contains(ascii_lower_seq(rows[j].tag), q),
    ensures
        hits_in(rows, q, 0, n).contains(j as usize),
{
    law_find_hits_are_the_lines_containing_the_query(rows, q, n);
    let e = rows[j];
    let line = spec_format_log_line(e);
    let p = spec_meta_prefix(e) + seq![level_letter(e.level), ' '];
    let i = choose|i: int| occurs_at(ascii_lower_seq(e.tag), q, i);
    assert(line =~= p + e.tag + (seq![':', ' '] + e.message));
    assert(ascii_lower_seq(line).subrange(p.len() + i, p.len() + i + q.len()) =~= ascii_lower_seq(
        e.tag,
    ).subrange(i, i + q.len()));
    assert(occurs_at(ascii_lower_seq(line), q, p.len() + i));
}

} // verus!
