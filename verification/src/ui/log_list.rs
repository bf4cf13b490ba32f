//! The compact one-line rendering of an entry used by the scrolling list.

use vstd::prelude::*;
use crate::parser::{LogEntry, LogEntryView, LogLevel};
use crate::ui::theme::Color;
use crate::text::{
    chars_of, decimal, decimal_chars, find_chars, first_occ, lemma_first_occ, push_char, push_chars,
    push_str_chars, spec_to_lowercase, spec_trim, string_from_chars, to_lowercase, trim_str,
};
use crate::ui::format::level_letter;

verus! {

/// `"{timestamp} {pid} {tid} {letter} {tag}: {message}"` (no padding).
pub open spec fn spec_compact_line(e: LogEntryView) -> Seq<char> {
    e.timestamp + seq![' '] + decimal(e.pid as nat) + seq![' '] + decimal(e.tid as nat) + seq![
        ' ',
        level_letter(e.level),
        ' ',
    ] + e.tag + seq![':', ' '] + e.message
}

pub fn format_log_line(entry: &LogEntry) -> (r: String)
    ensures
        r@ == spec_compact_line(entry@),
{
    let mut out = String::new();
    push_str_chars(&mut out, entry.timestamp.as_str());
    push_char(&mut out, ' ');
    let p = decimal_chars(entry.pid as usize);
    push_chars(&mut out, &p, 0, p.len());
    push_char(&mut out, ' ');
    let t = decimal_chars(entry.tid as usize);
    push_chars(&mut out, &t, 0, t.len());
    push_char(&mut out, ' ');
    push_char(&mut out, entry.level.letter());
    push_char(&mut out, ' ');
    push_str_chars(&mut out, entry.tag.as_str());
    push_char(&mut out, ':');
    push_char(&mut out, ' ');
    push_str_chars(&mut out, entry.message.as_str());
    assert(p@.subrange(0, p@.len() as int) =~= p@);
    assert(t@.subrange(0, t@.len() as int) =~= t@);
    assert(out@ =~= spec_compact_line(entry@));
    out
}

/// How the scrolling list was left after a frame.
pub struct LogListResponse {
    pub at_bottom: bool,
    pub scrolled_away: bool,
}

/// Row color of a level in the scrolling list.
pub fn level_color(level: LogLevel) -> (r: Color)
    ensures
        r == match level {
            LogLevel::Verbose => Color::Rgb(150, 150, 150),
            LogLevel::Debug => Color::Rgb(100, 140, 200),
            LogLevel::Info => Color::Rgb(40, 40, 40),
            LogLevel::Warn => Color::Rgb(180, 120, 0),
            LogLevel::Error | LogLevel::Fatal => Color::Rgb(200, 40, 40),
        },
{
    match level {
        LogLevel::Verbose => Color::Rgb(150, 150, 150),
        LogLevel::Debug => Color::Rgb(100, 140, 200),
        LogLevel::Info => Color::Rgb(40, 40, 40),
        LogLevel::Warn => Color::Rgb(180, 120, 0),
        LogLevel::Error | LogLevel::Fatal => Color::Rgb(200, 40, 40),
    }
}

/// The pieces of a row from character `i` on, each marked as a find hit or
/// not: every leftmost occurrence of `q` in the lowercased row `lower` that
/// fits in the row is a hit, the text between hits is plain.
pub open spec fn segments_from(chars: Seq<char>, lower: Seq<char>, q: Seq<char>, i: int) -> Seq<(Seq<char>, bool)>
    decreases chars.len() - i,
{
    if i < 0 || i >= chars.len() {
        Seq::empty()
    } else if q.len() == 0 {
        seq![(chars.subrange(i, chars.len() as int), false)]
    } else {
        match first_occ(lower, q, i) {
            Some(k) => if k + q.len() <= chars.len() {
                proof {
                    lemma_first_occ(lower, q, i);
                }
                (if k > i {
                    seq![(chars.subrange(i, k), false)]
                } else {
                    Seq::empty()
                }) + seq![(chars.subrange(k, k + q.len()), true)] + segments_from(chars, lower, q, k + q.len())
            } else {
                seq![(chars.subrange(i, chars.len() as int), false)]
            },
            None => seq![(chars.subrange(i, chars.len() as int), false)],
        }
    }
}

pub open spec fn segment_views(v: Seq<(String, bool)>) -> Seq<(Seq<char>, bool)> {
    v.map_values(|p: (String, bool)| (p.0@, p.1))
}

/// A row split for drawing with find highlights: the whole row as one plain
/// piece when the trimmed query is empty, else plain and hit pieces with the
/// lowercased query matched against the lowercased row.
pub fn highlight_segments(text: &str, query: &str) -> (r: Vec<(String, bool)>)
    ensures
        spec_trim(query@).len() == 0 ==> segment_views(r@) == seq![(text@, false)],
        spec_trim(query@).len() > 0 ==> segment_views(r@) == segments_from(
            text@,
            spec_to_lowercase(text@),
            spec_to_lowercase(spec_trim(query@)),
            0,
        ),
{
    let trimmed = trim_str(query);
    let mut out: Vec<(String, bool)> = Vec::new();
    if trimmed.as_str().is_empty() {
        out.push((text.to_owned(), false));
        assert(segment_views(out@) =~= seq![(text@, false)]);
        return out;
    }
    let chars = chars_of(text);
    let lower = chars_of(to_lowercase(text).as_str());
    let q = chars_of(to_lowercase(trimmed.as_str()).as_str());
    let n = chars.len();
    let ghost whole = segments_from(chars@, lower@, q@, 0);
    let mut i: usize = 0;
    while i < n
        invariant
            i <= n == chars@.len(),
            segment_views(out@) + segments_from(chars@, lower@, q@, i as int) == whole,
        decreases n - i,
    {
        let ghost before = out@;
        let found = if q.len() == 0 {
            None
        } else {
            find_chars(&lower, &q, i)
        };
        match found {
            Some(k) if k <= n && q.len() <= n - k => {
                proof {
                    lemma_first_occ(lower@, q@, i as int);
                }
                if k > i {
                    out.push((string_from_chars(&chars, i, k), false));
                }
                out.push((string_from_chars(&chars, k, k + q.len()), true));
                proof {
                    let tail = segments_from(chars@, lower@, q@, (k + q@.len()) as int);
                    assert(segment_views(out@) + tail =~= segment_views(before) + segments_from(
                        chars@,
                        lower@,
                        q@,
                        i as int,
                    ));
                }
                i = k + q.len();
            },
            _ => {
                out.push((string_from_chars(&chars, i, n), false));
                assert(segment_views(out@) =~= segment_views(before) + segments_from(
                    chars@,
                    lower@,
                    q@,
                    i as int,
                ));
                i = n;
            },
        }
    }
    assert(segment_views(out@) =~= whole);
    out
}

} // verus!
