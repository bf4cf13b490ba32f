//! The threadtime-style display line of an entry and its column layout.

use vstd::prelude::*;
use crate::parser::{colon_space_from, spec_level_display, LogEntry, LogEntryView, LogLevel};
use crate::text::{chars_of, decimal, pad_left, push_char, push_padded_u32, push_str_chars};

verus! {

/// The letter shown for a level.
pub open spec fn level_letter(level: LogLevel) -> char {
    spec_level_display(level)[0]
}

/// Timestamp, pid and tid columns, each followed by a space.
pub open spec fn spec_meta_prefix(e: LogEntryView) -> Seq<char> {
    e.timestamp + seq![' '] + pad_left(decimal(e.pid as nat), 5) + seq![' '] + pad_left(
        decimal(e.tid as nat),
        5,
    ) + seq![' ']
}

/// Everything before the message: meta columns, level letter, tag and `": "`.
pub open spec fn spec_message_prefix(e: LogEntryView) -> Seq<char> {
    spec_meta_prefix(e) + seq![level_letter(e.level), ' '] + e.tag + seq![':', ' ']
}

/// `"{timestamp} {pid:5} {tid:5} {letter} {tag}: {message}"`.
pub open spec fn spec_format_log_line(e: LogEntryView) -> Seq<char> {
    spec_message_prefix(e) + e.message
}

fn push_meta(out: &mut String, entry: &LogEntry)
    ensures
        final(out)@ == old(out)@ + spec_meta_prefix(entry@),
{
    push_str_chars(out, entry.timestamp.as_str());
    push_char(out, ' ');
    push_padded_u32(out, entry.pid, 5);
    push_char(out, ' ');
    push_padded_u32(out, entry.tid, 5);
    push_char(out, ' ');
    assert(final(out)@ =~= old(out)@ + spec_meta_prefix(entry@));
}

fn message_prefix(entry: &LogEntry) -> (r: String)
    ensures
        r@ == spec_message_prefix(entry@),
{
    let mut out = String::new();
    push_meta(&mut out, entry);
    push_char(&mut out, entry.level.letter());
    push_char(&mut out, ' ');
    push_str_chars(&mut out, entry.tag.as_str());
    push_char(&mut out, ':');
    push_char(&mut out, ' ');
    assert(out@ =~= spec_message_prefix(entry@));
    out
}

pub fn format_log_line(entry: &LogEntry) -> (r: String)
    ensures
        r@ == spec_format_log_line(entry@),
{
    let mut out = message_prefix(entry);
    push_str_chars(&mut out, entry.message.as_str());
    out
}

/// `(level_col, message_col)` in the formatted line.
/// Meta is `[0, level_col)`, level+tag is `[level_col, message_col)`.
pub fn log_field_cols(entry: &LogEntry) -> (r: (usize, usize))
    ensures
        r.0 == spec_meta_prefix(entry@).len(),
        r.1 == spec_message_prefix(entry@).len(),
{
    let mut meta = String::new();
    push_meta(&mut meta, entry);
    let a = crate::text::chars_of(meta.as_str()).len();
    (a, message_column_indent(entry))
}

/// Character index where the message field begins (after `{tag}: `).
pub fn message_column_indent(entry: &LogEntry) -> (r: usize)
    ensures
        r == spec_message_prefix(entry@).len(),
{
    let p = message_prefix(entry);
    crate::text::chars_of(p.as_str()).len()
}

/// Message-column indent derived from a formatted line: the character
/// column just past the first `": "`, or 0 when there is none.
pub open spec fn spec_message_column_indent_line(line: Seq<char>) -> int {
    match colon_space_from(line, 0) {
        Some(i) => i + 2,
        None => 0,
    }
}

pub fn message_column_indent_line(line: &str) -> (r: usize)
    ensures
        r == spec_message_column_indent_line(line@),
{
    let v = chars_of(line);
    let mut i: usize = 0;
    while v.len() > 1 && i < v.len() - 1
        invariant
            v@ == line@,
            colon_space_from(v@, i as int) == colon_space_from(v@, 0),
        decreases v@.len() - i,
    {
        if v[i] == ':' && v[i + 1] == ' ' {
            return i + 2;
        }
        i = i + 1;
    }
    0
}

/// The message column read off a formatted line is the one computed from
/// the entry, when neither the timestamp (with the space after it) nor the
/// tag holds `": "`: the first `": "` of the line is the one after the tag.
pub proof fn law_message_column_from_line(e: LogEntryView)
    requires
        colon_space_from(e.timestamp.push(' '), 0) is None,
        colon_space_from(e.tag, 0) is None,
    ensures
        spec_message_column_indent_line(spec_format_log_line(e)) == spec_message_prefix(e).len(),
{
    let line = spec_format_log_line(e);
    let p = spec_message_prefix(e);
    let ts = e.timestamp;
    let t = ts.len() as int;
    let k = p.len() - 2;
    assert(line.len() >= p.len());
    assert forall|i: int| 0 <= i < k implies !#[trigger] colon_space_at(line, i) by {
        if i < t {
            assert(line[i] == ts.push(' ')[i]);
            assert(line[i + 1] == ts.push(' ')[i + 1]);
            lemma_no_colon_space_at(ts.push(' '), 0, i);
        } else if i < k - e.tag.len() {
            assert(line[i] == p[i]);
            lemma_meta_has_no_colon(e, i);
        } else {
            let j = i - (k - e.tag.len());
            assert(line[i] == e.tag[j]);
            if j + 1 < e.tag.len() {
                assert(line[i + 1] == e.tag[j + 1]);
                lemma_no_colon_space_at(e.tag, 0, j);
            } else {
                assert(line[i + 1] == ':');
            }
        }
    }
    assert(line[k] == ':' && line[k + 1] == ' ');
    lemma_first_colon_space(line, 0, k);
}

/// No `": "` starts at `i` when none is found from `from <= i`.
proof fn lemma_no_colon_space_at(s: Seq<char>, from: int, i: int)
    requires
        0 <= from <= i,
        i + 1 < s.len(),
        colon_space_from(s, from) is None,
    ensures
        !(s[i] == ':' && s[i + 1] == ' '),
    decreases i - from,
{
    if from < i {
        lemma_no_colon_space_at(s, from + 1, i);
    }
}

/// `": "` starts at `j`.
spec fn colon_space_at(s: Seq<char>, j: int) -> bool {
    s[j] == ':' && s[j + 1] == ' '
}

/// From `i`, the first `": "` is at `k` when none starts before it.
proof fn lemma_first_colon_space(s: Seq<char>, i: int, k: int)
    requires
        0 <= i <= k,
        k + 1 < s.len(),
        s[k] == ':' && s[k + 1] == ' ',
        forall|j: int| i <= j < k ==> !#[trigger] colon_space_at(s, j),
    ensures
        colon_space_from(s, i) == Some(k),
    decreases k - i,
{
    if i < k {
        assert(!colon_space_at(s, i));
        lemma_first_colon_space(s, i + 1, k);
    }
}

/// The pid, tid and level columns hold digits, spaces and a level letter.
proof fn lemma_meta_has_no_colon(e: LogEntryView, i: int)
    requires
        e.timestamp.len() <= i < spec_message_prefix(e).len() - 2 - e.tag.len(),
    ensures
        spec_message_prefix(e)[i] != ':',
{
    crate::text::lemma_decimal_digits(e.pid as nat);
    crate::text::lemma_decimal_digits(e.tid as nat);
    let dp = decimal(e.pid as nat);
    let dt = decimal(e.tid as nat);
    let p1 = pad_left(dp, 5);
    let p2 = pad_left(dt, 5);
    let mid = seq![' '] + p1 + seq![' '] + p2 + seq![' '] + seq![level_letter(e.level), ' '];
    let p = spec_message_prefix(e);
    assert(p =~= e.timestamp + mid + e.tag + seq![':', ' ']);
    let j = i - e.timestamp.len();
    assert(p[i] == mid[j]);
    assert(forall|q: int| 0 <= q < p1.len() ==> p1[q] == ' ' || crate::text::is_digit(#[trigger] p1[q])) by {
        assert forall|q: int| 0 <= q < p1.len() implies p1[q] == ' ' || crate::text::is_digit(#[trigger] p1[q]) by {
            if dp.len() < 5 && q < 5 - dp.len() {
            } else {
                assert(crate::text::is_digit(dp[q - (p1.len() - dp.len())]));
            }
        }
    }
    assert(forall|q: int| 0 <= q < p2.len() ==> p2[q] == ' ' || crate::text::is_digit(#[trigger] p2[q])) by {
        assert forall|q: int| 0 <= q < p2.len() implies p2[q] == ' ' || crate::text::is_digit(#[trigger] p2[q]) by {
            if dt.len() < 5 && q < 5 - dt.len() {
            } else {
                assert(crate::text::is_digit(dt[q - (p2.len() - dt.len())]));
            }
        }
    }
    reveal_strlit("Verbose");
    reveal_strlit("Debug");
    reveal_strlit("Info");
    reveal_strlit("Warn");
    reveal_strlit("Error");
    reveal_strlit("Fatal");
    if j == 0 {
    } else if j < 1 + p1.len() {
        assert(mid[j] == p1[j - 1]);
    } else if j == 1 + p1.len() {
    } else if j < 2 + p1.len() + p2.len() {
        assert(mid[j] == p2[j - 2 - p1.len()]);
    } else {
    }
}

/// The message occupies the formatted line from the message column on, and
/// the level letter sits at the level column.
pub proof fn law_columns_locate_fields(e: LogEntryView)
    ensures
        spec_format_log_line(e).skip(spec_message_prefix(e).len() as int) == e.message,
        spec_format_log_line(e)[spec_meta_prefix(e).len() as int] == level_letter(e.level),
        spec_meta_prefix(e).len() < spec_message_prefix(e).len(),
{
    assert(spec_format_log_line(e).skip(spec_message_prefix(e).len() as int) =~= e.message);
}

} // verus!
