//! Parsing of `adb logcat -v threadtime` lines.

use vstd::prelude::*;
use vstd::utf8::{decode_utf8, encode_utf8, is_char_boundary};
use crate::text::{
    chars_of, is_ws, lemma_word_end, lemma_ws_end, lemma_ws_end_at, parse_decimal_range, skip_word,
    skip_ws, spec_parse_decimal, string_from_chars, word_end, ws_end,
};

verus! {

/// One entry of `adb logcat -v threadtime` output.
#[derive(Debug, Clone)]
pub struct LogEntry {
    pub timestamp: String,
    pub pid: u32,
    pub tid: u32,
    pub level: LogLevel,
    pub tag: String,
    pub message: String,
}

/// A log entry with its text fields taken as character sequences.
pub struct LogEntryView {
    pub timestamp: Seq<char>,
    pub pid: u32,
    pub tid: u32,
    pub level: LogLevel,
    pub tag: Seq<char>,
    pub message: Seq<char>,
}

impl View for LogEntry {
    type V = LogEntryView;

    open spec fn view(&self) -> LogEntryView {
        LogEntryView {
            timestamp: self.timestamp@,
            pid: self.pid,
            tid: self.tid,
            level: self.level,
            tag: self.tag@,
            message: self.message@,
        }
    }
}

impl LogEntry {
    /// A copy of the entry, field by field.
    pub fn duplicate(&self) -> (r: LogEntry)
        ensures
            r@ == self@,
    {
        LogEntry {
            timestamp: self.timestamp.clone(),
            pid: self.pid,
            tid: self.tid,
            level: self.level,
            tag: self.tag.clone(),
            message: self.message.clone(),
        }
    }
}

/// Android log priority, ordered from least to most severe.
#[derive(Debug, Clone, Copy, PartialEq, Eq, Hash, Structural)]
pub enum LogLevel {
    Verbose,
    Debug,
    Info,
    Warn,
    Error,
    Fatal,
}

/// Severity rank of a level: `Verbose` is 0 and `Fatal` is 5.
pub open spec fn level_rank(level: LogLevel) -> nat {
    match level {
        LogLevel::Verbose => 0,
        LogLevel::Debug => 1,
        LogLevel::Info => 2,
        LogLevel::Warn => 3,
        LogLevel::Error => 4,
        LogLevel::Fatal => 5,
    }
}

/// The level written as `c` in threadtime output, if any.
pub open spec fn spec_level_from_char(c: char) -> Option<LogLevel> {
    if c == 'V' {
        Some(LogLevel::Verbose)
    } else if c == 'D' {
        Some(LogLevel::Debug)
    } else if c == 'I' {
        Some(LogLevel::Info)
    } else if c == 'W' {
        Some(LogLevel::Warn)
    } else if c == 'E' {
        Some(LogLevel::Error)
    } else if c == 'F' {
        Some(LogLevel::Fatal)
    } else {
        None
    }
}

impl LogLevel {
    pub fn from_char(c: char) -> (r: Option<LogLevel>)
        ensures
            r == spec_level_from_char(c),
    {
        match c {
            'V' => Some(LogLevel::Verbose),
            'D' => Some(LogLevel::Debug),
            'I' => Some(LogLevel::Info),
            'W' => Some(LogLevel::Warn),
            'E' => Some(LogLevel::Error),
            'F' => Some(LogLevel::Fatal),
            _ => None,
        }
    }

    /// Rank of the level, so that levels can be compared by severity.
    pub fn rank(&self) -> (r: u8)
        ensures
            r as nat == level_rank(*self),
    {
        match self {
            LogLevel::Verbose => 0,
            LogLevel::Debug => 1,
            LogLevel::Info => 2,
            LogLevel::Warn => 3,
            LogLevel::Error => 4,
            LogLevel::Fatal => 5,
        }
    }
}


/// The word shown for a level in the desktop view and in exports.
pub open spec fn spec_level_display(level: LogLevel) -> Seq<char> {
    match level {
        LogLevel::Verbose => "Verbose"@,
        LogLevel::Debug => "Debug"@,
        LogLevel::Info => "Info"@,
        LogLevel::Warn => "Warn"@,
        LogLevel::Error => "Error"@,
        LogLevel::Fatal => "Fatal"@,
    }
}

impl LogLevel {
    pub fn to_display(&self) -> (r: &'static str)
        ensures
            r@ == spec_level_display(*self),
    {
        match self {
            LogLevel::Verbose => "Verbose",
            LogLevel::Debug => "Debug",
            LogLevel::Info => "Info",
            LogLevel::Warn => "Warn",
            LogLevel::Error => "Error",
            LogLevel::Fatal => "Fatal",
        }
    }

    /// First letter of the level's display word (`V`, `D`, `I`, `W`, `E`, `F`).
    pub fn letter(&self) -> (c: char)
        ensures
            c == spec_level_display(*self)[0],
            spec_level_from_char(c) == Some(*self),
    {
        proof {
            reveal_strlit("Verbose");
            reveal_strlit("Debug");
            reveal_strlit("Info");
            reveal_strlit("Warn");
            reveal_strlit("Error");
            reveal_strlit("Fatal");
        }
        match self {
            LogLevel::Verbose => 'V',
            LogLevel::Debug => 'D',
            LogLevel::Info => 'I',
            LogLevel::Warn => 'W',
            LogLevel::Error => 'E',
            LogLevel::Fatal => 'F',
        }
    }
}

/* ---------- unsigned decimal numbers (`str::parse::<u32>`) ---------- */

/// `u32::from_str`: an optional `+` followed by at least one digit, with a
/// value that fits in 32 bits.
pub open spec fn spec_parse_u32(s: Seq<char>) -> Option<u32> {
    match spec_parse_decimal(s, u32::MAX as nat) {
        Some(n) => Some(n as u32),
        None => None,
    }
}

/// `v[from..to]` read as a `u32`, as `str::parse::<u32>` reads it.
pub fn parse_u32_range(v: &Vec<char>, from: usize, to: usize) -> (r: Option<u32>)
    requires
        from <= to <= v@.len(),
    ensures
        r == spec_parse_u32(v@.subrange(from as int, to as int)),
{
    match parse_decimal_range(v, from, to, 4294967295usize) {
        Some(n) => Some(n as u32),
        None => None,
    }
}

/* ---------- words and separators ---------- */

/// The words of `s` starting at `i` (a word start), joined by single spaces:
/// what `split_whitespace` followed by `join(" ")` gives.
pub open spec fn join_words_from(s: Seq<char>, i: int) -> Seq<char>
    decreases s.len() - i,
{
    if 0 <= i < s.len() && !is_ws(s[i]) {
        let e = word_end(s, i);
        let n = ws_end(s, e);
        proof {
            lemma_word_end(s, i + 1);
            lemma_ws_end(s, e);
        }
        if n >= s.len() {
            s.subrange(i, e)
        } else {
            s.subrange(i, e) + seq![' '] + join_words_from(s, n)
        }
    } else {
        Seq::<char>::empty()
    }
}

/// From `i` on, `s` is words separated by single spaces: it starts and
/// ends with a non-space, and every whitespace character is a space
/// followed by a non-space.
pub open spec fn words_normal_from(s: Seq<char>, i: int) -> bool {
    &&& 0 <= i < s.len()
    &&& !is_ws(s[i])
    &&& !is_ws(s[s.len() - 1])
    &&& forall|k: int| i <= k < s.len() && is_ws(#[trigger] s[k]) ==> s[k] == ' ' && k + 1 < s.len() && !is_ws(s[k + 1])
}

/// Rejoining words that are already separated by single spaces gives the
/// text back.
pub proof fn lemma_join_normal(s: Seq<char>, i: int)
    requires
        words_normal_from(s, i),
    ensures
        join_words_from(s, i) == s.subrange(i, s.len() as int),
    decreases s.len() - i,
{
    let e = word_end(s, i);
    lemma_word_end(s, i);
    lemma_word_end(s, i + 1);
    if e < s.len() {
        assert(is_ws(s[e]));
        assert(s[e] == ' ' && e + 1 < s.len() && !is_ws(s[e + 1]));
        lemma_ws_end_at(s, e, e + 1);
        assert(words_normal_from(s, e + 1));
        lemma_join_normal(s, e + 1);
        assert(s.subrange(i, e) + seq![' '] + s.subrange(e + 1, s.len() as int) =~= s.subrange(
            i,
            s.len() as int,
        ));
    } else {
        lemma_ws_end(s, e);
    }
}

/// `": "` first occurs in `tag + ": " + rest` right after `tag` when the
/// tag holds none.
pub proof fn lemma_colon_after_tag(tag: Seq<char>, rest: Seq<char>, i: int)
    requires
        0 <= i <= tag.len(),
        colon_space_from(tag, i) is None,
    ensures
        colon_space_from(tag + seq![':', ' '] + rest, i) == Some(tag.len() as int),
    decreases tag.len() - i,
{
    let s = tag + seq![':', ' '] + rest;
    if i < tag.len() {
        if i + 1 < tag.len() {
            assert(!(tag[i] == ':' && tag[i + 1] == ' '));
        }
        assert(s[i] == tag[i]);
        assert(s[i + 1] == if i + 1 < tag.len() { tag[i + 1] } else { ':' });
        lemma_colon_after_tag(tag, rest, i + 1);
    } else {
        assert(s[i] == ':' && s[i + 1] == ' ');
    }
}

fn join_words(v: &Vec<char>, start: usize) -> (out: Vec<char>)
    requires
        start <= v@.len(),
        start < v@.len() ==> !is_ws(v@[start as int]),
    ensures
        out@ == join_words_from(v@, start as int),
{
    let mut out: Vec<char> = Vec::new();
    let mut i = start;
    while i < v.len()
        invariant
            start <= i <= v@.len(),
            i < v@.len() ==> !is_ws(v@[i as int]),
            out@ + join_words_from(v@, i as int) == join_words_from(v@, start as int),
        decreases v@.len() - i,
    {
        let e = skip_word(v, i);
        let n = skip_ws(v, e);
        proof {
            lemma_word_end(v@, i as int);
            lemma_word_end(v@, i + 1);
            lemma_ws_end(v@, e as int);
        }
        let ghost old_out = out@;
        let mut k = i;
        while k < e
            invariant
                i <= k <= e <= v@.len(),
                out@ == old_out + v@.subrange(i as int, k as int),
            decreases e - k,
        {
            out.push(v[k]);
            assert(v@.subrange(i as int, k + 1) =~= v@.subrange(i as int, k as int).push(v@[k as int]));
            k = k + 1;
        }
        if n < v.len() {
            out.push(' ');
            assert(out@ + join_words_from(v@, n as int) =~= old_out + join_words_from(v@, i as int));
        } else {
            assert(join_words_from(v@, n as int) =~= Seq::<char>::empty());
            assert(out@ + join_words_from(v@, n as int) =~= old_out + join_words_from(v@, i as int));
        }
        i = n;
    }
    assert(join_words_from(v@, i as int) =~= Seq::<char>::empty());
    assert(out@ =~= out@ + join_words_from(v@, i as int));
    out
}

/// Index of the first `": "` at or after `i`.
pub open spec fn colon_space_from(s: Seq<char>, i: int) -> Option<int>
    decreases s.len() - i,
{
    if i < 0 || i + 1 >= s.len() {
        None
    } else if s[i] == ':' && s[i + 1] == ' ' {
        Some(i)
    } else {
        colon_space_from(s, i + 1)
    }
}

proof fn lemma_colon_space_from(s: Seq<char>, i: int)
    requires
        0 <= i,
    ensures
        colon_space_from(s, i) matches Some(k) ==> i <= k && k + 2 <= s.len(),
    decreases s.len() - i,
{
    if i + 1 < s.len() && !(s[i] == ':' && s[i + 1] == ' ') {
        lemma_colon_space_from(s, i + 1);
    }
}

fn find_colon_space(v: &Vec<char>) -> (r: Option<usize>)
    ensures
        r matches Some(k) ==> colon_space_from(v@, 0) == Some(k as int),
        r is None ==> colon_space_from(v@, 0) is None,
{
    let mut i: usize = 0;
    while v.len() > 1 && i < v.len() - 1
        invariant
            colon_space_from(v@, i as int) == colon_space_from(v@, 0),
        decreases v@.len() - i,
    {
        if v[i] == ':' && v[i + 1] == ' ' {
            return Some(i);
        }
        i = i + 1;
    }
    None
}

/* ---------- threadtime lines ---------- */

/// Fields of a threadtime line after its 18-byte timestamp: pid, tid and a
/// level letter as the first three whitespace-separated words, then the rest
/// of the words (rejoined by single spaces) split at the first `": "` into tag
/// and message.
pub open spec fn spec_parse_fields(timestamp: Seq<char>, r: Seq<char>) -> Option<LogEntryView> {
    let a0 = ws_end(r, 0);
    let a1 = word_end(r, a0);
    let b0 = ws_end(r, a1);
    let b1 = word_end(r, b0);
    let c0 = ws_end(r, b1);
    let c1 = word_end(r, c0);
    let d0 = ws_end(r, c1);
    if a0 >= r.len() || b0 >= r.len() || c0 >= r.len() {
        None
    } else {
        match (
            spec_parse_u32(r.subrange(a0, a1)),
            spec_parse_u32(r.subrange(b0, b1)),
            spec_level_from_char(r[c0]),
        ) {
            (Some(pid), Some(tid), Some(level)) => {
                let rem = join_words_from(r, d0);
                match colon_space_from(rem, 0) {
                    Some(k) => Some(
                        LogEntryView {
                            timestamp,
                            pid,
                            tid,
                            level,
                            tag: rem.take(k),
                            message: rem.skip(k + 2),
                        },
                    ),
                    None => None,
                }
            },
            _ => None,
        }
    }
}

/// The timestamp field: the first 18 bytes of the line.
pub open spec fn threadtime_head(line: Seq<char>) -> Seq<char> {
    decode_utf8(encode_utf8(line).take(18))
}

/// Everything after the first 18 bytes of the line.
pub open spec fn threadtime_tail(line: Seq<char>) -> Seq<char> {
    decode_utf8(encode_utf8(line).skip(18))
}

/// What parsing a threadtime line yields.
pub open spec fn spec_parse_threadtime_line(line: Seq<char>) -> Option<LogEntryView> {
    if encode_utf8(line).len() < 18 {
        None
    } else {
        spec_parse_fields(threadtime_head(line), threadtime_tail(line))
    }
}

/// Whether byte 18 of the line starts a character, so that the timestamp can
/// be cut there (a line shorter than 18 bytes needs no cut).
pub open spec fn cuttable_at(line: Seq<char>, n: int) -> bool {
    encode_utf8(line).len() < n || is_char_boundary(encode_utf8(line), n)
}

/// Parse a single threadtime log line:
/// `MM-DD HH:MM:SS.mmm  PID  TID L Tag: Message`.
pub fn parse_threadtime_line(line: &str) -> (r: Option<LogEntry>)
    requires
        cuttable_at(line@, 18),
    ensures
        r matches Some(e) ==> spec_parse_threadtime_line(line@) == Some(e@),
        r is None ==> spec_parse_threadtime_line(line@) is None,
{
    let bytes = line.as_bytes();
    if bytes.len() < 18 {
        return None;
    }
    let (head, tail) = line.split_at(18);
    proof {
        vstd::utf8::encode_utf8_decode_utf8(head@);
        vstd::utf8::encode_utf8_decode_utf8(tail@);
        assert(encode_utf8(line@).subrange(0, 18) =~= encode_utf8(line@).take(18));
        assert(encode_utf8(line@).subrange(18, encode_utf8(line@).len() as int) =~= encode_utf8(line@).skip(18));
    }
    let timestamp = head.to_owned();
    let r = chars_of(tail);
    proof {
        assert(r@ == threadtime_tail(line@));
        assert(timestamp@ == threadtime_head(line@));
    }
    let a0 = skip_ws(&r, 0);
    proof { lemma_ws_end(r@, 0); }
    let a1 = skip_word(&r, a0);
    proof { lemma_word_end(r@, a0 as int); }
    let b0 = skip_ws(&r, a1);
    proof { lemma_ws_end(r@, a1 as int); }
    let b1 = skip_word(&r, b0);
    proof { lemma_word_end(r@, b0 as int); }
    let c0 = skip_ws(&r, b1);
    proof { lemma_ws_end(r@, b1 as int); }
    let c1 = skip_word(&r, c0);
    proof { lemma_word_end(r@, c0 as int); }
    let d0 = skip_ws(&r, c1);
    proof { lemma_ws_end(r@, c1 as int); }
    if a0 >= r.len() || b0 >= r.len() || c0 >= r.len() {
        return None;
    }
    let pid = match parse_u32_range(&r, a0, a1) {
        Some(p) => p,
        None => return None,
    };
    let tid = match parse_u32_range(&r, b0, b1) {
        Some(t) => t,
        None => return None,
    };
    let level = match LogLevel::from_char(r[c0]) {
        Some(l) => l,
        None => return None,
    };
    let rem = join_words(&r, d0);
    let k = match find_colon_space(&rem) {
        Some(k) => k,
        None => return None,
    };
    proof {
        lemma_colon_space_from(rem@, 0);
        assert(k + 2 <= rem@.len());
        assert(rem@.len() == rem.len());
    }
    let tag = string_from_chars(&rem, 0, k);
    let message = string_from_chars(&rem, k + 2, rem.len());
    proof {
        assert(rem@.subrange(0, k as int) =~= rem@.take(k as int));
        assert(rem@.subrange(k + 2, rem@.len() as int) =~= rem@.skip(k + 2));
    }
    Some(LogEntry { timestamp, pid, tid, level, tag, message })
}

/// A line that does not start with an `MM-DD HH:MM:SS.mmm` timestamp
/// continues the previous entry (stack traces, wrapped messages).
pub open spec fn spec_is_continuation_line(line: Seq<char>) -> bool {
    let b = encode_utf8(line);
    b.len() < 18 || !(b[2] == 45u8 && b[5] == 32u8 && b[8] == 58u8 && b[11] == 58u8 && b[14] == 46u8)
}

pub fn is_continuation_line(line: &str) -> (r: bool)
    ensures
        r == spec_is_continuation_line(line@),
{
    let bytes = line.as_bytes();
    if bytes.len() < 18 {
        return true;
    }
    !(bytes[2] == 45u8 && bytes[5] == 32u8 && bytes[8] == 58u8 && bytes[11] == 58u8 && bytes[14]
        == 46u8)
}

/// The encoding of two character sequences one after the other is their
/// encodings one after the other.
proof fn lemma_encode_utf8_concat(a: Seq<char>, b: Seq<char>)
    ensures
        encode_utf8(a + b) == encode_utf8(a) + encode_utf8(b),
    decreases a.len(),
{
    if a.len() > 0 {
        assert((a + b).drop_first() =~= a.drop_first() + b);
        assert((a + b)[0] == a[0]);
        lemma_encode_utf8_concat(a.drop_first(), b);
        assert(encode_utf8(a + b) =~= encode_utf8(a) + encode_utf8(b));
    }
}

/// Whether `ts` has the shape `MM-DD HH:MM:SS.mmm`: eighteen ASCII
/// characters with `-`, ` `, `:`, `:` and `.` in their places.
pub open spec fn timestamp_shaped(ts: Seq<char>) -> bool {
    &&& ts.len() == 18
    &&& vstd::utf8::is_ascii_chars(ts)
    &&& ts[2] == '-'
    &&& ts[5] == ' '
    &&& ts[8] == ':'
    &&& ts[11] == ':'
    &&& ts[14] == '.'
}

/// A line that starts with a timestamp begins a new entry, whatever follows
/// the timestamp (pids of any width, any tag or message, any text at all).
pub proof fn law_timestamp_line_begins_entry(ts: Seq<char>, rest: Seq<char>)
    requires
        timestamp_shaped(ts),
    ensures
        !spec_is_continuation_line(ts + rest),
{
    lemma_encode_utf8_concat(ts, rest);
    vstd::utf8::is_ascii_chars_encode_utf8(ts);
    let b = encode_utf8(ts + rest);
    assert(b[2] == ts[2] as u8);
    assert(b[5] == ts[5] as u8);
    assert(b[8] == ts[8] as u8);
    assert(b[11] == ts[11] as u8);
    assert(b[14] == ts[14] as u8);
}

/// For ASCII text, a line continues the previous entry exactly when it is
/// shorter than a timestamp or lacks a timestamp's punctuation.
pub proof fn law_ascii_continuation_iff_no_timestamp(line: Seq<char>)
    requires
        vstd::utf8::is_ascii_chars(line),
    ensures
        spec_is_continuation_line(line) == (line.len() < 18 || !(line[2] == '-' && line[5] == ' '
            && line[8] == ':' && line[11] == ':' && line[14] == '.')),
{
    vstd::utf8::is_ascii_chars_encode_utf8(line);
    if line.len() >= 18 {
        let b = encode_utf8(line);
        assert(b[2] == line[2] as u8);
        assert(b[5] == line[5] as u8);
        assert(b[8] == line[8] as u8);
        assert(b[11] == line[11] as u8);
        assert(b[14] == line[14] as u8);
    }
}

} // verus!
