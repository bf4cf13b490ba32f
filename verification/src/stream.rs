//! Assembly of raw `adb logcat` output lines into log entries: over-long
//! lines are truncated, and continuation lines (stack traces, wrapped
//! messages) are appended to the entry that precedes them.

use vstd::prelude::*;
use vstd::utf8::{decode_utf8, encode_utf8, is_char_boundary};
use crate::parser::{
    cuttable_at, is_continuation_line, parse_threadtime_line, spec_is_continuation_line,
    spec_parse_threadtime_line, LogEntry, LogEntryView,
};
use crate::text::push_str_chars;

verus! {

/// Longest line, in bytes, kept before truncation.
pub const MAX_LINE_LEN: usize = 4096;

/// Bound, in bytes, on an entry grown by continuation lines.
pub const MAX_MESSAGE_LEN: usize = 4096;

/// Result of truncating a line to `MAX_LINE_LEN` bytes.
pub open spec fn spec_truncate_line(line: Seq<char>) -> Seq<char> {
    if encode_utf8(line).len() > 4096 {
        decode_utf8(encode_utf8(line).take(4096)) + "... [truncated]"@
    } else {
        line
    }
}

/// Truncate a line if it exceeds `MAX_LINE_LEN` bytes, marking the cut.
pub fn truncate_line(line: &str) -> (r: String)
    requires
        cuttable_at(line@, 4096),
    ensures
        r@ == spec_truncate_line(line@),
{
    let bytes = line.as_bytes();
    if bytes.len() > MAX_LINE_LEN {
        let (head, _tail) = line.split_at(MAX_LINE_LEN);
        proof {
            vstd::utf8::encode_utf8_decode_utf8(head@);
            assert(encode_utf8(line@).subrange(0, 4096) =~= encode_utf8(line@).take(4096));
        }
        let mut truncated = head.to_owned();
        push_str_chars(&mut truncated, "... [truncated]");
        truncated
    } else {
        line.to_owned()
    }
}

/// UTF-8 encoding distributes over concatenation.
pub proof fn lemma_encode_utf8_concat(a: Seq<char>, b: Seq<char>)
    ensures
        encode_utf8(a + b) == encode_utf8(a) + encode_utf8(b),
    decreases a.len(),
{
    if a.len() == 0 {
        assert(a + b =~= b);
        assert(encode_utf8(a) =~= Seq::<u8>::empty());
        assert(encode_utf8(a) + encode_utf8(b) =~= encode_utf8(b));
    } else {
        assert((a + b).drop_first() =~= a.drop_first() + b);
        assert((a + b)[0] == a[0]);
        lemma_encode_utf8_concat(a.drop_first(), b);
        assert(encode_utf8(a + b) =~= encode_utf8(a) + encode_utf8(b));
    }
}

/// Appending text after byte 18 keeps byte 18 a character boundary.
proof fn lemma_cut_kept(p: Seq<char>, extra: Seq<char>)
    requires
        encode_utf8(p).len() >= 18,
        is_char_boundary(encode_utf8(p), 18),
        extra.len() > 0,
        extra[0] == '\n',
    ensures
        cuttable_at(p + extra, 18),
        encode_utf8(p + extra).len() >= 18,
{
    lemma_encode_utf8_concat(p, extra);
    let bp = encode_utf8(p);
    let be = encode_utf8(extra);
    let b = encode_utf8(p + extra);
    vstd::utf8::encode_utf8_valid_utf8(p);
    vstd::utf8::encode_utf8_valid_utf8(extra);
    vstd::utf8::encode_utf8_valid_utf8(p + extra);
    assert(extra =~= seq![extra[0]] + extra.drop_first());
    lemma_encode_utf8_concat(seq![extra[0]], extra.drop_first());
    assert(encode_utf8(seq![extra[0]]) =~= seq![10u8]) by {
        assert(seq![extra[0]].drop_first() =~= Seq::<char>::empty());
        assert(encode_utf8(Seq::<char>::empty()) =~= Seq::<u8>::empty());
        assert(extra[0] as u32 == 10) by {
            assert('\n' as u32 == 10);
        }
        assert(vstd::utf8::leading_byte_width_1(10u32) == 10u8) by (bit_vector);
        assert(vstd::utf8::encode_scalar(10u32) =~= seq![10u8]);
        assert(encode_utf8(seq![extra[0]]) =~= vstd::utf8::encode_scalar(extra[0] as u32)
            + encode_utf8(seq![extra[0]].drop_first()));
    }
    assert(be[0] == 10u8);
    if bp.len() > 18 {
        vstd::utf8::is_char_boundary_iff_not_is_continuation_byte(bp, 18);
        vstd::utf8::is_char_boundary_iff_not_is_continuation_byte(b, 18);
        assert(b[18] == bp[18]);
    } else {
        vstd::utf8::is_char_boundary_iff_not_is_continuation_byte(b, 18);
        assert(b[18] == be[0]);
    }
}

/// Line assembly state: the newest entry line, waiting for its
/// continuation lines.
pub struct LineAssembler {
    pending: Option<String>,
}

/// What a pending buffer yields when it is flushed.
pub open spec fn spec_flush(pending: Option<Seq<char>>) -> Option<LogEntryView> {
    match pending {
        Some(p) => spec_parse_threadtime_line(p),
        None => None,
    }
}

/// Whether a flushed entry matches the specification of flushing.
pub open spec fn flushed_as(out: Option<LogEntry>, pending: Option<Seq<char>>) -> bool {
    match out {
        Some(e) => spec_flush(pending) == Some(e@),
        None => spec_flush(pending) is None,
    }
}

impl LineAssembler {
    /// The pending entry text, if any.
    pub closed spec fn pending_text(&self) -> Option<Seq<char>> {
        match self.pending {
            Some(p) => Some(p@),
            None => None,
        }
    }

    /// A pending entry always starts with a timestamp that can be cut at byte 18.
    pub closed spec fn wf(&self) -> bool {
        self.pending matches Some(p) ==> encode_utf8(p@).len() >= 18 && cuttable_at(p@, 18)
    }

    pub fn new() -> (r: LineAssembler)
        ensures
            r.wf(),
            r.pending_text() is None,
    {
        LineAssembler { pending: None }
    }

    /// Feed one (already truncated) output line. A new entry line flushes the
    /// pending entry and becomes the pending one; a continuation line is
    /// appended (after a newline) to the pending entry while the result stays
    /// under `MAX_MESSAGE_LEN` bytes, and is dropped otherwise or when nothing
    /// is pending.
    pub fn push_line(&mut self, line: &str) -> (out: Option<LogEntry>)
        requires
            old(self).wf(),
            !spec_is_continuation_line(line@) ==> cuttable_at(line@, 18),
        ensures
            final(self).wf(),
            !spec_is_continuation_line(line@) ==> {
                &&& flushed_as(out, old(self).pending_text())
                &&& final(self).pending_text() == Some(line@)
            },
            spec_is_continuation_line(line@) ==> {
                &&& out is None
                &&& final(self).pending_text() == match old(self).pending_text() {
                    Some(p) => if encode_utf8(p).len() + encode_utf8(line@).len() + 1 < 4096 {
                        Some(p + seq!['\n'] + line@)
                    } else {
                        Some(p)
                    },
                    None => None::<Seq<char>>,
                }
            },
    {
        if !is_continuation_line(line) {
            let out = self.flush();
            self.pending = Some(line.to_owned());
            out
        } else {
            match self.pending.take() {
                Some(mut buf) => {
                    let ghost p = buf@;
                    let bl = buf.as_str().as_bytes().len();
                    let ll = line.as_bytes().len();
                    if bl < MAX_MESSAGE_LEN - 1 && ll < MAX_MESSAGE_LEN - 1 - bl {
                        crate::text::push_char(&mut buf, '\n');
                        push_str_chars(&mut buf, line);
                        proof {
                            assert(buf@ =~= p + (seq!['\n'] + line@));
                            lemma_cut_kept(p, seq!['\n'] + line@);
                            assert(p + seq!['\n'] + line@ =~= p + (seq!['\n'] + line@));
                        }
                    }
                    self.pending = Some(buf);
                    None
                },
                None => None,
            }
        }
    }

    /// Parse and clear the pending entry.
    pub fn flush(&mut self) -> (out: Option<LogEntry>)
        requires
            old(self).wf(),
        ensures
            final(self).wf(),
            final(self).pending_text() is None,
            flushed_as(out, old(self).pending_text()),
    {
        match self.pending.take() {
            Some(buf) => parse_threadtime_line(&buf),
            None => None,
        }
    }
}

} // verus!
