//! Display helpers for long log lines: soft wrapping with a hanging indent
//! for continuation rows, and horizontal slices.

use vstd::prelude::*;
use crate::text::{chars_of, push_char, push_chars, string_from_chars};

verus! {

/// The hanging indent actually used: none when it would leave no room.
pub open spec fn spec_hang(indent: int, width: int) -> int {
    if indent == 0 || indent >= width {
        0
    } else {
        indent
    }
}

pub fn effective_hang_indent(indent: usize, width: usize) -> (r: usize)
    ensures
        r == spec_hang(indent as int, width as int),
{
    if indent == 0 || indent >= width {
        0
    } else {
        indent
    }
}

/// Characters that fit on a wrap row: the full width on the first row,
/// the width less the hanging indent on continuation rows.
pub open spec fn spec_chunk_capacity(width: int, hang: int, first: bool) -> int {
    if hang == 0 || first {
        width
    } else {
        width - hang
    }
}

pub fn chunk_capacity(width: usize, hang: usize, first: bool) -> (r: usize)
    requires
        hang < width || hang == 0,
    ensures
        r == spec_chunk_capacity(width as int, hang as int, first),
{
    if hang == 0 {
        width
    } else if first {
        width
    } else {
        width - hang
    }
}

/// The wrap rows of characters `[pos, len)`, each as `(start, length)`.
pub open spec fn chunks_from(len: int, width: int, hang: int, pos: int, first: bool) -> Seq<(int, int)>
    decreases len - pos,
{
    let cap = spec_chunk_capacity(width, hang, first);
    if pos >= len || cap < 1 {
        Seq::empty()
    } else {
        let n = if cap < len - pos {
            cap
        } else {
            len - pos
        };
        seq![(pos, n)] + chunks_from(len, width, hang, pos + n, false)
    }
}

/// The wrap rows of a line of `len` characters at `width` (at least 1) with
/// the hanging indent derived from `indent`.
pub open spec fn wrap_chunks(len: int, width: int, indent: int) -> Seq<(int, int)> {
    let w = if width < 1 { 1 } else { width };
    chunks_from(len, w, spec_hang(indent, w), 0, true)
}

/// `ceil(x / d)`.
pub open spec fn ceil_div(x: int, d: int) -> int {
    x / d + if x % d != 0 {
        1int
    } else {
        0int
    }
}

proof fn lemma_ceil_div_small(x: int, d: int)
    requires
        0 < x <= d,
    ensures
        ceil_div(x, d) == 1,
{
    if x < d {
        vstd::arithmetic::div_mod::lemma_basic_div(x, d);
        vstd::arithmetic::div_mod::lemma_small_mod(x as nat, d as nat);
        assert(x / d == 0);
    } else {
        vstd::arithmetic::div_mod::lemma_div_by_self(d);
        vstd::arithmetic::div_mod::lemma_mod_self_0(d);
    }
}

proof fn lemma_ceil_div_step(x: int, d: int)
    requires
        0 < d < x,
    ensures
        ceil_div(x, d) == 1 + ceil_div(x - d, d),
{
    vstd::arithmetic::div_mod::lemma_div_minus_one(x, d);
    vstd::arithmetic::div_mod::lemma_mod_sub_multiples_vanish(x, d);
    assert(-d + x == x - d);
}

/// Number of continuation chunks of `[pos, len)`.
proof fn lemma_chunks_from_len(len: int, width: int, hang: int, pos: int)
    requires
        0 <= hang < width,
        pos <= len,
    ensures
        chunks_from(len, width, hang, pos, false).len() == ceil_div(len - pos, width - hang),
    decreases len - pos,
{
    let c = width - hang;
    if pos >= len {
        assert(0int / c == 0) by {
            vstd::arithmetic::div_mod::lemma_div_of0(c);
        }
        assert(0int % c == 0) by {
            vstd::arithmetic::div_mod::lemma_small_mod(0, c as nat);
        }
    } else if len - pos <= c {
        lemma_ceil_div_small(len - pos, c);
        assert(chunks_from(len, width, hang, len, false).len() == 0);
    } else {
        lemma_chunks_from_len(len, width, hang, pos + c);
        lemma_ceil_div_step(len - pos, c);
    }
}

/// Rows needed for `len` characters, as the display computes it directly.
pub open spec fn spec_wrap_line_count(len: int, width: int, indent: int) -> int {
    let w = if width < 1 { 1 } else { width };
    let hang = spec_hang(indent, w);
    if len == 0 {
        1
    } else if hang == 0 {
        ceil_div(len, w)
    } else if len <= w {
        1
    } else {
        1 + ceil_div(len - w, w - hang)
    }
}

/// The row count agrees with the rows that wrapping produces (one row for
/// an empty line).
pub proof fn law_wrap_line_count_matches_chunks(len: int, width: int, indent: int)
    requires
        len >= 0,
        indent >= 0,
    ensures
        spec_wrap_line_count(len, width, indent) == if len == 0 {
            1
        } else {
            wrap_chunks(len, width, indent).len() as int
        },
{
    let w = if width < 1 { 1 } else { width };
    let hang = spec_hang(indent, w);
    if len > 0 {
        let n0 = if w < len { w } else { len };
        lemma_chunks_from_len(len, w, hang, n0);
        if hang == 0 {
            if len <= w {
                lemma_ceil_div_small(len, w);
                assert(0int / w == 0) by {
                    vstd::arithmetic::div_mod::lemma_div_of0(w);
                }
                assert(0int % w == 0) by {
                    vstd::arithmetic::div_mod::lemma_small_mod(0, w as nat);
                }
            } else {
                lemma_ceil_div_step(len, w);
            }
        } else if len <= w {
            vstd::arithmetic::div_mod::lemma_div_of0(w - hang);
            vstd::arithmetic::div_mod::lemma_small_mod(0, (w - hang) as nat);
        }
    }
}

fn div_ceil(x: usize, d: usize) -> (r: usize)
    requires
        d > 0,
    ensures
        r == ceil_div(x as int, d as int),
        r <= x,
{
    let q = x / d;
    if x % d != 0 {
        proof {
            vstd::arithmetic::div_mod::lemma_fundamental_div_mod(x as int, d as int);
            assert(q < x) by (nonlinear_arith)
                requires
                    q == x / d,
                    d > 0,
                    x % d != 0,
                    x == d * (x / d) + x % d,
                    x % d >= 0,
            ;
        }
        q + 1
    } else {
        proof {
            vstd::arithmetic::div_mod::lemma_fundamental_div_mod(x as int, d as int);
            assert(q <= x) by (nonlinear_arith)
                requires
                    q == x / d,
                    d > 0,
                    x == d * (x / d) + x % d,
                    x % d >= 0,
                    x >= 0,
            ;
        }
        q
    }
}

/// Number of terminal rows needed to show `s` at `width` with optional hang indent.
pub fn wrap_line_count(s: &str, width: usize, indent: usize) -> (r: usize)
    ensures
        r == spec_wrap_line_count(s@.len() as int, width as int, indent as int),
{
    let width = if width >= 1 {
        width
    } else {
        1
    };
    let hang = effective_hang_indent(indent, width);
    let chars = chars_of(s).len();
    if chars == 0 {
        return 1;
    }
    if hang == 0 {
        div_ceil(chars, width)
    } else if chars <= width {
        1
    } else {
        let cont_width = width - hang;
        let r = div_ceil(chars - width, cont_width);
        1 + r
    }
}

/// Wrap rows produced one at a time as `(logical_char_start, chunk_text)`.
pub struct WrapChunks {
    chars: Vec<char>,
    width: usize,
    hang: usize,
    logical_start: usize,
    first: bool,
    done: bool,
}

impl WrapChunks {
    /// The characters of the line being wrapped.
    pub closed spec fn text(&self) -> Seq<char> {
        self.chars@
    }

    /// The rows not yet produced.
    pub closed spec fn remaining(&self) -> Seq<(int, int)> {
        if self.done {
            Seq::empty()
        } else {
            chunks_from(self.chars@.len() as int, self.width as int, self.hang as int, self.logical_start as int, self.first)
        }
    }

    pub closed spec fn wf(&self) -> bool {
        &&& self.width >= 1
        &&& self.hang < self.width
        &&& self.logical_start <= self.chars@.len()
        &&& self.chars@.len() <= usize::MAX
        &&& self.first ==> self.logical_start == 0
    }

    pub fn with_indent(s: &str, width: usize, indent: usize) -> (r: WrapChunks)
        ensures
            r.wf(),
            r.text() == s@,
            r.remaining() == wrap_chunks(s@.len() as int, width as int, indent as int),
            s@.len() <= usize::MAX,
    {
        let width = if width >= 1 {
            width
        } else {
            1
        };
        let chars = chars_of(s);
        let done = chars.len() == 0;
        assert(chars@.len() <= usize::MAX);
        WrapChunks {
            chars,
            width,
            hang: effective_hang_indent(indent, width),
            logical_start: 0,
            first: true,
            done,
        }
    }

    /// The next wrap row, if any.
    pub fn next(&mut self) -> (r: Option<(usize, String)>)
        requires
            old(self).wf(),
        ensures
            final(self).wf(),
            final(self).text() == old(self).text(),
            old(self).remaining().len() == 0 ==> r is None && final(self).remaining().len() == 0,
            old(self).remaining().len() > 0 ==> {
                &&& r matches Some((start, chunk))
                &&& start == old(self).remaining()[0].0
                &&& chunk@ == old(self).text().subrange(start as int, start + old(self).remaining()[0].1)
                &&& final(self).remaining() == old(self).remaining().drop_first()
            },
    {
        if self.done {
            return None;
        }
        let cap = chunk_capacity(self.width, self.hang, self.first);
        let len = self.chars.len();
        let pos = self.logical_start;
        let n = if cap < len - pos {
            cap
        } else {
            len - pos
        };
        if n == 0 {
            return None;
        }
        let chunk = string_from_chars(&self.chars, pos, pos + n);
        self.logical_start = pos + n;
        self.first = false;
        Some((pos, chunk))
    }

    /// Start and length of the next wrap row, if any.
    pub(crate) fn next_span(&mut self) -> (r: Option<(usize, usize)>)
        requires
            old(self).wf(),
        ensures
            final(self).wf(),
            final(self).text() == old(self).text(),
            old(self).remaining().len() == 0 ==> r is None && final(self).remaining().len() == 0,
            old(self).remaining().len() > 0 ==> {
                &&& r matches Some((start, n))
                &&& start == old(self).remaining()[0].0
                &&& n == old(self).remaining()[0].1
                &&& final(self).remaining() == old(self).remaining().drop_first()
            },
    {
        if self.done {
            return None;
        }
        let cap = chunk_capacity(self.width, self.hang, self.first);
        let len = self.chars.len();
        let pos = self.logical_start;
        let n = if cap < len - pos {
            cap
        } else {
            len - pos
        };
        if n == 0 {
            return None;
        }
        self.logical_start = pos + n;
        self.first = false;
        Some((pos, n))
    }

    /// All remaining rows, in order.
    pub fn collect_all(&mut self) -> (r: Vec<(usize, String)>)
        requires
            old(self).wf(),
        ensures
            final(self).wf(),
            r@.len() == old(self).remaining().len(),
            forall|i: int|
                0 <= i < r@.len() ==> {
                    &&& (#[trigger] r@[i]).0 == old(self).remaining()[i].0
                    &&& r@[i].1@ == old(self).text().subrange(
                        old(self).remaining()[i].0,
                        old(self).remaining()[i].0 + old(self).remaining()[i].1,
                    )
                },
    {
        let ghost all = self.remaining();
        let mut out: Vec<(usize, String)> = Vec::new();
        loop
            invariant
                self.wf(),
                self.text() == old(self).text(),
                all == old(self).remaining(),
                out@.len() + self.remaining().len() == all.len(),
                self.remaining() == all.skip(out@.len() as int),
                forall|i: int|
                    0 <= i < out@.len() ==> {
                        &&& (#[trigger] out@[i]).0 == all[i].0
                        &&& out@[i].1@ == self.text().subrange(all[i].0, all[i].0 + all[i].1)
                    },
            ensures
                out@.len() == all.len(),
                forall|i: int|
                    0 <= i < out@.len() ==> {
                        &&& (#[trigger] out@[i]).0 == all[i].0
                        &&& out@[i].1@ == self.text().subrange(all[i].0, all[i].0 + all[i].1)
                    },
            decreases self.remaining().len(),
        {
            let ghost before = self.remaining();
            match self.next() {
                Some(c) => {
                    assert(before[0] == all[out@.len() as int]);
                    out.push(c);
                    assert(self.remaining() =~= all.skip(out@.len() as int));
                },
                None => {
                    break;
                },
            }
        }
        out
    }
}

/// Index of the first row at or after `i` that holds column `col`
/// (the row count when none does).
pub open spec fn find_chunk(cs: Seq<(int, int)>, col: int, i: int) -> int
    decreases cs.len() - i,
{
    if i < 0 || i >= cs.len() {
        cs.len() as int
    } else if cs[i].0 <= col < cs[i].0 + cs[i].1 {
        i
    } else {
        find_chunk(cs, col, i + 1)
    }
}

proof fn lemma_find_chunk(cs: Seq<(int, int)>, col: int, i: int)
    requires
        0 <= i <= cs.len(),
    ensures
        i <= find_chunk(cs, col, i) <= cs.len(),
        find_chunk(cs, col, i) < cs.len() ==> cs[find_chunk(cs, col, i)].0 <= col < cs[find_chunk(cs, col, i)].0 + cs[find_chunk(cs, col, i)].1,
    decreases cs.len() - i,
{
    if i < cs.len() && !(cs[i].0 <= col < cs[i].0 + cs[i].1) {
        lemma_find_chunk(cs, col, i + 1);
    }
}

/// Rows cover `[pos, len)` in order, each at least one character long, the
/// first starting at `pos`.
proof fn lemma_chunks_cover(len: int, width: int, hang: int, pos: int, first: bool, col: int)
    requires
        0 <= hang < width,
        0 <= pos <= col < len,
    ensures
        find_chunk(chunks_from(len, width, hang, pos, first), col, 0) < chunks_from(len, width, hang, pos, first).len(),
        chunks_from(len, width, hang, pos, first).len() > 0,
        chunks_from(len, width, hang, pos, first)[0].0 == pos,
    decreases len - pos,
{
    let cs = chunks_from(len, width, hang, pos, first);
    let cap = spec_chunk_capacity(width, hang, first);
    let n = if cap < len - pos { cap } else { len - pos };
    let rest = chunks_from(len, width, hang, pos + n, false);
    assert(cs == seq![(pos, n)] + rest);
    if col >= pos + n {
        lemma_chunks_cover(len, width, hang, pos + n, false, col);
        lemma_find_chunk_shift(cs, rest, col);
    }
}

proof fn lemma_find_chunk_shift(cs: Seq<(int, int)>, rest: Seq<(int, int)>, col: int)
    requires
        cs.len() == rest.len() + 1,
        forall|k: int| 0 <= k < rest.len() ==> cs[k + 1] == rest[k],
        !(cs[0].0 <= col < cs[0].0 + cs[0].1),
    ensures
        find_chunk(cs, col, 0) == find_chunk(rest, col, 0) + 1,
{
    lemma_find_chunk_shift_from(cs, rest, col, 0);
}

proof fn lemma_find_chunk_shift_from(cs: Seq<(int, int)>, rest: Seq<(int, int)>, col: int, i: int)
    requires
        cs.len() == rest.len() + 1,
        forall|k: int| 0 <= k < rest.len() ==> cs[k + 1] == rest[k],
        !(cs[0].0 <= col < cs[0].0 + cs[0].1),
        0 <= i <= rest.len(),
    ensures
        find_chunk(cs, col, i + 1) == find_chunk(rest, col, i) + 1,
        i == 0 ==> find_chunk(cs, col, 0) == find_chunk(cs, col, 1),
    decreases rest.len() - i,
{
    if i < rest.len() {
        assert(cs[i + 1] == rest[i]);
        if !(rest[i].0 <= col < rest[i].0 + rest[i].1) {
            lemma_find_chunk_shift_from(cs, rest, col, i + 1);
        }
    }
}

pub(crate) proof fn lemma_chunks_count(len: int, width: int, hang: int, pos: int, first: bool)
    requires
        0 <= hang < width,
        0 <= pos,
    ensures
        chunks_from(len, width, hang, pos, first).len() <= if len > pos { len - pos } else { 0 },
    decreases len - pos,
{
    let cap = spec_chunk_capacity(width, hang, first);
    if pos < len {
        let n = if cap < len - pos { cap } else { len - pos };
        lemma_chunks_count(len, width, hang, pos + n, false);
    }
}

/// Display text for a wrap chunk (adds hang-indent pad on continuation rows).
pub fn wrap_display_text(chunk: &str, logical_start: usize, indent: usize, width: usize) -> (r: String)
    ensures
        r@ == if logical_start == 0 || spec_hang(indent as int, width as int) == 0 {
            chunk@
        } else {
            Seq::new(spec_hang(indent as int, width as int) as nat, |i: int| ' ') + chunk@
        },
{
    let hang = effective_hang_indent(indent, width);
    if logical_start == 0 || hang == 0 {
        chunk.to_owned()
    } else {
        let mut out = String::new();
        let mut k: usize = 0;
        while k < hang
            invariant
                k <= hang,
                out@ == Seq::new(k as nat, |i: int| ' '),
            decreases hang - k,
        {
            push_char(&mut out, ' ');
            assert(out@ =~= Seq::new((k + 1) as nat, |i: int| ' '));
            k = k + 1;
        }
        crate::text::push_str_chars(&mut out, chunk);
        out
    }
}

/// The hang used by a line at `width` (widths below 1 count as 1).
pub open spec fn line_hang(width: int, indent: int) -> int {
    spec_hang(indent, if width < 1 { 1 } else { width })
}

/// Which wrap display row (0-based within entry) contains logical column `col`;
/// past the end of the line, the last row.
pub open spec fn spec_wrap_display_row_for_col(len: int, width: int, indent: int, col: int) -> int {
    let cs = wrap_chunks(len, width, indent);
    if len == 0 {
        0
    } else if find_chunk(cs, col, 0) < cs.len() {
        find_chunk(cs, col, 0)
    } else {
        let c = spec_wrap_line_count(len, width, indent);
        if c > 0 { c - 1 } else { 0 }
    }
}

pub fn wrap_display_row_for_col(s: &str, width: usize, indent: usize, col: usize) -> (r: usize)
    ensures
        r == spec_wrap_display_row_for_col(s@.len() as int, width as int, indent as int, col as int),
{
    if s.is_empty() {
        return 0;
    }
    let mut it = WrapChunks::with_indent(s, width, indent);
    let ghost cs = it.remaining();
    proof {
        let w = if width < 1 { 1 } else { width as int };
        lemma_chunks_count(s@.len() as int, w, spec_hang(indent as int, w), 0, true);
    }
    let mut i: usize = 0;
    loop
        invariant
            it.wf(),
            i <= cs.len(),
            cs.len() <= s@.len() <= usize::MAX,
            cs == wrap_chunks(s@.len() as int, width as int, indent as int),
            it.remaining() == cs.skip(i as int),
            find_chunk(cs, col as int, i as int) == find_chunk(cs, col as int, 0),
        ensures
            i == cs.len(),
            find_chunk(cs, col as int, 0) == cs.len(),
        decreases cs.len() - i,
    {
        match it.next_span() {
            Some((start, len)) => {
                assert(cs.skip(i as int)[0] == cs[i as int]);
                if col >= start && col - start < len {
                    assert(find_chunk(cs, col as int, i as int) == i);
                    return i;
                }
                assert(it.remaining() =~= cs.skip(i + 1));
                i = i + 1;
            },
            None => {
                break;
            },
        }
    }
    let c = wrap_line_count(s, width, indent);
    if c > 0 {
        c - 1
    } else {
        0
    }
}

/// Row index, start and length of the row holding `col`: past the end of
/// the line, the last row; `(0, 0, 0)` for an empty line.
pub open spec fn spec_wrap_chunk_at_col(len: int, width: int, indent: int, col: int) -> (int, int, int) {
    let cs = wrap_chunks(len, width, indent);
    if len == 0 || cs.len() == 0 {
        (0, 0, 0)
    } else {
        let k = if find_chunk(cs, col, 0) < cs.len() {
            find_chunk(cs, col, 0)
        } else {
            cs.len() - 1
        };
        (k, cs[k].0, cs[k].1)
    }
}

pub fn wrap_chunk_at_col(s: &str, width: usize, indent: usize, col: usize) -> (r: (usize, usize, usize))
    ensures
        (r.0 as int, r.1 as int, r.2 as int) == spec_wrap_chunk_at_col(s@.len() as int, width as int, indent as int, col as int),
{
    if s.is_empty() {
        return (0, 0, 0);
    }
    let mut it = WrapChunks::with_indent(s, width, indent);
    let ghost cs = it.remaining();
    proof {
        let w = if width < 1 { 1 } else { width as int };
        lemma_chunks_count(s@.len() as int, w, spec_hang(indent as int, w), 0, true);
    }
    let mut last: (usize, usize, usize) = (0, 0, 0);
    let mut i: usize = 0;
    loop
        invariant
            it.wf(),
            i <= cs.len(),
            cs.len() <= s@.len() <= usize::MAX,
            cs == wrap_chunks(s@.len() as int, width as int, indent as int),
            it.remaining() == cs.skip(i as int),
            find_chunk(cs, col as int, i as int) == find_chunk(cs, col as int, 0),
            i > 0 ==> (last.0 as int, last.1 as int, last.2 as int) == (i - 1, cs[i - 1].0, cs[i - 1].1),
        ensures
            i == cs.len(),
            find_chunk(cs, col as int, 0) == cs.len(),
            i > 0 ==> (last.0 as int, last.1 as int, last.2 as int) == (i - 1, cs[i - 1].0, cs[i - 1].1),
        decreases cs.len() - i,
    {
        match it.next_span() {
            Some((start, len)) => {
                assert(cs.skip(i as int)[0] == cs[i as int]);
                last = (i, start, len);
                if col >= start && col - start < len {
                    assert(find_chunk(cs, col as int, i as int) == i);
                    return (i, start, len);
                }
                assert(it.remaining() =~= cs.skip(i + 1));
                i = i + 1;
            },
            None => {
                break;
            },
        }
    }
    proof {
        if i == 0 {
            let l = s@.len() as int;
            lemma_chunks_cover(l, if width < 1 { 1 } else { width as int }, line_hang(width as int, indent as int), 0, true, 0);
        }
    }
    last
}

/// Row `index` as `(index, start, length)`, or `(0, 0, 0)` past the last row.
pub open spec fn spec_wrap_chunk_by_index(len: int, width: int, indent: int, index: int) -> (int, int, int) {
    let cs = wrap_chunks(len, width, indent);
    if 0 <= index < cs.len() {
        (index, cs[index].0, cs[index].1)
    } else {
        (0, 0, 0)
    }
}

pub fn wrap_chunk_by_index(s: &str, width: usize, indent: usize, index: usize) -> (r: (usize, usize, usize))
    ensures
        (r.0 as int, r.1 as int, r.2 as int) == spec_wrap_chunk_by_index(s@.len() as int, width as int, indent as int, index as int),
        s@.len() <= usize::MAX,
{
    let mut it = WrapChunks::with_indent(s, width, indent);
    let ghost cs = it.remaining();
    proof {
        let w = if width < 1 { 1 } else { width as int };
        lemma_chunks_count(s@.len() as int, w, spec_hang(indent as int, w), 0, true);
    }
    let mut i: usize = 0;
    loop
        invariant
            it.wf(),
            i <= cs.len(),
            cs.len() <= s@.len() <= usize::MAX,
            cs == wrap_chunks(s@.len() as int, width as int, indent as int),
            i <= index,
            it.remaining() == cs.skip(i as int),
        ensures
            cs.len() <= index,
        decreases cs.len() - i,
    {
        match it.next_span() {
            Some((start, len)) => {
                assert(cs.skip(i as int)[0] == cs[i as int]);
                if i == index {
                    assert(0 <= index < cs.len());
                    return (i, start, len);
                }
                assert(it.remaining() =~= cs.skip(i + 1));
                i = i + 1;
            },
            None => {
                break;
            },
        }
    }
    (0, 0, 0)
}

/// Screen column, within its wrap row, of logical column `col`.
pub open spec fn spec_wrap_display_col(len: int, width: int, indent: int, col: int) -> int {
    let start = spec_wrap_chunk_at_col(len, width, indent, col).1;
    let hang = spec_hang(indent, width);
    let off = if col >= start { col - start } else { 0 };
    if start > 0 && hang > 0 {
        hang + off
    } else {
        off
    }
}

pub fn wrap_display_col(s: &str, width: usize, indent: usize, col: usize) -> (r: usize)
    requires
        spec_wrap_display_col(s@.len() as int, width as int, indent as int, col as int) <= usize::MAX,
    ensures
        r == spec_wrap_display_col(s@.len() as int, width as int, indent as int, col as int),
{
    let (_, chunk_start, _) = wrap_chunk_at_col(s, width, indent, col);
    let hang = effective_hang_indent(indent, width);
    let off = if col >= chunk_start {
        col - chunk_start
    } else {
        0
    };
    if chunk_start > 0 && hang > 0 {
        hang + off
    } else {
        off
    }
}

/// The wrap rows tile `[pos, len)`: each is one to `capacity` characters
/// long (the first row's capacity when `first`, a continuation row's
/// after), the first starts at `pos`, each starts where the one before it
/// ends, and the last ends at `len`.
pub proof fn lemma_chunks_shape(len: int, width: int, hang: int, pos: int, first: bool)
    requires
        0 <= hang < width,
        0 <= pos <= len,
    ensures
        ({
            let cs = chunks_from(len, width, hang, pos, first);
            &&& (pos < len) == (cs.len() > 0)
            &&& cs.len() > 0 ==> cs[0].0 == pos && cs[cs.len() - 1].0 + cs[cs.len() - 1].1 == len
            &&& forall|k: int| 0 <= k < cs.len() ==> pos <= (#[trigger] cs[k]).0 && 1 <= cs[k].1
                && cs[k].1 <= spec_chunk_capacity(width, hang, first && k == 0) && cs[k].0 + cs[k].1 <= len
            &&& forall|i: int, j: int| 0 <= i < j < cs.len() ==> #[trigger] cs[i].0 + cs[i].1 <= #[trigger] cs[j].0
        }),
    decreases len - pos,
{
    let cs = chunks_from(len, width, hang, pos, first);
    let cap = spec_chunk_capacity(width, hang, first);
    if pos < len {
        let n = if cap < len - pos { cap } else { len - pos };
        let rest = chunks_from(len, width, hang, pos + n, false);
        lemma_chunks_shape(len, width, hang, pos + n, false);
        assert(cs == seq![(pos, n)] + rest);
        assert forall|k: int| 0 <= k < cs.len() implies pos <= (#[trigger] cs[k]).0 && 1 <= cs[k].1
            && cs[k].1 <= spec_chunk_capacity(width, hang, first && k == 0) && cs[k].0 + cs[k].1 <= len by {
            if k > 0 {
                assert(cs[k] == rest[k - 1]);
            }
        }
        assert forall|i: int, j: int| 0 <= i < j < cs.len() implies #[trigger] cs[i].0 + cs[i].1 <= #[trigger] cs[j].0 by {
            assert(cs[j] == rest[j - 1]);
            if i > 0 {
                assert(cs[i] == rest[i - 1]);
            }
        }
        if rest.len() > 0 {
            assert(cs[cs.len() - 1] == rest[rest.len() - 1]);
        }
    }
}

/// A column inside a line lies in exactly one wrap row: the row that
/// `wrap_chunk_at_col` names is the only one holding it.
pub proof fn law_wrap_row_unique(len: int, width: int, indent: int, col: int, k: int)
    requires
        0 <= col < len,
        indent >= 0,
        0 <= k < wrap_chunks(len, width, indent).len(),
        wrap_chunks(len, width, indent)[k].0 <= col < wrap_chunks(len, width, indent)[k].0
            + wrap_chunks(len, width, indent)[k].1,
    ensures
        spec_wrap_chunk_at_col(len, width, indent, col) == (
            k,
            wrap_chunks(len, width, indent)[k].0,
            wrap_chunks(len, width, indent)[k].1,
        ),
{
    let w = if width < 1 { 1 } else { width };
    let h = spec_hang(indent, w);
    let cs = wrap_chunks(len, width, indent);
    lemma_chunks_shape(len, w, h, 0, true);
    lemma_find_chunk(cs, col, 0);
    let f = find_chunk(cs, col, 0);
    lemma_find_chunk_first(cs, col, 0);
    if f < k {
        assert(cs[f].0 + cs[f].1 <= cs[k].0);
    } else if k < f {
        assert(cs[k].0 + cs[k].1 <= cs[f].0);
    }
}

/// A column at or past the end of a non-empty line lies in its last wrap
/// row.
pub proof fn law_wrap_col_past_end_in_last_row(len: int, width: int, indent: int, col: int)
    requires
        0 < len <= col,
        indent >= 0,
    ensures
        ({
            let cs = wrap_chunks(len, width, indent);
            &&& cs.len() > 0
            &&& spec_wrap_chunk_at_col(len, width, indent, col) == (
                cs.len() - 1,
                cs[cs.len() - 1].0,
                cs[cs.len() - 1].1,
            )
        }),
{
    let w = if width < 1 { 1 } else { width };
    let h = spec_hang(indent, w);
    let cs = wrap_chunks(len, width, indent);
    lemma_chunks_shape(len, w, h, 0, true);
    lemma_find_chunk(cs, col, 0);
    let f = find_chunk(cs, col, 0);
    if f < cs.len() {
        assert(cs[f].0 + cs[f].1 <= len);
    }
}

/// `find_chunk` from `i` returns the first row at or after `i` holding `col`.
proof fn lemma_find_chunk_first(cs: Seq<(int, int)>, col: int, i: int)
    requires
        0 <= i <= cs.len(),
    ensures
        forall|j: int| i <= j < find_chunk(cs, col, i) && j < cs.len() ==> !(cs[j].0 <= col < cs[j].0 + #[trigger] cs[j].1),
    decreases cs.len() - i,
{
    if i < cs.len() && !(cs[i].0 <= col < cs[i].0 + cs[i].1) {
        lemma_find_chunk_first(cs, col, i + 1);
    }
}

/// The screen column of a column inside the line (or at its end) fits in
/// the viewport width, so computing it cannot overflow.
pub proof fn lemma_wrap_display_col_fits(len: int, width: int, indent: int, col: int)
    requires
        0 <= col <= len,
        indent >= 0,
        0 <= width,
    ensures
        spec_wrap_display_col(len, width, indent, col) <= if col > width { col } else { width },
{
    let w = if width < 1 { 1 } else { width };
    let h = spec_hang(indent, w);
    let cs = wrap_chunks(len, width, indent);
    if len > 0 {
        lemma_chunks_shape(len, w, h, 0, true);
        lemma_find_chunk(cs, col, 0);
        let f = find_chunk(cs, col, 0);
        let k = if f < cs.len() { f } else { cs.len() - 1 };
        if k > 0 {
            assert(cs[0].0 + cs[0].1 <= cs[k].0);
        }
    }
}

/// The row holding a column lies within the line.
pub(crate) proof fn lemma_chunk_at_col_bounds(len: int, width: int, indent: int, col: int)
    requires
        len > 0,
        indent >= 0,
    ensures
        spec_wrap_chunk_at_col(len, width, indent, col).1 + spec_wrap_chunk_at_col(len, width, indent, col).2 <= len,
        spec_wrap_chunk_at_col(len, width, indent, col).1 >= 0,
        spec_wrap_chunk_at_col(len, width, indent, col).2 >= 1,
{
    let w = if width < 1 { 1 } else { width };
    let h = spec_hang(indent, w);
    lemma_chunks_bounds(len, w, h, 0, true);
    let cs = wrap_chunks(len, width, indent);
    lemma_find_chunk(cs, col, 0);
}

pub(crate) proof fn lemma_chunks_bounds(len: int, width: int, hang: int, pos: int, first: bool)
    requires
        0 <= hang < width,
        0 <= pos,
    ensures
        forall|k: int| 0 <= k < chunks_from(len, width, hang, pos, first).len() ==> {
            &&& pos <= (#[trigger] chunks_from(len, width, hang, pos, first)[k]).0
            &&& chunks_from(len, width, hang, pos, first)[k].1 >= 1
            &&& chunks_from(len, width, hang, pos, first)[k].0 + chunks_from(len, width, hang, pos, first)[k].1 <= len
        },
    decreases len - pos,
{
    let cap = spec_chunk_capacity(width, hang, first);
    if pos < len {
        let n = if cap < len - pos { cap } else { len - pos };
        lemma_chunks_bounds(len, width, hang, pos + n, false);
        let cs = chunks_from(len, width, hang, pos, first);
        let rest = chunks_from(len, width, hang, pos + n, false);
        assert forall|k: int| 0 <= k < cs.len() implies {
            &&& pos <= (#[trigger] cs[k]).0
            &&& cs[k].1 >= 1
            &&& cs[k].0 + cs[k].1 <= len
        } by {
            if k > 0 {
                assert(cs[k] == rest[k - 1]);
            }
        }
    }
}

/// Logical column shown at screen column `display_col` of wrap row `chunk_index`.
pub open spec fn spec_wrap_logical_col_from_display(len: int, width: int, indent: int, chunk_index: int, display_col: int) -> int {
    let (_, start, n) = spec_wrap_chunk_by_index(len, width, indent, chunk_index);
    let hang = spec_hang(indent, width);
    if n == 0 {
        start
    } else {
        let off = if start > 0 && hang > 0 {
            if display_col >= hang { display_col - hang } else { 0 }
        } else {
            display_col
        };
        start + if off < n - 1 { off } else { n - 1 }
    }
}

pub fn wrap_logical_col_from_display(
    s: &str,
    width: usize,
    indent: usize,
    chunk_index: usize,
    display_col: usize,
) -> (r: usize)
    ensures
        r == spec_wrap_logical_col_from_display(s@.len() as int, width as int, indent as int, chunk_index as int, display_col as int),
{
    let (_, chunk_start, chunk_len) = wrap_chunk_by_index(s, width, indent, chunk_index);
    if chunk_len == 0 {
        return chunk_start;
    }
    proof {
        let l = s@.len() as int;
        let w = if width < 1 { 1 } else { width as int };
        lemma_chunks_bounds(l, w, spec_hang(indent as int, w), 0, true);
    }
    let hang = effective_hang_indent(indent, width);
    let offset_in_chunk = if chunk_start > 0 && hang > 0 {
        if display_col >= hang {
            display_col - hang
        } else {
            0
        }
    } else {
        display_col
    };
    chunk_start + if offset_in_chunk < chunk_len - 1 {
        offset_in_chunk
    } else {
        chunk_len - 1
    }
}

/// Going from a logical column to its screen position and back gives the
/// column again, for every column inside the line.
pub proof fn law_wrap_col_roundtrip(len: int, width: int, indent: int, col: int)
    requires
        0 <= col < len,
        indent >= 0,
        width >= 1,
    ensures
        spec_wrap_logical_col_from_display(
            len,
            width,
            indent,
            spec_wrap_chunk_at_col(len, width, indent, col).0,
            spec_wrap_display_col(len, width, indent, col),
        ) == col,
{
    let h = spec_hang(indent, width);
    lemma_chunks_cover(len, width, h, 0, true, col);
    let cs = wrap_chunks(len, width, indent);
    lemma_find_chunk(cs, col, 0);
}

/// Visible slice: skip `col_offset` chars, take at most `max_width` chars.
pub open spec fn spec_visible_chars(s: Seq<char>, col_offset: int, max_width: int) -> Seq<char> {
    let a = if col_offset < s.len() { col_offset } else { s.len() as int };
    let b = if max_width < s.len() - a { a + max_width } else { s.len() as int };
    s.subrange(a, b)
}

pub fn visible_chars(s: &str, col_offset: usize, max_width: usize) -> (r: String)
    ensures
        r@ == spec_visible_chars(s@, col_offset as int, max_width as int),
{
    let v = chars_of(s);
    let a = if col_offset < v.len() {
        col_offset
    } else {
        v.len()
    };
    let b = if max_width < v.len() - a {
        a + max_width
    } else {
        v.len()
    };
    string_from_chars(&v, a, b)
}


/// `h` counted as at least one row.
pub open spec fn at_least_one(h: usize) -> int {
    if h < 1 {
        1
    } else {
        h as int
    }
}

/// The walk up from the last entry: add the rows of earlier entries while
/// fewer than `height` rows are covered (sums held at `usize::MAX`).
pub open spec fn bottom_walk(heights: Seq<usize>, height: int, idx: int, acc: int) -> (int, int)
    decreases idx,
{
    if acc < height && idx > 0 {
        let next = acc + at_least_one(heights[idx - 1]);
        bottom_walk(heights, height, idx - 1, if next > usize::MAX { usize::MAX as int } else { next })
    } else {
        (idx, if acc > height { acc - height } else { 0 })
    }
}

/// First entry and rows of it to skip so that the last entries, whose wrap
/// heights are `heights`, fill a viewport of `viewport_height` rows with
/// the last row at the bottom.
pub fn scroll_bottom_position(heights: &[usize], viewport_height: usize) -> (r: (usize, usize))
    ensures
        heights@.len() == 0 ==> r == (0usize, 0usize),
        heights@.len() > 0 ==> (r.0 as int, r.1 as int) == bottom_walk(
            heights@,
            if viewport_height < 1 { 1 } else { viewport_height as int },
            heights@.len() - 1,
            at_least_one(heights@[heights@.len() - 1]),
        ),
{
    let n = heights.len();
    if n == 0 {
        return (0, 0);
    }
    let height = if viewport_height >= 1 {
        viewport_height
    } else {
        1
    };
    let mut idx = n - 1;
    let last = heights[idx];
    let mut lines_after = if last >= 1 {
        last
    } else {
        1
    };
    while lines_after < height && idx > 0
        invariant
            idx < n == heights@.len(),
            bottom_walk(heights@, height as int, idx as int, lines_after as int) == bottom_walk(
                heights@,
                height as int,
                n - 1,
                at_least_one(heights@[n - 1]),
            ),
        decreases idx,
    {
        idx = idx - 1;
        let h = heights[idx];
        lines_after = lines_after.saturating_add(if h >= 1 {
            h
        } else {
            1
        });
    }
    (idx, lines_after.saturating_sub(height))
}

/// The display lines of row `i` from line `first`, as `(row, line)` pairs.
pub open spec fn row_lines(h: usize, i: int, first: int) -> Seq<(usize, usize)> {
    Seq::new((if h > first { h - first } else { 0 }) as nat, |j: int| (i as usize, (first + j) as usize))
}

/// The display lines of rows `[0, n)` in order, row 0 from line `skip`.
pub open spec fn lines_of_rows(heights: Seq<usize>, skip: int, n: int) -> Seq<(usize, usize)>
    decreases n,
{
    if n <= 0 {
        Seq::empty()
    } else {
        lines_of_rows(heights, skip, n - 1) + row_lines(heights[n - 1], n - 1, if n - 1 == 0 { skip } else { 0 })
    }
}

/// The first `h` elements of `s`, or all of them.
pub open spec fn take_at_most<A>(s: Seq<A>, h: int) -> Seq<A> {
    if s.len() <= h { s } else { s.take(h) }
}

/// The lines drawn in a wrapped viewport of `height` lines whose rows,
/// from the first one shown, wrap to `heights`: the rows' lines in order,
/// skipping the first `skip` lines of the first row, as many as fit.
pub fn wrap_rows_shown(heights: &[usize], skip: usize, height: usize) -> (r: Vec<(usize, usize)>)
    ensures
        r@ == take_at_most(lines_of_rows(heights@, skip as int, heights@.len() as int), height as int),
{
    let mut out: Vec<(usize, usize)> = Vec::new();
    let mut i: usize = 0;
    while i < heights.len()
        invariant
            i <= heights@.len(),
            out@ == take_at_most(lines_of_rows(heights@, skip as int, i as int), height as int),
        decreases heights@.len() - i,
    {
        let first = if i == 0 { skip } else { 0 };
        let h = heights[i];
        let ghost before = lines_of_rows(heights@, skip as int, i as int);
        let ghost seg = row_lines(h, i as int, first as int);
        assert(lines_of_rows(heights@, skip as int, i + 1) == before + seg);
        let mut j = first;
        while j < h && out.len() < height
            invariant
                first <= j,
                out@.len() <= height,
                seg == row_lines(h, i as int, first as int),
                out@ == take_at_most(before + seg.take(if j <= h { j - first } else { 0 }), height as int),
                j > h ==> j == first,
            decreases h - j,
        {
            proof {
                assert(out@.len() < height);
            }
            out.push((i, j));
            proof {
                assert((before + seg.take(j + 1 - first)) =~= (before + seg.take(j - first)).push((i, j)));
            }
            j = j + 1;
        }
        proof {
            let full = before + seg;
            if j >= h {
                assert(seg.take(if j <= h { j - first } else { 0 }) =~= seg || seg.len() == 0);
                if seg.len() == 0 {
                    assert(seg.take(0) =~= seg);
                }
                assert(out@ == take_at_most(full, height as int));
            } else {
                let part = before + seg.take(j - first);
                assert(out@.len() == height);
                assert(part.len() >= height);
                assert(part.take(height as int) =~= full.take(height as int));
            }
        }
        i = i + 1;
    }
    out
}

} // verus!
