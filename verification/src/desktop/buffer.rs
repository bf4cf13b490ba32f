//! Fixed-capacity ring buffer over preallocated slots.

use vstd::prelude::*;
use crate::parser::{LogEntry, LogEntryView};
use crate::buffer::{keep_newest, lemma_keep_newest_push};

verus! {

/// `x % m` for `0 <= x < 2m`, without division.
pub proof fn lemma_wrap_mod(x: int, m: int)
    requires
        0 < m,
        0 <= x < 2 * m,
    ensures
        x % m == if x < m { x } else { x - m },
{
    if x < m {
        vstd::arithmetic::div_mod::lemma_small_mod(x as nat, m as nat);
    } else {
        vstd::arithmetic::div_mod::lemma_mod_add_multiples_vanish(x - m, m);
        vstd::arithmetic::div_mod::lemma_small_mod((x - m) as nat, m as nat);
    }
}

/// Fixed-capacity ring buffer for log entries.
pub struct RingBuffer {
    buffer: Vec<Option<LogEntry>>,
    capacity: usize,
    head: usize,
    count: usize,
}

impl RingBuffer {
    /// Slot of the oldest entry.
    pub closed spec fn start(&self) -> int {
        if self.count < self.capacity {
            0
        } else {
            self.head as int
        }
    }

    /// Slot holding the `i`-th oldest entry.
    pub closed spec fn slot(&self, i: int) -> int {
        (self.start() + i) % (self.capacity as int)
    }

    pub closed spec fn wf(&self) -> bool {
        &&& self.buffer@.len() == self.capacity
        &&& self.count <= self.capacity
        &&& self.capacity == 0 ==> self.head == 0 && self.count == 0
        &&& self.capacity > 0 ==> self.head < self.capacity
        &&& self.count < self.capacity ==> self.head == self.count
        &&& forall|i: int| 0 <= i < self.count ==> (#[trigger] self.buffer@[self.slot(i)]) is Some
    }

    /// The stored entries, oldest first.
    pub closed spec fn view(&self) -> Seq<LogEntryView> {
        Seq::new(self.count as nat, |i: int| self.buffer@[self.slot(i)]->0@)
    }

    /// The configured capacity.
    pub closed spec fn cap(&self) -> nat {
        self.capacity as nat
    }

    pub fn new(capacity: usize) -> (r: RingBuffer)
        ensures
            r.wf(),
            r.view() == Seq::<LogEntryView>::empty(),
            r.cap() == capacity,
    {
        let mut buffer: Vec<Option<LogEntry>> = Vec::with_capacity(capacity);
        let mut k: usize = 0;
        while k < capacity
            invariant
                k <= capacity,
                buffer@.len() == k,
            decreases capacity - k,
        {
            buffer.push(None);
            k = k + 1;
        }
        let r = RingBuffer { buffer, capacity, head: 0, count: 0 };
        assert(r.view() =~= Seq::<LogEntryView>::empty());
        r
    }

    /// Store an entry, overwriting the oldest one when the buffer is full.
    pub fn push(&mut self, entry: LogEntry)
        requires
            old(self).wf(),
            old(self).cap() > 0,
        ensures
            final(self).wf(),
            final(self).cap() == old(self).cap(),
            final(self).view() == keep_newest(old(self).view().push(entry@), old(self).cap()),
    {
        let ghost old_self = *self;
        let ghost e = entry@;
        let cap = self.capacity;
        let h = self.head;
        self.buffer.set(h, Some(entry));
        proof {
            lemma_wrap_mod(h + 1, cap as int);
        }
        self.head = (self.head + 1) % self.capacity;
        if self.count < self.capacity {
            self.count = self.count + 1;
        }
        proof {
            let n = old_self.count as int;
            let c = cap as int;
            if n < c {
                assert forall|i: int| 0 <= i < self.count implies (#[trigger] self.slot(i)) == i by {
                    lemma_wrap_mod(i, c);
                }
                assert forall|i: int| 0 <= i < n implies (#[trigger] old_self.slot(i)) == i by {
                    lemma_wrap_mod(i, c);
                }
                assert forall|i: int| 0 <= i < self.count implies (#[trigger] self.buffer@[self.slot(i)]) is Some by {
                    assert(self.slot(i) == i);
                    if i < n {
                        assert(old_self.slot(i) == i);
                        assert(old_self.buffer@[old_self.slot(i)] is Some);
                    }
                }
                assert(self.view() =~= old_self.view().push(e)) by {
                    assert forall|i: int| 0 <= i < self.count implies self.view()[i] == old_self.view().push(e)[i] by {
                        assert(self.slot(i) == i);
                        if i < n {
                            assert(old_self.slot(i) == i);
                        }
                    }
                }
            } else {
                // full: the new head marks the oldest entry
                assert forall|i: int| 0 <= i < c implies (#[trigger] self.slot(i)) == old_self.slot(i + 1) || i == c - 1 by {
                    lemma_wrap_mod(self.head + i, c);
                    lemma_wrap_mod(h + i + 1, c);
                }
                assert forall|i: int| 0 <= i < c - 1 implies (#[trigger] self.slot(i)) == old_self.slot(i + 1) && old_self.slot(i + 1) != h by {
                    lemma_wrap_mod(self.head + i, c);
                    lemma_wrap_mod(h + i + 1, c);
                }
                assert(self.slot(c - 1) == h) by {
                    lemma_wrap_mod(self.head + c - 1, c);
                }
                assert forall|i: int| 0 <= i < self.count implies (#[trigger] self.buffer@[self.slot(i)]) is Some by {
                    if i < c - 1 {
                        assert(self.slot(i) == old_self.slot(i + 1));
                        assert(old_self.buffer@[old_self.slot(i + 1)] is Some);
                    }
                }
                assert(self.view() =~= old_self.view().push(e).skip(1)) by {
                    assert forall|i: int| 0 <= i < c implies self.view()[i] == old_self.view().push(e).skip(1)[i] by {
                        if i < c - 1 {
                            assert(self.slot(i) == old_self.slot(i + 1));
                        }
                    }
                }
            }
        }
    }

    pub fn clear(&mut self)
        requires
            old(self).wf(),
        ensures
            final(self).wf(),
            final(self).cap() == old(self).cap(),
            final(self).view() == Seq::<LogEntryView>::empty(),
    {
        let n = self.buffer.len();
        let mut k: usize = 0;
        while k < n
            invariant
                k <= n,
                self.buffer@.len() == n,
                n == self.capacity,
                self.capacity == old(self).capacity,
            decreases n - k,
        {
            self.buffer.set(k, None);
            k = k + 1;
        }
        self.head = 0;
        self.count = 0;
        assert(self.view() =~= Seq::<LogEntryView>::empty());
    }

    /// The entries in insertion order (oldest first).
    pub fn iter(&self) -> (r: Vec<&LogEntry>)
        requires
            self.wf(),
        ensures
            r@.len() == self.view().len(),
            forall|i: int| 0 <= i < r@.len() ==> (#[trigger] r@[i])@ == self.view()[i],
    {
        let mut out: Vec<&LogEntry> = Vec::new();
        let start = if self.count < self.capacity {
            0
        } else {
            self.head
        };
        let mut i: usize = 0;
        while i < self.count
            invariant
                self.wf(),
                start == self.start(),
                i <= self.count,
                out@.len() == i,
                forall|j: int| 0 <= j < i ==> (#[trigger] out@[j])@ == self.view()[j],
            decreases self.count - i,
        {
            proof {
                lemma_wrap_mod(start + i, self.capacity as int);
            }
            let idx = if i < self.capacity - start {
                start + i
            } else {
                i - (self.capacity - start)
            };
            assert(idx == self.slot(i as int));
            assert(self.buffer@[self.slot(i as int)] is Some);
            match &self.buffer[idx] {
                Some(e) => {
                    out.push(e);
                },
                None => {},
            }
            i = i + 1;
        }
        out
    }

    pub fn len(&self) -> (r: usize)
        requires
            self.wf(),
        ensures
            r == self.view().len(),
    {
        self.count
    }

    pub fn capacity(&self) -> (r: usize)
        ensures
            r == self.cap(),
    {
        self.capacity
    }

    /// Rebuild with a new capacity, re-inserting the stored entries oldest
    /// first, so that the newest `new_cap` of them remain.
    pub fn set_capacity(&mut self, new_cap: usize)
        requires
            old(self).wf(),
            new_cap > 0 || old(self).view().len() == 0,
        ensures
            final(self).wf(),
            final(self).cap() == new_cap,
            final(self).view() == keep_newest(old(self).view(), new_cap as nat),
    {
        let refs = self.iter();
        let ghost v = self.view();
        let mut entries: Vec<LogEntry> = Vec::new();
        let mut k: usize = 0;
        while k < refs.len()
            invariant
                k <= refs@.len(),
                refs@.len() == v.len(),
                forall|i: int| 0 <= i < refs@.len() ==> (#[trigger] refs@[i])@ == v[i],
                entries@.len() == k,
                forall|i: int| 0 <= i < k ==> (#[trigger] entries@[i])@ == v[i],
            decreases refs@.len() - k,
        {
            entries.push(refs[k].duplicate());
            k = k + 1;
        }
        *self = Self::new(new_cap);
        let n = entries.len();
        for e in it: entries
            invariant
                n == v.len(),
                it.seq().len() == n,
                forall|i: int| 0 <= i < n ==> (#[trigger] it.seq()[i])@ == v[i],
                self.wf(),
                self.cap() == new_cap,
                new_cap > 0 || n == 0,
                self.view() == keep_newest(v.take(it.index() as int), new_cap as nat),
        {
            proof {
                let j = it.index() as int;
                lemma_keep_newest_push(v.take(j), e@, new_cap as nat);
                assert(v.take(j).push(e@) =~= v.take(j + 1));
            }
            self.push(e);
        }
        assert(v.take(n as int) =~= v);
    }
}

} // verus!
