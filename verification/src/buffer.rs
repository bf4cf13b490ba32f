//! Bounded log storage that grows on demand up to its capacity and drops
//! the oldest entries beyond it.

use vstd::prelude::*;
use crate::parser::{LogEntry, LogEntryView};
use std::collections::VecDeque;

verus! {

/// The newest `cap` elements of `s` (all of `s` when it is short enough).
pub open spec fn keep_newest<A>(s: Seq<A>, cap: nat) -> Seq<A> {
    if s.len() > cap {
        s.skip(s.len() - cap)
    } else {
        s
    }
}

/// Keeping the newest elements before or after one more push gives the same
/// result: a bounded buffer fed one element at a time holds the newest
/// `cap` elements ever pushed.
pub proof fn lemma_keep_newest_push<A>(s: Seq<A>, x: A, cap: nat)
    requires
        cap > 0,
    ensures
        keep_newest(keep_newest(s, cap).push(x), cap) == keep_newest(s.push(x), cap),
{
    if s.len() > cap {
        assert(keep_newest(s, cap).push(x).skip(1) =~= s.push(x).skip(s.push(x).len() - cap));
    } else if s.len() == cap {
        assert(s.push(x).skip(1) =~= s.push(x).skip(s.push(x).len() - cap));
    }
}

/// A bounded buffer holding `s` after pushing each of `xs` in turn.
pub open spec fn push_all<A>(s: Seq<A>, xs: Seq<A>, cap: nat) -> Seq<A>
    decreases xs.len(),
{
    if xs.len() == 0 {
        s
    } else {
        push_all(keep_newest(s.push(xs[0]), cap), xs.drop_first(), cap)
    }
}

/// At capacity the buffer retains only the newest entries: whatever it held
/// and whatever is pushed after, it holds the newest `cap` entries of all of
/// them, in order.
pub proof fn law_buffer_keeps_newest<A>(s: Seq<A>, xs: Seq<A>, cap: nat)
    requires
        cap > 0,
    ensures
        push_all(keep_newest(s, cap), xs, cap) == keep_newest(s + xs, cap),
    decreases xs.len(),
{
    if xs.len() == 0 {
        assert(s + xs =~= s);
    } else {
        lemma_keep_newest_push(s, xs[0], cap);
        law_buffer_keeps_newest(s.push(xs[0]), xs.drop_first(), cap);
        assert(s.push(xs[0]) + xs.drop_first() =~= s + xs);
    }
}

/// Entry views of a sequence of entries.
pub open spec fn entry_views(s: Seq<LogEntry>) -> Seq<LogEntryView> {
    s.map_values(|e: LogEntry| e@)
}

/// `VecDeque::shrink_to_fit`: releases spare storage, keeping the elements.
#[verifier::external_body]
fn deque_shrink_to_fit(d: &mut VecDeque<LogEntry>)
    ensures
        final(d)@ == old(d)@,
{
    d.shrink_to_fit();
}

/// `VecDeque::capacity`: how many elements fit without reallocating, which
/// is at least the number stored. The figure itself is the allocator's.
#[verifier::external_body]
fn deque_capacity(d: &VecDeque<LogEntry>) -> (r: usize)
    ensures
        r >= d@.len(),
{
    d.capacity()
}

/// Fixed-capacity ring buffer for log entries.
/// Grows on demand up to `capacity`; does not pre-allocate empty slots.
pub struct RingBuffer {
    entries: VecDeque<LogEntry>,
    capacity: usize,
}

impl View for RingBuffer {
    type V = Seq<LogEntryView>;

    /// The stored entries, oldest first.
    closed spec fn view(&self) -> Seq<LogEntryView> {
        entry_views(self.entries@)
    }
}

impl RingBuffer {
    /// The capacity limit (at least 1).
    pub closed spec fn cap(&self) -> nat {
        self.capacity as nat
    }

    pub closed spec fn wf(&self) -> bool {
        &&& self.capacity >= 1
        &&& self.entries@.len() <= self.capacity
    }

    /// A well-formed buffer has room for at least one entry and holds no
    /// more than its capacity.
    pub proof fn lemma_wf(&self)
        requires
            self.wf(),
        ensures
            1 <= self.cap() <= usize::MAX,
            self@.len() <= self.cap(),
    {
    }

    /// An empty buffer holding at most `max(capacity, 1)` entries.
    pub fn new(capacity: usize) -> (r: RingBuffer)
        ensures
            r.wf(),
            r@ == Seq::<LogEntryView>::empty(),
            r.cap() == if capacity >= 1 { capacity as nat } else { 1 },
    {
        let r = RingBuffer { entries: VecDeque::new(), capacity: if capacity >= 1 { capacity } else { 1 } };
        assert(r@ =~= Seq::<LogEntryView>::empty());
        r
    }

    /// Push an entry. Returns the dropped oldest entry when at capacity.
    pub fn push(&mut self, entry: LogEntry) -> (dropped: Option<LogEntry>)
        requires
            old(self).wf(),
        ensures
            final(self).wf(),
            final(self).cap() == old(self).cap(),
            final(self)@ == keep_newest(old(self)@.push(entry@), old(self).cap()),
            old(self)@.len() >= old(self).cap() <==> dropped is Some,
            dropped matches Some(d) ==> d@ == old(self)@[0],
    {
        let ghost e = entry@;
        let ghost before = self.entries@;
        let dropped = if self.entries.len() >= self.capacity {
            self.entries.pop_front()
        } else {
            None
        };
        self.entries.push_back(entry);
        proof {
            if before.len() >= self.capacity {
                assert(entry_views(self.entries@) =~= entry_views(before).push(e).skip(1));
            } else {
                assert(entry_views(self.entries@) =~= entry_views(before).push(e));
            }
        }
        dropped
    }

    /// Remove every entry. The storage already allocated is kept, so that
    /// refilling right away does not grow it again.
    pub fn clear(&mut self)
        requires
            old(self).wf(),
        ensures
            final(self).wf(),
            final(self).cap() == old(self).cap(),
            final(self)@ == Seq::<LogEntryView>::empty(),
    {
        self.entries.clear();
        assert(self@ =~= Seq::<LogEntryView>::empty());
    }

    /// Clear and release spare storage.
    pub fn clear_compact(&mut self)
        requires
            old(self).wf(),
        ensures
            final(self).wf(),
            final(self).cap() == old(self).cap(),
            final(self)@ == Seq::<LogEntryView>::empty(),
    {
        self.entries.clear();
        deque_shrink_to_fit(&mut self.entries);
        assert(self@ =~= Seq::<LogEntryView>::empty());
    }

    /// Reserve room for upcoming growth without filling slots: the stored
    /// entries and the capacity stay as they are; only the storage set aside
    /// grows, a figure of the allocator that is not modelled here.
    /// (`VecDeque::reserve` panics when `len + additional` overflows.)
    pub fn reserve(&mut self, additional: usize)
        requires
            old(self).wf(),
            old(self)@.len() + additional <= usize::MAX,
        ensures
            final(self).wf(),
            final(self).cap() == old(self).cap(),
            final(self)@ == old(self)@,
    {
        self.entries.reserve(additional);
    }

    /// Iterate over entries in insertion order (oldest first).
    pub fn iter(&self) -> (it: std::collections::vec_deque::Iter<'_, LogEntry>)
        ensures
            entry_views(vstd::std_specs::iter::IteratorSpec::remaining(&it).map_values(|e: &LogEntry| *e)) == self@,
    {
        let it = self.entries.iter();
        assert(vstd::std_specs::iter::IteratorSpec::remaining(&it).map_values(|e: &LogEntry| *e) =~= self.entries@);
        it
    }

    pub fn len(&self) -> (r: usize)
        ensures
            r == self@.len(),
    {
        self.entries.len()
    }

    pub fn is_empty(&self) -> (r: bool)
        ensures
            r == (self@.len() == 0),
    {
        self.entries.len() == 0
    }

    pub fn capacity(&self) -> (r: usize)
        ensures
            r == self.cap(),
    {
        self.capacity
    }

    /// Allocated slot capacity of the underlying storage (diagnostics).
    pub fn allocated_capacity(&self) -> (r: usize)
        ensures
            r >= self@.len(),
    {
        deque_capacity(&self.entries)
    }

    /// Change the capacity (at least 1), keeping the newest entries.
    pub fn set_capacity(&mut self, new_cap: usize)
        requires
            old(self).wf(),
        ensures
            final(self).wf(),
            final(self).cap() == if new_cap >= 1 { new_cap as nat } else { 1 },
            final(self)@ == keep_newest(old(self)@, final(self).cap()),
    {
        let new_cap = if new_cap >= 1 { new_cap } else { 1 };
        let ghost old_entries = self.entries@;
        let n = self.entries.len();
        let start = if n > new_cap { n - new_cap } else { 0 };
        let mut kept: VecDeque<LogEntry> = VecDeque::new();
        let mut k: usize = 0;
        while k < n
            invariant
                k <= n == old_entries.len(),
                start <= n,
                self.entries@ == old_entries.subrange(k as int, n as int),
                kept@ == (if k <= start { Seq::<LogEntry>::empty() } else { old_entries.subrange(start as int, k as int) }),
            decreases n - k,
        {
            let e = self.entries.pop_front().unwrap();
            if k >= start {
                kept.push_back(e);
                assert(old_entries.subrange(start as int, k + 1) =~= (if k <= start { Seq::<LogEntry>::empty() } else { old_entries.subrange(start as int, k as int) }).push(old_entries[k as int]));
            }
            k = k + 1;
        }
        self.entries = kept;
        self.capacity = new_cap;
        proof {
            if n > new_cap {
                assert(entry_views(old_entries.subrange(start as int, n as int)) =~= entry_views(old_entries).skip(start as int));
            } else {
                assert(old_entries.subrange(0, n as int) =~= old_entries);
            }
        }
    }

    /// The `index`-th oldest entry.
    pub fn get(&self, index: usize) -> (r: Option<&LogEntry>)
        ensures
            index < self@.len() ==> (r matches Some(e) && e@ == self@[index as int]),
            index >= self@.len() ==> r is None,
    {
        if index < self.entries.len() {
            Some(&self.entries[index])
        } else {
            None
        }
    }
}

} // verus!
