//! Search state of the windowed find bar, which keeps its query as plain
//! text and asks for keyboard focus when opened.

use vstd::prelude::*;
use crate::engine::{filtered_view, Engine};
use crate::text::{chars_of, spec_trim, trim_bounds};
use crate::ui::find::{
    clamp_current, collect_hits, drop_front, drop_front_matches, filtered_rows, hits_in, query_of,
    search_query,
};

verus! {

#[derive(Debug)]
pub struct FindState {
    pub open: bool,
    pub query: String,
    pub matches: Vec<usize>,
    pub current: usize,
    pub focus_request: bool,
    pub scroll_to_match: Option<usize>,
}

impl Default for FindState {
    fn default() -> (r: FindState)
        ensures
            !r.open,
            r.query@ == Seq::<char>::empty(),
            r.matches@ == Seq::<usize>::empty(),
            r.current == 0,
            !r.focus_request,
            r.scroll_to_match is None,
    {
        FindState {
            open: false,
            query: String::new(),
            matches: Vec::new(),
            current: 0,
            focus_request: false,
            scroll_to_match: None,
        }
    }
}

impl FindState {
    pub fn open_bar(&mut self)
        ensures
            final(self).open,
            final(self).focus_request,
            final(self).query == old(self).query,
            final(self).matches == old(self).matches,
            final(self).current == old(self).current,
            final(self).scroll_to_match == old(self).scroll_to_match,
    {
        self.open = true;
        self.focus_request = true;
    }

    pub fn close(&mut self)
        ensures
            !final(self).open,
            final(self).query@ == Seq::<char>::empty(),
            final(self).matches@ == Seq::<usize>::empty(),
            final(self).current == 0,
            final(self).scroll_to_match is None,
            final(self).focus_request == old(self).focus_request,
    {
        self.open = false;
        self.query = String::new();
        self.matches = Vec::new();
        self.current = 0;
        self.scroll_to_match = None;
    }

    pub fn is_active_with_matches(&self) -> (r: bool)
        ensures
            r == (self.open && spec_trim(self.query@).len() > 0 && self.matches@.len() > 0),
    {
        if !self.open {
            return false;
        }
        let v = chars_of(self.query.as_str());
        let (a, b) = trim_bounds(&v);
        a < b && self.matches.len() > 0
    }

    /// Search the whole filtered view again.
    pub fn recompute(&mut self, engine: &Engine)
        requires
            engine.wf(),
        ensures
            ({
                let q = search_query(old(self).query@);
                &&& q.len() == 0 ==> final(self).matches@ == Seq::<usize>::empty() && final(self).current == 0
                &&& q.len() > 0 ==> final(self).matches@ == hits_in(filtered_rows(engine@), q, 0, filtered_view(engine@).len() as int)
                    && final(self).current == clamp_current(old(self).current, final(self).matches@.len() as int)
            }),
            final(self).open == old(self).open,
            final(self).query == old(self).query,
            final(self).focus_request == old(self).focus_request,
            final(self).scroll_to_match == old(self).scroll_to_match,
    {
        self.matches = Vec::new();
        let q = query_of(self.query.as_str());
        if q.as_str().is_empty() {
            self.current = 0;
            return;
        }
        let n = engine.filtered_len();
        collect_hits(engine, q.as_str(), 0, n, &mut self.matches);
        assert(self.matches@ =~= hits_in(filtered_rows(engine@), q@, 0, n as int));
        if self.matches.len() == 0 {
            self.current = 0;
        } else if self.current >= self.matches.len() {
            self.current = self.matches.len() - 1;
        }
    }

    /// Scan only the newest `appended` filtered rows (after a live batch).
    pub fn append_search(&mut self, engine: &Engine, appended: usize)
        requires
            engine.wf(),
        ensures
            ({
                let q = search_query(old(self).query@);
                let n = filtered_view(engine@).len() as int;
                let start = if appended < n { n - appended } else { 0 };
                &&& (q.len() == 0 || appended == 0) ==> final(self).matches == old(self).matches
                &&& (q.len() > 0 && appended > 0) ==> final(self).matches@ == old(self).matches@ + hits_in(filtered_rows(engine@), q, start, n)
            }),
            final(self).current == old(self).current,
            final(self).open == old(self).open,
            final(self).query == old(self).query,
            final(self).focus_request == old(self).focus_request,
            final(self).scroll_to_match == old(self).scroll_to_match,
    {
        let q = query_of(self.query.as_str());
        if q.as_str().is_empty() || appended == 0 {
            return;
        }
        let n = engine.filtered_len();
        let start = n.saturating_sub(appended);
        collect_hits(engine, q.as_str(), start, n, &mut self.matches);
    }

    /// After ring-buffer drops of the oldest filtered rows, shift match indices.
    pub fn on_dropped_front(&mut self, n: usize)
        ensures
            n == 0 ==> final(self).matches == old(self).matches && final(self).current == old(self).current,
            n > 0 ==> final(self).matches@ == drop_front_matches(old(self).matches@, n)
                && final(self).current == clamp_current(old(self).current, final(self).matches@.len() as int),
            final(self).open == old(self).open,
            final(self).query == old(self).query,
            final(self).focus_request == old(self).focus_request,
            final(self).scroll_to_match == old(self).scroll_to_match,
    {
        if n == 0 {
            return;
        }
        drop_front(&mut self.matches, n);
        if self.matches.len() == 0 {
            self.current = 0;
        } else if self.current >= self.matches.len() {
            self.current = self.matches.len() - 1;
        }
    }

    pub fn next(&mut self)
        requires
            old(self).matches@.len() > 0 ==> old(self).current < usize::MAX,
        ensures
            old(self).matches@.len() == 0 ==> final(self).current == old(self).current
                && final(self).scroll_to_match == old(self).scroll_to_match,
            old(self).matches@.len() > 0 ==> {
                &&& final(self).current == (old(self).current + 1) % (old(self).matches@.len() as int)
                &&& final(self).scroll_to_match == Some(old(self).matches@[final(self).current as int])
            },
            final(self).matches == old(self).matches,
            final(self).open == old(self).open,
            final(self).query == old(self).query,
    {
        if self.matches.len() == 0 {
            return;
        }
        self.current = (self.current + 1) % self.matches.len();
        self.scroll_to_match = Some(self.matches[self.current]);
    }

    pub fn prev(&mut self)
        requires
            old(self).matches@.len() > 0 ==> old(self).current <= old(self).matches@.len(),
        ensures
            old(self).matches@.len() == 0 ==> final(self).current == old(self).current
                && final(self).scroll_to_match == old(self).scroll_to_match,
            old(self).matches@.len() > 0 ==> {
                &&& final(self).current == if old(self).current == 0 {
                    old(self).matches@.len() - 1
                } else {
                    old(self).current - 1
                }
                &&& final(self).scroll_to_match == Some(old(self).matches@[final(self).current as int])
            },
            final(self).matches == old(self).matches,
            final(self).open == old(self).open,
            final(self).query == old(self).query,
    {
        if self.matches.len() == 0 {
            return;
        }
        if self.current == 0 {
            self.current = self.matches.len() - 1;
        } else {
            self.current = self.current - 1;
        }
        self.scroll_to_match = Some(self.matches[self.current]);
    }

    pub fn current_row(&self) -> (r: Option<usize>)
        ensures
            r == if self.current < self.matches@.len() {
                Some(self.matches@[self.current as int])
            } else {
                None::<usize>
            },
    {
        if self.current < self.matches.len() {
            Some(self.matches[self.current])
        } else {
            None
        }
    }
}

/// Keyboard shortcuts of the find bar: the find shortcut opens it, Escape
/// closes an open bar.
pub fn handle_find_shortcuts(state: &mut FindState, find_pressed: bool, escape_pressed: bool)
    ensures
        ({
            let opened = old(state).open || find_pressed;
            &&& (opened && escape_pressed) ==> {
                &&& !final(state).open
                &&& final(state).query@ == Seq::<char>::empty()
                &&& final(state).matches@ == Seq::<usize>::empty()
                &&& final(state).current == 0
                &&& final(state).scroll_to_match is None
            }
            &&& !(opened && escape_pressed) ==> {
                &&& final(state).open == opened
                &&& final(state).query == old(state).query
                &&& final(state).matches == old(state).matches
                &&& final(state).current == old(state).current
                &&& final(state).scroll_to_match == old(state).scroll_to_match
            }
            &&& final(state).focus_request == (find_pressed || old(state).focus_request)
        }),
{
    if find_pressed {
        state.open_bar();
    }
    if state.open && escape_pressed {
        state.close();
    }
}

} // verus!
