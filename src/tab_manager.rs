//! The ordered tabs and which of them is active.

use crate::tab::{CommandStatus, Tab};
use vstd::prelude::*;
use vstd::std_specs::iter::IteratorSpec;

verus! {

broadcast use vstd::std_specs::slice::axiom_spec_slice_iter;

/// The tabs, in the order of their commands, and the active one.
pub struct TabManager {
    tabs: Vec<Tab>,
    active_index: usize,
}

/// The active index that follows `i` among `n > 0` tabs, wrapping around.
pub open spec fn next_tab_index(i: usize, n: nat) -> usize {
    ((i + 1) % (n as int)) as usize
}

/// The active index that precedes `i` among `n > 0` tabs, wrapping around.
pub open spec fn prev_tab_index(i: usize, n: nat) -> usize {
    if i == 0 {
        (n - 1) as usize
    } else {
        (i - 1) as usize
    }
}

impl TabManager {
    /// The tabs, in order.
    pub closed spec fn tabs_view(&self) -> Seq<Tab> {
        self.tabs@
    }

    /// The index of the active tab.
    pub closed spec fn active_view(&self) -> usize {
        self.active_index
    }

    /// The active index points at a tab, or is 0 when there is none, and every
    /// tab keeps to its buffer bound.
    pub open spec fn wf(&self) -> bool {
        &&& (self.tabs_view().len() == 0 ==> self.active_view() == 0)
        &&& (self.tabs_view().len() > 0 ==> self.active_view() < self.tabs_view().len())
        &&& forall|i: int| 0 <= i < self.tabs_view().len() ==> (#[trigger] self.tabs_view()[i]).wf()
    }

    /// One fresh tab per command, in order, each with a buffer of at most
    /// `max_buffer_lines` lines (0 for no bound); the first is active.
    pub fn new(commands: Vec<String>, max_buffer_lines: usize) -> (r: TabManager)
        ensures
            r.wf(),
            r.active_view() == 0,
            r.tabs_view().len() == commands@.len(),
            forall|i: int|
                0 <= i < commands@.len() ==> {
                    let t = #[trigger] r.tabs_view()[i];
                    &&& t.command_view() == commands@[i]@
                    &&& t.buffer_view().lines_view().len() == 0
                    &&& t.buffer_view().max_view() == max_buffer_lines
                    &&& t.status_view() == CommandStatus::Running
                    &&& t.scroll_view() == 0
                    &&& t.hscroll_view() == 0
                    &&& t.auto_scroll_view()
                    &&& t.visible_view() == 0
                },
    {
        let mut tabs: Vec<Tab> = Vec::new();
        let mut i: usize = 0;
        while i < commands.len()
            invariant
                i <= commands@.len(),
                tabs@.len() == i,
                forall|j: int|
                    0 <= j < i ==> {
                        let t = #[trigger] tabs@[j];
                        &&& t.wf()
                        &&& t.command_view() == commands@[j]@
                        &&& t.buffer_view().lines_view().len() == 0
                        &&& t.buffer_view().max_view() == max_buffer_lines
                        &&& t.status_view() == CommandStatus::Running
                        &&& t.scroll_view() == 0
                        &&& t.hscroll_view() == 0
                        &&& t.auto_scroll_view()
                        &&& t.visible_view() == 0
                    },
            decreases commands.len() - i,
        {
            tabs.push(Tab::new(commands[i].clone(), max_buffer_lines));
            i = i + 1;
        }
        TabManager { tabs, active_index: 0 }
    }

    /// The number of tabs.
    pub fn len(&self) -> (r: usize)
        ensures
            r == self.tabs_view().len(),
    {
        self.tabs.len()
    }

    /// Whether there is no tab.
    pub fn is_empty(&self) -> (r: bool)
        ensures
            r == (self.tabs_view().len() == 0),
    {
        self.tabs.len() == 0
    }

    /// The index of the active tab.
    pub fn active_index(&self) -> (r: usize)
        ensures
            r == self.active_view(),
    {
        self.active_index
    }

    /// Makes the next tab active, wrapping from the last to the first.
    pub fn next_tab(&mut self)
        requires
            old(self).wf(),
        ensures
            final(self).wf(),
            final(self).tabs_view() == old(self).tabs_view(),
            final(self).active_view() == (if old(self).tabs_view().len() == 0 {
                old(self).active_view()
            } else {
                next_tab_index(old(self).active_view(), old(self).tabs_view().len())
            }),
    {
        if self.tabs.len() > 0 {
            self.active_index = (self.active_index + 1) % self.tabs.len();
        }
    }

    /// Makes the previous tab active, wrapping from the first to the last.
    pub fn prev_tab(&mut self)
        requires
            old(self).wf(),
        ensures
            final(self).wf(),
            final(self).tabs_view() == old(self).tabs_view(),
            final(self).active_view() == (if old(self).tabs_view().len() == 0 {
                old(self).active_view()
            } else {
                prev_tab_index(old(self).active_view(), old(self).tabs_view().len())
            }),
    {
        if self.tabs.len() > 0 {
            self.active_index = if self.active_index == 0 {
                self.tabs.len() - 1
            } else {
                self.active_index - 1
            };
        }
    }

    /// The active tab; there must be one.
    pub fn current_tab(&self) -> (r: &Tab)
        requires
            self.wf(),
            self.tabs_view().len() > 0,
        ensures
            *r == self.tabs_view()[self.active_view() as int],
    {
        &self.tabs[self.active_index]
    }

    /// The active tab, to change; there must be one.
    pub fn current_tab_mut(&mut self) -> (r: &mut Tab)
        requires
            old(self).wf(),
            old(self).tabs_view().len() > 0,
        ensures
            *r == old(self).tabs_view()[old(self).active_view() as int],
            final(self).active_view() == old(self).active_view(),
            final(self).tabs_view() == old(self).tabs_view().update(
                old(self).active_view() as int,
                *final(r),
            ),
    {
        &mut self.tabs[self.active_index]
    }

    /// The tab at `index`, if there is one.
    pub fn get_tab(&self, index: usize) -> (r: Option<&Tab>)
        ensures
            index < self.tabs_view().len() ==> r == Some(&self.tabs_view()[index as int]),
            index >= self.tabs_view().len() ==> r is None,
    {
        if index < self.tabs.len() {
            Some(&self.tabs[index])
        } else {
            None
        }
    }

    /// The tab at `index`, to change, if there is one.
    pub fn get_tab_mut(&mut self, index: usize) -> (r: Option<&mut Tab>)
        ensures
            final(self).active_view() == old(self).active_view(),
            index >= old(self).tabs_view().len() ==> r is None && final(self).tabs_view() == old(
                self,
            ).tabs_view(),
            index < old(self).tabs_view().len() ==> (r matches Some(t) && *t == old(
                self,
            ).tabs_view()[index as int] && final(self).tabs_view() == old(self).tabs_view().update(
                index as int,
                *final(t),
            )),
    {
        if index < self.tabs.len() {
            Some(&mut self.tabs[index])
        } else {
            None
        }
    }

    /// The tabs, in order.
    pub fn iter(&self) -> (r: std::slice::Iter<'_, Tab>)
        ensures
            r.remaining() == self.tabs_view().as_ref(),
    {
        self.tabs.as_slice().iter()
    }
}

} // verus!
