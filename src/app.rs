//! The application state: tabs, search, mode, and the processes held for
//! the tabs. Events from the process readers are applied here, by one writer,
//! and the supervisor's decisions (what to spawn, kill and reap, and in which
//! order) are made here; running processes is left to the caller.

use crate::buffer::{pushed, OutputLine};
use crate::search::{search_result, SearchState};
use crate::tab::{CommandStatus, Tab};
use crate::tab_manager::TabManager;
use vstd::prelude::*;

verus! {

/// Application mode
#[derive(Clone, Copy, Debug, PartialEq, Eq, Structural)]
pub enum Mode {
    /// Normal mode
    Normal,
    /// Search mode
    Search,
}

/// An event from the background tasks of the processes.
pub enum AppEvent {
    /// Output line for a tab
    Output { tab_index: usize, line: OutputLine },
    /// The process `pid` of the tab exited and has been reaped
    Exited { tab_index: usize, pid: u32, exit_code: i32 },
    /// The tab's command could not be started
    Failed { tab_index: usize, reason: String },
}

/// The status after `event` reaches a tab whose status is `s`: an exit or a
/// start failure only ends a running command; anything else leaves `s`.
pub open spec fn status_after(s: CommandStatus, event: AppEvent) -> CommandStatus {
    match event {
        AppEvent::Exited { exit_code, .. } => if s is Running {
            CommandStatus::Finished { exit_code }
        } else {
            s
        },
        AppEvent::Failed { reason, .. } => if s is Running {
            CommandStatus::Failed { reason }
        } else {
            s
        },
        AppEvent::Output { .. } => s,
    }
}

/// The tab an event is for.
pub open spec fn event_tab(event: AppEvent) -> usize {
    match event {
        AppEvent::Output { tab_index, .. } => tab_index,
        AppEvent::Exited { tab_index, .. } => tab_index,
        AppEvent::Failed { tab_index, .. } => tab_index,
    }
}

/// Whether `event` is still current for processes `procs`: an exit counts
/// only for the process held for its tab; an exit of an earlier process of
/// the tab (one that a restart has replaced) is stale. Other events count.
pub open spec fn event_applies(procs: Seq<Option<u32>>, event: AppEvent) -> bool {
    match event {
        AppEvent::Exited { tab_index, pid, .. } => tab_index < procs.len() && procs[tab_index as int]
            == Some(pid),
        _ => true,
    }
}

/// The processes held after `event`: an exit that counts ends the holding.
pub open spec fn procs_after(procs: Seq<Option<u32>>, event: AppEvent) -> Seq<Option<u32>> {
    match event {
        AppEvent::Exited { tab_index, .. } => if event_applies(procs, event) {
            procs.update(tab_index as int, None)
        } else {
            procs
        },
        _ => procs,
    }
}

/// The processes held after those of `tabs` have been reaped.
pub open spec fn reaped_all(procs: Seq<Option<u32>>, tabs: Seq<usize>) -> Seq<Option<u32>>
    decreases tabs.len(),
{
    if tabs.len() == 0 {
        procs
    } else {
        let rest = reaped_all(procs, tabs.drop_last());
        let t = tabs.last() as int;
        if 0 <= t < rest.len() {
            rest.update(t, None)
        } else {
            rest
        }
    }
}

/// The tabs that have a live process, in order, with its process id.
pub open spec fn live_processes(procs: Seq<Option<u32>>) -> Seq<(usize, u32)>
    decreases procs.len(),
{
    if procs.len() == 0 {
        Seq::empty()
    } else {
        let rest = live_processes(procs.drop_last());
        match procs.last() {
            Some(pid) => rest.push(((procs.len() - 1) as usize, pid)),
            None => rest,
        }
    }
}

/// The tabs of a kill list.
pub open spec fn tabs_of(list: Seq<(usize, u32)>) -> Seq<usize> {
    list.map_values(|e: (usize, u32)| e.0)
}

proof fn lemma_live_tabs_in_range(procs: Seq<Option<u32>>)
    requires
        procs.len() <= usize::MAX,
    ensures
        forall|k: int| 0 <= k < tabs_of(live_processes(procs)).len() ==> (#[trigger] tabs_of(live_processes(procs))[k]) < procs.len(),
    decreases procs.len(),
{
    if procs.len() > 0 {
        lemma_live_tabs_in_range(procs.drop_last());
        let rest = live_processes(procs.drop_last());
        match procs.last() {
            Some(pid) => {
                assert(tabs_of(rest.push(((procs.len() - 1) as usize, pid))) =~= tabs_of(rest).push(
                    (procs.len() - 1) as usize,
                ));
            },
            None => {},
        }
    }
}

proof fn lemma_reap_ignores_later_slot(procs: Seq<Option<u32>>, x: Option<u32>, tabs: Seq<usize>)
    requires
        forall|k: int| 0 <= k < tabs.len() ==> (#[trigger] tabs[k]) < procs.len(),
    ensures
        reaped_all(procs.push(x), tabs) == reaped_all(procs, tabs).push(x),
        reaped_all(procs, tabs).len() == procs.len(),
    decreases tabs.len(),
{
    if tabs.len() > 0 {
        lemma_reap_ignores_later_slot(procs, x, tabs.drop_last());
        assert(reaped_all(procs, tabs.drop_last()).push(x).update(tabs.last() as int, None)
            =~= reaped_all(procs, tabs.drop_last()).update(tabs.last() as int, None).push(x));
    }
}

/// Once every process of the kill list has been reaped (and marked so, in
/// the list's order), no tab holds a process any more.
pub proof fn lemma_kill_all_leaves_none(procs: Seq<Option<u32>>)
    requires
        procs.len() <= usize::MAX,
    ensures
        reaped_all(procs, tabs_of(live_processes(procs))).len() == procs.len(),
        forall|i: int|
            0 <= i < procs.len() ==> #[trigger] reaped_all(procs, tabs_of(live_processes(procs)))[i]
                is None,
    decreases procs.len(),
{
    if procs.len() > 0 {
        let p = procs.drop_last();
        let x = procs.last();
        lemma_kill_all_leaves_none(p);
        lemma_live_tabs_in_range(p);
        let tp = tabs_of(live_processes(p));
        lemma_reap_ignores_later_slot(p, x, tp);
        assert(p.push(x) =~= procs);
        match x {
            Some(pid) => {
                let t = tabs_of(live_processes(procs));
                assert(t =~= tp.push((procs.len() - 1) as usize));
                assert(t.drop_last() =~= tp);
                assert(reaped_all(procs, t) == reaped_all(procs, tp).update(procs.len() - 1, None));
                assert forall|i: int| 0 <= i < procs.len() implies #[trigger] reaped_all(procs, t)[i] is None by {
                    if i < procs.len() - 1 {
                        assert(reaped_all(procs, tp)[i] == reaped_all(p, tp)[i]);
                    }
                }
            },
            None => {
                let t = tabs_of(live_processes(procs));
                assert(t =~= tp);
                assert forall|i: int| 0 <= i < procs.len() implies #[trigger] reaped_all(procs, t)[i] is None by {
                    if i < procs.len() - 1 {
                        assert(reaped_all(procs, tp)[i] == reaped_all(p, tp)[i]);
                    }
                }
            },
        }
    }
}

/// The application state.
pub struct App {
    tab_manager: TabManager,
    mode: Mode,
    search_state: SearchState,
    should_quit: bool,
    pending_restart: Option<usize>,
    processes: Vec<Option<u32>>,
}

impl App {
    /// The tabs.
    pub closed spec fn tabs_view(&self) -> TabManager {
        self.tab_manager
    }

    /// The mode.
    pub closed spec fn mode_view(&self) -> Mode {
        self.mode
    }

    /// The search state.
    pub closed spec fn search_view(&self) -> SearchState {
        self.search_state
    }

    /// Whether the application should quit.
    pub closed spec fn quit_view(&self) -> bool {
        self.should_quit
    }

    /// The tab whose restart was asked for, if any.
    pub closed spec fn pending_view(&self) -> Option<usize> {
        self.pending_restart
    }

    /// For each tab, the id of the process held for it, if any: at most one
    /// per tab.
    pub closed spec fn procs_view(&self) -> Seq<Option<u32>> {
        self.processes@
    }

    /// The tabs and the search are consistent, with one process slot per tab.
    pub open spec fn wf(&self) -> bool {
        &&& self.tabs_view().wf()
        &&& self.search_view().wf()
        &&& self.procs_view().len() == self.tabs_view().tabs_view().len()
    }

    /// All state but the tabs and the processes held is that of `o`.
    pub open spec fn others_eq(&self, o: App) -> bool {
        &&& self.mode_view() == o.mode_view()
        &&& self.search_view() == o.search_view()
        &&& self.quit_view() == o.quit_view()
        &&& self.pending_view() == o.pending_view()
    }

    /// One fresh tab per command, in normal mode, with an empty search and no
    /// process held.
    pub fn new(commands: Vec<String>, max_buffer_lines: usize) -> (r: App)
        ensures
            r.wf(),
            r.tabs_view().tabs_view().len() == commands@.len(),
            r.tabs_view().active_view() == 0,
            forall|i: int|
                0 <= i < commands@.len() ==> {
                    let t = #[trigger] r.tabs_view().tabs_view()[i];
                    &&& t.command_view() == commands@[i]@
                    &&& t.buffer_view().lines_view().len() == 0
                    &&& t.buffer_view().max_view() == max_buffer_lines
                    &&& t.status_view() == CommandStatus::Running
                },
            r.mode_view() == Mode::Normal,
            r.search_view().query_view().len() == 0,
            r.search_view().matches_view().len() == 0,
            !r.quit_view(),
            r.pending_view() is None,
            forall|i: int| 0 <= i < r.procs_view().len() ==> r.procs_view()[i] is None,
    {
        let n = commands.len();
        let tab_manager = TabManager::new(commands, max_buffer_lines);
        let mut processes: Vec<Option<u32>> = Vec::new();
        let mut i: usize = 0;
        while i < n
            invariant
                i <= n,
                processes@.len() == i,
                forall|j: int| 0 <= j < i ==> processes@[j] is None,
            decreases n - i,
        {
            processes.push(None);
            i = i + 1;
        }
        App {
            tab_manager,
            mode: Mode::Normal,
            search_state: SearchState::new(),
            should_quit: false,
            pending_restart: None,
            processes,
        }
    }

    /// The commands of the tabs, in order, to spawn one process each.
    pub fn commands(&self) -> (r: Vec<String>)
        ensures
            r@.len() == self.tabs_view().tabs_view().len(),
            forall|i: int|
                0 <= i < r@.len() ==> (#[trigger] r@[i])@ == self.tabs_view().tabs_view()[i].command_view(),
    {
        let mut r: Vec<String> = Vec::new();
        let n = self.tab_manager.len();
        let mut i: usize = 0;
        while i < n
            invariant
                n == self.tab_manager.tabs_view().len(),
                i <= n,
                r@.len() == i,
                forall|j: int|
                    0 <= j < i ==> (#[trigger] r@[j])@ == self.tab_manager.tabs_view()[j].command_view(),
            decreases n - i,
        {
            match self.tab_manager.get_tab(i) {
                Some(tab) => r.push(tab.command().to_owned()),
                None => {},
            }
            i = i + 1;
        }
        r
    }

    /// Records how starting the process of tab `tab_index` went: a started
    /// process is held for the tab, while a failure is returned as the
    /// `Failed` event to send to the dispatcher. A tab out of range, or one
    /// that still has a process, tracks nothing new.
    pub fn record_spawn(&mut self, tab_index: usize, outcome: Result<u32, String>) -> (r: Option<
        AppEvent,
    >)
        requires
            old(self).wf(),
            tab_index < old(self).procs_view().len() ==> old(self).procs_view()[tab_index as int] is None,
        ensures
            final(self).wf(),
            final(self).tabs_view() == old(self).tabs_view(),
            final(self).others_eq(*old(self)),
            match outcome {
                Ok(pid) => r is None && final(self).procs_view() == (if tab_index < old(
                    self,
                ).procs_view().len() {
                    old(self).procs_view().update(tab_index as int, Some(pid))
                } else {
                    old(self).procs_view()
                }),
                Err(reason) => r == Some(AppEvent::Failed { tab_index, reason })
                    && final(self).procs_view() == old(self).procs_view(),
            },
    {
        match outcome {
            Ok(pid) => {
                if tab_index < self.processes.len() {
                    self.processes.set(tab_index, Some(pid));
                }
                None
            },
            Err(reason) => Some(AppEvent::Failed { tab_index, reason }),
        }
    }

    /// The process held for tab `tab_index`, if any.
    pub fn process_of(&self, tab_index: usize) -> (r: Option<u32>)
        ensures
            r == (if tab_index < self.procs_view().len() {
                self.procs_view()[tab_index as int]
            } else {
                None
            }),
    {
        if tab_index < self.processes.len() {
            self.processes[tab_index]
        } else {
            None
        }
    }

    /// The tabs with a process, in order, with the process id, which
    /// is also the id of the process group to kill.
    pub fn kill_list(&self) -> (r: Vec<(usize, u32)>)
        ensures
            r@ == live_processes(self.procs_view()),
    {
        let mut r: Vec<(usize, u32)> = Vec::new();
        let mut i: usize = 0;
        while i < self.processes.len()
            invariant
                i <= self.processes@.len(),
                r@ == live_processes(self.processes@.subrange(0, i as int)),
            decreases self.processes.len() - i,
        {
            proof {
                assert(self.processes@.subrange(0, i + 1).drop_last() =~= self.processes@.subrange(
                    0,
                    i as int,
                ));
            }
            match self.processes[i] {
                Some(pid) => r.push((i, pid)),
                None => {},
            }
            i = i + 1;
        }
        assert(self.processes@.subrange(0, self.processes@.len() as int) =~= self.processes@);
        r
    }

    /// Stops tracking the process of tab `tab_index`, once it has been reaped.
    pub fn mark_reaped(&mut self, tab_index: usize)
        requires
            old(self).wf(),
        ensures
            final(self).wf(),
            final(self).tabs_view() == old(self).tabs_view(),
            final(self).others_eq(*old(self)),
            final(self).procs_view() == (if tab_index < old(self).procs_view().len() {
                old(self).procs_view().update(tab_index as int, None)
            } else {
                old(self).procs_view()
            }),
    {
        if tab_index < self.processes.len() {
            self.processes.set(tab_index, None);
        }
    }

    /// Starts over tab `tab_index` for a restart, once no process is held
    /// for it any more: the buffer is emptied, the status is `Running`, the
    /// scroll state is reset, and the command to spawn is returned. While the
    /// old process is still held, or for a tab out of range, nothing
    /// changes and `None` is returned.
    pub fn reset_for_restart(&mut self, tab_index: usize) -> (r: Option<String>)
        requires
            old(self).wf(),
        ensures
            final(self).wf(),
            final(self).others_eq(*old(self)),
            final(self).procs_view() == old(self).procs_view(),
            final(self).tabs_view().active_view() == old(self).tabs_view().active_view(),
            (tab_index < old(self).procs_view().len() && old(self).procs_view()[tab_index as int] is None)
                ==> {
                let o = old(self).tabs_view().tabs_view()[tab_index as int];
                let t = final(self).tabs_view().tabs_view()[tab_index as int];
                &&& r matches Some(c) && c@ == o.command_view()
                &&& t.buffer_view().lines_view().len() == 0
                &&& t.buffer_view().max_view() == o.buffer_view().max_view()
                &&& t.status_view() == CommandStatus::Running
                &&& t.scroll_view() == 0
                &&& t.hscroll_view() == 0
                &&& t.auto_scroll_view()
                &&& t.command_view() == o.command_view()
                &&& final(self).tabs_view().tabs_view().len() == old(self).tabs_view().tabs_view().len()
                &&& forall|j: int|
                    0 <= j < final(self).tabs_view().tabs_view().len() && j != tab_index
                        ==> #[trigger] final(self).tabs_view().tabs_view()[j] == old(self).tabs_view().tabs_view()[j]
            },
            !(tab_index < old(self).procs_view().len() && old(self).procs_view()[tab_index as int] is None)
                ==> r is None && final(self).tabs_view() == old(self).tabs_view(),
    {
        if tab_index >= self.processes.len() || self.processes[tab_index].is_some() {
            return None;
        }
        let ghost old_tabs = self.tab_manager.tabs_view();
        match self.tab_manager.get_tab_mut(tab_index) {
            Some(tab) => {
                tab.reset();
                let c = tab.command().to_owned();
                proof {
                    assert forall|j: int| 0 <= j < self.tab_manager.tabs_view().len() implies
                        (#[trigger] self.tab_manager.tabs_view()[j]).wf() by {
                        if j != tab_index {
                            assert(self.tab_manager.tabs_view()[j] == old_tabs[j]);
                        }
                    }
                }
                Some(c)
            },
            None => None,
        }
    }

    /// Applies one event to the tab it is for: output is appended to the
    /// buffer (following it when the tab does); a start failure sets the
    /// status of a running command, and so does the exit of the process held
    /// for the tab, which is then no longer held. A stale exit (of a process
    /// that is not the one held for the tab) or an event for a tab out of
    /// range changes nothing, and so does output for an unbounded buffer that
    /// already holds `usize::MAX` lines.
    pub fn handle_app_event(&mut self, event: AppEvent)
        requires
            old(self).wf(),
        ensures
            final(self).wf(),
            final(self).others_eq(*old(self)),
            final(self).procs_view() == procs_after(old(self).procs_view(), event),
            !event_applies(old(self).procs_view(), event) ==> final(self).tabs_view() == old(
                self,
            ).tabs_view(),
            final(self).tabs_view().active_view() == old(self).tabs_view().active_view(),
            final(self).tabs_view().tabs_view().len() == old(self).tabs_view().tabs_view().len(),
            forall|j: int|
                0 <= j < final(self).tabs_view().tabs_view().len() && j != event_tab(event)
                    ==> #[trigger] final(self).tabs_view().tabs_view()[j] == old(self).tabs_view().tabs_view()[j],
            event_tab(event) < old(self).tabs_view().tabs_view().len() && event_applies(
                old(self).procs_view(),
                event,
            ) ==> {
                let o = old(self).tabs_view().tabs_view()[event_tab(event) as int];
                let t = final(self).tabs_view().tabs_view()[event_tab(event) as int];
                &&& t.status_view() == status_after(o.status_view(), event)
                &&& t.command_view() == o.command_view()
                &&& t.buffer_view().max_view() == o.buffer_view().max_view()
                &&& t.hscroll_view() == o.hscroll_view()
                &&& t.auto_scroll_view() == o.auto_scroll_view()
                &&& t.visible_view() == o.visible_view()
                &&& match event {
                    AppEvent::Output { line, .. } => if o.buffer_view().max_view() > 0
                        || o.buffer_view().lines_view().len() < usize::MAX {
                        &&& t.buffer_view().lines_view() == pushed(
                            o.buffer_view().lines_view(),
                            line,
                            o.buffer_view().max_view(),
                        )
                        &&& t.scroll_view() == (if o.auto_scroll_view() {
                            t.max_scroll_view() as usize
                        } else {
                            o.scroll_view()
                        })
                    } else {
                        t == o
                    },
                    _ => {
                        &&& t.buffer_view() == o.buffer_view()
                        &&& t.scroll_view() == o.scroll_view()
                    },
                }
            },
    {
        let ghost old_tabs = self.tab_manager.tabs_view();
        let ghost ev = event;
        match event {
            AppEvent::Output { tab_index, line } => {
                if let Some(tab) = self.tab_manager.get_tab_mut(tab_index) {
                    if tab.buffer().max_lines() > 0 || tab.buffer().len() < usize::MAX {
                        tab.push_output(line);
                    }
                }
            },
            AppEvent::Exited { tab_index, pid, exit_code } => {
                let held = tab_index < self.processes.len() && match self.processes[tab_index] {
                    Some(p) => p == pid,
                    None => false,
                };
                if held {
                    self.processes.set(tab_index, None);
                    if let Some(tab) = self.tab_manager.get_tab_mut(tab_index) {
                        if matches!(tab.status(), CommandStatus::Running) {
                            tab.set_status(CommandStatus::Finished { exit_code });
                        }
                    }
                }
            },
            AppEvent::Failed { tab_index, reason } => {
                if let Some(tab) = self.tab_manager.get_tab_mut(tab_index) {
                    if matches!(tab.status(), CommandStatus::Running) {
                        tab.set_status(CommandStatus::Failed { reason });
                    }
                }
            },
        }
        proof {
            assert forall|j: int| 0 <= j < self.tab_manager.tabs_view().len() implies
                (#[trigger] self.tab_manager.tabs_view()[j]).wf() by {
                if j != event_tab(ev) {
                    assert(self.tab_manager.tabs_view()[j] == old_tabs[j]);
                }
            }
        }
    }

    /// Whether the application should quit.
    pub fn should_quit(&self) -> (r: bool)
        ensures
            r == self.quit_view(),
    {
        self.should_quit
    }

    /// Asks the application to quit.
    pub fn quit(&mut self)
        ensures
            final(self).quit_view(),
            final(self).mode_view() == old(self).mode_view(),
            final(self).search_view() == old(self).search_view(),
            final(self).pending_view() == old(self).pending_view(),
            final(self).tabs_view() == old(self).tabs_view(),
            final(self).procs_view() == old(self).procs_view(),
    {
        self.should_quit = true;
    }

    /// The current mode.
    pub fn mode(&self) -> (r: Mode)
        ensures
            r == self.mode_view(),
    {
        self.mode
    }

    /// Switches to `mode`.
    pub fn set_mode(&mut self, mode: Mode)
        ensures
            final(self).mode_view() == mode,
            final(self).quit_view() == old(self).quit_view(),
            final(self).search_view() == old(self).search_view(),
            final(self).pending_view() == old(self).pending_view(),
            final(self).tabs_view() == old(self).tabs_view(),
            final(self).procs_view() == old(self).procs_view(),
    {
        self.mode = mode;
    }

    /// The tabs.
    pub fn tab_manager(&self) -> (r: &TabManager)
        ensures
            *r == self.tabs_view(),
    {
        &self.tab_manager
    }

    /// The tabs, to change.
    pub fn tab_manager_mut(&mut self) -> (r: &mut TabManager)
        ensures
            *r == old(self).tabs_view(),
            final(self).tabs_view() == *final(r),
            final(self).others_eq(*old(self)),
            final(self).procs_view() == old(self).procs_view(),
    {
        &mut self.tab_manager
    }

    /// The search state.
    pub fn search_state(&self) -> (r: &SearchState)
        ensures
            *r == self.search_view(),
    {
        &self.search_state
    }

    /// The search state, to change.
    pub fn search_state_mut(&mut self) -> (r: &mut SearchState)
        ensures
            *r == old(self).search_view(),
            final(self).search_view() == *final(r),
            final(self).tabs_view() == old(self).tabs_view(),
            final(self).procs_view() == old(self).procs_view(),
            final(self).mode_view() == old(self).mode_view(),
            final(self).quit_view() == old(self).quit_view(),
            final(self).pending_view() == old(self).pending_view(),
    {
        &mut self.search_state
    }

    /// Searches the active tab's buffer for `query`; there must be a tab.
    pub fn search_in_current_tab(&mut self, query: &str)
        requires
            old(self).wf(),
            old(self).tabs_view().tabs_view().len() > 0,
        ensures
            final(self).wf(),
            final(self).search_view().query_view() == query@,
            final(self).search_view().matches_view() == search_result(
                old(self).tabs_view().tabs_view()[old(self).tabs_view().active_view() as int].buffer_view().lines_view(),
                query@,
            ),
            final(self).search_view().current_view() == (if final(self).search_view().matches_view().len() > 0 {
                Some(0usize)
            } else {
                None
            }),
            final(self).tabs_view() == old(self).tabs_view(),
            final(self).procs_view() == old(self).procs_view(),
            final(self).mode_view() == old(self).mode_view(),
            final(self).quit_view() == old(self).quit_view(),
            final(self).pending_view() == old(self).pending_view(),
    {
        let buffer = self.tab_manager.current_tab().buffer();
        self.search_state.search(query, buffer);
    }

    /// Asks for tab `tab_index` to be restarted before the next process step.
    pub fn request_restart(&mut self, tab_index: usize)
        ensures
            final(self).pending_view() == Some(tab_index),
            final(self).mode_view() == old(self).mode_view(),
            final(self).search_view() == old(self).search_view(),
            final(self).quit_view() == old(self).quit_view(),
            final(self).tabs_view() == old(self).tabs_view(),
            final(self).procs_view() == old(self).procs_view(),
    {
        self.pending_restart = Some(tab_index);
    }

    /// Takes the restart request, if any, leaving none.
    pub fn take_pending_restart(&mut self) -> (r: Option<usize>)
        ensures
            r == old(self).pending_view(),
            final(self).pending_view() is None,
            final(self).mode_view() == old(self).mode_view(),
            final(self).search_view() == old(self).search_view(),
            final(self).quit_view() == old(self).quit_view(),
            final(self).tabs_view() == old(self).tabs_view(),
            final(self).procs_view() == old(self).procs_view(),
    {
        let r = self.pending_restart;
        self.pending_restart = None;
        r
    }
}

} // verus!
