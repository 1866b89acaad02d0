use vstd::prelude::*;
use crate::types::{AppState, AppStateEvent, AppStateEventView, TrackedApp};

verus! {

/// What the tracker knows of one process: its caller-chosen label and whether
/// it was alive at the last observation.
pub type AppRecord = (Seq<char>, bool);

/// The label under which a process found by the discovery scan is tracked.
pub open spec fn discovered_app_id() -> Seq<char> {
    seq!['F', 'o', 'r', 't', 'n', 'i', 't', 'e']
}

/// The table after `register(pid, app_id)`: the entry is overwritten and marked running.
pub open spec fn registered(t: Map<u32, AppRecord>, pid: u32, app_id: Seq<char>) -> Map<u32, AppRecord> {
    t.insert(pid, (app_id, true))
}

/// The table after the discovery scan found `pid`: an unknown process is added
/// as not running, so that the next observation reports it as started.
pub open spec fn discovered(t: Map<u32, AppRecord>, pid: u32) -> Map<u32, AppRecord> {
    if t.contains_key(pid) {
        t
    } else {
        t.insert(pid, (discovered_app_id(), false))
    }
}

/// The transition that observing `pid` as `present` causes, if any.
pub open spec fn transition(t: Map<u32, AppRecord>, pid: u32, present: bool) -> Option<AppState> {
    if !t.contains_key(pid) {
        None
    } else if present && !t[pid].1 {
        Some(AppState::Running)
    } else if !present && t[pid].1 {
        Some(AppState::Stopped)
    } else {
        None
    }
}

/// The table after observing `pid` as `present`: a transition flips the flag.
pub open spec fn observed(t: Map<u32, AppRecord>, pid: u32, present: bool) -> Map<u32, AppRecord> {
    match transition(t, pid, present) {
        Some(s) => t.insert(pid, (t[pid].0, s == AppState::Running)),
        None => t,
    }
}

/// One poll tick over a list of observations, taken in order: the resulting
/// table, the published transitions, and the processes marked for removal.
pub open spec fn tick(t: Map<u32, AppRecord>, obs: Seq<(u32, bool)>) -> (
    Map<u32, AppRecord>,
    Seq<AppStateEventView>,
    Seq<u32>,
)
    decreases obs.len(),
{
    if obs.len() == 0 {
        (t, Seq::empty(), Seq::empty())
    } else {
        let (t1, evs, marked) = tick(t, obs.drop_last());
        let (pid, present) = obs.last();
        match transition(t1, pid, present) {
            Some(s) => {
                let ev = AppStateEventView { pid, app_id: t1[pid].0, state: s };
                let marked2 = if s == AppState::Stopped {
                    marked.push(pid)
                } else {
                    marked
                };
                (observed(t1, pid, present), evs.push(ev), marked2)
            },
            None => (t1, evs, marked),
        }
    }
}

/// Whether the deferred removal of `pid` deletes its entry: only a process that
/// is still recorded as stopped when the removal fires goes.
pub open spec fn removable(t: Map<u32, AppRecord>, pids: Seq<u32>, pid: u32) -> bool {
    pids.contains(pid) && t.contains_key(pid) && !t[pid].1
}

/// The table after the deferred removal of `pids`.
pub open spec fn swept(t: Map<u32, AppRecord>, pids: Seq<u32>) -> Map<u32, AppRecord> {
    Map::new(|p: u32| t.contains_key(p) && !removable(t, pids, p), |p: u32| t[p])
}

/// Registering the same process twice before any poll tick leaves one entry,
/// marked running under the second label, exactly as one registration would.
pub proof fn lemma_register_twice(t: Map<u32, AppRecord>, pid: u32, first: Seq<char>, second: Seq<char>)
    ensures
        registered(registered(t, pid, first), pid, second) == registered(t, pid, second),
        registered(registered(t, pid, first), pid, second).dom() == t.dom().insert(pid),
        registered(registered(t, pid, first), pid, second)[pid] == (second, true),
{
    assert(registered(registered(t, pid, first), pid, second) =~= registered(t, pid, second));
}

/// A single observation flips the running flag of a tracked process at most
/// once and reports exactly that flip: running only from stopped, stopped only
/// from running. It never adds, removes or relabels an entry.
pub proof fn lemma_observation_flips(t: Map<u32, AppRecord>, pid: u32, present: bool)
    ensures
        observed(t, pid, present).dom() == t.dom(),
        forall|p: u32| #[trigger] t.contains_key(p) ==> observed(t, pid, present)[p].0 == t[p].0,
        transition(t, pid, present) == Some(AppState::Running) ==> !t[pid].1 && observed(
            t,
            pid,
            present,
        )[pid].1,
        transition(t, pid, present) == Some(AppState::Stopped) ==> t[pid].1 && !observed(
            t,
            pid,
            present,
        )[pid].1,
        transition(t, pid, present) is None ==> observed(t, pid, present) == t,
        t.contains_key(pid) ==> observed(t, pid, present)[pid].1 == present,
{
    if transition(t, pid, present) is Some {
        assert(observed(t, pid, present).dom() =~= t.dom());
    }
}

/// A poll tick keeps the set of tracked processes and their labels, and
/// marks for removal only processes that were tracked.
pub proof fn lemma_tick_keeps_entries(t: Map<u32, AppRecord>, obs: Seq<(u32, bool)>)
    ensures
        tick(t, obs).0.dom() == t.dom(),
        forall|p: u32| #[trigger] t.contains_key(p) ==> tick(t, obs).0[p].0 == t[p].0,
        forall|p: u32| #[trigger] tick(t, obs).2.contains(p) ==> t.contains_key(p),
    decreases obs.len(),
{
    if obs.len() > 0 {
        lemma_tick_keeps_entries(t, obs.drop_last());
        let (t1, evs, marked) = tick(t, obs.drop_last());
        let (pid, present) = obs.last();
        lemma_observation_flips(t1, pid, present);
        assert forall|p: u32| #[trigger] tick(t, obs).2.contains(p) implies t.contains_key(p) by {
            if !marked.contains(p) {
                assert(tick(t, obs).2 =~= marked.push(pid));
                let k = choose|k: int| 0 <= k < tick(t, obs).2.len() && tick(t, obs).2[k] == p;
                if k < marked.len() {
                    assert(marked[k] == p);
                }
            }
        }
    }
}

/// A process that a tick reported stopped is still in the table, so that
/// subscribers can read it; the deferred removal then deletes it if it is
/// still stopped, and keeps it, running, if it was registered again first.
pub proof fn lemma_stop_then_removal(t: Map<u32, AppRecord>, obs: Seq<(u32, bool)>, pid: u32, app_id: Seq<char>)
    requires
        tick(t, obs).2.contains(pid),
    ensures
        tick(t, obs).0.contains_key(pid),
        !tick(t, obs).0[pid].1 ==> !swept(tick(t, obs).0, tick(t, obs).2).contains_key(pid),
        swept(registered(tick(t, obs).0, pid, app_id), tick(t, obs).2).contains_key(pid),
        swept(registered(tick(t, obs).0, pid, app_id), tick(t, obs).2)[pid] == (app_id, true),
{
    lemma_tick_keeps_entries(t, obs);
}

/// Why an operation on the tracker failed.
#[derive(Debug, Clone, Copy, PartialEq, Eq, Structural)]
pub enum MonitorError {
    /// No tracked process carries the requested label.
    NotFound,
    /// The operating system refused to terminate the process.
    KillFailed,
}

/// Whether `x` occurs in `v`.
fn list_contains(v: &Vec<u32>, x: u32) -> (r: bool)
    ensures
        r == v@.contains(x),
{
    let mut i: usize = 0;
    while i < v.len()
        invariant
            i <= v.len(),
            forall|k: int| 0 <= k < i ==> v[k] != x,
        decreases v.len() - i,
    {
        if v[i] == x {
            return true;
        }
        i = i + 1;
    }
    false
}

/// The outcome of terminating a tracked process: a process that is already
/// gone counts as stopped; one that refused the signal is an error.
pub fn stop_result(process_found: bool, signal_sent: bool) -> (r: Result<bool, MonitorError>)
    ensures
        r == (if process_found && !signal_sent {
            Err::<bool, MonitorError>(MonitorError::KillFailed)
        } else {
            Ok::<bool, MonitorError>(true)
        }),
{
    if process_found && !signal_sent {
        Err(MonitorError::KillFailed)
    } else {
        Ok(true)
    }
}

/// The mathematical values of a list of transitions.
pub open spec fn event_views(evs: Seq<AppStateEvent>) -> Seq<AppStateEventView> {
    evs.map_values(|e: AppStateEvent| e@)
}

/// The transitions and removals that one poll tick produced.
pub struct TickOutcome {
    pub events: Vec<AppStateEvent>,
    pub stopped: Vec<u32>,
}

/// The table of tracked processes, keyed by process id.
pub struct AppMonitor {
    apps: Vec<TrackedApp>,
    model: Ghost<Map<u32, AppRecord>>,
}

/// The record that an entry of the table stands for.
pub open spec fn record_of(a: TrackedApp) -> AppRecord {
    (a.app_id@, a.is_running)
}

impl AppMonitor {
    /// The table as a map from process id to record.
    pub closed spec fn view(&self) -> Map<u32, AppRecord> {
        self.model@
    }

    /// Each process id occurs once, and the entries are exactly the map.
    pub closed spec fn wf(&self) -> bool {
        &&& forall|i: int, j: int|
            0 <= i < j < self.apps.len() ==> self.apps[i].pid != self.apps[j].pid
        &&& forall|i: int|
            0 <= i < self.apps.len() ==> #[trigger] self.model@.contains_key(self.apps[i].pid)
                && self.model@[self.apps[i].pid] == record_of(self.apps[i])
        &&& forall|p: u32|
            #[trigger] self.model@.contains_key(p) ==> exists|i: int|
                0 <= i < self.apps.len() && self.apps[i].pid == p
    }

    /// An empty table.
    pub fn new() -> (r: Self)
        ensures
            r.wf(),
            r.view() == Map::<u32, AppRecord>::empty(),
    {
        AppMonitor { apps: Vec::new(), model: Ghost(Map::empty()) }
    }

    /// The position of `pid` in the table, if it is tracked.
    fn index_of(&self, pid: u32) -> (r: Option<usize>)
        requires
            self.wf(),
        ensures
            match r {
                Some(i) => i < self.apps.len() && self.apps[i as int].pid == pid,
                None => !self.view().contains_key(pid),
            },
    {
        let mut i: usize = 0;
        while i < self.apps.len()
            invariant
                self.wf(),
                i <= self.apps.len(),
                forall|k: int| 0 <= k < i ==> self.apps[k].pid != pid,
            decreases self.apps.len() - i,
        {
            if self.apps[i].pid == pid {
                return Some(i);
            }
            i = i + 1;
        }
        None
    }

    /// Overwrites the entry of `pid`, or appends one, with the given record.
    fn put(&mut self, pid: u32, app_id: String, is_running: bool)
        requires
            old(self).wf(),
        ensures
            final(self).wf(),
            final(self).view() == old(self).view().insert(pid, (app_id@, is_running)),
    {
        let entry = TrackedApp { pid, app_id, is_running };
        let ghost rec = record_of(entry);
        let ghost m = self.model@.insert(pid, rec);
        match self.index_of(pid) {
            Some(i) => {
                self.apps.set(i, entry);
                self.model = Ghost(m);
                assert forall|k: int| 0 <= k < self.apps.len() && k != i implies
                    #[trigger] self.apps[k].pid != pid by {
                    assert(old(self).apps[k].pid != old(self).apps[i as int].pid);
                }
                assert forall|p: u32| #[trigger] m.contains_key(p) implies exists|k: int|
                    0 <= k < self.apps.len() && self.apps[k].pid == p by {
                    if p != pid {
                        assert(old(self).model@.contains_key(p));
                        let k = choose|k: int| 0 <= k < old(self).apps.len() && old(self).apps[k].pid == p;
                        assert(self.apps[k].pid == p);
                    } else {
                        assert(self.apps[i as int].pid == p);
                    }
                }
            },
            None => {
                self.apps.push(entry);
                self.model = Ghost(m);
                assert forall|k: int| 0 <= k < old(self).apps.len() implies
                    #[trigger] self.apps[k].pid != pid by {
                    assert(old(self).model@.contains_key(old(self).apps[k].pid));
                }
                assert forall|p: u32| #[trigger] m.contains_key(p) implies exists|k: int|
                    0 <= k < self.apps.len() && self.apps[k].pid == p by {
                    if p != pid {
                        assert(old(self).model@.contains_key(p));
                        let k = choose|k: int| 0 <= k < old(self).apps.len() && old(self).apps[k].pid == p;
                        assert(self.apps[k].pid == p);
                    } else {
                        assert(self.apps[self.apps.len() - 1].pid == p);
                    }
                }
            },
        }
    }

    /// Registers a newly launched process under `app_id`, marked running.
    /// A process already tracked under the same id is overwritten.
    pub fn track_app(&mut self, pid: u32, app_id: &str)
        requires
            old(self).wf(),
        ensures
            final(self).wf(),
            final(self).view() == registered(old(self).view(), pid, app_id@),
    {
        self.put(pid, app_id.to_owned(), true);
    }

    /// Adds a process found by the discovery scan, unless it is tracked already.
    pub fn track_discovered(&mut self, pid: u32)
        requires
            old(self).wf(),
        ensures
            final(self).wf(),
            final(self).view() == discovered(old(self).view(), pid),
    {
        if self.index_of(pid).is_none() {
            let label = String::from_str("Fortnite");
            proof {
                reveal_strlit("Fortnite");
                assert(label@ =~= discovered_app_id());
            }
            self.put(pid, label, false);
        }
    }

    /// A copy of every entry of the table, each process once.
    pub fn get_tracked_apps(&self) -> (r: Vec<TrackedApp>)
        requires
            self.wf(),
        ensures
            forall|i: int, j: int| 0 <= i < j < r.len() ==> r[i].pid != r[j].pid,
            forall|i: int|
                0 <= i < r.len() ==> #[trigger] self.view().contains_key(r[i].pid)
                    && self.view()[r[i].pid] == record_of(r[i]),
            forall|p: u32|
                #[trigger] self.view().contains_key(p) ==> exists|i: int|
                    0 <= i < r.len() && r[i].pid == p,
    {
        let mut r: Vec<TrackedApp> = Vec::new();
        let mut i: usize = 0;
        while i < self.apps.len()
            invariant
                self.wf(),
                i <= self.apps.len(),
                r.len() == i,
                forall|k: int| 0 <= k < i ==> r[k].pid == self.apps[k].pid
                    && record_of(#[trigger] r[k]) == record_of(self.apps[k]),
            decreases self.apps.len() - i,
        {
            let a = &self.apps[i];
            r.push(TrackedApp { pid: a.pid, app_id: a.app_id.clone(), is_running: a.is_running });
            i = i + 1;
        }
        assert forall|p: u32| #[trigger] self.view().contains_key(p) implies exists|k: int|
            0 <= k < r.len() && r[k].pid == p by {
            let k = choose|k: int| 0 <= k < self.apps.len() && self.apps[k].pid == p;
            assert(r[k].pid == p);
        }
        r
    }

    /// Applies one poll tick: `observations` lists, in order, each process that
    /// was looked up and whether the operating system still knows it. Returns
    /// the transitions to publish and the processes to remove after the delay.
    pub fn poll_tick(&mut self, observations: &Vec<(u32, bool)>) -> (r: TickOutcome)
        requires
            old(self).wf(),
        ensures
            final(self).wf(),
            (final(self).view(), event_views(r.events@), r.stopped@) == tick(
                old(self).view(),
                observations@,
            ),
    {
        let mut events: Vec<AppStateEvent> = Vec::new();
        let mut stopped: Vec<u32> = Vec::new();
        let mut i: usize = 0;
        while i < observations.len()
            invariant
                self.wf(),
                i <= observations.len(),
                (self.view(), event_views(events@), stopped@) == tick(
                    old(self).view(),
                    observations@.take(i as int),
                ),
            decreases observations.len() - i,
        {
            let (pid, present) = observations[i];
            let ghost t1 = self.view();
            proof {
                assert(observations@.take(i + 1).drop_last() =~= observations@.take(i as int));
                assert(observations@.take(i + 1).last() == (pid, present));
            }
            match self.index_of(pid) {
                Some(k) => {
                    let running = self.apps[k].is_running;
                    assert(self.model@.contains_key(self.apps[k as int].pid));
                    assert(t1[pid] == record_of(self.apps[k as int]));
                    if present != running {
                        let id = self.apps[k].app_id.clone();
                        let state = if present {
                            AppState::Running
                        } else {
                            AppState::Stopped
                        };
                        let ev = AppStateEvent { pid, app_id: id.clone(), state };
                        let ghost before = events@;
                        events.push(ev);
                        if !present {
                            stopped.push(pid);
                        }
                        self.put(pid, id, present);
                        proof {
                            assert(event_views(events@) =~= event_views(before).push(ev@));
                        }
                    }
                },
                None => {},
            }
            i = i + 1;
        }
        proof {
            assert(observations@.take(observations.len() as int) =~= observations@);
        }
        TickOutcome { events, stopped }
    }

    /// The deferred removal of processes that a tick reported stopped. Each
    /// listed process is deleted only if it is still recorded as stopped, so an
    /// entry registered again in the meantime stays.
    pub fn remove_stopped(&mut self, pids: &Vec<u32>)
        requires
            old(self).wf(),
        ensures
            final(self).wf(),
            final(self).view() == swept(old(self).view(), pids@),
    {
        let ghost t = self.view();
        let mut kept: Vec<TrackedApp> = Vec::new();
        let mut i: usize = 0;
        while i < self.apps.len()
            invariant
                self.wf(),
                t == self.view(),
                i <= self.apps.len(),
                forall|a: int, b: int| 0 <= a < b < kept.len() ==> kept[a].pid != kept[b].pid,
                forall|a: int|
                    0 <= a < kept.len() ==> exists|j: int|
                        0 <= j < i && self.apps[j].pid == #[trigger] kept[a].pid,
                forall|a: int|
                    0 <= a < kept.len() ==> t.contains_key(#[trigger] kept[a].pid)
                        && t[kept[a].pid] == record_of(kept[a])
                        && !removable(t, pids@, kept[a].pid),
                forall|j: int|
                    0 <= j < i && !removable(t, pids@, #[trigger] self.apps[j].pid) ==> exists|a: int|
                        0 <= a < kept.len() && kept[a].pid == self.apps[j].pid,
            decreases self.apps.len() - i,
        {
            let a = &self.apps[i];
            assert(t.contains_key(self.apps[i as int].pid));
            let gone = list_contains(pids, a.pid) && !a.is_running;
            if !gone {
                let ghost before = kept@;
                kept.push(TrackedApp { pid: a.pid, app_id: a.app_id.clone(), is_running: a.is_running });
                assert forall|b: int| 0 <= b < before.len() implies kept[b].pid != self.apps[i as int].pid by {
                    let j = choose|j: int| 0 <= j < i && self.apps[j].pid == before[b].pid;
                    assert(self.apps[j].pid != self.apps[i as int].pid);
                }
                assert forall|j: int| 0 <= j < i + 1 && !removable(t, pids@, #[trigger] self.apps[j].pid)
                    implies exists|c: int| 0 <= c < kept.len() && kept[c].pid == self.apps[j].pid by {
                    if j == i {
                        assert(kept[kept.len() - 1].pid == self.apps[j].pid);
                    } else {
                        let c = choose|c: int| 0 <= c < before.len() && before[c].pid == self.apps[j].pid;
                        assert(kept[c].pid == self.apps[j].pid);
                    }
                }
                assert forall|b: int| 0 <= b < kept.len() implies exists|j: int|
                    0 <= j < i + 1 && self.apps[j].pid == #[trigger] kept[b].pid by {
                    if b < before.len() {
                        let j = choose|j: int| 0 <= j < i && self.apps[j].pid == before[b].pid;
                        assert(self.apps[j].pid == kept[b].pid);
                    } else {
                        assert(self.apps[i as int].pid == kept[b].pid);
                    }
                }
            }
            i = i + 1;
        }
        let ghost m = swept(t, pids@);
        assert forall|p: u32| #[trigger] m.contains_key(p) implies exists|a: int|
            0 <= a < kept.len() && kept[a].pid == p by {
            let j = choose|j: int| 0 <= j < self.apps.len() && self.apps[j].pid == p;
            assert(!removable(t, pids@, self.apps[j].pid));
        }
        self.apps = kept;
        self.model = Ghost(m);
    }

    /// The process tracked under `app_id`, to be terminated by the caller.
    pub fn stop_app(&self, app_id: &str) -> (r: Result<u32, MonitorError>)
        requires
            self.wf(),
        ensures
            match r {
                Ok(pid) => self.view().contains_key(pid) && self.view()[pid].0 == app_id@,
                Err(e) => e == MonitorError::NotFound && forall|p: u32|
                    #[trigger] self.view().contains_key(p) ==> self.view()[p].0 != app_id@,
            },
    {
        let key = app_id.to_owned();
        let mut i: usize = 0;
        while i < self.apps.len()
            invariant
                self.wf(),
                i <= self.apps.len(),
                key@ == app_id@,
                forall|k: int| 0 <= k < i ==> #[trigger] self.apps[k].app_id@ != app_id@,
            decreases self.apps.len() - i,
        {
            if self.apps[i].app_id == key {
                assert(self.model@.contains_key(self.apps[i as int].pid));
                return Ok(self.apps[i].pid);
            }
            i = i + 1;
        }
        assert forall|p: u32| #[trigger] self.view().contains_key(p) implies self.view()[p].0 != app_id@ by {
            let k = choose|k: int| 0 <= k < self.apps.len() && self.apps[k].pid == p;
            assert(self.model@.contains_key(self.apps[k].pid));
        }
        Err(MonitorError::NotFound)
    }

    /// The ids of all tracked processes, each once.
    pub fn tracked_pids(&self) -> (r: Vec<u32>)
        requires
            self.wf(),
        ensures
            forall|i: int, j: int| 0 <= i < j < r.len() ==> r[i] != r[j],
            forall|i: int| 0 <= i < r.len() ==> #[trigger] self.view().contains_key(r[i]),
            forall|p: u32| #[trigger] self.view().contains_key(p) ==> r@.contains(p),
    {
        let mut r: Vec<u32> = Vec::new();
        let mut i: usize = 0;
        while i < self.apps.len()
            invariant
                self.wf(),
                i <= self.apps.len(),
                r.len() == i,
                forall|k: int| 0 <= k < i ==> r[k] == #[trigger] self.apps[k].pid,
            decreases self.apps.len() - i,
        {
            r.push(self.apps[i].pid);
            i = i + 1;
        }
        assert forall|p: u32| #[trigger] self.view().contains_key(p) implies r@.contains(p) by {
            let k = choose|k: int| 0 <= k < self.apps.len() && self.apps[k].pid == p;
            assert(r[k] == p);
        }
        assert forall|i: int, j: int| 0 <= i < j < r.len() implies r[i] != r[j] by {
            assert(r[i] == self.apps[i].pid && r[j] == self.apps[j].pid);
        }
        assert forall|i: int| 0 <= i < r.len() implies #[trigger] self.view().contains_key(r[i]) by {
            assert(r[i] == self.apps[i].pid);
        }
        r
    }
}

} // verus!
