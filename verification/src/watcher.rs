use std::collections::HashMap;
use vstd::prelude::*;
use vstd::std_specs::iter::IteratorSpec;
use crate::text::{contains, contains_seq, to_lowercase, lowercase_of};
use crate::time::{Timestamp, utc_now, rfc3339_text, rfc3339_of, seconds_between, whole_seconds_between};

verus! {

broadcast use vstd::std_specs::hash::group_hash_axioms;

/// A Roblox process launched for an account.
#[derive(Debug)]
pub struct TrackedProcess {
    pub pid: u32,
    pub account_id: String,
    pub place_id: u64,
    pub started_at: Timestamp,
}

/// The content of a watched process.
pub struct TrackedModel {
    pub pid: u32,
    pub account_id: Seq<char>,
    pub place_id: u64,
    pub started_at: Timestamp,
}

impl View for TrackedProcess {
    type V = TrackedModel;

    open spec fn view(&self) -> TrackedModel {
        TrackedModel {
            pid: self.pid,
            account_id: self.account_id@,
            place_id: self.place_id,
            started_at: self.started_at,
        }
    }
}

/// The state of a watched process as the front end sees it.
#[derive(Debug)]
pub struct ProcessStatus {
    pub account_id: String,
    pub pid: u32,
    pub place_id: u64,
    pub is_running: bool,
    pub started_at: String,
    pub uptime_seconds: i64,
}

/// The status describes the watched process at `now`: its account, pid and
/// place, its start in RFC 3339 and the whole seconds since then.
pub open spec fn describes_process(s: ProcessStatus, p: TrackedModel, now: Timestamp) -> bool {
    &&& s.account_id@ == p.account_id
    &&& s.pid == p.pid
    &&& s.place_id == p.place_id
    &&& s.started_at@ == rfc3339_of(p.started_at.secs, p.started_at.nanos)
    &&& s.uptime_seconds == whole_seconds_between(now, p.started_at)
}

/// The status of a watched process at `now`, running or not.
pub fn process_status(p: &TrackedProcess, is_running: bool, now: Timestamp) -> (s: ProcessStatus)
    requires
        p.started_at.is_valid(),
        now.is_valid(),
    ensures
        describes_process(s, p@, now),
        s.is_running == is_running,
{
    ProcessStatus {
        account_id: p.account_id.clone(),
        pid: p.pid,
        place_id: p.place_id,
        is_running,
        started_at: rfc3339_text(p.started_at),
        uptime_seconds: seconds_between(now, p.started_at),
    }
}

/// Makes `sysinfo::System` known to the verifier; its content is opaque.
#[verifier::external_type_specification]
#[verifier::external_body]
pub struct ExSystem(sysinfo::System);

/// A process table of the machine: `sysinfo::System::new`.
#[verifier::external_body]
fn new_system() -> sysinfo::System {
    sysinfo::System::new()
}

/// Reads every process of the machine into the table
/// (`System::refresh_processes` with `ProcessesToUpdate::All`, removing
/// processes that are gone).
#[verifier::external_body]
fn refresh_processes(sys: &mut sysinfo::System) {
    sys.refresh_processes(sysinfo::ProcessesToUpdate::All, true);
}

/// Whether the table holds a process with this pid (`System::process`);
/// nothing is promised, it depends on the machine.
#[verifier::external_body]
fn process_running(sys: &sysinfo::System, pid: u32) -> bool {
    sys.process(sysinfo::Pid::from_u32(pid)).is_some()
}

/// The pid and name of every process in the table (`System::processes`,
/// names converted lossily); nothing is promised of them.
#[verifier::external_body]
fn process_list(sys: &sysinfo::System) -> Vec<(u32, String)> {
    sys.processes().iter().map(|(pid, p)| (pid.as_u32(), p.name().to_string_lossy().to_string())).collect()
}

/// A fresh table of the machine's processes.
fn process_snapshot() -> sysinfo::System {
    let mut sys = new_system();
    refresh_processes(&mut sys);
    sys
}

/// What tracking a process leaves: the process under its pid, for the
/// account and place, started at a valid instant; every other process stays.
pub open spec fn tracked_now(
    old: Map<u32, TrackedModel>,
    new: Map<u32, TrackedModel>,
    pid: u32,
    account_id: Seq<char>,
    place_id: u64,
) -> bool {
    &&& new.dom() == old.dom().insert(pid)
    &&& new[pid].pid == pid
    &&& new[pid].account_id == account_id
    &&& new[pid].place_id == place_id
    &&& new[pid].started_at.is_valid()
    &&& forall|k: u32| k != pid && #[trigger] old.contains_key(k) ==> new[k] == old[k]
}

/// The Roblox processes launched by the manager, by pid.
pub struct WatcherState {
    processes: HashMap<u32, TrackedProcess>,
}

impl WatcherState {
    /// Each process is filed under its pid and started at a valid instant.
    pub closed spec fn wf(&self) -> bool {
        forall|k: u32|
            #[trigger] self.processes@.contains_key(k) ==> self.processes@[k].pid == k
                && self.processes@[k].started_at.is_valid()
    }

    /// The watched processes by pid.
    pub closed spec fn view(&self) -> Map<u32, TrackedModel> {
        self.processes@.map_values(|p: TrackedProcess| p@)
    }

    /// No process watched.
    pub fn new() -> (w: WatcherState)
        ensures
            w.wf(),
            w@ == Map::<u32, TrackedModel>::empty(),
    {
        let w = WatcherState { processes: HashMap::new() };
        assert(w@ =~= Map::<u32, TrackedModel>::empty());
        w
    }

    /// Tracks a process started now for an account and place, replacing
    /// what was watched under its pid.
    pub fn track(&mut self, pid: u32, account_id: String, place_id: u64)
        requires
            old(self).wf(),
        ensures
            final(self).wf(),
            tracked_now(old(self)@, final(self)@, pid, account_id@, place_id),
    {
        let p = TrackedProcess { pid, account_id, place_id, started_at: utc_now() };
        self.processes.insert(pid, p);
        assert(self@.dom() =~= old(self)@.dom().insert(pid));
    }

    /// Stops tracking a process.
    pub fn untrack(&mut self, pid: u32)
        requires
            old(self).wf(),
        ensures
            final(self).wf(),
            final(self)@ == old(self)@.remove(pid),
    {
        self.processes.remove(&pid);
        assert(self@ =~= old(self)@.remove(pid));
    }

    /// The status of every watched process at one instant, each once,
    /// telling whether the machine still runs it.
    pub fn get_status(&self) -> (r: Vec<ProcessStatus>)
        requires
            self.wf(),
        ensures
            r@.len() == self@.dom().len(),
            forall|i: int, j: int| 0 <= i < j < r@.len() ==> r@[i].pid != r@[j].pid,
            exists|now: Timestamp|
                now.is_valid() && forall|i: int|
                    0 <= i < r@.len() ==> self@.contains_key((#[trigger] r@[i]).pid) && describes_process(
                        r@[i],
                        self@[r@[i].pid],
                        now,
                    ),
    {
        let sys = process_snapshot();
        let now = utc_now();
        let mut out: Vec<ProcessStatus> = Vec::new();
        for (k, p) in it: self.processes.iter()
            invariant
                self.wf(),
                now.is_valid(),
                it.seq() == vstd::std_specs::hash::spec_hash_map_iter(&self.processes).remaining(),
                out@.len() == it.index(),
                forall|i: int| 0 <= i < out@.len() ==> #[trigger] out@[i].pid == *it.seq()[i].0,
                forall|i: int|
                    0 <= i < out@.len() ==> describes_process(#[trigger] out@[i], (*it.seq()[i].1)@, now),
        {
            let ghost idx = it.index();
            proof {
                let v = vstd::std_specs::hash::spec_hash_map_iter(&self.processes).remaining();
                assert(self.processes@.contains_key(*v[it.index() as int].0));
            }
            let running = process_running(&sys, *k);
            let st = process_status(p, running, now);
            let ghost before = out@;
            out.push(st);
            proof {
                assert(out@[idx as int] == st);
                assert forall|i: int| 0 <= i < out@.len() implies describes_process(#[trigger] out@[i], (*it.seq()[i].1)@, now) by {
                    if i < idx {
                        assert(out@[i] == before[i]);
                    }
                }
            }
        }
        proof {
            let v = vstd::std_specs::hash::spec_hash_map_iter(&self.processes).remaining();
            assert(self@.dom() =~= self.processes@.dom());
            assert forall|i: int| 0 <= i < out@.len() implies self@.contains_key((#[trigger] out@[i]).pid)
                && describes_process(out@[i], self@[out@[i].pid], now) by {
                assert(self.processes@.contains_key(*v[i].0));
            }
            assert forall|i: int, j: int| 0 <= i < j < out@.len() implies out@[i].pid != out@[j].pid by {
                if out@[i].pid == out@[j].pid {
                    assert(self.processes@.contains_key(*v[i].0));
                    assert(self.processes@.contains_key(*v[j].0));
                    assert(v[i] == v[j]);
                }
            }
        }
        out
    }

    /// Stops watching the listed pids and returns what was watched under
    /// them.
    pub fn remove_pids(&mut self, pids: &Vec<u32>) -> (r: Vec<TrackedProcess>)
        requires
            old(self).wf(),
        ensures
            final(self).wf(),
            final(self)@ == old(self)@.remove_keys(pids@.to_set()),
            forall|i: int|
                0 <= i < r@.len() ==> old(self)@.contains_key((#[trigger] r@[i]).pid) && pids@.contains(
                    r@[i].pid,
                ) && old(self)@[r@[i].pid] == r@[i]@,
            forall|k: u32|
                old(self)@.contains_key(k) && pids@.contains(k) ==> exists|i: int|
                    0 <= i < r@.len() && (#[trigger] r@[i]).pid == k,
            forall|i: int, j: int| 0 <= i < j < r@.len() ==> r@[i].pid != r@[j].pid,
    {
        let mut out: Vec<TrackedProcess> = Vec::new();
        let mut i: usize = 0;
        while i < pids.len()
            invariant
                i <= pids@.len(),
                self.wf(),
                forall|k: u32| #[trigger] self@.contains_key(k) <==> old(self)@.contains_key(k)
                    && !pids@.take(i as int).contains(k),
                forall|k: u32| #[trigger] self@.contains_key(k) ==> self@[k] == old(self)@[k],
                forall|t: int|
                    0 <= t < out@.len() ==> old(self)@.contains_key((#[trigger] out@[t]).pid)
                        && pids@.take(i as int).contains(out@[t].pid) && old(self)@[out@[t].pid]
                        == out@[t]@,
                forall|k: u32|
                    old(self)@.contains_key(k) && pids@.take(i as int).contains(k) ==> exists|t: int|
                        0 <= t < out@.len() && (#[trigger] out@[t]).pid == k,
                forall|t: int, u: int| 0 <= t < u < out@.len() ==> out@[t].pid != out@[u].pid,
            decreases pids@.len() - i,
        {
            let pid = pids[i];
            let ghost before = self@;
            let ghost old_out = out@;
            proof {
                lemma_take_push(pids@, i as int);
            }
            match self.processes.remove(&pid) {
                Some(p) => {
                    proof {
                        assert(before.contains_key(pid));
                        assert(!pids@.take(i as int).contains(pid));
                    }
                    out.push(p);
                    proof {
                        assert forall|t: int, u: int| 0 <= t < u < out@.len() implies out@[t].pid
                            != out@[u].pid by {
                            if u == old_out.len() {
                                assert(out@[t] == old_out[t]);
                            } else {
                                assert(out@[t] == old_out[t]);
                                assert(out@[u] == old_out[u]);
                            }
                        }
                        assert forall|t: int| 0 <= t < out@.len() implies old(self)@.contains_key(
                            (#[trigger] out@[t]).pid,
                        ) && pids@.take(i + 1).contains(out@[t].pid) && old(self)@[out@[t].pid]
                            == out@[t]@ by {
                            if t < old_out.len() {
                                assert(out@[t] == old_out[t]);
                            }
                        }
                        assert forall|k: u32|
                            old(self)@.contains_key(k) && pids@.take(i + 1).contains(k) implies exists|t: int|
                            0 <= t < out@.len() && (#[trigger] out@[t]).pid == k by {
                            if k == pid {
                                assert(out@[old_out.len() as int].pid == k);
                            } else {
                                let t = choose|t: int| 0 <= t < old_out.len() && (#[trigger] old_out[t]).pid == k;
                                assert(out@[t] == old_out[t]);
                            }
                        }
                    }
                },
                None => {
                    proof {
                        assert forall|k: u32|
                            old(self)@.contains_key(k) && pids@.take(i + 1).contains(k) implies exists|t: int|
                            0 <= t < out@.len() && (#[trigger] out@[t]).pid == k by {
                            if k == pid {
                                assert(!before.contains_key(pid));
                            }
                        }
                    }
                },
            }
            proof {
                assert(self@ =~= before.remove(pid));
            }
            i += 1;
        }
        assert(pids@.take(pids@.len() as int) == pids@);
        assert(self@ =~= old(self)@.remove_keys(pids@.to_set()));
        out
    }

    /// Asks the process table, once for each watched pid, whether the
    /// machine still runs it.
    fn process_answers(&self, sys: &sysinfo::System) -> (r: Vec<(u32, bool)>)
        ensures
            asks_each(r@, self@),
            r@.len() == self@.dom().len(),
    {
        let mut out: Vec<(u32, bool)> = Vec::new();
        for (k, p) in it: self.processes.iter()
            invariant
                it.seq() == vstd::std_specs::hash::spec_hash_map_iter(&self.processes).remaining(),
                out@.len() == it.index(),
                forall|i: int| 0 <= i < out@.len() ==> (#[trigger] out@[i]).0 == *it.seq()[i].0,
        {
            let running = process_running(sys, *k);
            let ghost before = out@;
            out.push((*k, running));
            proof {
                assert forall|i: int| 0 <= i < out@.len() implies (#[trigger] out@[i]).0 == *it.seq()[i].0 by {
                    if i < before.len() {
                        assert(out@[i] == before[i]);
                    }
                }
            }
        }
        proof {
            let v = vstd::std_specs::hash::spec_hash_map_iter(&self.processes).remaining();
            assert(self@.dom() =~= self.processes@.dom());
            assert(v.len() == self.processes@.len());
            assert forall|i: int| 0 <= i < out@.len() implies self@.contains_key((#[trigger] out@[i]).0) by {
                assert(self.processes@.contains_key(*v[i].0));
            }
            assert forall|i: int, j: int| 0 <= i < j < out@.len() implies out@[i].0 != out@[j].0 by {
                if out@[i].0 == out@[j].0 {
                    assert(self.processes@.contains_key(*v[i].0));
                    assert(self.processes@.contains_key(*v[j].0));
                    assert(v[i] == v[j]);
                }
            }
            assert forall|k: u32| #[trigger] self@.contains_key(k) implies exists|i: int|
                0 <= i < out@.len() && out@[i].0 == k by {
                assert(self.processes@.contains_key(k));
                assert(v.contains((&k, &self.processes@[k])));
                let i = choose|i: int| 0 <= i < v.len() && v[i] == (&k, &self.processes@[k]);
                assert(out@[i].0 == k);
            }
        }
        out
    }

    /// The watched pids that the answers report stopped, in the answers'
    /// order.
    pub fn dead_pids(&self, running: &Vec<(u32, bool)>) -> (r: Vec<u32>)
        ensures
            r@ == dead_of(self@, running@),
            forall|k: u32|
                #![trigger r@.contains(k)]
                r@.contains(k) <==> self@.contains_key(k) && running@.contains((k, false)),
    {
        let mut out: Vec<u32> = Vec::new();
        let mut i: usize = 0;
        while i < running.len()
            invariant
                i <= running@.len(),
                out@ == dead_of(self@, running@.take(i as int)),
            decreases running@.len() - i,
        {
            assert(running@.take(i + 1).drop_last() == running@.take(i as int));
            let a = running[i];
            if !a.1 && self.processes.contains_key(&a.0) {
                out.push(a.0);
            }
            i += 1;
        }
        assert(running@.take(running@.len() as int) == running@);
        proof {
            lemma_dead_of_contains(self@, running@);
        }
        out
    }

    /// How many of the answers report a watched pid running.
    pub fn running_among(&self, running: &Vec<(u32, bool)>) -> (n: usize)
        ensures
            n == running_of(self@, running@),
    {
        let mut n: usize = 0;
        let mut i: usize = 0;
        while i < running.len()
            invariant
                i <= running@.len(),
                n <= i,
                n == running_of(self@, running@.take(i as int)),
            decreases running@.len() - i,
        {
            assert(running@.take(i + 1).drop_last() == running@.take(i as int));
            let a = running[i];
            if a.1 && self.processes.contains_key(&a.0) {
                n += 1;
            }
            i += 1;
        }
        assert(running@.take(running@.len() as int) == running@);
        n
    }

    /// Stops tracking the processes the machine no longer runs and returns
    /// them: the machine is asked once for each watched pid, and exactly the
    /// pids it reports stopped leave.
    pub fn cleanup_dead(&mut self) -> (r: Vec<TrackedProcess>)
        requires
            old(self).wf(),
        ensures
            final(self).wf(),
            exists|answers: Seq<(u32, bool)>|
                #[trigger] asks_each(answers, old(self)@) && final(self)@ == old(self)@.remove_keys(
                    dead_of(old(self)@, answers).to_set(),
                ),
            forall|k: u32| #[trigger] final(self)@.contains_key(k) ==> old(self)@.contains_key(k)
                && final(self)@[k] == old(self)@[k],
            forall|i: int|
                0 <= i < r@.len() ==> old(self)@.contains_key((#[trigger] r@[i]).pid) && !final(self)@.contains_key(
                    r@[i].pid,
                ) && old(self)@[r@[i].pid] == r@[i]@,
            forall|k: u32|
                old(self)@.contains_key(k) && !final(self)@.contains_key(k) ==> exists|i: int|
                    0 <= i < r@.len() && (#[trigger] r@[i]).pid == k,
            forall|i: int, j: int| 0 <= i < j < r@.len() ==> r@[i].pid != r@[j].pid,
    {
        let sys = process_snapshot();
        let answers = self.process_answers(&sys);
        let dead = self.dead_pids(&answers);
        let r = self.remove_pids(&dead);
        assert(asks_each(answers@, old(self)@));
        r
    }

    /// How many watched processes the machine still runs: the machine is
    /// asked once for each watched pid, and the pids it reports running are
    /// counted.
    pub fn running_count(&self) -> (n: usize)
        requires
            self.wf(),
        ensures
            n <= self@.dom().len(),
            exists|answers: Seq<(u32, bool)>|
                #[trigger] asks_each(answers, self@) && n == running_of(self@, answers),
    {
        let sys = process_snapshot();
        let answers = self.process_answers(&sys);
        let n = self.running_among(&answers);
        proof {
            lemma_running_of_bound(self@, answers@);
        }
        n
    }

    /// The Roblox client processes the machine runs, watched or not, with
    /// their names.
    pub fn find_roblox_processes() -> (r: Vec<(u32, String)>)
        ensures
            forall|i: int| 0 <= i < r@.len() ==> is_roblox_name((#[trigger] r@[i]).1@),
    {
        let sys = process_snapshot();
        roblox_processes(process_list(&sys))
    }
}

proof fn lemma_take_push(s: Seq<u32>, i: int)
    requires
        0 <= i < s.len(),
    ensures
        forall|a: u32| #[trigger] s.take(i + 1).contains(a) <==> (s.take(i).contains(a) || a == s[i]),
{
    assert forall|a: u32| #[trigger] s.take(i + 1).contains(a) <==> (s.take(i).contains(a) || a == s[i]) by {
        if s.take(i + 1).contains(a) {
            let j = choose|j: int| 0 <= j < i + 1 && #[trigger] s.take(i + 1)[j] == a;
            if j < i {
                assert(s.take(i)[j] == a);
            }
        }
        if s.take(i).contains(a) {
            let j = choose|j: int| 0 <= j < i && #[trigger] s.take(i)[j] == a;
            assert(s.take(i + 1)[j] == a);
        }
        if a == s[i] {
            assert(s.take(i + 1)[i] == a);
        }
    }
}

/// Every watched pid is asked once: each answer names a watched pid, no pid
/// twice, and every watched pid has its answer.
pub open spec fn asks_each(answers: Seq<(u32, bool)>, m: Map<u32, TrackedModel>) -> bool {
    &&& forall|i: int| 0 <= i < answers.len() ==> m.contains_key((#[trigger] answers[i]).0)
    &&& forall|i: int, j: int| 0 <= i < j < answers.len() ==> answers[i].0 != answers[j].0
    &&& forall|k: u32| #[trigger] m.contains_key(k) ==> exists|i: int|
        0 <= i < answers.len() && answers[i].0 == k
}

/// The watched pids that the answers report stopped, in the answers' order.
pub open spec fn dead_of(m: Map<u32, TrackedModel>, answers: Seq<(u32, bool)>) -> Seq<u32>
    decreases answers.len(),
{
    if answers.len() == 0 {
        Seq::empty()
    } else {
        let before = dead_of(m, answers.drop_last());
        let a = answers.last();
        if m.contains_key(a.0) && !a.1 {
            before.push(a.0)
        } else {
            before
        }
    }
}

/// How many answers report a watched pid running.
pub open spec fn running_of(m: Map<u32, TrackedModel>, answers: Seq<(u32, bool)>) -> nat
    decreases answers.len(),
{
    if answers.len() == 0 {
        0
    } else {
        let a = answers.last();
        running_of(m, answers.drop_last()) + if m.contains_key(a.0) && a.1 {
            1nat
        } else {
            0nat
        }
    }
}

proof fn lemma_push_contains<A>(s: Seq<A>, x: A)
    ensures
        forall|a: A| #[trigger] s.push(x).contains(a) <==> (s.contains(a) || a == x),
{
    assert forall|a: A| #[trigger] s.push(x).contains(a) <==> (s.contains(a) || a == x) by {
        if s.push(x).contains(a) {
            let j = choose|j: int| 0 <= j < s.len() + 1 && #[trigger] s.push(x)[j] == a;
            if j < s.len() {
                assert(s[j] == a);
            }
        }
        if s.contains(a) {
            let j = choose|j: int| 0 <= j < s.len() && #[trigger] s[j] == a;
            assert(s.push(x)[j] == a);
        }
        if a == x {
            assert(s.push(x)[s.len() as int] == a);
        }
    }
}

proof fn lemma_dead_of_contains(m: Map<u32, TrackedModel>, answers: Seq<(u32, bool)>)
    ensures
        forall|k: u32|
            #![trigger dead_of(m, answers).contains(k)]
            dead_of(m, answers).contains(k) <==> m.contains_key(k) && answers.contains((k, false)),
    decreases answers.len(),
{
    if answers.len() > 0 {
        let d = answers.drop_last();
        let a = answers.last();
        lemma_dead_of_contains(m, d);
        assert(answers =~= d.push(a));
        lemma_push_contains(d, a);
        lemma_push_contains(dead_of(m, d), a.0);
        assert forall|k: u32| #![trigger dead_of(m, answers).contains(k)]
            dead_of(m, answers).contains(k) <==> m.contains_key(k) && answers.contains((k, false)) by {
            assert(dead_of(m, d).contains(k) <==> m.contains_key(k) && d.contains((k, false)));
            assert(answers.contains((k, false)) <==> d.contains((k, false)) || (k, false) == a);
        }
    }
}

proof fn lemma_running_of_bound(m: Map<u32, TrackedModel>, answers: Seq<(u32, bool)>)
    ensures
        running_of(m, answers) <= answers.len(),
    decreases answers.len(),
{
    if answers.len() > 0 {
        lemma_running_of_bound(m, answers.drop_last());
    }
}

/// A process name of the Roblox client: its lower-case form contains
/// `robloxplayerbeta` or `robloxplayer`.
pub open spec fn is_roblox_name(name: Seq<char>) -> bool {
    contains_seq(lowercase_of(name), "robloxplayerbeta"@) || contains_seq(
        lowercase_of(name),
        "robloxplayer"@,
    )
}

/// The processes of a list whose name is that of the Roblox client.
pub open spec fn roblox_only(list: Seq<(u32, String)>) -> Seq<(u32, Seq<char>)>
    decreases list.len(),
{
    if list.len() == 0 {
        Seq::empty()
    } else {
        let before = roblox_only(list.drop_last());
        if is_roblox_name(list.last().1@) {
            before.push((list.last().0, list.last().1@))
        } else {
            before
        }
    }
}

/// Pids and names as characters.
pub open spec fn named_view(list: Seq<(u32, String)>) -> Seq<(u32, Seq<char>)> {
    list.map_values(|p: (u32, String)| (p.0, p.1@))
}

proof fn lemma_roblox_only_names(list: Seq<(u32, String)>)
    ensures
        forall|i: int| 0 <= i < roblox_only(list).len() ==> is_roblox_name(#[trigger] roblox_only(list)[i].1),
    decreases list.len(),
{
    if list.len() > 0 {
        let before = roblox_only(list.drop_last());
        lemma_roblox_only_names(list.drop_last());
        assert forall|i: int| 0 <= i < roblox_only(list).len() implies is_roblox_name(
            #[trigger] roblox_only(list)[i].1,
        ) by {
            if i < before.len() {
                assert(roblox_only(list)[i] == before[i]);
            }
        }
    }
}

/// Keeps the processes whose name is that of the Roblox client, in order.
pub fn roblox_processes(list: Vec<(u32, String)>) -> (r: Vec<(u32, String)>)
    ensures
        named_view(r@) == roblox_only(list@),
        forall|i: int| 0 <= i < r@.len() ==> is_roblox_name((#[trigger] r@[i]).1@),
{
    let ghost l = list@;
    let mut out: Vec<(u32, String)> = Vec::new();
    let mut i: usize = 0;
    while i < list.len()
        invariant
            i <= l.len(),
            l == list@,
            named_view(out@) == roblox_only(l.take(i as int)),
        decreases l.len() - i,
    {
        assert(l.take(i + 1).drop_last() == l.take(i as int));
        let lower = to_lowercase(list[i].1.as_str());
        let keep = contains(lower.as_str(), "robloxplayerbeta") || contains(lower.as_str(), "robloxplayer");
        let ghost before = out@;
        if keep {
            out.push((list[i].0, list[i].1.clone()));
            assert(named_view(out@) =~= named_view(before).push((list@[i as int].0, list@[i as int].1@)));
        }
        i += 1;
    }
    assert(l.take(l.len() as int) == l);
    proof {
        lemma_roblox_only_names(l);
        assert forall|i: int| 0 <= i < out@.len() implies is_roblox_name((#[trigger] out@[i]).1@) by {
            assert(named_view(out@)[i] == roblox_only(l)[i]);
            assert(is_roblox_name(roblox_only(l)[i].1));
        }
    }
    out
}

} // verus!
