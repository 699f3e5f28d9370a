//! The leader: admits workers, accepts submitted graphs, assigns jobs to
//! workers, and releases a graph to execute exactly once, after every one of
//! its jobs has reported ready.

use vstd::prelude::*;

use crate::control_plane::{LeaderNotification, WorkerAddress, WorkerState};
use crate::graph::{Job, JobGraph, JobGraphId, JobGraphVal};
use crate::ids::WorkerId;
use crate::table::{KeySet, Table, TableKey};
use crate::worker_node::{addr_lookup, schedule_addrs_ok};

verus! {

/// What the surrounding process must do after a leader step.
pub enum LeaderAction {
    /// Send this notification on one worker's control connection.
    SendTo(WorkerId, LeaderNotification),
    /// Send this notification on every worker's control connection.
    Broadcast(LeaderNotification),
}

/// Every address entry names a job assigned to a registered worker, and
/// carries that worker's data-plane address.
pub open spec fn addrs_consistent(
    addrs: Seq<(Job, WorkerAddress)>,
    asg: Map<Job, WorkerId>,
    workers: Map<WorkerId, WorkerState>,
) -> bool {
    forall|i: int| 0 <= i < addrs.len()
        ==> {
            let (j, a) = #[trigger] addrs[i];
            &&& asg.contains_key(j)
            &&& workers.contains_key(asg[j])
            &&& a == workers[asg[j]].address
        }
}

/// A lookup succeeds exactly when some entry carries the job.
pub proof fn lemma_addr_lookup_some(s: Seq<(Job, WorkerAddress)>, j: Job)
    requires
        exists|i: int| 0 <= i < s.len() && (#[trigger] s[i]).0 == j,
    ensures
        addr_lookup(s, j) is Some,
    decreases s.len(),
{
    let i = choose|i: int| 0 <= i < s.len() && (#[trigger] s[i]).0 == j;
    if s[0].0 != j {
        assert(s.skip(1)[i - 1].0 == j);
        lemma_addr_lookup_some(s.skip(1), j);
    }
}

// ------------------------------------------------------------------
// Specification of the release bookkeeping (the at-most-once law).
// ------------------------------------------------------------------

/// A readiness report releases the graph exactly when it completes the
/// graph's assigned jobs and the graph was not already released.
pub open spec fn exec_emit(
    assigned: Map<JobGraphId, Set<Job>>,
    ready: Map<JobGraphId, Set<Job>>,
    executed: Set<JobGraphId>,
    gid: JobGraphId,
    j: Job,
) -> bool {
    &&& assigned.contains_key(gid)
    &&& ready.contains_key(gid)
    &&& !executed.contains(gid)
    &&& assigned[gid].subset_of(ready[gid].insert(j))
}

pub open spec fn exec_next_ready(
    ready: Map<JobGraphId, Set<Job>>,
    gid: JobGraphId,
    j: Job,
) -> Map<JobGraphId, Set<Job>> {
    if ready.contains_key(gid) {
        ready.insert(gid, ready[gid].insert(j))
    } else {
        ready
    }
}

pub open spec fn exec_next_executed(
    assigned: Map<JobGraphId, Set<Job>>,
    ready: Map<JobGraphId, Set<Job>>,
    executed: Set<JobGraphId>,
    gid: JobGraphId,
    j: Job,
) -> Set<JobGraphId> {
    if exec_emit(assigned, ready, executed, gid, j) {
        executed.insert(gid)
    } else {
        executed
    }
}

/// How many of a sequence of readiness reports release graph `g`.
pub open spec fn exec_emissions(
    assigned: Map<JobGraphId, Set<Job>>,
    ready: Map<JobGraphId, Set<Job>>,
    executed: Set<JobGraphId>,
    events: Seq<(JobGraphId, Job)>,
    g: JobGraphId,
) -> int
    decreases events.len(),
{
    if events.len() == 0 {
        0
    } else {
        (if events[0].0 == g && exec_emit(assigned, ready, executed, events[0].0, events[0].1) {
            1int
        } else {
            0int
        }) + exec_emissions(
            assigned,
            exec_next_ready(ready, events[0].0, events[0].1),
            exec_next_executed(assigned, ready, executed, events[0].0, events[0].1),
            events.skip(1),
            g,
        )
    }
}

proof fn lemma_no_exec_when_executed(
    assigned: Map<JobGraphId, Set<Job>>,
    ready: Map<JobGraphId, Set<Job>>,
    executed: Set<JobGraphId>,
    events: Seq<(JobGraphId, Job)>,
    g: JobGraphId,
)
    requires
        executed.contains(g),
    ensures
        exec_emissions(assigned, ready, executed, events, g) == 0,
    decreases events.len(),
{
    if events.len() > 0 {
        assert(exec_next_executed(assigned, ready, executed, events[0].0, events[0].1)
            .contains(g));
        lemma_no_exec_when_executed(
            assigned,
            exec_next_ready(ready, events[0].0, events[0].1),
            exec_next_executed(assigned, ready, executed, events[0].0, events[0].1),
            events.skip(1),
            g,
        );
    }
}

/// A graph is released to execute at most once: across any sequence of
/// readiness reports, the release happens no more than one time, since it
/// marks the graph executed and the mark is never taken back.
pub proof fn lemma_execute_graph_at_most_once(
    assigned: Map<JobGraphId, Set<Job>>,
    ready: Map<JobGraphId, Set<Job>>,
    executed: Set<JobGraphId>,
    events: Seq<(JobGraphId, Job)>,
    g: JobGraphId,
)
    ensures
        exec_emissions(assigned, ready, executed, events, g) <= 1,
    decreases events.len(),
{
    if events.len() > 0 {
        let ready2 = exec_next_ready(ready, events[0].0, events[0].1);
        let executed2 = exec_next_executed(assigned, ready, executed, events[0].0, events[0].1);
        if events[0].0 == g && exec_emit(assigned, ready, executed, events[0].0, events[0].1) {
            assert(executed2.contains(g));
            lemma_no_exec_when_executed(assigned, ready2, executed2, events.skip(1), g);
        } else {
            lemma_execute_graph_at_most_once(assigned, ready2, executed2, events.skip(1), g);
        }
    }
}

/// Removes the entries of the listed graphs from a table.
#[verifier::loop_isolation(false)]
fn drop_graph_entries<V>(t: &mut Table<JobGraphId, V>, keys: &Vec<JobGraphId>)
    ensures
        forall|g: JobGraphId| #[trigger] final(t)@.contains_key(g)
            <==> (old(t)@.contains_key(g) && !keys@.contains(g)),
        forall|g: JobGraphId| #[trigger] final(t)@.contains_key(g)
            ==> final(t)@[g] == old(t)@[g],
{
    let ghost t0 = t@;
    let mut k: usize = 0;
    while k < keys.len()
        invariant
            k <= keys@.len(),
            forall|g: JobGraphId| #[trigger] t@.contains_key(g)
                ==> (t0.contains_key(g) && !keys@.subrange(0, k as int).contains(g)),
            forall|g: JobGraphId| #[trigger] t0.contains_key(g)
                && !keys@.subrange(0, k as int).contains(g) ==> t@.contains_key(g),
            forall|g: JobGraphId| #[trigger] t@.contains_key(g) ==> t@[g] == t0[g],
        decreases keys@.len() - k,
    {
        let ghost pre = t@;
        let _ = t.remove(&keys[k]);
        proof {
            assert(t@ == pre.remove(keys@[k as int]));
            assert forall|g: JobGraphId| #[trigger] t@.contains_key(g)
                implies (t0.contains_key(g)
                    && !keys@.subrange(0, k + 1).contains(g)) by {
                assert(pre.contains_key(g));
                assert(g != keys@[k as int]);
                assert(t0.contains_key(g));
                assert(!keys@.subrange(0, k as int).contains(g));
                if keys@.subrange(0, k + 1).contains(g) {
                    let x = choose|x: int| 0 <= x < k + 1
                        && #[trigger] keys@.subrange(0, k + 1)[x] == g;
                    if x < k {
                        assert(keys@.subrange(0, k as int)[x] == g);
                    } else {
                        assert(keys@.subrange(0, k + 1)[k as int] == keys@[k as int]);
                    }
                }
            }
            assert forall|g: JobGraphId| #[trigger] t0.contains_key(g)
                && !keys@.subrange(0, k + 1).contains(g)
                implies t@.contains_key(g) by {
                assert(forall|x: int| 0 <= x < k
                    ==> keys@.subrange(0, k + 1)[x] == keys@.subrange(0, k as int)[x]);
                assert(keys@.subrange(0, k + 1)[k as int] == keys@[k as int]);
                assert(!keys@.subrange(0, k as int).contains(g));
                assert(g != keys@[k as int]);
            }
        }
        k = k + 1;
    }
    proof {
        assert(keys@.subrange(0, keys@.len() as int) =~= keys@);
    }
}

/// Whether any job of an assignment table runs on the given worker.
pub open spec fn assigned_on(asg: Table<Job, WorkerId>, wid: WorkerId) -> bool {
    exists|j: Job| #[trigger] asg@.contains_key(j) && asg@[j] == wid
}

// ------------------------------------------------------------------
// The leader.
// ------------------------------------------------------------------

pub struct LeaderNode {
    /// The workers attached to the leader, by id.
    workers: Table<WorkerId, WorkerState>,
    /// The submitted graphs.
    job_graphs: Table<JobGraphId, JobGraph>,
    /// Which worker executes each job of each submitted graph.
    assignments: Table<JobGraphId, Table<Job, WorkerId>>,
    /// The jobs of each graph that have reported ready.
    ready_jobs: Table<JobGraphId, KeySet<Job>>,
    /// The graphs already released to execute.
    executed: KeySet<JobGraphId>,
    /// Rotates the round-robin choice among eligible workers.
    next_worker: u64,
    /// Set once a shutdown has been taken.
    shut_down: bool,
}

impl LeaderNode {
    pub closed spec fn spec_workers(&self) -> Map<WorkerId, WorkerState> {
        self.workers@
    }

    pub closed spec fn graphs(&self) -> Map<JobGraphId, JobGraph> {
        self.job_graphs@
    }

    pub closed spec fn spec_assignments(&self) -> Map<JobGraphId, Table<Job, WorkerId>> {
        self.assignments@
    }

    /// The assigned job set of each graph.
    pub open spec fn assigned_sets(&self) -> Map<JobGraphId, Set<Job>> {
        Map::new(
            |g: JobGraphId| self.spec_assignments().contains_key(g),
            |g: JobGraphId| self.spec_assignments()[g]@.dom(),
        )
    }

    /// The ready job set of each graph.
    pub closed spec fn ready_sets(&self) -> Map<JobGraphId, Set<Job>> {
        Map::new(
            |g: JobGraphId| self.ready_jobs@.contains_key(g),
            |g: JobGraphId| self.ready_jobs@[g]@,
        )
    }

    pub closed spec fn spec_executed(&self) -> Set<JobGraphId> {
        self.executed@
    }

    pub closed spec fn is_shut_down(&self) -> bool {
        self.shut_down
    }

    pub fn new() -> (r: LeaderNode)
        ensures
            r.spec_workers() == Map::<WorkerId, WorkerState>::empty(),
            r.graphs() == Map::<JobGraphId, JobGraph>::empty(),
            r.spec_assignments() == Map::<JobGraphId, Table<Job, WorkerId>>::empty(),
            r.ready_sets() =~= Map::<JobGraphId, Set<Job>>::empty(),
            r.spec_executed() == Set::<JobGraphId>::empty(),
            !r.is_shut_down(),
    {
        LeaderNode {
            workers: Table::new(),
            job_graphs: Table::new(),
            assignments: Table::new(),
            ready_jobs: Table::new(),
            executed: KeySet::new(),
            next_worker: 0,
            shut_down: false,
        }
    }

    /// Whether a worker with this id is currently attached.
    pub fn has_worker(&self, wid: &WorkerId) -> (r: bool)
        ensures
            r == self.spec_workers().contains_key(*wid),
    {
        self.workers.contains_key(wid)
    }

    /// Admits a worker: records its state under its id.
    pub fn handle_worker_initialized(&mut self, state: WorkerState)
        ensures
            final(self).spec_workers() == old(self).spec_workers().insert(state.id, state),
            final(self).graphs() == old(self).graphs(),
            final(self).spec_assignments() == old(self).spec_assignments(),
            final(self).ready_sets() == old(self).ready_sets(),
            final(self).spec_executed() == old(self).spec_executed(),
            final(self).is_shut_down() == old(self).is_shut_down(),
    {
        let id = state.id();
        self.workers.insert(id, state);
    }

    /// Records a job of a graph as ready; releases the graph to execute
    /// exactly when this completes its assigned jobs and it was not already
    /// released.
    #[verifier::loop_isolation(false)]
    pub fn handle_job_ready(&mut self, gid: JobGraphId, j: Job) -> (r: Vec<LeaderAction>)
        ensures
            final(self).spec_workers() == old(self).spec_workers(),
            final(self).graphs() == old(self).graphs(),
            final(self).spec_assignments() == old(self).spec_assignments(),
            final(self).is_shut_down() == old(self).is_shut_down(),
            final(self).ready_sets() =~= exec_next_ready(old(self).ready_sets(), gid, j),
            final(self).spec_executed() =~= exec_next_executed(
                old(self).assigned_sets(),
                old(self).ready_sets(),
                old(self).spec_executed(),
                gid,
                j,
            ),
            if exec_emit(
                old(self).assigned_sets(),
                old(self).ready_sets(),
                old(self).spec_executed(),
                gid,
                j,
            ) {
                r@ == seq![LeaderAction::Broadcast(LeaderNotification::ExecuteGraph(gid))]
            } else {
                r@ == Seq::<LeaderAction>::empty()
            },
    {
        let ghost ready0 = self.ready_sets();
        let ghost executed0 = self.executed@;
        let mut actions: Vec<LeaderAction> = Vec::new();
        let ready_entry = self.ready_jobs.remove(&gid);
        match ready_entry {
            Some(mut ready) => {
                ready.insert(j);
                let ghost readyv = ready@;
                // are all assigned jobs of the graph now ready?
                let mut all_ready = false;
                match self.assignments.get(&gid) {
                    Some(asg) => {
                        asg.entry_map_facts();
                        let n = asg.num_entries();
                        let mut i: usize = 0;
                        let mut missing = false;
                        while i < n
                            invariant
                                i <= n,
                                n == asg.entry_seq().len(),
                                readyv == ready@,
                                !missing ==> forall|t: int| 0 <= t < i
                                    ==> ready@.contains((#[trigger] asg.entry_seq()[t]).0),
                                missing ==> !asg@.dom().subset_of(ready@),
                            decreases n - i,
                        {
                            let jb = asg.entry_at(i).0;
                            if !ready.contains(&jb) {
                                missing = true;
                            }
                            i = i + 1;
                        }
                        if !missing {
                            proof {
                                assert forall|x: Job| asg@.dom().contains(x)
                                    implies ready@.contains(x) by {
                                    let t = choose|t: int| 0 <= t < asg.entry_seq().len()
                                        && #[trigger] asg.entry_seq()[t].0 == x;
                                    assert(ready@.contains(asg.entry_seq()[t].0));
                                }
                            }
                            all_ready = true;
                        }
                    }
                    None => {}
                }
                if all_ready && !self.executed.contains(&gid) {
                    self.executed.insert(gid);
                    actions.push(LeaderAction::Broadcast(
                        LeaderNotification::ExecuteGraph(gid),
                    ));
                    proof {
                        assert(exec_emit(
                            old(self).assigned_sets(),
                            ready0,
                            executed0,
                            gid,
                            j,
                        )) by {
                            assert(ready0[gid].insert(j) =~= readyv);
                        }
                        assert(actions@ =~= seq![
                            LeaderAction::Broadcast(LeaderNotification::ExecuteGraph(gid)),
                        ]);
                    }
                } else {
                    proof {
                        if all_ready {
                            assert(!exec_emit(
                                old(self).assigned_sets(),
                                ready0,
                                executed0,
                                gid,
                                j,
                            ));
                        } else {
                            if self.assignments@.contains_key(gid) {
                                assert(!old(self).assigned_sets()[gid].subset_of(
                                    ready0[gid].insert(j),
                                )) by {
                                    assert(ready0[gid].insert(j) =~= readyv);
                                }
                            }
                            assert(!exec_emit(
                                old(self).assigned_sets(),
                                ready0,
                                executed0,
                                gid,
                                j,
                            ));
                        }
                        assert(actions@ =~= Seq::<LeaderAction>::empty());
                        assert(self.executed@ =~= executed0);
                    }
                }
                self.ready_jobs.insert(gid, ready);
                proof {
                    assert(final(self).ready_sets() =~= exec_next_ready(ready0, gid, j)) by {
                        assert(readyv =~= ready0[gid].insert(j));
                    }
                }
            }
            None => {
                proof {
                    assert(!ready0.contains_key(gid));
                    assert(self.ready_jobs@ =~= old(self).ready_jobs@);
                    assert(self.ready_sets() =~= exec_next_ready(ready0, gid, j));
                    assert(!exec_emit(
                        old(self).assigned_sets(),
                        ready0,
                        executed0,
                        gid,
                        j,
                    ));
                    assert(actions@ =~= Seq::<LeaderAction>::empty());
                }
            }
        }
        actions
    }

    /// Marks the leader shut down and tells every worker to shut down; a
    /// repeated shutdown changes nothing and sends nothing.
    pub fn handle_shutdown(&mut self) -> (r: Vec<LeaderAction>)
        ensures
            final(self).is_shut_down(),
            final(self).spec_workers() == old(self).spec_workers(),
            final(self).graphs() == old(self).graphs(),
            final(self).spec_assignments() == old(self).spec_assignments(),
            final(self).ready_sets() == old(self).ready_sets(),
            final(self).spec_executed() == old(self).spec_executed(),
            old(self).is_shut_down() ==> r@ == Seq::<LeaderAction>::empty(),
            !old(self).is_shut_down() ==> r@ == seq![
                LeaderAction::Broadcast(LeaderNotification::Shutdown),
            ],
    {
        let mut actions: Vec<LeaderAction> = Vec::new();
        if !self.shut_down {
            self.shut_down = true;
            actions.push(LeaderAction::Broadcast(LeaderNotification::Shutdown));
            proof {
                assert(actions@ =~= seq![
                    LeaderAction::Broadcast(LeaderNotification::Shutdown),
                ]);
            }
        }
        proof {
            if actions@.len() == 0 {
                assert(actions@ =~= Seq::<LeaderAction>::empty());
            }
        }
        actions
    }

    /// Forgets a lost worker.  Every graph with a job assigned to it is
    /// abandoned — its assignments and readiness records are dropped, with no
    /// rescheduling — and every remaining worker is told once to shut the
    /// execution down.
    #[verifier::loop_isolation(false)]
    #[verifier::rlimit(100)]
    #[verifier::spinoff_prover]
    pub fn handle_worker_disconnected(&mut self, wid: WorkerId) -> (r: Vec<LeaderAction>)
        ensures
            final(self).spec_workers() == old(self).spec_workers().remove(wid),
            final(self).graphs() == old(self).graphs(),
            final(self).spec_executed() == old(self).spec_executed(),
            final(self).is_shut_down() == old(self).is_shut_down(),
            // graphs with a job on the lost worker are abandoned; the rest
            // keep their assignments and readiness
            forall|g: JobGraphId| final(self).spec_assignments().contains_key(g)
                ==> old(self).spec_assignments().contains_key(g),
            forall|g: JobGraphId| old(self).spec_assignments().contains_key(g)
                ==> if assigned_on(old(self).spec_assignments()[g], wid) {
                    !final(self).spec_assignments().contains_key(g)
                        && !final(self).ready_sets().contains_key(g)
                } else {
                    final(self).spec_assignments().contains_key(g)
                        && final(self).spec_assignments()[g]
                            == old(self).spec_assignments()[g]
                },
            forall|g: JobGraphId| final(self).ready_sets().contains_key(g)
                ==> (old(self).ready_sets().contains_key(g)
                    && final(self).ready_sets()[g] == old(self).ready_sets()[g]),
            forall|g: JobGraphId| old(self).ready_sets().contains_key(g)
                && !(old(self).spec_assignments().contains_key(g)
                    && assigned_on(old(self).spec_assignments()[g], wid))
                ==> final(self).ready_sets().contains_key(g),
            // one shutdown is sent to each remaining worker
            r@.len() == final(self).spec_workers().dom().len(),
            forall|i: int| 0 <= i < r@.len()
                ==> ((#[trigger] r@[i]) matches LeaderAction::SendTo(w, n)
                    && w != wid && old(self).spec_workers().contains_key(w)
                    && n@ == crate::control_plane::LeaderNotificationVal::Shutdown),
            forall|w: WorkerId| final(self).spec_workers().contains_key(w)
                ==> r@.contains(LeaderAction::SendTo(w, LeaderNotification::Shutdown)),
    {
        let ghost workers0 = self.workers@;
        let ghost asg0 = self.assignments@;
        let ghost ready0 = self.ready_jobs@;
        let _ = self.workers.remove(&wid);
        // find every graph with a job on the lost worker
        let gids = self.assignments.keys();
        let mut affected: Vec<JobGraphId> = Vec::new();
        let mut i: usize = 0;
        while i < gids.len()
            invariant
                i <= gids@.len(),
                self.assignments@ == asg0,
                self.ready_jobs@ == ready0,
                affected@.no_duplicates(),
                forall|t: int| 0 <= t < affected@.len()
                    ==> exists|x: int| 0 <= x < i && #[trigger] affected@[t] == gids@[x],
                forall|t: int| 0 <= t < affected@.len()
                    ==> asg0.contains_key(#[trigger] affected@[t])
                        && assigned_on(asg0[affected@[t]], wid),
                forall|x: int| 0 <= x < i
                    && assigned_on(asg0[#[trigger] gids@[x]], wid)
                    ==> affected@.contains(gids@[x]),
            decreases gids@.len() - i,
        {
            let gid = gids[i];
            let mut on_lost = false;
            match self.assignments.get(&gid) {
                Some(asg) => {
                    asg.entry_map_facts();
                    let n = asg.num_entries();
                    let mut t: usize = 0;
                    while t < n
                        invariant
                            t <= n,
                            n == asg.entry_seq().len(),
                            on_lost ==> assigned_on(*asg, wid),
                            !on_lost ==> forall|x: int| 0 <= x < t
                                ==> (#[trigger] asg.entry_seq()[x]).1 != wid,
                        decreases n - t,
                    {
                        let entry = asg.entry_at(t);
                        if entry.1.key_eq(&wid) {
                            on_lost = true;
                        }
                        t = t + 1;
                    }
                    proof {
                        if !on_lost {
                            assert forall|j: Job| asg@.contains_key(j)
                                implies asg@[j] != wid by {
                                let x = choose|x: int| 0 <= x < asg.entry_seq().len()
                                    && #[trigger] asg.entry_seq()[x].0 == j;
                                assert(asg@[asg.entry_seq()[x].0] == asg.entry_seq()[x].1);
                            }
                            assert(!assigned_on(*asg, wid));
                        }
                    }
                }
                None => {
                    proof {
                        assert(gids@.contains(gids@[i as int]));
                        assert(false);
                    }
                }
            }
            let ghost aff0 = affected@;
            if on_lost {
                affected.push(gid);
                proof {
                    assert forall|t: int| 0 <= t < affected@.len()
                        implies exists|x: int| 0 <= x < i + 1
                            && #[trigger] affected@[t] == gids@[x] by {
                        if t < aff0.len() {
                            let x = choose|x: int| 0 <= x < i
                                && #[trigger] aff0[t] == gids@[x];
                            assert(affected@[t] == gids@[x]);
                        } else {
                            assert(affected@[t] == gids@[i as int]);
                        }
                    }
                    assert(affected@.no_duplicates()) by {
                        if aff0.contains(gid) {
                            let t = choose|t: int| 0 <= t < aff0.len() && aff0[t] == gid;
                            let x = choose|x: int| 0 <= x < i
                                && #[trigger] aff0[t] == gids@[x];
                            assert(gids@[x] == gids@[i as int]);
                        }
                        assert(forall|a: int, b: int|
                            0 <= a < b < affected@.len()
                                ==> affected@[a] != affected@[b]);
                    }
                }
            }
            proof {
                assert forall|x: int| 0 <= x < i + 1
                    && assigned_on(asg0[#[trigger] gids@[x]], wid)
                    implies affected@.contains(gids@[x]) by {
                    if x < i {
                        assert(aff0.contains(gids@[x]));
                        let t = choose|t: int| 0 <= t < aff0.len()
                            && #[trigger] aff0[t] == gids@[x];
                        assert(affected@[t] == gids@[x]);
                    } else {
                        assert(on_lost);
                        assert(affected@[affected@.len() - 1] == gids@[x]);
                    }
                }
            }
            i = i + 1;
        }
        proof {
            assert forall|g: JobGraphId| asg0.contains_key(g)
                && assigned_on(asg0[g], wid) implies affected@.contains(g) by {
                assert(gids@.contains(g));
                let x = choose|x: int| 0 <= x < gids@.len() && #[trigger] gids@[x] == g;
            }
        }
        // drop the abandoned graphs
        let ghost w1 = self.workers@;
        drop_graph_entries(&mut self.assignments, &affected);
        drop_graph_entries(&mut self.ready_jobs, &affected);
        proof {
            assert forall|g: JobGraphId| asg0.contains_key(g)
                implies (if assigned_on(asg0[g], wid) {
                    !self.assignments@.contains_key(g)
                        && !self.ready_jobs@.contains_key(g)
                } else {
                    self.assignments@.contains_key(g)
                        && self.assignments@[g] == asg0[g]
                }) by {
                if assigned_on(asg0[g], wid) {
                    assert(affected@.contains(g));
                    assert(!self.assignments@.contains_key(g));
                    assert(!self.ready_jobs@.contains_key(g));
                } else {
                    if affected@.contains(g) {
                        let t = choose|t: int| 0 <= t < affected@.len()
                            && #[trigger] affected@[t] == g;
                        assert(assigned_on(asg0[affected@[t]], wid));
                    }
                    assert(!affected@.contains(g));
                    assert(self.assignments@.contains_key(g));
                    assert(self.assignments@[g] == asg0[g]);
                }
            }
        }
        // tell the remaining workers to stop
        let n_workers = self.workers.len();
        let wids = self.workers.keys();
        let mut actions: Vec<LeaderAction> = Vec::new();
        let mut k: usize = 0;
        while k < wids.len()
            invariant
                k <= wids@.len(),
                actions@.len() == k,
                self.workers@ == w1,
                forall|t: int| 0 <= t < wids@.len()
                    ==> w1.contains_key(#[trigger] wids@[t]),
                forall|t: int| 0 <= t < k
                    ==> #[trigger] actions@[t] == LeaderAction::SendTo(
                        wids@[t],
                        LeaderNotification::Shutdown,
                    ),
            decreases wids@.len() - k,
        {
            actions.push(LeaderAction::SendTo(wids[k], LeaderNotification::Shutdown));
            k = k + 1;
        }
        proof {
            assert forall|w: WorkerId| self.workers@.contains_key(w)
                implies actions@.contains(LeaderAction::SendTo(
                    w,
                    LeaderNotification::Shutdown,
                )) by {
                assert(wids@.contains(w));
                let t = choose|t: int| 0 <= t < wids@.len() && #[trigger] wids@[t] == w;
                assert(actions@[t] == LeaderAction::SendTo(w, LeaderNotification::Shutdown));
            }
            assert(self.workers@ == workers0.remove(wid));
            assert(actions@.len() == self.workers@.dom().len());
        }
        actions
    }
}

/// The jobs of a graph: its operators, and the driver.
pub open spec fn graph_jobs(g: JobGraphVal) -> Set<Job> {
    Set::new(
        |j: Job| j == Job::Driver || (j matches Job::Operator(oid)
            && crate::graph::job_registered(g.operators, j)),
    )
}

impl LeaderNode {
    /// Accepts a submitted graph: stores it, picks a worker for every job
    /// (the worker named by the operator's configuration when it is attached,
    /// else round-robin over workers with resources), and emits one schedule
    /// request per operator whose address map covers every job its streams
    /// reference.  With no eligible worker the graph is stored and nothing is
    /// scheduled.
    #[verifier::loop_isolation(false)]
    #[verifier::rlimit(100)]
    pub fn handle_submit_graph(
        &mut self,
        from_worker: WorkerId,
        gid: JobGraphId,
        graph: JobGraph,
    ) -> (r: Vec<LeaderAction>)
        requires
            old(self).spec_workers().contains_key(from_worker),
        ensures
            final(self).spec_workers() == old(self).spec_workers(),
            final(self).is_shut_down() == old(self).is_shut_down(),
            final(self).spec_executed() == old(self).spec_executed(),
            // assignments are immutable until the graph completes: a graph
            // that still has assignments is not admitted again
            old(self).spec_assignments().contains_key(gid)
                ==> (*final(self) == *old(self) && r@ == Seq::<LeaderAction>::empty()),
            !old(self).spec_assignments().contains_key(gid) ==> {
                &&& final(self).graphs().dom() == old(self).graphs().dom().insert(gid)
                &&& final(self).graphs().contains_key(gid)
                    && final(self).graphs()[gid]@ == graph@
                &&& forall|g2: JobGraphId| old(self).graphs().contains_key(g2) && g2 != gid
                    ==> final(self).graphs()[g2] == old(self).graphs()[g2]
            },
            !old(self).spec_assignments().contains_key(gid) ==> ({
                let g = graph@;
                let workers = old(self).spec_workers();
                if exists|w: WorkerId| workers.contains_key(w)
                    && eligible_worker(#[trigger] workers[w]) {
                    &&& final(self).spec_assignments().contains_key(gid)
                    &&& final(self).spec_assignments()[gid]@.dom() =~= graph_jobs(g)
                    &&& forall|j: Job| graph_jobs(g).contains(j)
                        ==> workers.contains_key(
                            #[trigger] final(self).spec_assignments()[gid]@[j],
                        )
                    &&& forall|i: int| 0 <= i < g.operators.len()
                        ==> (((#[trigger] g.operators[i]).config.worker is Some
                            && workers.contains_key(g.operators[i].config.worker->Some_0))
                            ==> final(self).spec_assignments()[gid]@[
                                Job::Operator(g.operators[i].id)
                            ] == g.operators[i].config.worker->Some_0)
                    // an operator not pinned to an attached worker runs on a
                    // worker with resources
                    &&& forall|i: int| 0 <= i < g.operators.len()
                        ==> (!((#[trigger] g.operators[i]).config.worker is Some
                            && workers.contains_key(g.operators[i].config.worker->Some_0))
                            ==> eligible_worker(workers[
                                final(self).spec_assignments()[gid]@[
                                    Job::Operator(g.operators[i].id)
                                ]
                            ]))
                    // the driver job has no streams to materialize, so it
                    // counts as ready from submission on; the release then
                    // waits only for the operators' readiness reports
                    &&& final(self).ready_sets() =~= old(self).ready_sets().insert(
                        gid,
                        Set::<Job>::empty().insert(Job::Driver),
                    )
                    &&& r@.len() == g.operators.len()
                    &&& forall|i: int| 0 <= i < r@.len()
                        ==> ((#[trigger] r@[i]) matches LeaderAction::SendTo(w, n)
                            && w == final(self).spec_assignments()[gid]@[
                                Job::Operator(g.operators[i].id)
                            ]
                            && (n@ matches crate::control_plane::LeaderNotificationVal
                                ::ScheduleJob(gg, jj, addrs)
                                && gg == gid
                                && jj == Job::Operator(g.operators[i].id)
                                && addrs_consistent(
                                    addrs,
                                    final(self).spec_assignments()[gid]@,
                                    workers,
                                )
                                && schedule_addrs_ok(g, g.operators[i], addrs)))
                } else {
                    &&& final(self).spec_assignments() == old(self).spec_assignments()
                    &&& final(self).ready_sets() == old(self).ready_sets()
                    &&& r@ == Seq::<LeaderAction>::empty()
                }
            }),
    {
        if self.assignments.contains_key(&gid) {
            let r: Vec<LeaderAction> = Vec::new();
            proof {
                assert(r@ =~= Seq::<LeaderAction>::empty());
            }
            return r;
        }
        let ghost workers0 = self.workers@;
        let ghost asg0 = self.assignments@;
        let ghost ready0 = self.ready_sets();
        let ghost exec0 = self.executed@;
        let gcopy = graph.duplicate();
        let ghost stored = gcopy;
        graph.wf_facts();
        let ghost g = graph@;
        self.job_graphs.insert(gid, gcopy);
        proof {
            assert(self.job_graphs@ == old(self).graphs().insert(gid, stored));
            assert(self.job_graphs@.dom() =~= old(self).graphs().dom().insert(gid));
        }
        // collect the workers that can host unpinned operators
        let mut eligible: Vec<WorkerId> = Vec::new();
        let n_workers = self.workers.num_entries();
        let mut i: usize = 0;
        while i < n_workers
            invariant
                i <= n_workers,
                self.workers@ == workers0,
                n_workers == self.workers.entry_seq().len(),
                forall|t: int| 0 <= t < eligible@.len()
                    ==> workers0.contains_key(#[trigger] eligible@[t])
                        && eligible_worker(workers0[eligible@[t]]),
                eligible@.len() == 0 ==> forall|t: int| 0 <= t < i
                    ==> !eligible_worker((#[trigger] self.workers.entry_seq()[t]).1),
            decreases n_workers - i,
        {
            let entry = self.workers.entry_at(i);
            if entry.1.resources.num_cpus > 0 || entry.1.resources.num_gpus > 0 {
                eligible.push(entry.0);
            }
            i = i + 1;
        }
        if eligible.len() == 0 {
            self.workers.entry_map_facts();
            proof {
                assert forall|w: WorkerId| workers0.contains_key(w)
                    implies !eligible_worker(workers0[w]) by {
                    let t = choose|t: int| 0 <= t < self.workers.entry_seq().len()
                        && #[trigger] self.workers.entry_seq()[t].0 == w;
                    assert(!eligible_worker(self.workers.entry_seq()[t].1));
                }
                assert(self.ready_sets() =~= ready0);
            }
            return Vec::new();
        }
        // pick a worker for every job
        let mut asg: Table<Job, WorkerId> = Table::new();
        asg.insert(Job::Driver, from_worker);
        let n_ops = graph.num_operators();
        let mut i: usize = 0;
        while i < n_ops
            invariant
                i <= n_ops,
                n_ops == g.operators.len(),
                self.workers@ == workers0,
                self.job_graphs@ == old(self).graphs().insert(gid, stored),
                self.assignments@ == asg0,
                self.ready_sets() == ready0,
                self.executed@ == exec0,
                self.shut_down == old(self).is_shut_down(),
                eligible@.len() > 0,
                forall|t: int| 0 <= t < eligible@.len()
                    ==> workers0.contains_key(#[trigger] eligible@[t])
                        && eligible_worker(workers0[eligible@[t]]),
                asg@.contains_key(Job::Driver) && asg@[Job::Driver] == from_worker,
                forall|j: Job| asg@.contains_key(j)
                    ==> (j == Job::Driver || (j matches Job::Operator(oid)
                        && exists|t: int| 0 <= t < i
                            && (#[trigger] g.operators[t]).id == oid)),
                forall|t: int| 0 <= t < i
                    ==> asg@.contains_key(Job::Operator((#[trigger] g.operators[t]).id)),
                forall|j: Job| asg@.contains_key(j)
                    ==> workers0.contains_key(#[trigger] asg@[j]),
                forall|t: int| 0 <= t < i
                    ==> (((#[trigger] g.operators[t]).config.worker is Some
                        && workers0.contains_key(g.operators[t].config.worker->Some_0))
                        ==> asg@[Job::Operator(g.operators[t].id)]
                            == g.operators[t].config.worker->Some_0),
                forall|t: int| 0 <= t < i
                    ==> (!((#[trigger] g.operators[t]).config.worker is Some
                        && workers0.contains_key(g.operators[t].config.worker->Some_0))
                        ==> eligible_worker(workers0[
                            asg@[Job::Operator(g.operators[t].id)]
                        ])),
            decreases n_ops - i,
        {
            let op = graph.operator_at(i);
            let job = Job::Operator(op.id);
            let pinned = match &op.config.worker {
                Some(w) => {
                    if self.workers.contains_key(w) {
                        Some(*w)
                    } else {
                        None
                    }
                }
                None => None,
            };
            let wid = match pinned {
                Some(w) => w,
                None => {
                    let idx = (self.next_worker % (eligible.len() as u64)) as usize;
                    self.next_worker = self.next_worker.wrapping_add(1);
                    eligible[idx]
                }
            };
            asg.insert(job, wid);
            proof {
                assert forall|t: int| 0 <= t < i + 1
                    implies (((#[trigger] g.operators[t]).config.worker is Some
                        && workers0.contains_key(g.operators[t].config.worker->Some_0))
                        ==> asg@[Job::Operator(g.operators[t].id)]
                            == g.operators[t].config.worker->Some_0) by {
                    if t < i {
                        assert(g.operators[t].id != g.operators[i as int].id);
                    }
                }
                assert forall|t: int| 0 <= t < i + 1
                    implies (!((#[trigger] g.operators[t]).config.worker is Some
                        && workers0.contains_key(g.operators[t].config.worker->Some_0))
                        ==> eligible_worker(workers0[
                            asg@[Job::Operator(g.operators[t].id)]
                        ])) by {
                    if t < i {
                        assert(g.operators[t].id != g.operators[i as int].id);
                    }
                }
            }
            i = i + 1;
        }
        // one schedule request per operator
        let ghost asg_v = asg@;
        let mut actions: Vec<LeaderAction> = Vec::new();
        let mut i: usize = 0;
        while i < n_ops
            invariant
                i <= n_ops,
                n_ops == g.operators.len(),
                self.workers@ == workers0,
                self.job_graphs@ == old(self).graphs().insert(gid, stored),
                self.assignments@ == asg0,
                self.ready_sets() == ready0,
                self.executed@ == exec0,
                self.shut_down == old(self).is_shut_down(),
                asg@ == asg_v,
                forall|j: Job| graph_jobs(g).contains(j) ==> asg_v.contains_key(j),
                forall|j: Job| asg_v.contains_key(j)
                    ==> workers0.contains_key(#[trigger] asg_v[j]),
                actions@.len() == i,
                forall|t: int| 0 <= t < i
                    ==> ((#[trigger] actions@[t]) matches LeaderAction::SendTo(w, n)
                        && w == asg_v[Job::Operator(g.operators[t].id)]
                        && (n@ matches crate::control_plane::LeaderNotificationVal
                            ::ScheduleJob(gg, jj, addrs)
                            && gg == gid
                            && jj == Job::Operator(g.operators[t].id)
                            && addrs_consistent(addrs, asg_v, workers0)
                            && schedule_addrs_ok(g, g.operators[t], addrs))),
            decreases n_ops - i,
        {
            let op = graph.operator_at(i);
            let ghost opv = op@;
            let job = Job::Operator(op.id);
            let mut addrs: Vec<(Job, WorkerAddress)> = Vec::new();
            // cover the source of every read stream
            let mut k: usize = 0;
            while k < op.read_streams.len()
                invariant
                    k <= opv.read_streams.len(),
                    opv == op@,
                    self.workers@ == workers0,
                    asg@ == asg_v,
                    forall|j: Job| graph_jobs(g).contains(j) ==> asg_v.contains_key(j),
                    forall|j: Job| asg_v.contains_key(j)
                        ==> workers0.contains_key(#[trigger] asg_v[j]),
                    addrs_consistent(addrs@, asg_v, workers0),
                    forall|t: int| 0 <= t < k
                        ==> {
                            let st = crate::worker_node::stream_by_id(
                                g.streams,
                                #[trigger] opv.read_streams[t],
                            );
                            st.source is Some
                                && addr_lookup(addrs@, st.source->Some_0) is Some
                        },
                decreases opv.read_streams.len() - k,
            {
                let sid = op.read_streams[k];
                let st = match graph.get_stream(&sid) {
                    Some(st) => st,
                    None => {
                        proof {
                            assert(false);
                        }
                        return Vec::new();
                    }
                };
                proof {
                    crate::worker_node::lemma_stream_by_id(g.streams, st@);
                }
                let src = match st.get_source() {
                    Some(src) => src,
                    None => {
                        proof {
                            assert(false);
                        }
                        return Vec::new();
                    }
                };
                let wid2 = match asg.get(&src) {
                    Some(w) => *w,
                    None => {
                        proof {
                            assert(graph_jobs(g).contains(src));
                            assert(false);
                        }
                        return Vec::new();
                    }
                };
                let wstate = match self.workers.get(&wid2) {
                    Some(ws) => *ws,
                    None => {
                        proof {
                            assert(false);
                        }
                        return Vec::new();
                    }
                };
                let ghost a0 = addrs@;
                addrs.push((src, wstate.address));
                proof {
                    assert(addrs@[a0.len() as int].0 == src);
                    assert forall|t: int| 0 <= t < k + 1 implies {
                        let st2 = crate::worker_node::stream_by_id(
                            g.streams,
                            #[trigger] opv.read_streams[t],
                        );
                        st2.source is Some
                            && addr_lookup(addrs@, st2.source->Some_0) is Some
                    } by {
                        let st2 = crate::worker_node::stream_by_id(
                            g.streams,
                            opv.read_streams[t],
                        );
                        if t < k {
                            lemma_addr_lookup_mono(
                                a0,
                                (src, wstate.address),
                                st2.source->Some_0,
                            );
                        } else {
                            lemma_addr_lookup_some(addrs@, st2.source->Some_0);
                        }
                    }
                }
                k = k + 1;
            }
            // cover every destination of every write stream
            let mut k: usize = 0;
            while k < op.write_streams.len()
                invariant
                    k <= opv.write_streams.len(),
                    opv == op@,
                    self.workers@ == workers0,
                    asg@ == asg_v,
                    forall|j: Job| graph_jobs(g).contains(j) ==> asg_v.contains_key(j),
                    forall|j: Job| asg_v.contains_key(j)
                        ==> workers0.contains_key(#[trigger] asg_v[j]),
                    addrs_consistent(addrs@, asg_v, workers0),
                    forall|t: int| 0 <= t < opv.read_streams.len()
                        ==> {
                            let st = crate::worker_node::stream_by_id(
                                g.streams,
                                #[trigger] opv.read_streams[t],
                            );
                            st.source is Some
                                && addr_lookup(addrs@, st.source->Some_0) is Some
                        },
                    forall|t: int| 0 <= t < k
                        ==> {
                            let st = crate::worker_node::stream_by_id(
                                g.streams,
                                #[trigger] opv.write_streams[t],
                            );
                            forall|d: int| 0 <= d < st.destinations.len()
                                ==> addr_lookup(
                                    addrs@,
                                    #[trigger] st.destinations[d],
                                ) is Some
                        },
                decreases opv.write_streams.len() - k,
            {
                let sid = op.write_streams[k];
                let st = match graph.get_stream(&sid) {
                    Some(st) => st,
                    None => {
                        proof {
                            assert(false);
                        }
                        return Vec::new();
                    }
                };
                proof {
                    crate::worker_node::lemma_stream_by_id(g.streams, st@);
                }
                let dests = st.get_destinations();
                let mut d: usize = 0;
                while d < dests.len()
                    invariant
                        d <= st@.destinations.len(),
                        dests@ == st@.destinations,
                        opv == op@,
                        self.workers@ == workers0,
                        asg@ == asg_v,
                        forall|j: Job| graph_jobs(g).contains(j) ==> asg_v.contains_key(j),
                        forall|j: Job| asg_v.contains_key(j)
                            ==> workers0.contains_key(#[trigger] asg_v[j]),
                        addrs_consistent(addrs@, asg_v, workers0),
                        forall|t: int| 0 <= t < opv.read_streams.len()
                            ==> {
                                let st2 = crate::worker_node::stream_by_id(
                                    g.streams,
                                    #[trigger] opv.read_streams[t],
                                );
                                st2.source is Some
                                    && addr_lookup(addrs@, st2.source->Some_0) is Some
                            },
                        forall|t: int| 0 <= t < k
                            ==> {
                                let st2 = crate::worker_node::stream_by_id(
                                    g.streams,
                                    #[trigger] opv.write_streams[t],
                                );
                                forall|dd: int| 0 <= dd < st2.destinations.len()
                                    ==> addr_lookup(
                                        addrs@,
                                        #[trigger] st2.destinations[dd],
                                    ) is Some
                            },
                        forall|dd: int| 0 <= dd < d
                            ==> addr_lookup(addrs@, #[trigger] st@.destinations[dd]) is Some,
                    decreases st@.destinations.len() - d,
                {
                    let dj = dests[d];
                    let wid2 = match asg.get(&dj) {
                        Some(w) => *w,
                        None => {
                            proof {
                                assert(graph_jobs(g).contains(dj));
                                assert(false);
                            }
                            return Vec::new();
                        }
                    };
                    let wstate = match self.workers.get(&wid2) {
                        Some(ws) => *ws,
                        None => {
                            proof {
                                assert(false);
                            }
                            return Vec::new();
                        }
                    };
                    let ghost a0 = addrs@;
                    addrs.push((dj, wstate.address));
                    proof {
                        assert(addrs@[a0.len() as int].0 == dj);
                        assert forall|x: Job| addr_lookup(a0, x) is Some
                            implies addr_lookup(addrs@, x) is Some by {
                            lemma_addr_lookup_mono(a0, (dj, wstate.address), x);
                        }
                        assert forall|dd: int| 0 <= dd < d + 1
                            implies addr_lookup(
                                addrs@,
                                #[trigger] st@.destinations[dd],
                            ) is Some by {
                            if dd == d {
                                lemma_addr_lookup_some(addrs@, dj);
                            }
                        }
                    }
                    d = d + 1;
                }
                proof {
                    assert forall|t: int| 0 <= t < k + 1 implies {
                        let st2 = crate::worker_node::stream_by_id(
                            g.streams,
                            #[trigger] opv.write_streams[t],
                        );
                        forall|dd: int| 0 <= dd < st2.destinations.len()
                            ==> addr_lookup(addrs@, #[trigger] st2.destinations[dd]) is Some
                    } by {}
                }
                k = k + 1;
            }
            let wid = match asg.get(&job) {
                Some(w) => *w,
                None => {
                    proof {
                        assert(graph_jobs(g).contains(job));
                        assert(false);
                    }
                    return Vec::new();
                }
            };
            actions.push(LeaderAction::SendTo(
                wid,
                LeaderNotification::ScheduleJob(gid, job, addrs),
            ));
            i = i + 1;
        }
        proof {
            assert forall|j: Job| graph_jobs(g).contains(j)
                implies asg_v.contains_key(j) by {}
            assert(asg@.dom() =~= graph_jobs(g));
        }
        self.assignments.insert(gid, asg);
        let mut ready_seed: KeySet<Job> = KeySet::new();
        ready_seed.insert(Job::Driver);
        self.ready_jobs.insert(gid, ready_seed);
        proof {
            assert(self.ready_sets()
                =~= ready0.insert(gid, Set::<Job>::empty().insert(Job::Driver)));
            assert(workers0.contains_key(eligible@[0])
                && eligible_worker(workers0[eligible@[0]]));
        }
        actions
    }
}

/// A worker that can host operators not pinned elsewhere.
pub open spec fn eligible_worker(w: WorkerState) -> bool {
    w.resources.num_cpus > 0 || w.resources.num_gpus > 0
}

/// Appending an entry never makes an address lookup fail.
pub proof fn lemma_addr_lookup_mono(
    s: Seq<(Job, WorkerAddress)>,
    e: (Job, WorkerAddress),
    j: Job,
)
    requires
        addr_lookup(s, j) is Some,
    ensures
        addr_lookup(s.push(e), j) is Some,
    decreases s.len(),
{
    if s.len() > 0 {
        assert(s.push(e)[0] == s[0]);
        if s[0].0 != j {
            assert(s.push(e).skip(1) =~= s.skip(1).push(e));
            lemma_addr_lookup_mono(s.skip(1), e, j);
        }
    }
}

} // verus!
