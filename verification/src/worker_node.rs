//! The worker supervisor: a state machine that reacts to leader, driver and
//! data-plane events by updating its job bookkeeping and emitting actions for
//! the surrounding process to perform.

use vstd::prelude::*;

use crate::control_plane::{
    DriverNotification, LeaderNotification, Resources, WorkerAddress, WorkerNotification,
    WorkerNotificationVal, WorkerState,
};
use crate::data_plane::{DataPlaneNotification, StreamType, StreamTypeVal};
use crate::graph::{
    job_registered, AbstractOperatorVal, AbstractStream, AbstractStreamVal, Job, JobGraph,
    JobGraphId, JobGraphVal,
};
use crate::ids::{StreamId, WorkerId};
use crate::table::{KeySet, Table, TableKey};

verus! {

/// The lifecycle of a job on the worker that hosts it; it only moves forward.
#[derive(Clone, Copy, PartialEq, Eq, Structural, Debug)]
pub enum JobState {
    Scheduled,
    Ready,
    Executing,
    Shutdown,
}

/// The streams a scheduled job still waits for, and the graph it belongs to.
pub struct PendingSetup {
    pub graph_id: JobGraphId,
    pub streams: KeySet<StreamId>,
}

/// What the surrounding process must do after a supervisor step.
pub enum WorkerAction {
    /// Send this notification on the leader connection.
    SendToLeader(WorkerNotification),
    /// Ask the data plane to materialize these streams for the job.
    SetupStreams(Job, Vec<StreamType>),
    /// Start the operator executor for this job of this graph.
    SpawnJob(JobGraphId, Job),
}

// ------------------------------------------------------------------
// Specification helpers: looking things up in a graph and address map.
// ------------------------------------------------------------------

pub open spec fn stream_idx(streams: Seq<AbstractStreamVal>, sid: StreamId) -> int {
    choose|i: int| 0 <= i < streams.len() && streams[i].id == sid
}

pub open spec fn stream_by_id(streams: Seq<AbstractStreamVal>, sid: StreamId)
    -> AbstractStreamVal {
    streams[stream_idx(streams, sid)]
}

/// With pairwise-distinct stream ids, a member stream with the sought id is
/// the stream the id names.
pub proof fn lemma_stream_by_id(streams: Seq<AbstractStreamVal>, st: AbstractStreamVal)
    requires
        crate::graph::distinct_stream_ids(streams),
        exists|i: int| 0 <= i < streams.len() && streams[i] == st,
    ensures
        stream_by_id(streams, st.id) == st,
{
    let i = choose|i: int| 0 <= i < streams.len() && streams[i] == st;
    assert(crate::graph::stream_registered(streams, st.id));
    let k = stream_idx(streams, st.id);
    assert(0 <= k < streams.len() && streams[k].id == st.id);
    if k != i {
        assert(streams[k].id != streams[i].id);
    }
}

pub open spec fn addr_lookup(s: Seq<(Job, WorkerAddress)>, j: Job) -> Option<WorkerAddress>
    decreases s.len(),
{
    if s.len() == 0 {
        None
    } else if s[0].0 == j {
        Some(s[0].1)
    } else {
        addr_lookup(s.skip(1), j)
    }
}

/// First-match lookup of a job's address in the map the leader sent.
#[verifier::loop_isolation(false)]
pub fn lookup_addr(addrs: &Vec<(Job, WorkerAddress)>, j: &Job) -> (r: Option<WorkerAddress>)
    ensures
        r == addr_lookup(addrs@, *j),
{
    let mut i: usize = 0;
    proof {
        assert(addrs@.skip(0) =~= addrs@);
    }
    while i < addrs.len()
        invariant
            i <= addrs@.len(),
            addr_lookup(addrs@, *j) == addr_lookup(addrs@.skip(i as int), *j),
        decreases addrs@.len() - i,
    {
        proof {
            assert(addrs@.skip(i as int)[0] == addrs@[i as int]);
            assert(addrs@.skip(i as int).skip(1) =~= addrs@.skip(i + 1));
        }
        if addrs[i].0.key_eq(j) {
            return Some(addrs[i].1);
        }
        i = i + 1;
    }
    proof {
        assert(addrs@.skip(addrs@.len() as int).len() == 0);
    }
    None
}

/// The setup instruction for one read stream: the stream, and the address of
/// the worker executing its source.
pub open spec fn setup_for_read(
    g: JobGraphVal,
    addrs: Seq<(Job, WorkerAddress)>,
    sid: StreamId,
) -> StreamTypeVal {
    let st = stream_by_id(g.streams, sid);
    StreamTypeVal::ReadStream(st, addr_lookup(addrs, st.source->Some_0)->Some_0)
}

/// The setup instruction for one write stream: the stream, and the addresses
/// of the workers executing its destinations.
pub open spec fn setup_for_write(
    g: JobGraphVal,
    addrs: Seq<(Job, WorkerAddress)>,
    sid: StreamId,
) -> StreamTypeVal {
    let st = stream_by_id(g.streams, sid);
    StreamTypeVal::WriteStream(
        st,
        st.destinations.map_values(|d: Job| (d, addr_lookup(addrs, d)->Some_0)),
    )
}

/// Every stream-setup instruction for a job, reads then writes, in the
/// operator's declared order.
pub open spec fn expected_setups(
    g: JobGraphVal,
    op: AbstractOperatorVal,
    addrs: Seq<(Job, WorkerAddress)>,
) -> Seq<StreamTypeVal> {
    op.read_streams.map_values(|sid: StreamId| setup_for_read(g, addrs, sid))
        + op.write_streams.map_values(|sid: StreamId| setup_for_write(g, addrs, sid))
}

/// The operator of a job in a graph.
pub open spec fn op_idx(ops: Seq<AbstractOperatorVal>, oid: crate::ids::OperatorId) -> int {
    choose|i: int| 0 <= i < ops.len() && ops[i].id == oid
}

pub open spec fn op_by_id(ops: Seq<AbstractOperatorVal>, oid: crate::ids::OperatorId)
    -> AbstractOperatorVal {
    ops[op_idx(ops, oid)]
}

pub proof fn lemma_op_by_id(ops: Seq<AbstractOperatorVal>, op: AbstractOperatorVal)
    requires
        crate::graph::distinct_operator_ids(ops),
        exists|i: int| 0 <= i < ops.len() && ops[i] == op,
    ensures
        op_by_id(ops, op.id) == op,
{
    let i = choose|i: int| 0 <= i < ops.len() && ops[i] == op;
    assert(job_registered(ops, Job::Operator(op.id)));
    let k = op_idx(ops, op.id);
    assert(0 <= k < ops.len() && ops[k].id == op.id);
    if k != i {
        assert(ops[k].id != ops[i].id);
    }
}

/// Whether a schedule request can be carried out: the graph is registered
/// here, the job is one of its operators, the job has no recorded state yet
/// (a job's state only moves forward, so scheduling it anew is refused), and
/// the address map covers the source of every read stream and every
/// destination of every write stream.
pub open spec fn schedule_valid(
    graphs: Map<JobGraphId, JobGraph>,
    states: Map<JobGraphId, Table<Job, JobState>>,
    gid: JobGraphId,
    j: Job,
    addrs: Seq<(Job, WorkerAddress)>,
) -> bool {
    &&& graphs.contains_key(gid)
    &&& j matches Job::Operator(oid)
    &&& job_registered(graphs[gid]@.operators, j)
    &&& !(states.contains_key(gid) && states[gid]@.contains_key(j))
    &&& {
        let g = graphs[gid]@;
        let op = op_by_id(g.operators, j->Operator_0);
        &&& forall|k: int| 0 <= k < op.read_streams.len()
            ==> {
                let st = stream_by_id(g.streams, #[trigger] op.read_streams[k]);
                st.source is Some && addr_lookup(addrs, st.source->Some_0) is Some
            }
        &&& forall|k: int| 0 <= k < op.write_streams.len()
            ==> {
                let st = stream_by_id(g.streams, #[trigger] op.write_streams[k]);
                forall|d: int| 0 <= d < st.destinations.len()
                    ==> addr_lookup(addrs, #[trigger] st.destinations[d]) is Some
            }
    }
}

// ------------------------------------------------------------------
// Specification of the readiness bookkeeping (used for the at-most-once law).
// ------------------------------------------------------------------

/// A stream-ready event reports the job ready exactly when it removes the
/// last pending stream of that job.
pub open spec fn ready_emit(
    pending: Map<Job, (JobGraphId, Set<StreamId>)>,
    j: Job,
    sid: StreamId,
) -> bool {
    pending.contains_key(j) && pending[j].1.contains(sid) && pending[j].1.len() == 1
}

/// How the pending map changes on a stream-ready event.
pub open spec fn ready_next(
    pending: Map<Job, (JobGraphId, Set<StreamId>)>,
    j: Job,
    sid: StreamId,
) -> Map<Job, (JobGraphId, Set<StreamId>)> {
    if !pending.contains_key(j) || !pending[j].1.contains(sid) {
        pending
    } else if pending[j].1.len() == 1 {
        pending.remove(j)
    } else {
        pending.insert(j, (pending[j].0, pending[j].1.remove(sid)))
    }
}

/// How many of a sequence of stream-ready events report job `j` ready.
pub open spec fn ready_emissions(
    pending: Map<Job, (JobGraphId, Set<StreamId>)>,
    events: Seq<(Job, StreamId)>,
    j: Job,
) -> int
    decreases events.len(),
{
    if events.len() == 0 {
        0
    } else {
        (if events[0].0 == j && ready_emit(pending, events[0].0, events[0].1) {
            1int
        } else {
            0int
        }) + ready_emissions(ready_next(pending, events[0].0, events[0].1), events.skip(1), j)
    }
}

proof fn lemma_no_ready_when_absent(
    pending: Map<Job, (JobGraphId, Set<StreamId>)>,
    events: Seq<(Job, StreamId)>,
    j: Job,
)
    requires
        !pending.contains_key(j),
    ensures
        ready_emissions(pending, events, j) == 0,
    decreases events.len(),
{
    if events.len() > 0 {
        assert(!ready_next(pending, events[0].0, events[0].1).contains_key(j));
        lemma_no_ready_when_absent(
            ready_next(pending, events[0].0, events[0].1),
            events.skip(1),
            j,
        );
    }
}

/// Readiness is reported at most once per job: across any sequence of
/// stream-ready events, a job is reported ready no more than one time, since
/// the report consumes the job's pending entry and only a fresh schedule
/// request creates one.
pub proof fn lemma_job_ready_at_most_once(
    pending: Map<Job, (JobGraphId, Set<StreamId>)>,
    events: Seq<(Job, StreamId)>,
    j: Job,
)
    ensures
        ready_emissions(pending, events, j) <= 1,
    decreases events.len(),
{
    if events.len() > 0 {
        let next = ready_next(pending, events[0].0, events[0].1);
        if events[0].0 == j && ready_emit(pending, events[0].0, events[0].1) {
            assert(!next.contains_key(j));
            lemma_no_ready_when_absent(next, events.skip(1), j);
        } else {
            lemma_job_ready_at_most_once(next, events.skip(1), j);
        }
    }
}

// ------------------------------------------------------------------
// Scheduling: building the stream setups for a job.
// ------------------------------------------------------------------

/// The views of a list of setup instructions.
pub open spec fn setups_view(v: Seq<StreamType>) -> Seq<StreamTypeVal> {
    v.map_values(|st: StreamType| st@)
}

/// Whether the address map covers everything the job's streams reference.
pub open spec fn schedule_addrs_ok(
    g: JobGraphVal,
    op: AbstractOperatorVal,
    addrs: Seq<(Job, WorkerAddress)>,
) -> bool {
    &&& forall|k: int| 0 <= k < op.read_streams.len()
        ==> {
            let st = stream_by_id(g.streams, #[trigger] op.read_streams[k]);
            st.source is Some && addr_lookup(addrs, st.source->Some_0) is Some
        }
    &&& forall|k: int| 0 <= k < op.write_streams.len()
        ==> {
            let st = stream_by_id(g.streams, #[trigger] op.write_streams[k]);
            forall|d: int| 0 <= d < st.destinations.len()
                ==> addr_lookup(addrs, #[trigger] st.destinations[d]) is Some
        }
}

proof fn lemma_concat_contains(a: Seq<StreamId>, b: Seq<StreamId>, x: StreamId)
    ensures
        (a + b).contains(x) <==> (a.contains(x) || b.contains(x)),
{
    if (a + b).contains(x) {
        let i = choose|i: int| 0 <= i < (a + b).len() && (a + b)[i] == x;
        if i < a.len() {
            assert(a[i] == x);
        } else {
            assert(b[i - a.len()] == x);
        }
    }
    if a.contains(x) {
        let i = choose|i: int| 0 <= i < a.len() && a[i] == x;
        assert((a + b)[i] == x);
    }
    if b.contains(x) {
        let i = choose|i: int| 0 <= i < b.len() && b[i] == x;
        assert((a + b)[a.len() + i] == x);
    }
}

proof fn lemma_subrange_snoc_contains(v: Seq<StreamId>, k: int, x: StreamId)
    requires
        0 <= k < v.len(),
    ensures
        v.subrange(0, k + 1).contains(x) <==> (v.subrange(0, k).contains(x) || x == v[k]),
{
    if v.subrange(0, k + 1).contains(x) {
        let i = choose|i: int| 0 <= i < k + 1 && #[trigger] v.subrange(0, k + 1)[i] == x;
        if i < k {
            assert(v.subrange(0, k)[i] == x);
        } else {
            assert(v[k] == x);
        }
    }
    if v.subrange(0, k).contains(x) {
        let i = choose|i: int| 0 <= i < k && v.subrange(0, k)[i] == x;
        assert(v.subrange(0, k + 1)[i] == x);
    }
    if x == v[k] {
        assert(v.subrange(0, k + 1)[k] == x);
    }
}

/// Builds the setup instructions and the pending-stream set for scheduling a
/// job; yields them exactly when the job is an operator of the graph and the
/// address map covers its streams.
#[verifier::loop_isolation(false)]
#[verifier::rlimit(100)]
fn build_schedule(jg: &JobGraph, j: &Job, addrs: &Vec<(Job, WorkerAddress)>) -> (r: Option<(
    Vec<StreamType>,
    KeySet<StreamId>,
)>)
    ensures
        match r {
            Some((setups, sids)) => {
                &&& *j matches Job::Operator(oid)
                &&& job_registered(jg@.operators, *j)
                &&& schedule_addrs_ok(jg@, op_by_id(jg@.operators, j->Operator_0), addrs@)
                &&& setups_view(setups@) == expected_setups(
                    jg@,
                    op_by_id(jg@.operators, j->Operator_0),
                    addrs@,
                )
                &&& sids@ == (op_by_id(jg@.operators, j->Operator_0).read_streams
                    + op_by_id(jg@.operators, j->Operator_0).write_streams).to_set()
            },
            None => !{
                &&& *j matches Job::Operator(oid)
                &&& job_registered(jg@.operators, *j)
                &&& schedule_addrs_ok(jg@, op_by_id(jg@.operators, j->Operator_0), addrs@)
            },
        },
{
    jg.wf_facts();
    let op = match jg.get_job(j) {
        Some(op) => op,
        None => {
            return None;
        }
    };
    proof {
        lemma_op_by_id(jg@.operators, op@);
    }
    let ghost gv = jg@;
    let ghost opv = op@;
    let mut setups: Vec<StreamType> = Vec::new();
    let mut sids: KeySet<StreamId> = KeySet::new();
    let ghost read_setup_of = |sid: StreamId| setup_for_read(gv, addrs@, sid);
    let ghost write_setup_of = |sid: StreamId| setup_for_write(gv, addrs@, sid);
    // read streams
    let mut k: usize = 0;
    proof {
        assert(setups_view(setups@)
            =~= opv.read_streams.subrange(0, 0).map_values(read_setup_of));
    }
    while k < op.read_streams.len()
        invariant
            k <= opv.read_streams.len(),
            setups_view(setups@)
                == opv.read_streams.subrange(0, k as int).map_values(read_setup_of),
            forall|x: StreamId| sids@.contains(x)
                <==> opv.read_streams.subrange(0, k as int).contains(x),
            forall|a: int| 0 <= a < k
                ==> {
                    let st = stream_by_id(gv.streams, #[trigger] opv.read_streams[a]);
                    st.source is Some && addr_lookup(addrs@, st.source->Some_0) is Some
                },
        decreases opv.read_streams.len() - k,
    {
        let sid = op.read_streams[k];
        let st = match jg.get_stream(&sid) {
            Some(st) => st,
            None => {
                proof {
                    assert(false);
                }
                return None;
            }
        };
        proof {
            lemma_stream_by_id(gv.streams, st@);
        }
        let src = match st.get_source() {
            Some(src) => src,
            None => {
                proof {
                    assert(false);
                }
                return None;
            }
        };
        let a = match lookup_addr(addrs, &src) {
            Some(a) => a,
            None => {
                return None;
            }
        };
        let dup = st.duplicate();
        let elem = StreamType::ReadStream(dup, a);
        let ghost ev = elem@;
        let ghost sv0 = setups@;
        proof {
            assert(elem@ == setup_for_read(gv, addrs@, sid));
            assert(read_setup_of(sid) == setup_for_read(gv, addrs@, sid));
        }
        setups.push(elem);
        sids.insert(sid);
        proof {
            let lhs = setups_view(setups@);
            let rhs = opv.read_streams.subrange(0, k + 1).map_values(read_setup_of);
            assert(lhs.len() == k + 1 && rhs.len() == k + 1);
            assert forall|i: int| 0 <= i < k + 1 implies lhs[i] == rhs[i] by {
                assert(lhs[i] == (setups@[i])@);
                assert(rhs[i] == read_setup_of(opv.read_streams.subrange(0, k + 1)[i]));
                if i < k {
                    assert(setups@[i] == sv0[i]);
                    assert(setups_view(sv0)[i] == (sv0[i])@);
                    assert(opv.read_streams.subrange(0, k as int)[i]
                        == opv.read_streams.subrange(0, k + 1)[i]);
                } else {
                    assert((setups@[i])@ == ev);
                    assert(opv.read_streams.subrange(0, k + 1)[i] == opv.read_streams[i]);
                }
            }
            assert(setups_view(setups@)
                =~= opv.read_streams.subrange(0, k + 1).map_values(read_setup_of));
            assert forall|x: StreamId| sids@.contains(x)
                <==> opv.read_streams.subrange(0, k + 1).contains(x) by {
                lemma_subrange_snoc_contains(opv.read_streams, k as int, x);
            }
        }
        k = k + 1;
    }
    proof {
        assert(opv.read_streams.subrange(0, opv.read_streams.len() as int)
            =~= opv.read_streams);
    }
    // write streams
    let mut k: usize = 0;
    proof {
        assert(setups_view(setups@) =~= opv.read_streams.map_values(read_setup_of)
            + opv.write_streams.subrange(0, 0).map_values(write_setup_of));
    }
    while k < op.write_streams.len()
        invariant
            k <= opv.write_streams.len(),
            setups_view(setups@) == opv.read_streams.map_values(read_setup_of)
                + opv.write_streams.subrange(0, k as int).map_values(write_setup_of),
            forall|x: StreamId| sids@.contains(x)
                <==> (opv.read_streams.contains(x)
                    || opv.write_streams.subrange(0, k as int).contains(x)),
            forall|a: int| 0 <= a < opv.read_streams.len()
                ==> {
                    let st = stream_by_id(gv.streams, #[trigger] opv.read_streams[a]);
                    st.source is Some && addr_lookup(addrs@, st.source->Some_0) is Some
                },
            forall|a: int| 0 <= a < k
                ==> {
                    let st = stream_by_id(gv.streams, #[trigger] opv.write_streams[a]);
                    forall|d: int| 0 <= d < st.destinations.len()
                        ==> addr_lookup(addrs@, #[trigger] st.destinations[d]) is Some
                },
        decreases opv.write_streams.len() - k,
    {
        let sid = op.write_streams[k];
        let st = match jg.get_stream(&sid) {
            Some(st) => st,
            None => {
                proof {
                    assert(false);
                }
                return None;
            }
        };
        proof {
            lemma_stream_by_id(gv.streams, st@);
        }
        let dests = st.get_destinations();
        let mut dest_addrs: Vec<(Job, WorkerAddress)> = Vec::new();
        let ghost pair_of = |dd: Job| (dd, addr_lookup(addrs@, dd)->Some_0);
        let mut d: usize = 0;
        proof {
            assert(dest_addrs@ =~= st@.destinations.subrange(0, 0).map_values(pair_of));
        }
        while d < dests.len()
            invariant
                d <= st@.destinations.len(),
                dests@ == st@.destinations,
                dest_addrs@ == st@.destinations.subrange(0, d as int).map_values(pair_of),
                forall|x: int| 0 <= x < d
                    ==> addr_lookup(addrs@, #[trigger] st@.destinations[x]) is Some,
            decreases st@.destinations.len() - d,
        {
            let a = match lookup_addr(addrs, &dests[d]) {
                Some(a) => a,
                None => {
                    return None;
                }
            };
            dest_addrs.push((dests[d], a));
            proof {
                assert(dest_addrs@
                    =~= st@.destinations.subrange(0, d + 1).map_values(pair_of));
            }
            d = d + 1;
        }
        proof {
            assert(st@.destinations.subrange(0, st@.destinations.len() as int)
                =~= st@.destinations);
            assert(dest_addrs@ == st@.destinations.map_values(pair_of));
        }
        let dup = st.duplicate();
        let elem = StreamType::WriteStream(dup, dest_addrs);
        let ghost ev = elem@;
        let ghost sv0 = setups@;
        proof {
            assert(elem@ matches StreamTypeVal::WriteStream(sv, da)
                && sv == stream_by_id(gv.streams, sid)
                && da =~= st@.destinations.map_values(
                    |dd: Job| (dd, addr_lookup(addrs@, dd)->Some_0),
                ));
            assert(elem@ =~~= setup_for_write(gv, addrs@, sid));
            assert(write_setup_of(sid) == setup_for_write(gv, addrs@, sid));
        }
        setups.push(elem);
        sids.insert(sid);
        proof {
            let nr = opv.read_streams.len() as int;
            let lhs = setups_view(setups@);
            let rhs = opv.read_streams.map_values(read_setup_of)
                + opv.write_streams.subrange(0, k + 1).map_values(write_setup_of);
            assert(lhs.len() == nr + k + 1 && rhs.len() == nr + k + 1);
            assert forall|i: int| 0 <= i < nr + k + 1 implies lhs[i] == rhs[i] by {
                assert(lhs[i] == (setups@[i])@);
                if i < nr + k {
                    assert(setups@[i] == sv0[i]);
                    assert(setups_view(sv0)[i] == (sv0[i])@);
                    let rhs0 = opv.read_streams.map_values(read_setup_of)
                        + opv.write_streams.subrange(0, k as int).map_values(write_setup_of);
                    assert(setups_view(sv0)[i] == rhs0[i]);
                    if i < nr {
                        assert(rhs0[i] == opv.read_streams.map_values(read_setup_of)[i]);
                        assert(rhs[i] == opv.read_streams.map_values(read_setup_of)[i]);
                    } else {
                        assert(rhs0[i] == opv.write_streams.subrange(0, k as int).map_values(
                            write_setup_of,
                        )[i - nr]);
                        assert(rhs[i] == opv.write_streams.subrange(0, k + 1).map_values(
                            write_setup_of,
                        )[i - nr]);
                        assert(opv.write_streams.subrange(0, k as int)[i - nr]
                            == opv.write_streams.subrange(0, k + 1)[i - nr]);
                    }
                } else {
                    assert((setups@[i])@ == ev);
                    assert(rhs[i] == opv.write_streams.subrange(0, k + 1).map_values(
                        write_setup_of,
                    )[k as int]);
                    assert(opv.write_streams.subrange(0, k + 1)[k as int]
                        == opv.write_streams[k as int]);
                }
            }
            assert(setups_view(setups@) =~~= opv.read_streams.map_values(read_setup_of)
                + opv.write_streams.subrange(0, k + 1).map_values(write_setup_of));
            assert forall|x: StreamId| sids@.contains(x)
                <==> (opv.read_streams.contains(x)
                    || opv.write_streams.subrange(0, k + 1).contains(x)) by {
                lemma_subrange_snoc_contains(opv.write_streams, k as int, x);
            }
        }
        k = k + 1;
    }
    proof {
        assert(opv.write_streams.subrange(0, opv.write_streams.len() as int)
            =~= opv.write_streams);
        assert(setups_view(setups@) =~~= expected_setups(gv, opv, addrs@));
        assert forall|x: StreamId| sids@.contains(x)
            <==> (opv.read_streams + opv.write_streams).contains(x) by {
            lemma_concat_contains(opv.read_streams, opv.write_streams, x);
        }
        assert(sids@ =~= (opv.read_streams + opv.write_streams).to_set());
    }
    Some((setups, sids))
}

// ------------------------------------------------------------------
// The worker supervisor.
// ------------------------------------------------------------------

pub struct WorkerNode {
    /// This worker's identity.
    id: WorkerId,
    /// Where the leader listens for the control connection.
    leader_address: WorkerAddress,
    /// Where this worker's data plane listens for peers.
    data_plane_address: WorkerAddress,
    /// What this worker offers the leader.
    resources: Resources,
    /// The graphs the driver registered here.
    job_graphs: Table<JobGraphId, JobGraph>,
    /// Per scheduled job: its graph, and the streams not yet materialized.
    pending_stream_setups: Table<Job, PendingSetup>,
    /// Per graph, the lifecycle state of each of its jobs scheduled here.
    job_graph_to_job_state: Table<JobGraphId, Table<Job, JobState>>,
    /// Set once a shutdown has been taken; later shutdowns change nothing.
    shut_down: bool,
}

impl WorkerNode {
    pub closed spec fn spec_id(&self) -> WorkerId {
        self.id
    }

    pub closed spec fn graphs(&self) -> Map<JobGraphId, JobGraph> {
        self.job_graphs@
    }

    pub closed spec fn pending(&self) -> Map<Job, (JobGraphId, Set<StreamId>)> {
        Map::new(
            |j: Job| self.pending_stream_setups@.contains_key(j),
            |j: Job| (self.pending_stream_setups@[j].graph_id,
                self.pending_stream_setups@[j].streams@),
        )
    }

    pub closed spec fn job_states(&self) -> Map<JobGraphId, Table<Job, JobState>> {
        self.job_graph_to_job_state@
    }

    pub closed spec fn is_shut_down(&self) -> bool {
        self.shut_down
    }

    pub fn new(
        id: WorkerId,
        leader_address: WorkerAddress,
        data_plane_address: WorkerAddress,
        resources: Resources,
    ) -> (r: WorkerNode)
        ensures
            r.spec_id() == id,
            r.graphs() == Map::<JobGraphId, JobGraph>::empty(),
            r.pending() =~= Map::<Job, (JobGraphId, Set<StreamId>)>::empty(),
            r.job_states() == Map::<JobGraphId, Table<Job, JobState>>::empty(),
            !r.is_shut_down(),
    {
        WorkerNode {
            id,
            leader_address,
            data_plane_address,
            resources,
            job_graphs: Table::new(),
            pending_stream_setups: Table::new(),
            job_graph_to_job_state: Table::new(),
            shut_down: false,
        }
    }

    pub fn id(&self) -> (r: WorkerId)
        ensures
            r == self.spec_id(),
    {
        self.id
    }

    /// The registration the worker sends the leader on connecting, carrying
    /// the address its data plane actually bound.
    pub fn initialization_message(&self, bound_address: WorkerAddress) -> (r: WorkerNotification)
        ensures
            r@ == WorkerNotificationVal::Initialized(
                WorkerState { id: self.spec_id(), address: bound_address,
                    resources: self.spec_resources() },
            ),
    {
        WorkerNotification::Initialized(WorkerState::new(
            self.id,
            bound_address,
            self.resources,
        ))
    }

    pub closed spec fn spec_resources(&self) -> Resources {
        self.resources
    }

    /// Responds to a notification from the driver.
    pub fn handle_driver_messages(&mut self, notification: DriverNotification) -> (r: Vec<
        WorkerAction,
    >)
        ensures
            final(self).spec_id() == old(self).spec_id(),
            final(self).pending() == old(self).pending(),
            final(self).job_states() == old(self).job_states(),
            final(self).is_shut_down() == old(self).is_shut_down(),
            match notification {
                DriverNotification::RegisterGraph(jg) => {
                    &&& final(self).graphs() == old(self).graphs().insert(jg@.id, jg)
                    &&& r@ == Seq::<WorkerAction>::empty()
                },
                DriverNotification::SubmitGraph(gid) => {
                    &&& final(self).graphs() == old(self).graphs()
                    &&& if old(self).graphs().contains_key(gid) {
                        r@.len() == 1 && (r@[0] matches WorkerAction::SendToLeader(n)
                            && n@ == WorkerNotificationVal::SubmitGraph(
                                gid,
                                old(self).graphs()[gid]@,
                            ))
                    } else {
                        r@ == Seq::<WorkerAction>::empty()
                    }
                },
                DriverNotification::Shutdown => {
                    &&& final(self).graphs() == old(self).graphs()
                    &&& r@ == Seq::<WorkerAction>::empty()
                },
            },
    {
        let mut actions: Vec<WorkerAction> = Vec::new();
        match notification {
            DriverNotification::RegisterGraph(jg) => {
                let gid = jg.id();
                self.job_graphs.insert(gid, jg);
            }
            DriverNotification::SubmitGraph(gid) => {
                match self.job_graphs.get(&gid) {
                    Some(jg) => {
                        let copy = jg.duplicate();
                        actions.push(WorkerAction::SendToLeader(
                            WorkerNotification::SubmitGraph(gid, copy),
                        ));
                        proof {
                            assert(actions@ =~= seq![
                                WorkerAction::SendToLeader(WorkerNotification::SubmitGraph(
                                    gid,
                                    copy,
                                )),
                            ]);
                        }
                    }
                    None => {}
                }
            }
            DriverNotification::Shutdown => {}
        }
        proof {
            if actions@.len() == 0 {
                assert(actions@ =~= Seq::<WorkerAction>::empty());
            }
        }
        actions
    }

    /// Responds to a stream-ready notification from the data plane: removes
    /// the stream from the job's pending set, and reports the job ready to
    /// the leader exactly when that set becomes empty.  The job's recorded
    /// state moves to ready only where its graph already has a state table,
    /// which scheduling always creates first.
    pub fn handle_data_plane_messages(&mut self, notification: DataPlaneNotification) -> (r:
        Vec<WorkerAction>)
        ensures
            final(self).spec_id() == old(self).spec_id(),
            final(self).graphs() == old(self).graphs(),
            final(self).is_shut_down() == old(self).is_shut_down(),
            match notification {
                DataPlaneNotification::StreamReady(j, sid) => {
                    &&& final(self).pending() =~= ready_next(old(self).pending(), j, sid)
                    &&& if ready_emit(old(self).pending(), j, sid) {
                        let gid = old(self).pending()[j].0;
                        &&& r@ == seq![
                            WorkerAction::SendToLeader(WorkerNotification::JobReady(gid, j)),
                        ]
                        &&& final(self).job_states().dom() == old(self).job_states().dom()
                        &&& forall|g2: JobGraphId| old(self).job_states().contains_key(g2) && g2
                            != gid ==> final(self).job_states()[g2]
                            == old(self).job_states()[g2]
                        &&& old(self).job_states().contains_key(gid)
                            ==> final(self).job_states()[gid]@
                                == old(self).job_states()[gid]@.insert(j, JobState::Ready)
                    } else {
                        r@ == Seq::<WorkerAction>::empty()
                            && final(self).job_states() == old(self).job_states()
                    }
                },
                _ => {
                    &&& final(self).pending() == old(self).pending()
                    &&& final(self).job_states() == old(self).job_states()
                    &&& r@ == Seq::<WorkerAction>::empty()
                },
            },
    {
        let ghost t0 = self.pending_stream_setups@;
        let ghost states0 = self.job_graph_to_job_state@;
        let ghost pending0 = self.pending();
        let mut actions: Vec<WorkerAction> = Vec::new();
        match notification {
            DataPlaneNotification::StreamReady(j, sid) => {
                let found = self.pending_stream_setups.remove(&j);
                match found {
                    Some(mut ps) => {
                        proof {
                            assert(pending0.contains_key(j));
                            assert(pending0[j] == (ps.graph_id, ps.streams@));
                        }
                        let ghost s0 = ps.streams@;
                        let _ = ps.streams.len();
                        proof {
                            vstd::set::axiom_set_remove_len(s0, sid);
                        }
                        let was_present = ps.streams.remove(&sid);
                        if !was_present {
                            // not a pending stream of this job: leave things as they were
                            proof {
                                assert(s0.remove(sid) =~= s0);
                                assert(ps.streams@ == s0);
                            }
                            self.pending_stream_setups.insert(j, ps);
                            proof {
                                assert(self.pending() =~= ready_next(pending0, j, sid));
                                assert(actions@ =~= Seq::<WorkerAction>::empty());
                            }
                        } else if ps.streams.is_empty() {
                            // the last stream of the job is ready
                            proof {
                                vstd::set_lib::lemma_set_empty_equivalency_len(s0.remove(sid));
                                assert(s0.remove(sid).len() == 0);
                                assert(s0.len() == 1);
                                assert(ready_emit(pending0, j, sid));
                            }
                            let gid = ps.graph_id;
                            actions.push(WorkerAction::SendToLeader(
                                WorkerNotification::JobReady(gid, j),
                            ));
                            // move the job's state forward
                            let states = self.job_graph_to_job_state.remove(&gid);
                            match states {
                                Some(mut inner) => {
                                    inner.insert(j, JobState::Ready);
                                    self.job_graph_to_job_state.insert(gid, inner);
                                    proof {
                                        assert(self.job_graph_to_job_state@.dom()
                                            =~= states0.dom());
                                    }
                                }
                                None => {
                                    proof {
                                        assert(self.job_graph_to_job_state@ =~= states0);
                                    }
                                }
                            }
                            proof {
                                assert(self.pending() =~= ready_next(pending0, j, sid));
                                assert(actions@ =~= seq![
                                    WorkerAction::SendToLeader(WorkerNotification::JobReady(
                                        gid,
                                        j,
                                    )),
                                ]);
                            }
                        } else {
                            // more streams to come: keep waiting
                            proof {
                                vstd::set_lib::lemma_set_empty_equivalency_len(s0.remove(sid));
                                assert(s0.remove(sid).len() != 0);
                                assert(s0.len() != 1);
                                assert(!ready_emit(pending0, j, sid));
                            }
                            self.pending_stream_setups.insert(j, ps);
                            proof {
                                assert(self.pending() =~= ready_next(pending0, j, sid));
                                assert(actions@ =~= Seq::<WorkerAction>::empty());
                            }
                        }
                    }
                    None => {
                        proof {
                            assert(!pending0.contains_key(j));
                            assert(self.pending_stream_setups@ =~= t0);
                            assert(self.pending() =~= ready_next(pending0, j, sid));
                            assert(actions@ =~= Seq::<WorkerAction>::empty());
                        }
                    }
                }
            }
            _ => {
                proof {
                    assert(actions@ =~= Seq::<WorkerAction>::empty());
                }
            }
        }
        actions
    }
}

/// A job's next state when its graph is released to execute: ready jobs start
/// executing, others keep their state.
pub open spec fn promote(st: JobState) -> JobState {
    if st == JobState::Ready {
        JobState::Executing
    } else {
        st
    }
}

impl WorkerNode {
    /// Marks the worker shut down.  The first shutdown from the driver also
    /// forwards the shutdown to the leader; any further shutdown, from either
    /// side, changes nothing and sends nothing, so repeated shutdown signals
    /// terminate the worker exactly once.
    pub fn handle_shutdown(&mut self, from_driver: bool) -> (r: Vec<WorkerAction>)
        ensures
            final(self).is_shut_down(),
            final(self).spec_id() == old(self).spec_id(),
            final(self).graphs() == old(self).graphs(),
            final(self).pending() == old(self).pending(),
            final(self).job_states() == old(self).job_states(),
            old(self).is_shut_down() ==> r@ == Seq::<WorkerAction>::empty(),
            !old(self).is_shut_down() && from_driver ==> r@ == seq![
                WorkerAction::SendToLeader(WorkerNotification::Shutdown),
            ],
            !old(self).is_shut_down() && !from_driver ==> r@ == Seq::<WorkerAction>::empty(),
    {
        let mut actions: Vec<WorkerAction> = Vec::new();
        if !self.shut_down {
            self.shut_down = true;
            if from_driver {
                actions.push(WorkerAction::SendToLeader(WorkerNotification::Shutdown));
                proof {
                    assert(actions@ =~= seq![
                        WorkerAction::SendToLeader(WorkerNotification::Shutdown),
                    ]);
                }
            }
        }
        proof {
            if actions@.len() == 0 {
                assert(actions@ =~= Seq::<WorkerAction>::empty());
            }
        }
        actions
    }

    /// Responds to a notification from the leader: schedules a job, or starts
    /// the ready jobs of a graph.
    #[verifier::loop_isolation(false)]
    #[verifier::rlimit(100)]
    pub fn handle_leader_messages(&mut self, msg: LeaderNotification) -> (r: Vec<WorkerAction>)
        ensures
            final(self).spec_id() == old(self).spec_id(),
            final(self).graphs() == old(self).graphs(),
            final(self).is_shut_down() == old(self).is_shut_down(),
            match msg {
                LeaderNotification::ScheduleJob(gid, j, addrs) => {
                    if schedule_valid(
                        old(self).graphs(),
                        old(self).job_states(),
                        gid,
                        j,
                        addrs@,
                    ) {
                        let g = old(self).graphs()[gid]@;
                        let op = op_by_id(g.operators, j->Operator_0);
                        &&& final(self).pending() =~= old(self).pending().insert(
                            j,
                            (gid, (op.read_streams + op.write_streams).to_set()),
                        )
                        &&& r@.len() == 1
                        &&& (r@[0] matches WorkerAction::SetupStreams(jj, sts) && jj == j
                            && setups_view(sts@) == expected_setups(g, op, addrs@))
                        &&& final(self).job_states().dom()
                            == old(self).job_states().dom().insert(gid)
                        &&& forall|g2: JobGraphId| old(self).job_states().contains_key(g2)
                            && g2 != gid ==> final(self).job_states()[g2]
                            == old(self).job_states()[g2]
                        &&& final(self).job_states()[gid]@.contains_key(j)
                        &&& final(self).job_states()[gid]@[j] == JobState::Scheduled
                        &&& old(self).job_states().contains_key(gid)
                            ==> final(self).job_states()[gid]@
                                == old(self).job_states()[gid]@.insert(j, JobState::Scheduled)
                    } else {
                        &&& final(self).pending() == old(self).pending()
                        &&& final(self).job_states() == old(self).job_states()
                        &&& r@ == Seq::<WorkerAction>::empty()
                    }
                },
                LeaderNotification::ExecuteGraph(gid) => {
                    &&& final(self).pending() == old(self).pending()
                    &&& if old(self).job_states().contains_key(gid) {
                        let old_inner = old(self).job_states()[gid]@;
                        &&& final(self).job_states().dom() == old(self).job_states().dom()
                        &&& forall|g2: JobGraphId| old(self).job_states().contains_key(g2)
                            && g2 != gid ==> final(self).job_states()[g2]
                            == old(self).job_states()[g2]
                        &&& final(self).job_states()[gid]@.dom() =~= old_inner.dom()
                        &&& forall|jb: Job| old_inner.contains_key(jb)
                            ==> final(self).job_states()[gid]@[jb]
                                == promote(old_inner[jb])
                        &&& forall|i: int| 0 <= i < r@.len()
                            ==> ((#[trigger] r@[i]) matches WorkerAction::SpawnJob(gg, jb)
                                && gg == gid && old_inner.contains_key(jb)
                                && old_inner[jb] == JobState::Ready)
                        &&& forall|jb: Job| old_inner.contains_key(jb)
                            && old_inner[jb] == JobState::Ready
                            ==> r@.contains(WorkerAction::SpawnJob(gid, jb))
                        &&& r@.no_duplicates()
                    } else {
                        final(self).job_states() == old(self).job_states()
                            && r@ == Seq::<WorkerAction>::empty()
                    }
                },
                LeaderNotification::Shutdown => {
                    &&& final(self).pending() == old(self).pending()
                    &&& final(self).job_states() == old(self).job_states()
                    &&& r@ == Seq::<WorkerAction>::empty()
                },
            },
    {
        let ghost pending0 = self.pending();
        let ghost states0 = self.job_graph_to_job_state@;
        let mut actions: Vec<WorkerAction> = Vec::new();
        match msg {
            LeaderNotification::ScheduleJob(gid, j, addrs) => {
                let already_recorded = match self.job_graph_to_job_state.get(&gid) {
                    Some(t) => t.contains_key(&j),
                    None => false,
                };
                if already_recorded {
                    proof {
                        assert(!schedule_valid(self.graphs(), states0, gid, j, addrs@));
                        assert(actions@ =~= Seq::<WorkerAction>::empty());
                    }
                    return actions;
                }
                let built = match self.job_graphs.get(&gid) {
                    Some(jg) => build_schedule(jg, &j, &addrs),
                    None => None,
                };
                match built {
                    Some((setups, sids)) => {
                        proof {
                            assert(schedule_valid(self.graphs(), states0, gid, j, addrs@));
                        }
                        let ghost sids_v = sids@;
                        self.pending_stream_setups.insert(
                            j,
                            PendingSetup { graph_id: gid, streams: sids },
                        );
                        let inner_opt = self.job_graph_to_job_state.remove(&gid);
                        let mut inner = match inner_opt {
                            Some(t) => t,
                            None => Table::new(),
                        };
                        inner.insert(j, JobState::Scheduled);
                        self.job_graph_to_job_state.insert(gid, inner);
                        actions.push(WorkerAction::SetupStreams(j, setups));
                        proof {
                            let g = self.graphs()[gid]@;
                            let op = op_by_id(g.operators, j->Operator_0);
                            assert(self.pending() =~= pending0.insert(
                                j,
                                (gid, (op.read_streams + op.write_streams).to_set()),
                            ));
                            assert(self.job_graph_to_job_state@.dom()
                                =~= states0.dom().insert(gid));
                        }
                    }
                    None => {
                        proof {
                            assert(!schedule_valid(self.graphs(), states0, gid, j, addrs@));
                            assert(actions@ =~= Seq::<WorkerAction>::empty());
                        }
                    }
                }
            }
            LeaderNotification::ExecuteGraph(gid) => {
                let inner_opt = self.job_graph_to_job_state.remove(&gid);
                match inner_opt {
                    Some(inner) => {
                        let ghost innerv = inner@;
                        inner.entry_map_facts();
                        let n = inner.num_entries();
                        let mut new_inner: Table<Job, JobState> = Table::new();
                        let mut i: usize = 0;
                        while i < n
                            invariant
                                i <= n,
                                n == inner.entry_seq().len(),
                                forall|x: Job| new_inner@.contains_key(x)
                                    <==> exists|t: int| 0 <= t < i
                                        && (#[trigger] inner.entry_seq()[t]).0 == x,
                                forall|t: int| 0 <= t < i
                                    ==> new_inner@[(#[trigger] inner.entry_seq()[t]).0]
                                        == promote(inner.entry_seq()[t].1),
                                forall|x: int| 0 <= x < actions@.len()
                                    ==> ((#[trigger] actions@[x]) matches
                                        WorkerAction::SpawnJob(gg, jb) && gg == gid
                                        && innerv.contains_key(jb)
                                        && innerv[jb] == JobState::Ready),
                                forall|x: int| 0 <= x < actions@.len()
                                    ==> exists|t: int| 0 <= t < i
                                        && (#[trigger] actions@[x])
                                            == WorkerAction::SpawnJob(
                                            gid,
                                            inner.entry_seq()[t].0,
                                        ),
                                actions@.no_duplicates(),
                                forall|t: int| 0 <= t < i
                                    && (#[trigger] inner.entry_seq()[t]).1 == JobState::Ready
                                    ==> actions@.contains(WorkerAction::SpawnJob(
                                        gid,
                                        inner.entry_seq()[t].0,
                                    )),
                            decreases n - i,
                        {
                            let entry = inner.entry_at(i);
                            let jb = entry.0;
                            let st = entry.1;
                            let newst = match st {
                                JobState::Ready => JobState::Executing,
                                other => other,
                            };
                            if st == JobState::Ready {
                                let ghost a0 = actions@;
                                actions.push(WorkerAction::SpawnJob(gid, jb));
                                proof {
                                    assert(actions@ == a0.push(WorkerAction::SpawnJob(gid, jb)));
                                    assert(actions@[a0.len() as int]
                                        == WorkerAction::SpawnJob(gid, jb));
                                    // earlier actions stem from earlier entries, whose
                                    // keys differ from this entry's key
                                    assert forall|x: int| 0 <= x < a0.len()
                                        implies a0[x] != WorkerAction::SpawnJob(gid, jb) by {
                                        let t = choose|t: int| 0 <= t < i
                                            && a0[x] == WorkerAction::SpawnJob(
                                            gid,
                                            inner.entry_seq()[t].0,
                                        );
                                        assert(inner.entry_seq()[t].0
                                            != inner.entry_seq()[i as int].0);
                                    }
                                    assert(actions@.no_duplicates());
                                    assert forall|t: int| 0 <= t < i + 1
                                        && (#[trigger] inner.entry_seq()[t]).1
                                            == JobState::Ready
                                        implies actions@.contains(WorkerAction::SpawnJob(
                                            gid,
                                            inner.entry_seq()[t].0,
                                        )) by {
                                        if t < i {
                                            let x = choose|x: int| 0 <= x < a0.len()
                                                && a0[x] == WorkerAction::SpawnJob(
                                                    gid,
                                                    inner.entry_seq()[t].0,
                                                );
                                            assert(actions@[x] == WorkerAction::SpawnJob(
                                                gid,
                                                inner.entry_seq()[t].0,
                                            ));
                                        }
                                    }
                                }
                            }
                            new_inner.insert(jb, newst);
                            proof {
                                assert(promote(st) == newst);
                                assert forall|x: Job| new_inner@.contains_key(x)
                                    <==> exists|t: int| 0 <= t < i + 1
                                        && (#[trigger] inner.entry_seq()[t]).0 == x by {
                                    if x == jb {
                                        assert(inner.entry_seq()[i as int].0 == x);
                                    }
                                }
                            }
                            i = i + 1;
                        }
                        self.job_graph_to_job_state.insert(gid, new_inner);
                        proof {
                            assert(self.job_graph_to_job_state@.dom() =~= states0.dom());
                            assert(self.job_graph_to_job_state@[gid]@.dom() =~= innerv.dom())
                                by {
                                assert forall|x: Job| innerv.contains_key(x)
                                    implies self.job_graph_to_job_state@[gid]@.contains_key(x)
                                    by {
                                    let t = choose|t: int| 0 <= t < inner.entry_seq().len()
                                        && #[trigger] inner.entry_seq()[t].0 == x;
                                    assert(inner.entry_seq()[t].0 == x);
                                }
                            }
                            assert forall|jb: Job| innerv.contains_key(jb)
                                implies self.job_graph_to_job_state@[gid]@[jb]
                                    == promote(innerv[jb]) by {
                                let t = choose|t: int| 0 <= t < inner.entry_seq().len()
                                    && #[trigger] inner.entry_seq()[t].0 == jb;
                                assert(innerv[inner.entry_seq()[t].0]
                                    == inner.entry_seq()[t].1);
                            }
                            assert forall|jb: Job| innerv.contains_key(jb)
                                && innerv[jb] == JobState::Ready
                                implies actions@.contains(WorkerAction::SpawnJob(gid, jb)) by {
                                let t = choose|t: int| 0 <= t < inner.entry_seq().len()
                                    && #[trigger] inner.entry_seq()[t].0 == jb;
                                assert(innerv[inner.entry_seq()[t].0]
                                    == inner.entry_seq()[t].1);
                                assert(inner.entry_seq()[t].1 == JobState::Ready);
                            }
                        }
                    }
                    None => {
                        proof {
                            assert(self.job_graph_to_job_state@ =~= states0);
                            assert(actions@ =~= Seq::<WorkerAction>::empty());
                        }
                    }
                }
            }
            LeaderNotification::Shutdown => {
                proof {
                    assert(actions@ =~= Seq::<WorkerAction>::empty());
                }
            }
        }
        actions
    }
}

} // verus!
