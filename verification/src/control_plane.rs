//! The Leader ↔ Worker control plane: worker state, the notification
//! vocabulary, and its framed wire codec.

use vstd::prelude::*;

use crate::codec::{
    dec_u16, dec_u32, dec_u64, dec_u8, dec_uuid, enc_u16, enc_u32, enc_u64, enc_u8, enc_uuid,
    lemma_dec_enc_u16, lemma_dec_enc_u32, lemma_dec_enc_u64, lemma_dec_enc_u8,
    lemma_dec_enc_uuid, lemma_subrange_parts, read_u16, read_u32, read_u64, read_u8, read_uuid,
    write_u16, write_u32, write_u64, write_u8, write_uuid,
};
use crate::graph::{
    AbstractOperator, AbstractOperatorType, AbstractOperatorVal, AbstractStream,
    AbstractStreamVal, Job, JobGraph, JobGraphId, JobGraphVal, OperatorConfig,
    OperatorConfigVal, copy_bytes,
};
use crate::ids::{Uuid, WorkerId};

verus! {

/// Sends control messages to the connected node.
pub struct ControlSender {}

/// Receives control messages from the connected node.
pub struct ControlReceiver {}

/// The data-plane address of a worker, as an IPv4 endpoint.
#[derive(Clone, Copy, PartialEq, Eq, Structural, Debug)]
pub struct WorkerAddress {
    pub ip: u32,
    pub port: u16,
}

/// The resources a worker offers to the leader.
#[derive(Clone, Copy, PartialEq, Eq, Structural, Debug)]
pub struct Resources {
    pub num_cpus: u64,
    pub num_gpus: u64,
}

impl Resources {
    pub fn new(num_cpus: u64, num_gpus: u64) -> (r: Resources)
        ensures
            r == (Resources { num_cpus, num_gpus }),
    {
        Resources { num_cpus, num_gpus }
    }

    /// No resources at all.
    pub fn empty() -> (r: Resources)
        ensures
            r == (Resources { num_cpus: 0u64, num_gpus: 0u64 }),
    {
        Resources { num_cpus: 0, num_gpus: 0 }
    }
}

/// What a worker tells the leader about itself on attach.
#[derive(Clone, Copy, PartialEq, Eq, Structural, Debug)]
pub struct WorkerState {
    pub id: WorkerId,
    pub address: WorkerAddress,
    pub resources: Resources,
}

impl WorkerState {
    pub fn new(id: WorkerId, address: WorkerAddress, resources: Resources) -> (r: WorkerState)
        ensures
            r == (WorkerState { id, address, resources }),
    {
        WorkerState { id, address, resources }
    }

    pub fn address(&self) -> (r: WorkerAddress)
        ensures
            r == self.address,
    {
        self.address
    }

    pub fn id(&self) -> (r: WorkerId)
        ensures
            r == self.id,
    {
        self.id
    }

    pub fn resources(&self) -> (r: Resources)
        ensures
            r == self.resources,
    {
        self.resources
    }

    pub open spec fn spec_id(self) -> WorkerId {
        self.id
    }

    pub open spec fn spec_address(self) -> WorkerAddress {
        self.address
    }

    pub open spec fn spec_resources(self) -> Resources {
        self.resources
    }
}

/// Notifications between the leader and a worker over one control connection.
#[derive(Clone, Copy, PartialEq, Eq, Structural, Debug)]
pub enum ControlPlaneNotification {
    Ready(WorkerId),
    Testing,
}

/// What a worker sends the leader.
pub enum WorkerNotification {
    /// Register with the leader: the worker's id, data-plane address and resources.
    Initialized(WorkerState),
    /// Hand the leader the abstract form of a registered graph.
    SubmitGraph(JobGraphId, JobGraph),
    /// All streams of the job are materialized on this worker.
    JobReady(JobGraphId, Job),
    Shutdown,
}

/// The mathematical value of a worker notification.
pub enum WorkerNotificationVal {
    Initialized(WorkerState),
    SubmitGraph(JobGraphId, JobGraphVal),
    JobReady(JobGraphId, Job),
    Shutdown,
}

impl View for WorkerNotification {
    type V = WorkerNotificationVal;

    open spec fn view(&self) -> WorkerNotificationVal {
        match self {
            WorkerNotification::Initialized(w) => WorkerNotificationVal::Initialized(*w),
            WorkerNotification::SubmitGraph(gid, jg) =>
                WorkerNotificationVal::SubmitGraph(*gid, jg@),
            WorkerNotification::JobReady(gid, j) => WorkerNotificationVal::JobReady(*gid, *j),
            WorkerNotification::Shutdown => WorkerNotificationVal::Shutdown,
        }
    }
}

/// What the leader sends a worker.
pub enum LeaderNotification {
    /// Run a job of a graph here; the map gives the worker address executing
    /// every job that shares a stream with it.
    ScheduleJob(JobGraphId, Job, Vec<(Job, WorkerAddress)>),
    /// Every job of the graph is ready; start its operators.
    ExecuteGraph(JobGraphId),
    Shutdown,
}

/// The mathematical value of a leader notification.
pub enum LeaderNotificationVal {
    ScheduleJob(JobGraphId, Job, Seq<(Job, WorkerAddress)>),
    ExecuteGraph(JobGraphId),
    Shutdown,
}

impl View for LeaderNotification {
    type V = LeaderNotificationVal;

    open spec fn view(&self) -> LeaderNotificationVal {
        match self {
            LeaderNotification::ScheduleJob(gid, j, addrs) =>
                LeaderNotificationVal::ScheduleJob(*gid, *j, addrs@),
            LeaderNotification::ExecuteGraph(gid) => LeaderNotificationVal::ExecuteGraph(*gid),
            LeaderNotification::Shutdown => LeaderNotificationVal::Shutdown,
        }
    }
}

/// What the driver sends its local worker, in process.
pub enum DriverNotification {
    /// Keep a copy of the compiled graph for later scheduling.
    RegisterGraph(JobGraph),
    /// Forward the abstract form of a registered graph to the leader.
    SubmitGraph(JobGraphId),
    Shutdown,
}

// ------------------------------------------------------------------
// Encodings of the flat control types.
// ------------------------------------------------------------------

pub open spec fn enc_addr(a: WorkerAddress) -> Seq<u8> {
    enc_u32(a.ip) + enc_u16(a.port)
}

pub open spec fn dec_addr(s: Seq<u8>, pos: int) -> Option<(WorkerAddress, int)> {
    match dec_u32(s, pos) {
        Some((ip, p1)) => match dec_u16(s, p1) {
            Some((port, p2)) => Some((WorkerAddress { ip, port }, p2)),
            None => None,
        },
        None => None,
    }
}

pub open spec fn enc_resources(r: Resources) -> Seq<u8> {
    enc_u64(r.num_cpus) + enc_u64(r.num_gpus)
}

pub open spec fn dec_resources(s: Seq<u8>, pos: int) -> Option<(Resources, int)> {
    match dec_u64(s, pos) {
        Some((num_cpus, p1)) => match dec_u64(s, p1) {
            Some((num_gpus, p2)) => Some((Resources { num_cpus, num_gpus }, p2)),
            None => None,
        },
        None => None,
    }
}

pub open spec fn enc_worker_state(w: WorkerState) -> Seq<u8> {
    enc_uuid(w.spec_id()) + enc_addr(w.spec_address()) + enc_resources(w.spec_resources())
}

pub open spec fn dec_worker_state(s: Seq<u8>, pos: int) -> Option<(WorkerState, int)> {
    match dec_uuid(s, pos) {
        Some((id, p1)) => match dec_addr(s, p1) {
            Some((address, p2)) => match dec_resources(s, p2) {
                Some((resources, p3)) => Some((WorkerState { id, address, resources }, p3)),
                None => None,
            },
            None => None,
        },
        None => None,
    }
}

pub open spec fn enc_job(j: Job) -> Seq<u8> {
    match j {
        Job::Driver => seq![0u8],
        Job::Operator(oid) => seq![1u8] + enc_uuid(oid),
    }
}

pub open spec fn dec_job(s: Seq<u8>, pos: int) -> Option<(Job, int)> {
    match dec_u8(s, pos) {
        Some((tag, p1)) => if tag == 0 {
            Some((Job::Driver, p1))
        } else if tag == 1 {
            match dec_uuid(s, p1) {
                Some((oid, p2)) => Some((Job::Operator(oid), p2)),
                None => None,
            }
        } else {
            None
        },
        None => None,
    }
}

pub open spec fn enc_control_plane_notification(m: ControlPlaneNotification) -> Seq<u8> {
    match m {
        ControlPlaneNotification::Ready(w) => seq![0u8] + enc_uuid(w),
        ControlPlaneNotification::Testing => seq![1u8],
    }
}

pub open spec fn dec_control_plane_notification(s: Seq<u8>, pos: int) -> Option<(
    ControlPlaneNotification,
    int,
)> {
    match dec_u8(s, pos) {
        Some((tag, p1)) => if tag == 0 {
            match dec_uuid(s, p1) {
                Some((w, p2)) => Some((ControlPlaneNotification::Ready(w), p2)),
                None => None,
            }
        } else if tag == 1 {
            Some((ControlPlaneNotification::Testing, p1))
        } else {
            None
        },
        None => None,
    }
}

// ------------------------------------------------------------------
// Round-trip lemmas for the flat control types.
// ------------------------------------------------------------------

pub proof fn lemma_dec_enc_addr(s: Seq<u8>, pos: int, a: WorkerAddress)
    requires
        0 <= pos,
        pos + enc_addr(a).len() <= s.len(),
        s.subrange(pos, pos + enc_addr(a).len()) == enc_addr(a),
    ensures
        dec_addr(s, pos) == Some((a, pos + enc_addr(a).len())),
{
    lemma_subrange_parts(s, pos, enc_u32(a.ip), enc_u16(a.port));
    lemma_dec_enc_u32(s, pos, a.ip);
    lemma_dec_enc_u16(s, pos + 4, a.port);
}

pub proof fn lemma_dec_enc_resources(s: Seq<u8>, pos: int, r: Resources)
    requires
        0 <= pos,
        pos + enc_resources(r).len() <= s.len(),
        s.subrange(pos, pos + enc_resources(r).len()) == enc_resources(r),
    ensures
        dec_resources(s, pos) == Some((r, pos + enc_resources(r).len())),
{
    lemma_subrange_parts(s, pos, enc_u64(r.num_cpus), enc_u64(r.num_gpus));
    lemma_dec_enc_u64(s, pos, r.num_cpus);
    lemma_dec_enc_u64(s, pos + 8, r.num_gpus);
}

pub proof fn lemma_dec_enc_worker_state(s: Seq<u8>, pos: int, w: WorkerState)
    requires
        0 <= pos,
        pos + enc_worker_state(w).len() <= s.len(),
        s.subrange(pos, pos + enc_worker_state(w).len()) == enc_worker_state(w),
    ensures
        dec_worker_state(s, pos) == Some((w, pos + enc_worker_state(w).len())),
{
    let e1 = enc_uuid(w.spec_id());
    let e2 = enc_addr(w.spec_address());
    let e3 = enc_resources(w.spec_resources());
    assert(enc_worker_state(w) == e1 + (e2 + e3)) by {
        assert(e1 + e2 + e3 =~= e1 + (e2 + e3));
    }
    lemma_subrange_parts(s, pos, e1, e2 + e3);
    lemma_subrange_parts(s, pos + e1.len(), e2, e3);
    lemma_dec_enc_uuid(s, pos, w.spec_id());
    lemma_dec_enc_addr(s, pos + 16, w.spec_address());
    lemma_dec_enc_resources(s, pos + 16 + 6, w.spec_resources());
}

pub proof fn lemma_dec_enc_job(s: Seq<u8>, pos: int, j: Job)
    requires
        0 <= pos,
        pos + enc_job(j).len() <= s.len(),
        s.subrange(pos, pos + enc_job(j).len()) == enc_job(j),
    ensures
        dec_job(s, pos) == Some((j, pos + enc_job(j).len())),
{
    match j {
        Job::Driver => {
            lemma_dec_enc_u8(s, pos, 0u8);
        }
        Job::Operator(oid) => {
            lemma_subrange_parts(s, pos, seq![1u8], enc_uuid(oid));
            lemma_dec_enc_u8(s, pos, 1u8);
            lemma_dec_enc_uuid(s, pos + 1, oid);
        }
    }
}

pub proof fn lemma_dec_enc_control_plane_notification(
    s: Seq<u8>,
    pos: int,
    m: ControlPlaneNotification,
)
    requires
        0 <= pos,
        pos + enc_control_plane_notification(m).len() <= s.len(),
        s.subrange(pos, pos + enc_control_plane_notification(m).len())
            == enc_control_plane_notification(m),
    ensures
        dec_control_plane_notification(s, pos)
            == Some((m, pos + enc_control_plane_notification(m).len())),
{
    match m {
        ControlPlaneNotification::Ready(w) => {
            lemma_subrange_parts(s, pos, seq![0u8], enc_uuid(w));
            lemma_dec_enc_u8(s, pos, 0u8);
            lemma_dec_enc_uuid(s, pos + 1, w);
        }
        ControlPlaneNotification::Testing => {
            lemma_dec_enc_u8(s, pos, 1u8);
        }
    }
}

// ------------------------------------------------------------------
// Executable encoders and decoders for the flat control types.
// ------------------------------------------------------------------

pub fn write_addr(out: &mut Vec<u8>, a: &WorkerAddress)
    ensures
        final(out)@ == old(out)@ + enc_addr(*a),
{
    write_u32(out, a.ip);
    write_u16(out, a.port);
    proof {
        assert(final(out)@ =~= old(out)@ + enc_addr(*a));
    }
}

pub fn read_addr(b: &Vec<u8>, pos: usize) -> (r: Option<(WorkerAddress, usize)>)
    ensures
        match r {
            Some((v, p)) => dec_addr(b@, pos as int) == Some((v, p as int)),
            None => dec_addr(b@, pos as int) is None,
        },
{
    match read_u32(b, pos) {
        Some((ip, p1)) => match read_u16(b, p1) {
            Some((port, p2)) => Some((WorkerAddress { ip, port }, p2)),
            None => None,
        },
        None => None,
    }
}

pub fn write_resources(out: &mut Vec<u8>, r: &Resources)
    ensures
        final(out)@ == old(out)@ + enc_resources(*r),
{
    write_u64(out, r.num_cpus);
    write_u64(out, r.num_gpus);
    proof {
        assert(final(out)@ =~= old(out)@ + enc_resources(*r));
    }
}

pub fn read_resources(b: &Vec<u8>, pos: usize) -> (r: Option<(Resources, usize)>)
    ensures
        match r {
            Some((v, p)) => dec_resources(b@, pos as int) == Some((v, p as int)),
            None => dec_resources(b@, pos as int) is None,
        },
{
    match read_u64(b, pos) {
        Some((num_cpus, p1)) => match read_u64(b, p1) {
            Some((num_gpus, p2)) => Some((Resources { num_cpus, num_gpus }, p2)),
            None => None,
        },
        None => None,
    }
}

pub fn write_worker_state(out: &mut Vec<u8>, w: &WorkerState)
    ensures
        final(out)@ == old(out)@ + enc_worker_state(*w),
{
    write_uuid(out, &w.id);
    write_addr(out, &w.address);
    write_resources(out, &w.resources);
    proof {
        assert(final(out)@ =~= old(out)@ + enc_worker_state(*w));
    }
}

pub fn read_worker_state(b: &Vec<u8>, pos: usize) -> (r: Option<(WorkerState, usize)>)
    ensures
        match r {
            Some((v, p)) => dec_worker_state(b@, pos as int) == Some((v, p as int)),
            None => dec_worker_state(b@, pos as int) is None,
        },
{
    match read_uuid(b, pos) {
        Some((id, p1)) => match read_addr(b, p1) {
            Some((address, p2)) => match read_resources(b, p2) {
                Some((resources, p3)) => Some((WorkerState { id, address, resources }, p3)),
                None => None,
            },
            None => None,
        },
        None => None,
    }
}

pub fn write_job(out: &mut Vec<u8>, j: &Job)
    ensures
        final(out)@ == old(out)@ + enc_job(*j),
{
    match j {
        Job::Driver => {
            write_u8(out, 0);
        }
        Job::Operator(oid) => {
            write_u8(out, 1);
            write_uuid(out, oid);
        }
    }
    proof {
        assert(final(out)@ =~= old(out)@ + enc_job(*j));
    }
}

pub fn read_job(b: &Vec<u8>, pos: usize) -> (r: Option<(Job, usize)>)
    ensures
        match r {
            Some((v, p)) => dec_job(b@, pos as int) == Some((v, p as int)),
            None => dec_job(b@, pos as int) is None,
        },
{
    match read_u8(b, pos) {
        Some((tag, p1)) => {
            if tag == 0 {
                Some((Job::Driver, p1))
            } else if tag == 1 {
                match read_uuid(b, p1) {
                    Some((oid, p2)) => Some((Job::Operator(oid), p2)),
                    None => None,
                }
            } else {
                None
            }
        }
        None => None,
    }
}

/// Encodes one leader-or-worker control-plane notification.
pub fn encode_control_plane_notification(m: &ControlPlaneNotification) -> (r: Vec<u8>)
    ensures
        r@ == enc_control_plane_notification(*m),
{
    let mut out: Vec<u8> = Vec::new();
    match m {
        ControlPlaneNotification::Ready(w) => {
            write_u8(&mut out, 0);
            write_uuid(&mut out, w);
        }
        ControlPlaneNotification::Testing => {
            write_u8(&mut out, 1);
        }
    }
    proof {
        assert(out@ =~= enc_control_plane_notification(*m));
    }
    out
}

/// Decodes one control-plane notification; yields it exactly when the bytes
/// hold an encoding at this position.
pub fn decode_control_plane_notification(b: &Vec<u8>, pos: usize) -> (r: Option<(
    ControlPlaneNotification,
    usize,
)>)
    ensures
        match r {
            Some((v, p)) => dec_control_plane_notification(b@, pos as int)
                == Some((v, p as int)),
            None => dec_control_plane_notification(b@, pos as int) is None,
        },
{
    match read_u8(b, pos) {
        Some((tag, p1)) => {
            if tag == 0 {
                match read_uuid(b, p1) {
                    Some((w, p2)) => Some((ControlPlaneNotification::Ready(w), p2)),
                    None => None,
                }
            } else if tag == 1 {
                Some((ControlPlaneNotification::Testing, p1))
            } else {
                None
            }
        }
        None => None,
    }
}

/// Decoding an encoded control-plane notification yields the notification
/// back, whatever follows it in the buffer.
pub proof fn lemma_control_plane_notification_round_trip(
    m: ControlPlaneNotification,
    rest: Seq<u8>,
)
    ensures
        dec_control_plane_notification(enc_control_plane_notification(m) + rest, 0)
            == Some((m, enc_control_plane_notification(m).len() as int)),
{
    let s = enc_control_plane_notification(m) + rest;
    assert(s.subrange(0, enc_control_plane_notification(m).len() as int)
        =~= enc_control_plane_notification(m));
    lemma_dec_enc_control_plane_notification(s, 0, m);
}

} // verus!
