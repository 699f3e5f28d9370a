//! The job-graph model: operators and streams as a user connects them, and
//! the compiled, validated graph that the runtime schedules.

use vstd::prelude::*;

use crate::ids::{OperatorId, StreamId, Uuid, WorkerId};
use crate::table::TableKey;
use vstd::string::StrSliceExecFns;
use vstd::string::StringSliceAdditionalSpecFns;

verus! {

/// The endpoint identity of a stream: a registered operator, or the driver.
#[derive(Clone, Copy, PartialEq, Eq, Structural, Debug, Hash)]
pub enum Job {
    Operator(OperatorId),
    Driver,
}

impl TableKey for Job {
    fn key_eq(&self, other: &Self) -> (r: bool)
        ensures
            r <==> (*self == *other),
    {
        match (self, other) {
            (Job::Driver, Job::Driver) => true,
            (Job::Operator(a), Job::Operator(b)) => a.key_eq(b),
            _ => false,
        }
    }
}

/// The identity of a compiled job graph, derived from its name.
#[derive(Clone, Copy, PartialEq, Eq, Structural, Debug, Hash)]
pub struct JobGraphId(pub Uuid);

impl TableKey for JobGraphId {
    fn key_eq(&self, other: &Self) -> (r: bool)
        ensures
            r <==> (*self == *other),
    {
        self.0.key_eq(&other.0)
    }
}

/// The 64-bit FNV-1a digest of a byte string.
pub open spec fn spec_fnv1a(s: Seq<u8>) -> u64
    decreases s.len(),
{
    if s.len() == 0 {
        0xcbf29ce484222325u64
    } else {
        vstd::wrapping::u64_specs::wrapping_mul(
            spec_fnv1a(s.drop_last()) ^ (s.last() as u64),
            0x100000001b3u64,
        )
    }
}

/// The content-deterministic identity of a graph with the given name.
pub open spec fn spec_graph_id(name: Seq<u8>) -> JobGraphId {
    JobGraphId(Uuid { hi: spec_fnv1a(name), lo: 0u64 })
}

#[verifier::loop_isolation(false)]
    fn fnv1a(s: &Vec<u8>) -> (r: u64)
    ensures
        r == spec_fnv1a(s@),
{
    let mut h: u64 = 0xcbf29ce484222325;
    let mut i: usize = 0;
    while i < s.len()
        invariant
            i <= s@.len(),
            h == spec_fnv1a(s@.subrange(0, i as int)),
        decreases s@.len() - i,
    {
        proof {
            assert(s@.subrange(0, i + 1).drop_last() =~= s@.subrange(0, i as int));
            assert(s@.subrange(0, i + 1).last() == s@[i as int]);
        }
        h = (h ^ (s[i] as u64)).wrapping_mul(0x100000001b3);
        i = i + 1;
    }
    proof {
        assert(s@.subrange(0, s@.len() as int) =~= s@);
    }
    h
}

/// The kind of an operator, which fixes how many streams it reads and writes.
#[derive(Clone, Copy, PartialEq, Eq, Structural, Debug)]
pub enum AbstractOperatorType {
    Source,
    ParallelSink,
    Sink,
    ParallelOneInOneOut,
    OneInOneOut,
    ParallelTwoInOneOut,
    TwoInOneOut,
    ParallelOneInTwoOut,
    OneInTwoOut,
}

/// How many streams an operator of this kind reads.
pub open spec fn num_read_streams(t: AbstractOperatorType) -> int {
    match t {
        AbstractOperatorType::Source => 0,
        AbstractOperatorType::ParallelSink => 1,
        AbstractOperatorType::Sink => 1,
        AbstractOperatorType::ParallelOneInOneOut => 1,
        AbstractOperatorType::OneInOneOut => 1,
        AbstractOperatorType::ParallelTwoInOneOut => 2,
        AbstractOperatorType::TwoInOneOut => 2,
        AbstractOperatorType::ParallelOneInTwoOut => 1,
        AbstractOperatorType::OneInTwoOut => 1,
    }
}

/// How many streams an operator of this kind writes.
pub open spec fn num_write_streams(t: AbstractOperatorType) -> int {
    match t {
        AbstractOperatorType::Source => 1,
        AbstractOperatorType::ParallelSink => 0,
        AbstractOperatorType::Sink => 0,
        AbstractOperatorType::ParallelOneInOneOut => 1,
        AbstractOperatorType::OneInOneOut => 1,
        AbstractOperatorType::ParallelTwoInOneOut => 1,
        AbstractOperatorType::TwoInOneOut => 1,
        AbstractOperatorType::ParallelOneInTwoOut => 2,
        AbstractOperatorType::OneInTwoOut => 2,
    }
}

/// User-supplied configuration for an operator.
pub struct OperatorConfig {
    /// A human-readable name, as bytes.
    pub name: Option<Vec<u8>>,
    /// The worker the operator asks to run on, if any.
    pub worker: Option<WorkerId>,
    /// Whether watermarks flow through the operator automatically.
    pub flow_watermarks: bool,
}

/// The mathematical value of an operator configuration.
pub struct OperatorConfigVal {
    pub name: Option<Seq<u8>>,
    pub worker: Option<WorkerId>,
    pub flow_watermarks: bool,
}

impl View for OperatorConfig {
    type V = OperatorConfigVal;

    open spec fn view(&self) -> OperatorConfigVal {
        OperatorConfigVal {
            name: match self.name {
                Some(n) => Some(n@),
                None => None,
            },
            worker: self.worker,
            flow_watermarks: self.flow_watermarks,
        }
    }
}

impl OperatorConfig {
    pub fn new() -> (r: OperatorConfig)
        ensures
            r@ == (OperatorConfigVal {
                name: None::<Seq<u8>>,
                worker: None::<WorkerId>,
                flow_watermarks: true,
            }),
    {
        OperatorConfig { name: None, worker: None, flow_watermarks: true }
    }

    /// Names the operator.
    pub fn name(self, name: &str) -> (r: OperatorConfig)
        ensures
            r@ == (OperatorConfigVal { name: Some(name.spec_bytes()), ..self@ }),
    {
        OperatorConfig { name: Some(name.as_bytes_vec()), ..self }
    }

    /// Asks for the operator to run on a particular worker.
    pub fn worker(self, worker_id: WorkerId) -> (r: OperatorConfig)
        ensures
            r@ == (OperatorConfigVal { worker: Some(worker_id), ..self@ }),
    {
        OperatorConfig { worker: Some(worker_id), ..self }
    }

    pub fn duplicate(&self) -> (r: OperatorConfig)
        ensures
            r@ == self@,
    {
        OperatorConfig {
            name: match &self.name {
                Some(n) => Some(copy_bytes(n)),
                None => None,
            },
            worker: self.worker,
            flow_watermarks: self.flow_watermarks,
        }
    }
}

/// A byte-for-byte copy.
#[verifier::loop_isolation(false)]
    pub fn copy_bytes(b: &Vec<u8>) -> (r: Vec<u8>)
    ensures
        r@ == b@,
{
    let mut r: Vec<u8> = Vec::new();
    let mut i: usize = 0;
    while i < b.len()
        invariant
            i <= b@.len(),
            r@ == b@.subrange(0, i as int),
        decreases b@.len() - i,
    {
        r.push(b[i]);
        proof {
            assert(r@ =~= b@.subrange(0, i + 1));
        }
        i = i + 1;
    }
    proof {
        assert(b@.subrange(0, b@.len() as int) =~= b@);
    }
    r
}

/// A copy of a vector of identifiers.
#[verifier::loop_isolation(false)]
    pub fn copy_ids(v: &Vec<Uuid>) -> (r: Vec<Uuid>)
    ensures
        r@ == v@,
{
    let mut r: Vec<Uuid> = Vec::new();
    let mut i: usize = 0;
    while i < v.len()
        invariant
            i <= v@.len(),
            r@ == v@.subrange(0, i as int),
        decreases v@.len() - i,
    {
        r.push(v[i]);
        proof {
            assert(r@ =~= v@.subrange(0, i + 1));
        }
        i = i + 1;
    }
    proof {
        assert(v@.subrange(0, v@.len() as int) =~= v@);
    }
    r
}

/// The untyped representation of an operator in a graph.
pub struct AbstractOperator {
    pub id: OperatorId,
    pub config: OperatorConfig,
    /// Streams the operator reads, in order.
    pub read_streams: Vec<StreamId>,
    /// Streams the operator writes, in order.
    pub write_streams: Vec<StreamId>,
    pub operator_type: AbstractOperatorType,
}

pub struct AbstractOperatorVal {
    pub id: OperatorId,
    pub config: OperatorConfigVal,
    pub read_streams: Seq<StreamId>,
    pub write_streams: Seq<StreamId>,
    pub operator_type: AbstractOperatorType,
}

impl View for AbstractOperator {
    type V = AbstractOperatorVal;

    open spec fn view(&self) -> AbstractOperatorVal {
        AbstractOperatorVal {
            id: self.id,
            config: self.config@,
            read_streams: self.read_streams@,
            write_streams: self.write_streams@,
            operator_type: self.operator_type,
        }
    }
}

impl AbstractOperator {
    pub fn duplicate(&self) -> (r: AbstractOperator)
        ensures
            r@ == self@,
    {
        AbstractOperator {
            id: self.id,
            config: self.config.duplicate(),
            read_streams: copy_ids(&self.read_streams),
            write_streams: copy_ids(&self.write_streams),
            operator_type: self.operator_type,
        }
    }
}

/// The untyped representation of a stream: one source, an ordered list of
/// pairwise-distinct destinations.
pub struct AbstractStream {
    id: StreamId,
    name: Vec<u8>,
    source: Option<Job>,
    destinations: Vec<Job>,
}

pub struct AbstractStreamVal {
    pub id: StreamId,
    pub name: Seq<u8>,
    pub source: Option<Job>,
    pub destinations: Seq<Job>,
}

impl View for AbstractStream {
    type V = AbstractStreamVal;

    closed spec fn view(&self) -> AbstractStreamVal {
        AbstractStreamVal {
            id: self.id,
            name: self.name@,
            source: self.source,
            destinations: self.destinations@,
        }
    }
}

impl AbstractStream {
    pub fn new(id: StreamId, name: Vec<u8>) -> (r: AbstractStream)
        ensures
            r@ == (AbstractStreamVal {
                id,
                name: name@,
                source: None::<Job>,
                destinations: Seq::<Job>::empty(),
            }),
    {
        let r = AbstractStream { id, name, source: None, destinations: Vec::new() };
        proof {
            assert(r.destinations@ =~= Seq::<Job>::empty());
        }
        r
    }

    pub fn id(&self) -> (r: StreamId)
        ensures
            r == self@.id,
    {
        self.id
    }

    pub fn name(&self) -> (r: Vec<u8>)
        ensures
            r@ == self@.name,
    {
        copy_bytes(&self.name)
    }

    pub fn set_name(&mut self, name: Vec<u8>)
        ensures
            final(self)@ == (AbstractStreamVal { name: name@, ..old(self)@ }),
    {
        self.name = name;
    }

    /// The source, which is set once at connect time.
    pub fn get_source(&self) -> (r: Option<Job>)
        ensures
            r == self@.source,
    {
        self.source
    }

    #[verifier::loop_isolation(false)]
    pub fn get_destinations(&self) -> (r: Vec<Job>)
        ensures
            r@ == self@.destinations,
    {
        let mut r: Vec<Job> = Vec::new();
        let mut i: usize = 0;
        while i < self.destinations.len()
            invariant
                i <= self.destinations@.len(),
                r@ == self.destinations@.subrange(0, i as int),
            decreases self.destinations@.len() - i,
        {
            r.push(self.destinations[i]);
            proof {
                assert(r@ =~= self.destinations@.subrange(0, i + 1));
            }
            i = i + 1;
        }
        proof {
            assert(self.destinations@.subrange(0, self.destinations@.len() as int)
                =~= self.destinations@);
        }
        r
    }

    pub fn register_source(&mut self, job: Job)
        ensures
            final(self)@ == (AbstractStreamVal { source: Some(job), ..old(self)@ }),
    {
        self.source = Some(job);
    }

    pub fn add_destination(&mut self, job: Job)
        ensures
            final(self)@ == (AbstractStreamVal {
                destinations: old(self)@.destinations.push(job),
                ..old(self)@
            }),
    {
        self.destinations.push(job);
    }

    pub fn duplicate(&self) -> (r: AbstractStream)
        ensures
            r@ == self@,
    {
        AbstractStream {
            id: self.id,
            name: copy_bytes(&self.name),
            source: self.source,
            destinations: self.get_destinations(),
        }
    }

    /// A stream from its parts, as a decoder rebuilds one.
    pub fn from_parts(
        id: StreamId,
        name: Vec<u8>,
        source: Option<Job>,
        destinations: Vec<Job>,
    ) -> (r: AbstractStream)
        ensures
            r@ == (AbstractStreamVal { id, name: name@, source, destinations: destinations@ }),
    {
        AbstractStream { id, name, source, destinations }
    }
}

// ------------------------------------------------------------------
// Well-formedness of a compiled graph.
// ------------------------------------------------------------------

/// Whether a job names the driver or a registered operator.
pub open spec fn job_registered(ops: Seq<AbstractOperatorVal>, j: Job) -> bool {
    match j {
        Job::Driver => true,
        Job::Operator(oid) => exists|i: int| 0 <= i < ops.len() && ops[i].id == oid,
    }
}

pub open spec fn stream_registered(streams: Seq<AbstractStreamVal>, sid: StreamId) -> bool {
    exists|i: int| 0 <= i < streams.len() && streams[i].id == sid
}

/// A stream is well-formed against the operator list: its source is set and
/// registered, and its destinations are pairwise distinct and registered.
pub open spec fn stream_ok(ops: Seq<AbstractOperatorVal>, st: AbstractStreamVal) -> bool {
    &&& st.source is Some
    &&& job_registered(ops, st.source->Some_0)
    &&& st.destinations.no_duplicates()
    &&& forall|k: int| 0 <= k < st.destinations.len()
        ==> job_registered(ops, #[trigger] st.destinations[k])
}

/// An operator is well-formed against the stream list: its stream lists match
/// the arity of its kind and reference registered streams.
pub open spec fn operator_ok(streams: Seq<AbstractStreamVal>, op: AbstractOperatorVal) -> bool {
    &&& op.read_streams.len() == num_read_streams(op.operator_type)
    &&& op.write_streams.len() == num_write_streams(op.operator_type)
    &&& forall|k: int| 0 <= k < op.read_streams.len()
        ==> stream_registered(streams, #[trigger] op.read_streams[k])
    &&& forall|k: int| 0 <= k < op.write_streams.len()
        ==> stream_registered(streams, #[trigger] op.write_streams[k])
}

pub open spec fn distinct_operator_ids(ops: Seq<AbstractOperatorVal>) -> bool {
    forall|i: int, j: int| 0 <= i < j < ops.len() ==> ops[i].id != ops[j].id
}

pub open spec fn distinct_stream_ids(streams: Seq<AbstractStreamVal>) -> bool {
    forall|i: int, j: int| 0 <= i < j < streams.len() ==> streams[i].id != streams[j].id
}

/// Well-formedness of a whole graph.
pub open spec fn graph_ok(
    ops: Seq<AbstractOperatorVal>,
    streams: Seq<AbstractStreamVal>,
) -> bool {
    &&& distinct_operator_ids(ops)
    &&& distinct_stream_ids(streams)
    &&& forall|i: int| 0 <= i < streams.len() ==> stream_ok(ops, #[trigger] streams[i])
    &&& forall|i: int| 0 <= i < ops.len() ==> operator_ok(streams, #[trigger] ops[i])
}

/// Why a graph failed to compile.
#[derive(Clone, Copy, PartialEq, Eq, Structural, Debug)]
pub enum GraphCompilationError {
    /// A stream was connected without a source.
    StreamWithoutSource(StreamId),
    /// A stream lists the same destination twice.
    DuplicateDestination(StreamId),
    /// A stream's source or destination names an operator the graph lacks.
    UnknownJobReference(StreamId),
    /// An operator reads or writes a stream the graph lacks.
    UnknownStreamReference(OperatorId),
    /// An operator's stream lists do not match its kind.
    ArityMismatch(OperatorId),
}

/// The compiled, immutable job graph: operators and streams, all references
/// resolved and validated.
pub struct JobGraph {
    id: JobGraphId,
    name: Vec<u8>,
    operators: Vec<AbstractOperator>,
    streams: Vec<AbstractStream>,
}

pub struct JobGraphVal {
    pub id: JobGraphId,
    pub name: Seq<u8>,
    pub operators: Seq<AbstractOperatorVal>,
    pub streams: Seq<AbstractStreamVal>,
}

pub open spec fn ops_view(v: Seq<AbstractOperator>) -> Seq<AbstractOperatorVal> {
    v.map_values(|o: AbstractOperator| o@)
}

pub open spec fn streams_view(v: Seq<AbstractStream>) -> Seq<AbstractStreamVal> {
    v.map_values(|s: AbstractStream| s@)
}

impl View for JobGraph {
    type V = JobGraphVal;

    closed spec fn view(&self) -> JobGraphVal {
        JobGraphVal {
            id: self.id,
            name: self.name@,
            operators: ops_view(self.operators@),
            streams: streams_view(self.streams@),
        }
    }
}

impl JobGraph {
    #[verifier::type_invariant]
    spec fn wf(self) -> bool {
        graph_ok(ops_view(self.operators@), streams_view(self.streams@))
    }

    /// Makes the graph's well-formedness available to a caller's proof.
    pub fn wf_facts(&self)
        ensures
            graph_ok(self@.operators, self@.streams),
    {
        proof {
            use_type_invariant(self);
        }
    }

    pub fn id(&self) -> (r: JobGraphId)
        ensures
            r == self@.id,
    {
        self.id
    }

    pub fn name(&self) -> (r: Vec<u8>)
        ensures
            r@ == self@.name,
    {
        copy_bytes(&self.name)
    }

    pub fn num_operators(&self) -> (r: usize)
        ensures
            r == self@.operators.len(),
    {
        self.operators.len()
    }

    pub fn operator_at(&self, i: usize) -> (r: &AbstractOperator)
        requires
            i < self@.operators.len(),
        ensures
            r@ == self@.operators[i as int],
    {
        &self.operators[i]
    }

    /// The operator executing a job, if the job is an operator of this graph.
    #[verifier::loop_isolation(false)]
    pub fn get_job(&self, job: &Job) -> (r: Option<&AbstractOperator>)
        ensures
            match r {
                Some(op) => job_registered(self@.operators, *job)
                    && (*job matches Job::Operator(oid) && op@.id == oid)
                    && exists|i: int|
                        0 <= i < self@.operators.len() && self@.operators[i] == op@,
                None => !(*job matches Job::Operator(oid)
                    && job_registered(self@.operators, *job)),
            },
    {
        match job {
            Job::Driver => None,
            Job::Operator(oid) => {
                let mut i: usize = 0;
                while i < self.operators.len()
                    invariant
                        i <= self.operators@.len(),
                        forall|j: int| 0 <= j < i ==> ops_view(self.operators@)[j].id != *oid,
                    decreases self.operators@.len() - i,
                {
                    if self.operators[i].id.key_eq(oid) {
                        proof {
                            assert(ops_view(self.operators@)[i as int]
                                == self.operators@[i as int]@);
                        }
                        return Some(&self.operators[i]);
                    }
                    i = i + 1;
                }
                None
            }
        }
    }

    pub fn num_streams(&self) -> (r: usize)
        ensures
            r == self@.streams.len(),
    {
        self.streams.len()
    }

    pub fn stream_at(&self, i: usize) -> (r: &AbstractStream)
        requires
            i < self@.streams.len(),
        ensures
            r@ == self@.streams[i as int],
    {
        &self.streams[i]
    }

    /// The stream with the given id, if the graph has it.
    #[verifier::loop_isolation(false)]
    pub fn get_stream(&self, sid: &StreamId) -> (r: Option<&AbstractStream>)
        ensures
            match r {
                Some(st) => stream_registered(self@.streams, *sid) && st@.id == *sid
                    && exists|i: int|
                        0 <= i < self@.streams.len() && self@.streams[i] == st@,
                None => !stream_registered(self@.streams, *sid),
            },
    {
        let mut i: usize = 0;
        while i < self.streams.len()
            invariant
                i <= self.streams@.len(),
                forall|j: int| 0 <= j < i ==> streams_view(self.streams@)[j].id != *sid,
            decreases self.streams@.len() - i,
        {
            if self.streams[i].id.key_eq(sid) {
                proof {
                    assert(streams_view(self.streams@)[i as int]
                        == self.streams@[i as int]@);
                }
                return Some(&self.streams[i]);
            }
            i = i + 1;
        }
        None
    }

    /// An equal copy; workers keep one per registered graph.
    #[verifier::loop_isolation(false)]
    pub fn duplicate(&self) -> (r: JobGraph)
        ensures
            r@ == self@,
    {
        proof {
            use_type_invariant(self);
        }
        let mut operators: Vec<AbstractOperator> = Vec::new();
        let mut i: usize = 0;
        while i < self.operators.len()
            invariant
                i <= self.operators@.len(),
                ops_view(operators@) == ops_view(self.operators@).subrange(0, i as int),
            decreases self.operators@.len() - i,
        {
            let d = self.operators[i].duplicate();
            operators.push(d);
            proof {
                assert(ops_view(self.operators@)[i as int] == self.operators@[i as int]@);
                assert(ops_view(operators@)
                    =~= ops_view(self.operators@).subrange(0, i + 1));
            }
            i = i + 1;
        }
        let mut streams: Vec<AbstractStream> = Vec::new();
        let mut j: usize = 0;
        while j < self.streams.len()
            invariant
                j <= self.streams@.len(),
                ops_view(operators@) == ops_view(self.operators@).subrange(
                    0,
                    self.operators@.len() as int,
                ),
                streams_view(streams@) == streams_view(self.streams@).subrange(0, j as int),
            decreases self.streams@.len() - j,
        {
            let d = self.streams[j].duplicate();
            streams.push(d);
            proof {
                assert(streams_view(self.streams@)[j as int] == self.streams@[j as int]@);
                assert(streams_view(streams@)
                    =~= streams_view(self.streams@).subrange(0, j + 1));
            }
            j = j + 1;
        }
        proof {
            assert(ops_view(self.operators@).subrange(0, self.operators@.len() as int)
                =~= ops_view(self.operators@));
            assert(streams_view(self.streams@).subrange(0, self.streams@.len() as int)
                =~= streams_view(self.streams@));
            assert(ops_view(operators@) == ops_view(self.operators@));
            assert(streams_view(streams@) == streams_view(self.streams@));
            assert(graph_ok(ops_view(operators@), streams_view(streams@)));
        }
        let r = JobGraph { id: self.id, name: copy_bytes(&self.name), operators, streams };
        r
    }
}

/// Whether a job names the driver or an operator of the list.
#[verifier::loop_isolation(false)]
fn job_in_ops(operators: &Vec<AbstractOperator>, j: &Job) -> (r: bool)
    ensures
        r == job_registered(ops_view(operators@), *j),
{
    match j {
        Job::Driver => true,
        Job::Operator(oid) => {
            let mut i: usize = 0;
            while i < operators.len()
                invariant
                    i <= operators@.len(),
                    forall|k: int| 0 <= k < i
                        ==> (#[trigger] ops_view(operators@)[k]).id != *oid,
                decreases operators@.len() - i,
            {
                if operators[i].id.key_eq(oid) {
                    proof {
                        assert(ops_view(operators@)[i as int] == operators@[i as int]@);
                    }
                    return true;
                }
                i = i + 1;
            }
            false
        }
    }
}

#[verifier::loop_isolation(false)]
fn stream_in_streams(streams: &Vec<AbstractStream>, sid: &StreamId) -> (r: bool)
    ensures
        r == stream_registered(streams_view(streams@), *sid),
{
    let mut i: usize = 0;
    while i < streams.len()
        invariant
            i <= streams@.len(),
            forall|k: int| 0 <= k < i
                ==> (#[trigger] streams_view(streams@)[k]).id != *sid,
        decreases streams@.len() - i,
    {
        if streams[i].id().key_eq(sid) {
            proof {
                assert(streams_view(streams@)[i as int] == streams@[i as int]@);
            }
            return true;
        }
        i = i + 1;
    }
    false
}

/// Decides well-formedness of a graph given as parts.
#[verifier::loop_isolation(false)]
fn graph_parts_ok(operators: &Vec<AbstractOperator>, streams: &Vec<AbstractStream>) -> (r: bool)
    ensures
        r == graph_ok(ops_view(operators@), streams_view(streams@)),
{
    // operator ids pairwise distinct
    let mut i: usize = 0;
    while i < operators.len()
        invariant
            i <= operators@.len(),
            forall|a: int, b: int| 0 <= a < b < i
                ==> (#[trigger] ops_view(operators@)[a]).id
                    != (#[trigger] ops_view(operators@)[b]).id,
        decreases operators@.len() - i,
    {
        proof {
            assert(ops_view(operators@)[i as int] == operators@[i as int]@);
        }
        let mut j: usize = 0;
        while j < i
            invariant
                j <= i,
                i < operators@.len(),
                forall|a: int| 0 <= a < j
                    ==> (#[trigger] ops_view(operators@)[a]).id
                        != ops_view(operators@)[i as int].id,
            decreases i - j,
        {
            proof {
                assert(ops_view(operators@)[j as int] == operators@[j as int]@);
            }
            if operators[j].id.key_eq(&operators[i].id) {
                proof {
                    assert(!distinct_operator_ids(ops_view(operators@)));
                }
                return false;
            }
            j = j + 1;
        }
        i = i + 1;
    }
    // stream ids pairwise distinct
    let mut i: usize = 0;
    while i < streams.len()
        invariant
            i <= streams@.len(),
            forall|a: int, b: int| 0 <= a < b < i
                ==> (#[trigger] streams_view(streams@)[a]).id
                    != (#[trigger] streams_view(streams@)[b]).id,
        decreases streams@.len() - i,
    {
        proof {
            assert(streams_view(streams@)[i as int] == streams@[i as int]@);
        }
        let mut j: usize = 0;
        while j < i
            invariant
                j <= i,
                i < streams@.len(),
                forall|a: int| 0 <= a < j
                    ==> (#[trigger] streams_view(streams@)[a]).id
                        != streams_view(streams@)[i as int].id,
            decreases i - j,
        {
            proof {
                assert(streams_view(streams@)[j as int] == streams@[j as int]@);
            }
            if streams[j].id().key_eq(&streams[i].id()) {
                proof {
                    assert(!distinct_stream_ids(streams_view(streams@)));
                }
                return false;
            }
            j = j + 1;
        }
        i = i + 1;
    }
    // streams well-formed
    let mut i: usize = 0;
    while i < streams.len()
        invariant
            i <= streams@.len(),
            forall|j: int| 0 <= j < i
                ==> stream_ok(ops_view(operators@), #[trigger] streams_view(streams@)[j]),
        decreases streams@.len() - i,
    {
        proof {
            assert(streams_view(streams@)[i as int] == streams@[i as int]@);
        }
        let st = &streams[i];
        match st.get_source() {
            None => {
                return false;
            }
            Some(src) => {
                if !job_in_ops(operators, &src) {
                    return false;
                }
            }
        }
        let dests = st.get_destinations();
        let mut k: usize = 0;
        while k < dests.len()
            invariant
                k <= dests@.len(),
                dests@ == streams_view(streams@)[i as int].destinations,
                i < streams@.len(),
                forall|a: int, b: int| 0 <= a < b < k ==> dests@[a] != dests@[b],
                forall|a: int| 0 <= a < k
                    ==> job_registered(ops_view(operators@), #[trigger] dests@[a]),
            decreases dests@.len() - k,
        {
            if !job_in_ops(operators, &dests[k]) {
                return false;
            }
            let mut m: usize = 0;
            while m < k
                invariant
                    m <= k,
                    k < dests@.len(),
                    forall|a: int| 0 <= a < m ==> dests@[a] != dests@[k as int],
                decreases k - m,
            {
                if dests[m].key_eq(&dests[k]) {
                    proof {
                        assert(!streams_view(streams@)[i as int].destinations.no_duplicates());
                    }
                    return false;
                }
                m = m + 1;
            }
            k = k + 1;
        }
        i = i + 1;
    }
    // operators well-formed
    let mut i: usize = 0;
    while i < operators.len()
        invariant
            i <= operators@.len(),
            forall|j: int| 0 <= j < i
                ==> operator_ok(streams_view(streams@), #[trigger] ops_view(operators@)[j]),
        decreases operators@.len() - i,
    {
        proof {
            assert(ops_view(operators@)[i as int] == operators@[i as int]@);
        }
        let op = &operators[i];
        let reads_ok = match op.operator_type {
            AbstractOperatorType::Source => op.read_streams.len() == 0,
            AbstractOperatorType::ParallelSink => op.read_streams.len() == 1,
            AbstractOperatorType::Sink => op.read_streams.len() == 1,
            AbstractOperatorType::ParallelOneInOneOut => op.read_streams.len() == 1,
            AbstractOperatorType::OneInOneOut => op.read_streams.len() == 1,
            AbstractOperatorType::ParallelTwoInOneOut => op.read_streams.len() == 2,
            AbstractOperatorType::TwoInOneOut => op.read_streams.len() == 2,
            AbstractOperatorType::ParallelOneInTwoOut => op.read_streams.len() == 1,
            AbstractOperatorType::OneInTwoOut => op.read_streams.len() == 1,
        };
        let writes_ok = match op.operator_type {
            AbstractOperatorType::Source => op.write_streams.len() == 1,
            AbstractOperatorType::ParallelSink => op.write_streams.len() == 0,
            AbstractOperatorType::Sink => op.write_streams.len() == 0,
            AbstractOperatorType::ParallelOneInOneOut => op.write_streams.len() == 1,
            AbstractOperatorType::OneInOneOut => op.write_streams.len() == 1,
            AbstractOperatorType::ParallelTwoInOneOut => op.write_streams.len() == 1,
            AbstractOperatorType::TwoInOneOut => op.write_streams.len() == 1,
            AbstractOperatorType::ParallelOneInTwoOut => op.write_streams.len() == 2,
            AbstractOperatorType::OneInTwoOut => op.write_streams.len() == 2,
        };
        if !reads_ok || !writes_ok {
            return false;
        }
        let mut k: usize = 0;
        while k < op.read_streams.len()
            invariant
                k <= op.read_streams@.len(),
                i < operators@.len(),
                op == &operators[i as int],
                forall|a: int| 0 <= a < k
                    ==> stream_registered(streams_view(streams@),
                        #[trigger] op.read_streams@[a]),
            decreases op.read_streams@.len() - k,
        {
            if !stream_in_streams(streams, &op.read_streams[k]) {
                return false;
            }
            k = k + 1;
        }
        let mut k: usize = 0;
        while k < op.write_streams.len()
            invariant
                k <= op.write_streams@.len(),
                i < operators@.len(),
                op == &operators[i as int],
                forall|a: int| 0 <= a < k
                    ==> stream_registered(streams_view(streams@),
                        #[trigger] op.write_streams@[a]),
            decreases op.write_streams@.len() - k,
        {
            if !stream_in_streams(streams, &op.write_streams[k]) {
                return false;
            }
            k = k + 1;
        }
        i = i + 1;
    }
    true
}

impl JobGraph {
    /// Rebuilds a graph from its parts, as the codec receives them; yields it
    /// exactly when the parts form a well-formed graph.
    pub fn assemble(
        id: JobGraphId,
        name: Vec<u8>,
        operators: Vec<AbstractOperator>,
        streams: Vec<AbstractStream>,
    ) -> (r: Option<JobGraph>)
        ensures
            match r {
                Some(jg) => graph_ok(ops_view(operators@), streams_view(streams@))
                    && jg@ == (JobGraphVal {
                        id,
                        name: name@,
                        operators: ops_view(operators@),
                        streams: streams_view(streams@),
                    }),
                None => !graph_ok(ops_view(operators@), streams_view(streams@)),
            },
    {
        if graph_parts_ok(&operators, &streams) {
            Some(JobGraph { id, name, operators, streams })
        } else {
            None
        }
    }
}

// ------------------------------------------------------------------
// The graph builder.
// ------------------------------------------------------------------

/// A dataflow graph under construction.  Operators and streams receive
/// content-deterministic identities derived from the graph name and a counter.
pub struct Graph {
    graph_id: JobGraphId,
    name: Vec<u8>,
    operators: Vec<AbstractOperator>,
    streams: Vec<AbstractStream>,
    next_id: u64,
}

impl View for Graph {
    type V = JobGraphVal;

    closed spec fn view(&self) -> JobGraphVal {
        JobGraphVal {
            id: self.graph_id,
            name: self.name@,
            operators: ops_view(self.operators@),
            streams: streams_view(self.streams@),
        }
    }
}

impl Graph {
    #[verifier::type_invariant]
    spec fn wf(self) -> bool {
        &&& self.graph_id == spec_graph_id(self.name@)
        &&& forall|i: int| 0 <= i < self.operators@.len()
            ==> (#[trigger] ops_view(self.operators@)[i]).id.lo < self.next_id
                && ops_view(self.operators@)[i].id.hi == self.graph_id.0.hi
        &&& forall|i: int| 0 <= i < self.streams@.len()
            ==> (#[trigger] streams_view(self.streams@)[i]).id.lo < self.next_id
                && streams_view(self.streams@)[i].id.hi == self.graph_id.0.hi
        &&& distinct_operator_ids(ops_view(self.operators@))
        &&& distinct_stream_ids(streams_view(self.streams@))
        &&& forall|i: int, j: int|
            0 <= i < self.operators@.len() && 0 <= j < self.streams@.len()
                ==> (#[trigger] ops_view(self.operators@)[i]).id
                    != (#[trigger] streams_view(self.streams@)[j]).id
    }

    /// How many fresh identities the builder can still mint.
    pub open spec fn ids_remaining(&self) -> int {
        u64::MAX - self.spec_next_id()
    }

    pub closed spec fn spec_next_id(&self) -> u64 {
        self.next_id
    }

    pub fn new(name: &str) -> (r: Graph)
        ensures
            r@ == (JobGraphVal {
                id: spec_graph_id(name.spec_bytes()),
                name: name.spec_bytes(),
                operators: Seq::<AbstractOperatorVal>::empty(),
                streams: Seq::<AbstractStreamVal>::empty(),
            }),
            r.ids_remaining() == u64::MAX - 1,
    {
        let name_bytes = name.as_bytes_vec();
        let seed = fnv1a(&name_bytes);
        let r = Graph {
            graph_id: JobGraphId(Uuid { hi: seed, lo: 0 }),
            name: name_bytes,
            operators: Vec::new(),
            streams: Vec::new(),
            next_id: 1,
        };
        proof {
            assert(ops_view(r.operators@) =~= Seq::<AbstractOperatorVal>::empty());
            assert(streams_view(r.streams@) =~= Seq::<AbstractStreamVal>::empty());
        }
        r
    }

    pub fn id(&self) -> (r: JobGraphId)
        ensures
            r == self@.id,
    {
        self.graph_id
    }

    fn mint_id(&mut self) -> (r: Uuid)
        requires
            old(self).ids_remaining() >= 1,
        ensures
            final(self)@ == old(self)@,
            final(self).ids_remaining() == old(self).ids_remaining() - 1,
            r.hi == old(self)@.id.0.hi,
            r.lo == old(self).spec_next_id(),
            forall|i: int| 0 <= i < old(self)@.operators.len()
                ==> (#[trigger] old(self)@.operators[i]).id != r,
            forall|i: int| 0 <= i < old(self)@.streams.len()
                ==> (#[trigger] old(self)@.streams[i]).id != r,
    {
        proof {
            use_type_invariant(&*self);
        }
        let id = Uuid { hi: self.graph_id.0.hi, lo: self.next_id };
        self.next_id = self.next_id + 1;
        id
    }

    /// Adds a source operator writing one fresh stream; yields that stream.
    pub fn connect_source(&mut self, config: OperatorConfig) -> (r: (OperatorId, AbstractStream))
        requires
            old(self).ids_remaining() >= 2,
        ensures
            final(self)@.id == old(self)@.id,
            final(self)@.name == old(self)@.name,
            final(self)@.operators == old(self)@.operators.push(AbstractOperatorVal {
                id: r.0,
                config: config@,
                read_streams: Seq::<StreamId>::empty(),
                write_streams: seq![r.1@.id],
                operator_type: AbstractOperatorType::Source,
            }),
            final(self)@.streams == old(self)@.streams.push(r.1@),
            r.1@.source == Some(Job::Operator(r.0)),
            r.1@.destinations == Seq::<Job>::empty(),
            !job_registered(old(self)@.operators, Job::Operator(r.0)),
            !stream_registered(old(self)@.streams, r.1@.id),
            final(self).ids_remaining() >= old(self).ids_remaining() - 2,
    {
        proof {
            use_type_invariant(&*self);
        }
        let op_id = self.mint_id();
        let stream_id = self.mint_id();
        let mut stream = AbstractStream::new(stream_id, Vec::new());
        stream.register_source(Job::Operator(op_id));
        let read_streams: Vec<StreamId> = Vec::new();
        let mut write_streams: Vec<StreamId> = Vec::new();
        write_streams.push(stream_id);
        proof {
            assert(read_streams@ =~= Seq::<StreamId>::empty());
            assert(write_streams@ =~= seq![stream_id]);
        }
        let op = AbstractOperator {
            id: op_id,
            config,
            read_streams,
            write_streams,
            operator_type: AbstractOperatorType::Source,
        };
        let ghost opv = op@;
        let ghost stv = stream@;
        let ghost ops0 = ops_view(self.operators@);
        let ghost sts0 = streams_view(self.streams@);
        let mut operators: Vec<AbstractOperator> = Vec::new();
        let mut streams: Vec<AbstractStream> = Vec::new();
        core::mem::swap(&mut operators, &mut self.operators);
        core::mem::swap(&mut streams, &mut self.streams);
        operators.push(op);
        streams.push(stream.duplicate());
        proof {
            assert(ops_view(operators@) =~= ops0.push(opv));
            assert(streams_view(streams@) =~= sts0.push(stv));
            if job_registered(ops0, Job::Operator(op_id)) {
                let i = choose|i: int| 0 <= i < ops0.len() && ops0[i].id == op_id;
                assert(false);
            }
            if stream_registered(sts0, stream_id) {
                let i = choose|i: int| 0 <= i < sts0.len() && sts0[i].id == stream_id;
                assert(false);
            }
        }
        core::mem::swap(&mut self.operators, &mut operators);
        core::mem::swap(&mut self.streams, &mut streams);
        (op_id, stream)
    }

    /// Adds a sink operator reading the given stream of this graph.
    #[verifier::loop_isolation(false)]
    pub fn connect_sink(&mut self, config: OperatorConfig, input: &AbstractStream) -> (r:
        OperatorId)
        requires
            old(self).ids_remaining() >= 1,
            stream_registered(old(self)@.streams, input@.id),
        ensures
            final(self)@.id == old(self)@.id,
            final(self)@.name == old(self)@.name,
            final(self)@.operators == old(self)@.operators.push(AbstractOperatorVal {
                id: r,
                config: config@,
                read_streams: seq![input@.id],
                write_streams: Seq::<StreamId>::empty(),
                operator_type: AbstractOperatorType::Sink,
            }),
            final(self)@.streams.len() == old(self)@.streams.len(),
            forall|i: int| 0 <= i < old(self)@.streams.len()
                ==> (#[trigger] final(self)@.streams[i]) == if old(self)@.streams[i].id
                    == input@.id {
                    AbstractStreamVal {
                        destinations: old(self)@.streams[i].destinations.push(
                            Job::Operator(r),
                        ),
                        ..old(self)@.streams[i]
                    }
                } else {
                    old(self)@.streams[i]
                },
            !job_registered(old(self)@.operators, Job::Operator(r)),
            final(self).ids_remaining() >= old(self).ids_remaining() - 1,
    {
        proof {
            use_type_invariant(&*self);
        }
        let op_id = self.mint_id();
        let mut read_streams: Vec<StreamId> = Vec::new();
        read_streams.push(input.id());
        proof {
            assert(read_streams@ =~= seq![input@.id]);
        }
        let op = AbstractOperator {
            id: op_id,
            config,
            read_streams,
            write_streams: Vec::new(),
            operator_type: AbstractOperatorType::Sink,
        };
        let ghost opv = op@;
        let ghost ops0 = ops_view(self.operators@);
        let ghost sts0 = streams_view(self.streams@);
        let mut operators: Vec<AbstractOperator> = Vec::new();
        let mut streams: Vec<AbstractStream> = Vec::new();
        core::mem::swap(&mut operators, &mut self.operators);
        core::mem::swap(&mut streams, &mut self.streams);
        operators.push(op);
        proof {
            assert(opv.write_streams =~= Seq::<StreamId>::empty());
            assert(ops_view(operators@) =~= ops0.push(opv));
            if job_registered(ops0, Job::Operator(op_id)) {
                let k = choose|k: int| 0 <= k < ops0.len() && ops0[k].id == op_id;
                assert(false);
            }
        }
        // record the new destination on the referenced stream
        let n = streams.len();
        let mut i: usize = 0;
        while i < n
            invariant
                i <= n,
                n == streams@.len(),
                sts0.len() == n,
                forall|j: int| 0 <= j < i
                    ==> (#[trigger] streams_view(streams@)[j]) == if sts0[j].id
                        == input@.id {
                        AbstractStreamVal {
                            destinations: sts0[j].destinations.push(Job::Operator(op_id)),
                            ..sts0[j]
                        }
                    } else {
                        sts0[j]
                    },
                forall|j: int| i <= j < n
                    ==> (#[trigger] streams_view(streams@)[j]) == sts0[j],
            decreases n - i,
        {
            proof {
                assert(streams_view(streams@)[i as int] == streams@[i as int]@);
            }
            let is_input = streams[i].id().key_eq(&input.id());
            if is_input {
                let ghost before = streams@;
                let mut st = streams.remove(i);
                proof {
                    assert(st == before[i as int]);
                }
                st.add_destination(Job::Operator(op_id));
                let ghost stv2 = st@;
                streams.insert(i, st);
                proof {
                    assert(stv2 == AbstractStreamVal {
                        destinations: streams_view(before)[i as int].destinations.push(
                            Job::Operator(op_id),
                        ),
                        ..streams_view(before)[i as int]
                    });
                    assert forall|j: int| 0 <= j < n implies
                        #[trigger] streams@[j] == if j == i as int {
                            streams@[i as int]
                        } else {
                            before[j]
                        } by {
                        if j < i as int {
                            assert(before.remove(i as int)[j] == before[j]);
                        } else if j > i as int {
                            assert(before.remove(i as int)[j - 1] == before[j]);
                        }
                    }
                    assert(streams_view(streams@)[i as int] == stv2);
                    assert forall|j: int| 0 <= j < n && j != i as int implies
                        #[trigger] streams_view(streams@)[j] == streams_view(before)[j] by {
                        assert(streams@[j] == before[j]);
                        assert(streams_view(before)[j] == before[j]@);
                    }
                }
            }
            i = i + 1;
        }
        core::mem::swap(&mut self.operators, &mut operators);
        core::mem::swap(&mut self.streams, &mut streams);
        op_id
    }

    /// Compiles and validates the graph.
    #[verifier::loop_isolation(false)]
    pub fn compile(self) -> (r: Result<JobGraph, GraphCompilationError>)
        ensures
            match r {
                Ok(jg) => graph_ok(self@.operators, self@.streams) && jg@ == self@,
                Err(_) => !graph_ok(self@.operators, self@.streams),
            },
    {
        proof {
            use_type_invariant(&self);
        }
        // validate the streams
        let mut i: usize = 0;
        while i < self.streams.len()
            invariant
                i <= self.streams@.len(),
                forall|j: int| 0 <= j < i
                    ==> stream_ok(ops_view(self.operators@),
                        #[trigger] streams_view(self.streams@)[j]),
            decreases self.streams@.len() - i,
        {
            let st = &self.streams[i];
            proof {
                assert(streams_view(self.streams@)[i as int] == self.streams@[i as int]@);
            }
            match st.get_source() {
                None => {
                    proof {
                        assert(!stream_ok(ops_view(self.operators@),
                            streams_view(self.streams@)[i as int]));
                    }
                    return Err(GraphCompilationError::StreamWithoutSource(st.id()));
                }
                Some(src) => {
                    if !self.job_exists(&src) {
                        proof {
                            assert(!stream_ok(ops_view(self.operators@),
                                streams_view(self.streams@)[i as int]));
                        }
                        return Err(GraphCompilationError::UnknownJobReference(st.id()));
                    }
                }
            }
            let dests = st.get_destinations();
            let mut k: usize = 0;
            while k < dests.len()
                invariant
                    k <= dests@.len(),
                    dests@ == streams_view(self.streams@)[i as int].destinations,
                    i < self.streams@.len(),
                    forall|a: int, b: int| 0 <= a < b < k ==> dests@[a] != dests@[b],
                    forall|a: int| 0 <= a < k
                        ==> job_registered(ops_view(self.operators@), #[trigger] dests@[a]),
                decreases dests@.len() - k,
            {
                if !self.job_exists(&dests[k]) {
                    proof {
                        assert(!stream_ok(ops_view(self.operators@),
                            streams_view(self.streams@)[i as int]));
                    }
                    return Err(GraphCompilationError::UnknownJobReference(st.id()));
                }
                let mut m: usize = 0;
                while m < k
                    invariant
                        m <= k,
                        k < dests@.len(),
                        forall|a: int| 0 <= a < m ==> dests@[a] != dests@[k as int],
                    decreases k - m,
                {
                    if dests[m].key_eq(&dests[k]) {
                        proof {
                            let dv = streams_view(self.streams@)[i as int].destinations;
                            assert(dv[m as int] == dv[k as int]);
                            assert(!dv.no_duplicates());
                            assert(!stream_ok(ops_view(self.operators@),
                                streams_view(self.streams@)[i as int]));
                        }
                        return Err(GraphCompilationError::DuplicateDestination(st.id()));
                    }
                    m = m + 1;
                }
                k = k + 1;
            }
            i = i + 1;
        }
        // validate the operators
        let mut i: usize = 0;
        while i < self.operators.len()
            invariant
                i <= self.operators@.len(),
                forall|j: int| 0 <= j < self.streams@.len()
                    ==> stream_ok(ops_view(self.operators@),
                        #[trigger] streams_view(self.streams@)[j]),
                forall|j: int| 0 <= j < i
                    ==> operator_ok(streams_view(self.streams@),
                        #[trigger] ops_view(self.operators@)[j]),
            decreases self.operators@.len() - i,
        {
            let op = &self.operators[i];
            let reads_ok = match op.operator_type {
                AbstractOperatorType::Source => op.read_streams.len() == 0,
                AbstractOperatorType::ParallelSink => op.read_streams.len() == 1,
                AbstractOperatorType::Sink => op.read_streams.len() == 1,
                AbstractOperatorType::ParallelOneInOneOut => op.read_streams.len() == 1,
                AbstractOperatorType::OneInOneOut => op.read_streams.len() == 1,
                AbstractOperatorType::ParallelTwoInOneOut => op.read_streams.len() == 2,
                AbstractOperatorType::TwoInOneOut => op.read_streams.len() == 2,
                AbstractOperatorType::ParallelOneInTwoOut => op.read_streams.len() == 1,
                AbstractOperatorType::OneInTwoOut => op.read_streams.len() == 1,
            };
            let writes_ok = match op.operator_type {
                AbstractOperatorType::Source => op.write_streams.len() == 1,
                AbstractOperatorType::ParallelSink => op.write_streams.len() == 0,
                AbstractOperatorType::Sink => op.write_streams.len() == 0,
                AbstractOperatorType::ParallelOneInOneOut => op.write_streams.len() == 1,
                AbstractOperatorType::OneInOneOut => op.write_streams.len() == 1,
                AbstractOperatorType::ParallelTwoInOneOut => op.write_streams.len() == 1,
                AbstractOperatorType::TwoInOneOut => op.write_streams.len() == 1,
                AbstractOperatorType::ParallelOneInTwoOut => op.write_streams.len() == 2,
                AbstractOperatorType::OneInTwoOut => op.write_streams.len() == 2,
            };
            if !reads_ok || !writes_ok {
                proof {
                    let ov = ops_view(self.operators@)[i as int];
                    assert(ov == self.operators@[i as int]@);
                    assert(!operator_ok(streams_view(self.streams@), ov));
                }
                return Err(GraphCompilationError::ArityMismatch(op.id));
            }
            let mut k: usize = 0;
            while k < op.read_streams.len()
                invariant
                    k <= op.read_streams@.len(),
                    i < self.operators@.len(),
                    op == &self.operators[i as int],
                    forall|a: int| 0 <= a < k
                        ==> stream_registered(streams_view(self.streams@),
                            #[trigger] op.read_streams@[a]),
                decreases op.read_streams@.len() - k,
            {
                if !self.stream_exists(&op.read_streams[k]) {
                    proof {
                        let ov = ops_view(self.operators@)[i as int];
                        assert(ov == self.operators@[i as int]@);
                        assert(ov.read_streams[k as int] == op.read_streams@[k as int]);
                        assert(!operator_ok(streams_view(self.streams@), ov));
                    }
                    return Err(GraphCompilationError::UnknownStreamReference(op.id));
                }
                k = k + 1;
            }
            let mut k: usize = 0;
            while k < op.write_streams.len()
                invariant
                    k <= op.write_streams@.len(),
                    i < self.operators@.len(),
                    op == &self.operators[i as int],
                    forall|a: int| 0 <= a < k
                        ==> stream_registered(streams_view(self.streams@),
                            #[trigger] op.write_streams@[a]),
                decreases op.write_streams@.len() - k,
            {
                if !self.stream_exists(&op.write_streams[k]) {
                    proof {
                        let ov = ops_view(self.operators@)[i as int];
                        assert(ov == self.operators@[i as int]@);
                        assert(ov.write_streams[k as int] == op.write_streams@[k as int]);
                        assert(!operator_ok(streams_view(self.streams@), ov));
                    }
                    return Err(GraphCompilationError::UnknownStreamReference(op.id));
                }
                k = k + 1;
            }
            i = i + 1;
        }
        let Graph { graph_id, name, operators, streams, next_id: _ } = self;
        Ok(JobGraph { id: graph_id, name, operators, streams })
    }

    #[verifier::loop_isolation(false)]
    fn job_exists(&self, j: &Job) -> (r: bool)
        ensures
            r == job_registered(self@.operators, *j),
    {
        match j {
            Job::Driver => true,
            Job::Operator(oid) => {
                let mut i: usize = 0;
                while i < self.operators.len()
                    invariant
                        i <= self.operators@.len(),
                        forall|k: int| 0 <= k < i
                            ==> (#[trigger] ops_view(self.operators@)[k]).id != *oid,
                    decreases self.operators@.len() - i,
                {
                    if self.operators[i].id.key_eq(oid) {
                        proof {
                            assert(ops_view(self.operators@)[i as int]
                                == self.operators@[i as int]@);
                        }
                        return true;
                    }
                    i = i + 1;
                }
                false
            }
        }
    }

    #[verifier::loop_isolation(false)]
    fn stream_exists(&self, sid: &StreamId) -> (r: bool)
        ensures
            r == stream_registered(self@.streams, *sid),
    {
        let mut i: usize = 0;
        while i < self.streams.len()
            invariant
                i <= self.streams@.len(),
                forall|k: int| 0 <= k < i
                    ==> (#[trigger] streams_view(self.streams@)[k]).id != *sid,
            decreases self.streams@.len() - i,
        {
            if self.streams[i].id().key_eq(sid) {
                proof {
                    assert(streams_view(self.streams@)[i as int]
                        == self.streams@[i as int]@);
                }
                return true;
            }
            i = i + 1;
        }
        false
    }
}

} // verus!
