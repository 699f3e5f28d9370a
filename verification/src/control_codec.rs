//! The wire codec for the Leader ↔ Worker notification vocabulary, including
//! the abstract job graph carried by a graph submission.

use vstd::prelude::*;

use crate::codec::{
    dec_bytes, dec_u32, dec_u8, dec_uuid, enc_bytes, enc_u32, enc_u8, enc_uuid,
    lemma_dec_enc_bytes, lemma_dec_enc_u32, lemma_dec_enc_u8, lemma_dec_enc_uuid,
    lemma_subrange_parts, read_bytes, read_u32, read_u8, read_uuid, write_bytes, write_u32,
    write_u8, write_uuid,
};
use crate::control_plane::{
    dec_addr, dec_job, dec_worker_state, enc_addr, enc_job, enc_worker_state,
    lemma_dec_enc_addr, lemma_dec_enc_job, lemma_dec_enc_worker_state, read_addr, read_job,
    read_worker_state, write_addr, write_job, write_worker_state, LeaderNotification,
    LeaderNotificationVal, WorkerAddress, WorkerNotification, WorkerNotificationVal,
};
use crate::graph::{
    graph_ok, ops_view, streams_view, AbstractOperator, AbstractOperatorType,
    AbstractOperatorVal, AbstractStream, AbstractStreamVal, Job, JobGraph, JobGraphId,
    JobGraphVal, OperatorConfig, OperatorConfigVal,
};
use crate::ids::Uuid;

verus! {

// ------------------------------------------------------------------
// Specification encodings.
// ------------------------------------------------------------------

pub open spec fn enc_bool(b: bool) -> Seq<u8> {
    if b {
        seq![1u8]
    } else {
        seq![0u8]
    }
}

pub open spec fn dec_bool(s: Seq<u8>, pos: int) -> Option<(bool, int)> {
    match dec_u8(s, pos) {
        Some((tag, p)) => if tag == 0 {
            Some((false, p))
        } else if tag == 1 {
            Some((true, p))
        } else {
            None
        },
        None => None,
    }
}

pub open spec fn enc_opt_uuid(o: Option<Uuid>) -> Seq<u8> {
    match o {
        None => seq![0u8],
        Some(u) => seq![1u8] + enc_uuid(u),
    }
}

pub open spec fn dec_opt_uuid(s: Seq<u8>, pos: int) -> Option<(Option<Uuid>, int)> {
    match dec_u8(s, pos) {
        Some((tag, p)) => if tag == 0 {
            Some((None, p))
        } else if tag == 1 {
            match dec_uuid(s, p) {
                Some((u, p2)) => Some((Some(u), p2)),
                None => None,
            }
        } else {
            None
        },
        None => None,
    }
}

pub open spec fn enc_opt_bytes(o: Option<Seq<u8>>) -> Seq<u8> {
    match o {
        None => seq![0u8],
        Some(b) => seq![1u8] + enc_bytes(b),
    }
}

pub open spec fn dec_opt_bytes(s: Seq<u8>, pos: int) -> Option<(Option<Seq<u8>>, int)> {
    match dec_u8(s, pos) {
        Some((tag, p)) => if tag == 0 {
            Some((None, p))
        } else if tag == 1 {
            match dec_bytes(s, p) {
                Some((b, p2)) => Some((Some(b), p2)),
                None => None,
            }
        } else {
            None
        },
        None => None,
    }
}

pub open spec fn enc_opt_job(o: Option<Job>) -> Seq<u8> {
    match o {
        None => seq![0u8],
        Some(j) => seq![1u8] + enc_job(j),
    }
}

pub open spec fn dec_opt_job(s: Seq<u8>, pos: int) -> Option<(Option<Job>, int)> {
    match dec_u8(s, pos) {
        Some((tag, p)) => if tag == 0 {
            Some((None, p))
        } else if tag == 1 {
            match dec_job(s, p) {
                Some((j, p2)) => Some((Some(j), p2)),
                None => None,
            }
        } else {
            None
        },
        None => None,
    }
}

pub open spec fn op_type_tag(t: AbstractOperatorType) -> u8 {
    match t {
        AbstractOperatorType::Source => 0,
        AbstractOperatorType::ParallelSink => 1,
        AbstractOperatorType::Sink => 2,
        AbstractOperatorType::ParallelOneInOneOut => 3,
        AbstractOperatorType::OneInOneOut => 4,
        AbstractOperatorType::ParallelTwoInOneOut => 5,
        AbstractOperatorType::TwoInOneOut => 6,
        AbstractOperatorType::ParallelOneInTwoOut => 7,
        AbstractOperatorType::OneInTwoOut => 8,
    }
}

pub open spec fn op_type_of_tag(tag: u8) -> Option<AbstractOperatorType> {
    if tag == 0 {
        Some(AbstractOperatorType::Source)
    } else if tag == 1 {
        Some(AbstractOperatorType::ParallelSink)
    } else if tag == 2 {
        Some(AbstractOperatorType::Sink)
    } else if tag == 3 {
        Some(AbstractOperatorType::ParallelOneInOneOut)
    } else if tag == 4 {
        Some(AbstractOperatorType::OneInOneOut)
    } else if tag == 5 {
        Some(AbstractOperatorType::ParallelTwoInOneOut)
    } else if tag == 6 {
        Some(AbstractOperatorType::TwoInOneOut)
    } else if tag == 7 {
        Some(AbstractOperatorType::ParallelOneInTwoOut)
    } else if tag == 8 {
        Some(AbstractOperatorType::OneInTwoOut)
    } else {
        None
    }
}

pub open spec fn enc_op_type(t: AbstractOperatorType) -> Seq<u8> {
    seq![op_type_tag(t)]
}

pub open spec fn dec_op_type(s: Seq<u8>, pos: int) -> Option<(AbstractOperatorType, int)> {
    match dec_u8(s, pos) {
        Some((tag, p)) => match op_type_of_tag(tag) {
            Some(t) => Some((t, p)),
            None => None,
        },
        None => None,
    }
}

pub open spec fn enc_config(c: OperatorConfigVal) -> Seq<u8> {
    enc_opt_bytes(c.name) + enc_opt_uuid(c.worker) + enc_bool(c.flow_watermarks)
}

pub open spec fn dec_config(s: Seq<u8>, pos: int) -> Option<(OperatorConfigVal, int)> {
    match dec_opt_bytes(s, pos) {
        Some((name, p1)) => match dec_opt_uuid(s, p1) {
            Some((worker, p2)) => match dec_bool(s, p2) {
                Some((flow_watermarks, p3)) => Some((
                    OperatorConfigVal { name, worker, flow_watermarks },
                    p3,
                )),
                None => None,
            },
            None => None,
        },
        None => None,
    }
}

pub open spec fn enc_uuid_items(s: Seq<Uuid>) -> Seq<u8>
    decreases s.len(),
{
    if s.len() == 0 {
        Seq::empty()
    } else {
        enc_uuid(s[0]) + enc_uuid_items(s.skip(1))
    }
}

pub open spec fn enc_uuid_seq(s: Seq<Uuid>) -> Seq<u8> {
    enc_u32(s.len() as u32) + enc_uuid_items(s)
}

pub open spec fn dec_uuid_items(s: Seq<u8>, pos: int, n: int) -> Option<(Seq<Uuid>, int)>
    decreases n,
{
    if n <= 0 {
        Some((Seq::empty(), pos))
    } else {
        match dec_uuid(s, pos) {
            Some((v, p)) => match dec_uuid_items(s, p, n - 1) {
                Some((rest, p2)) => Some((seq![v] + rest, p2)),
                None => None,
            },
            None => None,
        }
    }
}

pub open spec fn dec_uuid_seq(s: Seq<u8>, pos: int) -> Option<(Seq<Uuid>, int)> {
    match dec_u32(s, pos) {
        Some((n, p)) => dec_uuid_items(s, p, n as int),
        None => None,
    }
}

pub open spec fn enc_job_items(s: Seq<Job>) -> Seq<u8>
    decreases s.len(),
{
    if s.len() == 0 {
        Seq::empty()
    } else {
        enc_job(s[0]) + enc_job_items(s.skip(1))
    }
}

pub open spec fn enc_job_seq(s: Seq<Job>) -> Seq<u8> {
    enc_u32(s.len() as u32) + enc_job_items(s)
}

pub open spec fn dec_job_items(s: Seq<u8>, pos: int, n: int) -> Option<(Seq<Job>, int)>
    decreases n,
{
    if n <= 0 {
        Some((Seq::empty(), pos))
    } else {
        match dec_job(s, pos) {
            Some((v, p)) => match dec_job_items(s, p, n - 1) {
                Some((rest, p2)) => Some((seq![v] + rest, p2)),
                None => None,
            },
            None => None,
        }
    }
}

pub open spec fn dec_job_seq(s: Seq<u8>, pos: int) -> Option<(Seq<Job>, int)> {
    match dec_u32(s, pos) {
        Some((n, p)) => dec_job_items(s, p, n as int),
        None => None,
    }
}

pub open spec fn enc_operator(o: AbstractOperatorVal) -> Seq<u8> {
    enc_uuid(o.id) + enc_config(o.config) + enc_uuid_seq(o.read_streams)
        + enc_uuid_seq(o.write_streams) + enc_op_type(o.operator_type)
}

pub open spec fn dec_operator(s: Seq<u8>, pos: int) -> Option<(AbstractOperatorVal, int)> {
    match dec_uuid(s, pos) {
        Some((id, p1)) => match dec_config(s, p1) {
            Some((config, p2)) => match dec_uuid_seq(s, p2) {
                Some((read_streams, p3)) => match dec_uuid_seq(s, p3) {
                    Some((write_streams, p4)) => match dec_op_type(s, p4) {
                        Some((operator_type, p5)) => Some((
                            AbstractOperatorVal {
                                id,
                                config,
                                read_streams,
                                write_streams,
                                operator_type,
                            },
                            p5,
                        )),
                        None => None,
                    },
                    None => None,
                },
                None => None,
            },
            None => None,
        },
        None => None,
    }
}

pub open spec fn enc_stream(st: AbstractStreamVal) -> Seq<u8> {
    enc_uuid(st.id) + enc_bytes(st.name) + enc_opt_job(st.source) + enc_job_seq(st.destinations)
}

pub open spec fn dec_stream(s: Seq<u8>, pos: int) -> Option<(AbstractStreamVal, int)> {
    match dec_uuid(s, pos) {
        Some((id, p1)) => match dec_bytes(s, p1) {
            Some((name, p2)) => match dec_opt_job(s, p2) {
                Some((source, p3)) => match dec_job_seq(s, p3) {
                    Some((destinations, p4)) => Some((
                        AbstractStreamVal { id, name, source, destinations },
                        p4,
                    )),
                    None => None,
                },
                None => None,
            },
            None => None,
        },
        None => None,
    }
}

pub open spec fn enc_operator_items(s: Seq<AbstractOperatorVal>) -> Seq<u8>
    decreases s.len(),
{
    if s.len() == 0 {
        Seq::empty()
    } else {
        enc_operator(s[0]) + enc_operator_items(s.skip(1))
    }
}

pub open spec fn enc_operator_seq(s: Seq<AbstractOperatorVal>) -> Seq<u8> {
    enc_u32(s.len() as u32) + enc_operator_items(s)
}

pub open spec fn dec_operator_items(s: Seq<u8>, pos: int, n: int) -> Option<(
    Seq<AbstractOperatorVal>,
    int,
)>
    decreases n,
{
    if n <= 0 {
        Some((Seq::empty(), pos))
    } else {
        match dec_operator(s, pos) {
            Some((v, p)) => match dec_operator_items(s, p, n - 1) {
                Some((rest, p2)) => Some((seq![v] + rest, p2)),
                None => None,
            },
            None => None,
        }
    }
}

pub open spec fn dec_operator_seq(s: Seq<u8>, pos: int) -> Option<(
    Seq<AbstractOperatorVal>,
    int,
)> {
    match dec_u32(s, pos) {
        Some((n, p)) => dec_operator_items(s, p, n as int),
        None => None,
    }
}

pub open spec fn enc_stream_items(s: Seq<AbstractStreamVal>) -> Seq<u8>
    decreases s.len(),
{
    if s.len() == 0 {
        Seq::empty()
    } else {
        enc_stream(s[0]) + enc_stream_items(s.skip(1))
    }
}

pub open spec fn enc_stream_seq(s: Seq<AbstractStreamVal>) -> Seq<u8> {
    enc_u32(s.len() as u32) + enc_stream_items(s)
}

pub open spec fn dec_stream_items(s: Seq<u8>, pos: int, n: int) -> Option<(
    Seq<AbstractStreamVal>,
    int,
)>
    decreases n,
{
    if n <= 0 {
        Some((Seq::empty(), pos))
    } else {
        match dec_stream(s, pos) {
            Some((v, p)) => match dec_stream_items(s, p, n - 1) {
                Some((rest, p2)) => Some((seq![v] + rest, p2)),
                None => None,
            },
            None => None,
        }
    }
}

pub open spec fn dec_stream_seq(s: Seq<u8>, pos: int) -> Option<(Seq<AbstractStreamVal>, int)> {
    match dec_u32(s, pos) {
        Some((n, p)) => dec_stream_items(s, p, n as int),
        None => None,
    }
}

pub open spec fn enc_graph(g: JobGraphVal) -> Seq<u8> {
    enc_uuid(g.id.0) + enc_bytes(g.name) + enc_operator_seq(g.operators)
        + enc_stream_seq(g.streams)
}

pub open spec fn dec_graph(s: Seq<u8>, pos: int) -> Option<(JobGraphVal, int)> {
    match dec_uuid(s, pos) {
        Some((gid, p1)) => match dec_bytes(s, p1) {
            Some((name, p2)) => match dec_operator_seq(s, p2) {
                Some((operators, p3)) => match dec_stream_seq(s, p3) {
                    Some((streams, p4)) => Some((
                        JobGraphVal { id: JobGraphId(gid), name, operators, streams },
                        p4,
                    )),
                    None => None,
                },
                None => None,
            },
            None => None,
        },
        None => None,
    }
}

pub open spec fn enc_assignment_items(s: Seq<(Job, WorkerAddress)>) -> Seq<u8>
    decreases s.len(),
{
    if s.len() == 0 {
        Seq::empty()
    } else {
        enc_job(s[0].0) + enc_addr(s[0].1) + enc_assignment_items(s.skip(1))
    }
}

pub open spec fn enc_assignment_seq(s: Seq<(Job, WorkerAddress)>) -> Seq<u8> {
    enc_u32(s.len() as u32) + enc_assignment_items(s)
}

pub open spec fn dec_assignment_items(s: Seq<u8>, pos: int, n: int) -> Option<(
    Seq<(Job, WorkerAddress)>,
    int,
)>
    decreases n,
{
    if n <= 0 {
        Some((Seq::empty(), pos))
    } else {
        match dec_job(s, pos) {
            Some((j, p)) => match dec_addr(s, p) {
                Some((a, p2)) => match dec_assignment_items(s, p2, n - 1) {
                    Some((rest, p3)) => Some((seq![(j, a)] + rest, p3)),
                    None => None,
                },
                None => None,
            },
            None => None,
        }
    }
}

pub open spec fn dec_assignment_seq(s: Seq<u8>, pos: int) -> Option<(
    Seq<(Job, WorkerAddress)>,
    int,
)> {
    match dec_u32(s, pos) {
        Some((n, p)) => dec_assignment_items(s, p, n as int),
        None => None,
    }
}

pub open spec fn enc_worker_notification(m: WorkerNotificationVal) -> Seq<u8> {
    match m {
        WorkerNotificationVal::Initialized(w) => seq![0u8] + enc_worker_state(w),
        WorkerNotificationVal::SubmitGraph(gid, g) => seq![1u8] + enc_uuid(gid.0) + enc_graph(g),
        WorkerNotificationVal::JobReady(gid, j) => seq![2u8] + enc_uuid(gid.0) + enc_job(j),
        WorkerNotificationVal::Shutdown => seq![3u8],
    }
}

pub open spec fn dec_worker_notification(s: Seq<u8>, pos: int) -> Option<(
    WorkerNotificationVal,
    int,
)> {
    match dec_u8(s, pos) {
        Some((tag, p)) => if tag == 0 {
            match dec_worker_state(s, p) {
                Some((w, p2)) => Some((WorkerNotificationVal::Initialized(w), p2)),
                None => None,
            }
        } else if tag == 1 {
            match dec_uuid(s, p) {
                Some((gid, p2)) => match dec_graph(s, p2) {
                    Some((g, p3)) => Some((
                        WorkerNotificationVal::SubmitGraph(JobGraphId(gid), g),
                        p3,
                    )),
                    None => None,
                },
                None => None,
            }
        } else if tag == 2 {
            match dec_uuid(s, p) {
                Some((gid, p2)) => match dec_job(s, p2) {
                    Some((j, p3)) => Some((
                        WorkerNotificationVal::JobReady(JobGraphId(gid), j),
                        p3,
                    )),
                    None => None,
                },
                None => None,
            }
        } else if tag == 3 {
            Some((WorkerNotificationVal::Shutdown, p))
        } else {
            None
        },
        None => None,
    }
}

pub open spec fn enc_leader_notification(m: LeaderNotificationVal) -> Seq<u8> {
    match m {
        LeaderNotificationVal::ScheduleJob(gid, j, addrs) => seq![0u8] + enc_uuid(gid.0)
            + enc_job(j) + enc_assignment_seq(addrs),
        LeaderNotificationVal::ExecuteGraph(gid) => seq![1u8] + enc_uuid(gid.0),
        LeaderNotificationVal::Shutdown => seq![2u8],
    }
}

pub open spec fn dec_leader_notification(s: Seq<u8>, pos: int) -> Option<(
    LeaderNotificationVal,
    int,
)> {
    match dec_u8(s, pos) {
        Some((tag, p)) => if tag == 0 {
            match dec_uuid(s, p) {
                Some((gid, p2)) => match dec_job(s, p2) {
                    Some((j, p3)) => match dec_assignment_seq(s, p3) {
                        Some((addrs, p4)) => Some((
                            LeaderNotificationVal::ScheduleJob(JobGraphId(gid), j, addrs),
                            p4,
                        )),
                        None => None,
                    },
                    None => None,
                },
                None => None,
            }
        } else if tag == 1 {
            match dec_uuid(s, p) {
                Some((gid, p2)) => Some((
                    LeaderNotificationVal::ExecuteGraph(JobGraphId(gid)),
                    p2,
                )),
                None => None,
            }
        } else if tag == 2 {
            Some((LeaderNotificationVal::Shutdown, p))
        } else {
            None
        },
        None => None,
    }
}

// ------------------------------------------------------------------
// What fits on the wire: every length prefix must fit in 32 bits.
// ------------------------------------------------------------------

pub open spec fn encodable_config(c: OperatorConfigVal) -> bool {
    match c.name {
        Some(n) => n.len() <= u32::MAX,
        None => true,
    }
}

pub open spec fn encodable_operator(o: AbstractOperatorVal) -> bool {
    &&& encodable_config(o.config)
    &&& o.read_streams.len() <= u32::MAX
    &&& o.write_streams.len() <= u32::MAX
}

pub open spec fn encodable_stream(st: AbstractStreamVal) -> bool {
    &&& st.name.len() <= u32::MAX
    &&& st.destinations.len() <= u32::MAX
}

pub open spec fn encodable_graph(g: JobGraphVal) -> bool {
    &&& g.name.len() <= u32::MAX
    &&& g.operators.len() <= u32::MAX
    &&& g.streams.len() <= u32::MAX
    &&& forall|i: int| 0 <= i < g.operators.len() ==> encodable_operator(#[trigger] g.operators[i])
    &&& forall|i: int| 0 <= i < g.streams.len() ==> encodable_stream(#[trigger] g.streams[i])
}

pub open spec fn encodable_worker_notification(m: WorkerNotificationVal) -> bool {
    match m {
        WorkerNotificationVal::SubmitGraph(_, g) => encodable_graph(g),
        _ => true,
    }
}

pub open spec fn encodable_leader_notification(m: LeaderNotificationVal) -> bool {
    match m {
        LeaderNotificationVal::ScheduleJob(_, _, addrs) => addrs.len() <= u32::MAX,
        _ => true,
    }
}

// ------------------------------------------------------------------
// Round-trip lemmas: decoding an encoding yields the value back.
// ------------------------------------------------------------------

pub proof fn lemma_dec_enc_bool(s: Seq<u8>, pos: int, b: bool)
    requires
        0 <= pos,
        pos + 1 <= s.len(),
        s.subrange(pos, pos + 1) == enc_bool(b),
    ensures
        dec_bool(s, pos) == Some((b, pos + 1)),
{
    if b {
        lemma_dec_enc_u8(s, pos, 1u8);
    } else {
        lemma_dec_enc_u8(s, pos, 0u8);
    }
}

pub proof fn lemma_dec_enc_opt_uuid(s: Seq<u8>, pos: int, o: Option<Uuid>)
    requires
        0 <= pos,
        pos + enc_opt_uuid(o).len() <= s.len(),
        s.subrange(pos, pos + enc_opt_uuid(o).len()) == enc_opt_uuid(o),
    ensures
        dec_opt_uuid(s, pos) == Some((o, pos + enc_opt_uuid(o).len())),
{
    match o {
        None => {
            lemma_dec_enc_u8(s, pos, 0u8);
        }
        Some(u) => {
            lemma_subrange_parts(s, pos, seq![1u8], enc_uuid(u));
            lemma_dec_enc_u8(s, pos, 1u8);
            lemma_dec_enc_uuid(s, pos + 1, u);
        }
    }
}

pub proof fn lemma_dec_enc_opt_bytes(s: Seq<u8>, pos: int, o: Option<Seq<u8>>)
    requires
        0 <= pos,
        (o matches Some(b) ==> b.len() <= u32::MAX),
        pos + enc_opt_bytes(o).len() <= s.len(),
        s.subrange(pos, pos + enc_opt_bytes(o).len()) == enc_opt_bytes(o),
    ensures
        dec_opt_bytes(s, pos) == Some((o, pos + enc_opt_bytes(o).len())),
{
    match o {
        None => {
            lemma_dec_enc_u8(s, pos, 0u8);
        }
        Some(b) => {
            lemma_subrange_parts(s, pos, seq![1u8], enc_bytes(b));
            lemma_dec_enc_u8(s, pos, 1u8);
            lemma_dec_enc_bytes(s, pos + 1, b);
        }
    }
}

pub proof fn lemma_dec_enc_opt_job(s: Seq<u8>, pos: int, o: Option<Job>)
    requires
        0 <= pos,
        pos + enc_opt_job(o).len() <= s.len(),
        s.subrange(pos, pos + enc_opt_job(o).len()) == enc_opt_job(o),
    ensures
        dec_opt_job(s, pos) == Some((o, pos + enc_opt_job(o).len())),
{
    match o {
        None => {
            lemma_dec_enc_u8(s, pos, 0u8);
        }
        Some(j) => {
            lemma_subrange_parts(s, pos, seq![1u8], enc_job(j));
            lemma_dec_enc_u8(s, pos, 1u8);
            lemma_dec_enc_job(s, pos + 1, j);
        }
    }
}

pub proof fn lemma_dec_enc_op_type(s: Seq<u8>, pos: int, t: AbstractOperatorType)
    requires
        0 <= pos,
        pos + 1 <= s.len(),
        s.subrange(pos, pos + 1) == enc_op_type(t),
    ensures
        dec_op_type(s, pos) == Some((t, pos + 1)),
{
    lemma_dec_enc_u8(s, pos, op_type_tag(t));
    assert(op_type_of_tag(op_type_tag(t)) == Some(t));
}

pub proof fn lemma_dec_enc_config(s: Seq<u8>, pos: int, c: OperatorConfigVal)
    requires
        0 <= pos,
        encodable_config(c),
        pos + enc_config(c).len() <= s.len(),
        s.subrange(pos, pos + enc_config(c).len()) == enc_config(c),
    ensures
        dec_config(s, pos) == Some((c, pos + enc_config(c).len())),
{
    let e1 = enc_opt_bytes(c.name);
    let e2 = enc_opt_uuid(c.worker);
    let e3 = enc_bool(c.flow_watermarks);
    assert(enc_config(c) == e1 + (e2 + e3)) by {
        assert(e1 + e2 + e3 =~= e1 + (e2 + e3));
    }
    lemma_subrange_parts(s, pos, e1, e2 + e3);
    lemma_subrange_parts(s, pos + e1.len(), e2, e3);
    lemma_dec_enc_opt_bytes(s, pos, c.name);
    lemma_dec_enc_opt_uuid(s, pos + e1.len(), c.worker);
    lemma_dec_enc_bool(s, pos + e1.len() + e2.len(), c.flow_watermarks);
}

pub proof fn lemma_dec_enc_uuid_items(s: Seq<u8>, pos: int, v: Seq<Uuid>)
    requires
        0 <= pos,
        pos + enc_uuid_items(v).len() <= s.len(),
        s.subrange(pos, pos + enc_uuid_items(v).len()) == enc_uuid_items(v),
    ensures
        dec_uuid_items(s, pos, v.len() as int) == Some((v, pos + enc_uuid_items(v).len())),
    decreases v.len(),
{
    if v.len() == 0 {
        assert(v =~= Seq::<Uuid>::empty());
    } else {
        let head = enc_uuid(v[0]);
        let tail = enc_uuid_items(v.skip(1));
        assert(enc_uuid_items(v) == head + tail);
        lemma_subrange_parts(s, pos, head, tail);
        lemma_dec_enc_uuid(s, pos, v[0]);
        lemma_dec_enc_uuid_items(s, pos + head.len(), v.skip(1));
        assert(seq![v[0]] + v.skip(1) =~= v);
    }
}

pub proof fn lemma_dec_enc_uuid_seq(s: Seq<u8>, pos: int, v: Seq<Uuid>)
    requires
        0 <= pos,
        v.len() <= u32::MAX,
        pos + enc_uuid_seq(v).len() <= s.len(),
        s.subrange(pos, pos + enc_uuid_seq(v).len()) == enc_uuid_seq(v),
    ensures
        dec_uuid_seq(s, pos) == Some((v, pos + enc_uuid_seq(v).len())),
{
    lemma_subrange_parts(s, pos, enc_u32(v.len() as u32), enc_uuid_items(v));
    lemma_dec_enc_u32(s, pos, v.len() as u32);
    lemma_dec_enc_uuid_items(s, pos + 4, v);
    assert((v.len() as u32) as int == v.len());
}

pub proof fn lemma_dec_enc_job_items(s: Seq<u8>, pos: int, v: Seq<Job>)
    requires
        0 <= pos,
        pos + enc_job_items(v).len() <= s.len(),
        s.subrange(pos, pos + enc_job_items(v).len()) == enc_job_items(v),
    ensures
        dec_job_items(s, pos, v.len() as int) == Some((v, pos + enc_job_items(v).len())),
    decreases v.len(),
{
    if v.len() == 0 {
        assert(v =~= Seq::<Job>::empty());
    } else {
        let head = enc_job(v[0]);
        let tail = enc_job_items(v.skip(1));
        assert(enc_job_items(v) == head + tail);
        lemma_subrange_parts(s, pos, head, tail);
        lemma_dec_enc_job(s, pos, v[0]);
        lemma_dec_enc_job_items(s, pos + head.len(), v.skip(1));
        assert(seq![v[0]] + v.skip(1) =~= v);
    }
}

pub proof fn lemma_dec_enc_job_seq(s: Seq<u8>, pos: int, v: Seq<Job>)
    requires
        0 <= pos,
        v.len() <= u32::MAX,
        pos + enc_job_seq(v).len() <= s.len(),
        s.subrange(pos, pos + enc_job_seq(v).len()) == enc_job_seq(v),
    ensures
        dec_job_seq(s, pos) == Some((v, pos + enc_job_seq(v).len())),
{
    lemma_subrange_parts(s, pos, enc_u32(v.len() as u32), enc_job_items(v));
    lemma_dec_enc_u32(s, pos, v.len() as u32);
    lemma_dec_enc_job_items(s, pos + 4, v);
    assert((v.len() as u32) as int == v.len());
}

pub proof fn lemma_dec_enc_operator(s: Seq<u8>, pos: int, o: AbstractOperatorVal)
    requires
        0 <= pos,
        encodable_operator(o),
        pos + enc_operator(o).len() <= s.len(),
        s.subrange(pos, pos + enc_operator(o).len()) == enc_operator(o),
    ensures
        dec_operator(s, pos) == Some((o, pos + enc_operator(o).len())),
{
    let e1 = enc_uuid(o.id);
    let e2 = enc_config(o.config);
    let e3 = enc_uuid_seq(o.read_streams);
    let e4 = enc_uuid_seq(o.write_streams);
    let e5 = enc_op_type(o.operator_type);
    assert(enc_operator(o) == e1 + (e2 + (e3 + (e4 + e5)))) by {
        assert(e1 + e2 + e3 + e4 + e5 =~= e1 + (e2 + (e3 + (e4 + e5))));
    }
    lemma_subrange_parts(s, pos, e1, e2 + (e3 + (e4 + e5)));
    lemma_subrange_parts(s, pos + e1.len(), e2, e3 + (e4 + e5));
    lemma_subrange_parts(s, pos + e1.len() + e2.len(), e3, e4 + e5);
    lemma_subrange_parts(s, pos + e1.len() + e2.len() + e3.len(), e4, e5);
    lemma_dec_enc_uuid(s, pos, o.id);
    lemma_dec_enc_config(s, pos + e1.len(), o.config);
    lemma_dec_enc_uuid_seq(s, pos + e1.len() + e2.len(), o.read_streams);
    lemma_dec_enc_uuid_seq(s, pos + e1.len() + e2.len() + e3.len(), o.write_streams);
    lemma_dec_enc_op_type(s, pos + e1.len() + e2.len() + e3.len() + e4.len(), o.operator_type);
}

pub proof fn lemma_dec_enc_stream(s: Seq<u8>, pos: int, st: AbstractStreamVal)
    requires
        0 <= pos,
        encodable_stream(st),
        pos + enc_stream(st).len() <= s.len(),
        s.subrange(pos, pos + enc_stream(st).len()) == enc_stream(st),
    ensures
        dec_stream(s, pos) == Some((st, pos + enc_stream(st).len())),
{
    let e1 = enc_uuid(st.id);
    let e2 = enc_bytes(st.name);
    let e3 = enc_opt_job(st.source);
    let e4 = enc_job_seq(st.destinations);
    assert(enc_stream(st) == e1 + (e2 + (e3 + e4))) by {
        assert(e1 + e2 + e3 + e4 =~= e1 + (e2 + (e3 + e4)));
    }
    lemma_subrange_parts(s, pos, e1, e2 + (e3 + e4));
    lemma_subrange_parts(s, pos + e1.len(), e2, e3 + e4);
    lemma_subrange_parts(s, pos + e1.len() + e2.len(), e3, e4);
    lemma_dec_enc_uuid(s, pos, st.id);
    lemma_dec_enc_bytes(s, pos + e1.len(), st.name);
    lemma_dec_enc_opt_job(s, pos + e1.len() + e2.len(), st.source);
    lemma_dec_enc_job_seq(s, pos + e1.len() + e2.len() + e3.len(), st.destinations);
}

pub proof fn lemma_dec_enc_operator_items(s: Seq<u8>, pos: int, v: Seq<AbstractOperatorVal>)
    requires
        0 <= pos,
        forall|i: int| 0 <= i < v.len() ==> encodable_operator(#[trigger] v[i]),
        pos + enc_operator_items(v).len() <= s.len(),
        s.subrange(pos, pos + enc_operator_items(v).len()) == enc_operator_items(v),
    ensures
        dec_operator_items(s, pos, v.len() as int)
            == Some((v, pos + enc_operator_items(v).len())),
    decreases v.len(),
{
    if v.len() == 0 {
        assert(v =~= Seq::<AbstractOperatorVal>::empty());
    } else {
        let head = enc_operator(v[0]);
        let tail = enc_operator_items(v.skip(1));
        assert(enc_operator_items(v) == head + tail);
        lemma_subrange_parts(s, pos, head, tail);
        lemma_dec_enc_operator(s, pos, v[0]);
        assert(forall|i: int| 0 <= i < v.skip(1).len()
            ==> encodable_operator(#[trigger] v.skip(1)[i]));
        lemma_dec_enc_operator_items(s, pos + head.len(), v.skip(1));
        assert(seq![v[0]] + v.skip(1) =~= v);
    }
}

pub proof fn lemma_dec_enc_operator_seq(s: Seq<u8>, pos: int, v: Seq<AbstractOperatorVal>)
    requires
        0 <= pos,
        v.len() <= u32::MAX,
        forall|i: int| 0 <= i < v.len() ==> encodable_operator(#[trigger] v[i]),
        pos + enc_operator_seq(v).len() <= s.len(),
        s.subrange(pos, pos + enc_operator_seq(v).len()) == enc_operator_seq(v),
    ensures
        dec_operator_seq(s, pos) == Some((v, pos + enc_operator_seq(v).len())),
{
    lemma_subrange_parts(s, pos, enc_u32(v.len() as u32), enc_operator_items(v));
    lemma_dec_enc_u32(s, pos, v.len() as u32);
    lemma_dec_enc_operator_items(s, pos + 4, v);
    assert((v.len() as u32) as int == v.len());
}

pub proof fn lemma_dec_enc_stream_items(s: Seq<u8>, pos: int, v: Seq<AbstractStreamVal>)
    requires
        0 <= pos,
        forall|i: int| 0 <= i < v.len() ==> encodable_stream(#[trigger] v[i]),
        pos + enc_stream_items(v).len() <= s.len(),
        s.subrange(pos, pos + enc_stream_items(v).len()) == enc_stream_items(v),
    ensures
        dec_stream_items(s, pos, v.len() as int) == Some((v, pos + enc_stream_items(v).len())),
    decreases v.len(),
{
    if v.len() == 0 {
        assert(v =~= Seq::<AbstractStreamVal>::empty());
    } else {
        let head = enc_stream(v[0]);
        let tail = enc_stream_items(v.skip(1));
        assert(enc_stream_items(v) == head + tail);
        lemma_subrange_parts(s, pos, head, tail);
        lemma_dec_enc_stream(s, pos, v[0]);
        assert(forall|i: int| 0 <= i < v.skip(1).len()
            ==> encodable_stream(#[trigger] v.skip(1)[i]));
        lemma_dec_enc_stream_items(s, pos + head.len(), v.skip(1));
        assert(seq![v[0]] + v.skip(1) =~= v);
    }
}

pub proof fn lemma_dec_enc_stream_seq(s: Seq<u8>, pos: int, v: Seq<AbstractStreamVal>)
    requires
        0 <= pos,
        v.len() <= u32::MAX,
        forall|i: int| 0 <= i < v.len() ==> encodable_stream(#[trigger] v[i]),
        pos + enc_stream_seq(v).len() <= s.len(),
        s.subrange(pos, pos + enc_stream_seq(v).len()) == enc_stream_seq(v),
    ensures
        dec_stream_seq(s, pos) == Some((v, pos + enc_stream_seq(v).len())),
{
    lemma_subrange_parts(s, pos, enc_u32(v.len() as u32), enc_stream_items(v));
    lemma_dec_enc_u32(s, pos, v.len() as u32);
    lemma_dec_enc_stream_items(s, pos + 4, v);
    assert((v.len() as u32) as int == v.len());
}

#[verifier::rlimit(100)]
pub proof fn lemma_dec_enc_graph(s: Seq<u8>, pos: int, g: JobGraphVal)
    requires
        0 <= pos,
        encodable_graph(g),
        pos + enc_graph(g).len() <= s.len(),
        s.subrange(pos, pos + enc_graph(g).len()) == enc_graph(g),
    ensures
        dec_graph(s, pos) == Some((g, pos + enc_graph(g).len())),
{
    let e1 = enc_uuid(g.id.0);
    let e2 = enc_bytes(g.name);
    let e3 = enc_operator_seq(g.operators);
    let e4 = enc_stream_seq(g.streams);
    assert(enc_graph(g) == e1 + (e2 + (e3 + e4))) by {
        assert(e1 + e2 + e3 + e4 =~= e1 + (e2 + (e3 + e4)));
    }
    lemma_subrange_parts(s, pos, e1, e2 + (e3 + e4));
    lemma_subrange_parts(s, pos + e1.len(), e2, e3 + e4);
    lemma_subrange_parts(s, pos + e1.len() + e2.len(), e3, e4);
    lemma_dec_enc_uuid(s, pos, g.id.0);
    lemma_dec_enc_bytes(s, pos + e1.len(), g.name);
    lemma_dec_enc_operator_seq(s, pos + e1.len() + e2.len(), g.operators);
    lemma_dec_enc_stream_seq(s, pos + e1.len() + e2.len() + e3.len(), g.streams);
    assert(JobGraphId(g.id.0) == g.id);
}

pub proof fn lemma_dec_enc_assignment_items(s: Seq<u8>, pos: int, v: Seq<(Job, WorkerAddress)>)
    requires
        0 <= pos,
        pos + enc_assignment_items(v).len() <= s.len(),
        s.subrange(pos, pos + enc_assignment_items(v).len()) == enc_assignment_items(v),
    ensures
        dec_assignment_items(s, pos, v.len() as int)
            == Some((v, pos + enc_assignment_items(v).len())),
    decreases v.len(),
{
    if v.len() == 0 {
        assert(v =~= Seq::<(Job, WorkerAddress)>::empty());
    } else {
        let h1 = enc_job(v[0].0);
        let h2 = enc_addr(v[0].1);
        let tail = enc_assignment_items(v.skip(1));
        assert(enc_assignment_items(v) == h1 + (h2 + tail)) by {
            assert(h1 + h2 + tail =~= h1 + (h2 + tail));
        }
        lemma_subrange_parts(s, pos, h1, h2 + tail);
        lemma_subrange_parts(s, pos + h1.len(), h2, tail);
        lemma_dec_enc_job(s, pos, v[0].0);
        lemma_dec_enc_addr(s, pos + h1.len(), v[0].1);
        lemma_dec_enc_assignment_items(s, pos + h1.len() + h2.len(), v.skip(1));
        assert(seq![(v[0].0, v[0].1)] + v.skip(1) =~= v);
    }
}

pub proof fn lemma_dec_enc_assignment_seq(s: Seq<u8>, pos: int, v: Seq<(Job, WorkerAddress)>)
    requires
        0 <= pos,
        v.len() <= u32::MAX,
        pos + enc_assignment_seq(v).len() <= s.len(),
        s.subrange(pos, pos + enc_assignment_seq(v).len()) == enc_assignment_seq(v),
    ensures
        dec_assignment_seq(s, pos) == Some((v, pos + enc_assignment_seq(v).len())),
{
    lemma_subrange_parts(s, pos, enc_u32(v.len() as u32), enc_assignment_items(v));
    lemma_dec_enc_u32(s, pos, v.len() as u32);
    lemma_dec_enc_assignment_items(s, pos + 4, v);
    assert((v.len() as u32) as int == v.len());
}

#[verifier::rlimit(100)]
pub proof fn lemma_dec_enc_worker_notification(s: Seq<u8>, pos: int, m: WorkerNotificationVal)
    requires
        0 <= pos,
        encodable_worker_notification(m),
        pos + enc_worker_notification(m).len() <= s.len(),
        s.subrange(pos, pos + enc_worker_notification(m).len()) == enc_worker_notification(m),
    ensures
        dec_worker_notification(s, pos) == Some((m, pos + enc_worker_notification(m).len())),
{
    match m {
        WorkerNotificationVal::Initialized(w) => {
            lemma_subrange_parts(s, pos, seq![0u8], enc_worker_state(w));
            lemma_dec_enc_u8(s, pos, 0u8);
            lemma_dec_enc_worker_state(s, pos + 1, w);
        }
        WorkerNotificationVal::SubmitGraph(gid, g) => {
            let e1 = enc_uuid(gid.0);
            let e2 = enc_graph(g);
            assert(enc_worker_notification(m) == seq![1u8] + (e1 + e2)) by {
                assert(seq![1u8] + e1 + e2 =~= seq![1u8] + (e1 + e2));
            }
            lemma_subrange_parts(s, pos, seq![1u8], e1 + e2);
            lemma_subrange_parts(s, pos + 1, e1, e2);
            lemma_dec_enc_u8(s, pos, 1u8);
            lemma_dec_enc_uuid(s, pos + 1, gid.0);
            lemma_dec_enc_graph(s, pos + 1 + e1.len(), g);
            assert(JobGraphId(gid.0) == gid);
        }
        WorkerNotificationVal::JobReady(gid, j) => {
            let e1 = enc_uuid(gid.0);
            let e2 = enc_job(j);
            assert(enc_worker_notification(m) == seq![2u8] + (e1 + e2)) by {
                assert(seq![2u8] + e1 + e2 =~= seq![2u8] + (e1 + e2));
            }
            lemma_subrange_parts(s, pos, seq![2u8], e1 + e2);
            lemma_subrange_parts(s, pos + 1, e1, e2);
            lemma_dec_enc_u8(s, pos, 2u8);
            lemma_dec_enc_uuid(s, pos + 1, gid.0);
            lemma_dec_enc_job(s, pos + 1 + e1.len(), j);
            assert(JobGraphId(gid.0) == gid);
        }
        WorkerNotificationVal::Shutdown => {
            lemma_dec_enc_u8(s, pos, 3u8);
        }
    }
}

pub proof fn lemma_dec_enc_leader_notification(s: Seq<u8>, pos: int, m: LeaderNotificationVal)
    requires
        0 <= pos,
        encodable_leader_notification(m),
        pos + enc_leader_notification(m).len() <= s.len(),
        s.subrange(pos, pos + enc_leader_notification(m).len()) == enc_leader_notification(m),
    ensures
        dec_leader_notification(s, pos) == Some((m, pos + enc_leader_notification(m).len())),
{
    match m {
        LeaderNotificationVal::ScheduleJob(gid, j, addrs) => {
            let e1 = enc_uuid(gid.0);
            let e2 = enc_job(j);
            let e3 = enc_assignment_seq(addrs);
            assert(enc_leader_notification(m) == seq![0u8] + (e1 + (e2 + e3))) by {
                assert(seq![0u8] + e1 + e2 + e3 =~= seq![0u8] + (e1 + (e2 + e3)));
            }
            lemma_subrange_parts(s, pos, seq![0u8], e1 + (e2 + e3));
            lemma_subrange_parts(s, pos + 1, e1, e2 + e3);
            lemma_subrange_parts(s, pos + 1 + e1.len(), e2, e3);
            lemma_dec_enc_u8(s, pos, 0u8);
            lemma_dec_enc_uuid(s, pos + 1, gid.0);
            lemma_dec_enc_job(s, pos + 1 + e1.len(), j);
            lemma_dec_enc_assignment_seq(s, pos + 1 + e1.len() + e2.len(), addrs);
            assert(JobGraphId(gid.0) == gid);
        }
        LeaderNotificationVal::ExecuteGraph(gid) => {
            lemma_subrange_parts(s, pos, seq![1u8], enc_uuid(gid.0));
            lemma_dec_enc_u8(s, pos, 1u8);
            lemma_dec_enc_uuid(s, pos + 1, gid.0);
            assert(JobGraphId(gid.0) == gid);
        }
        LeaderNotificationVal::Shutdown => {
            lemma_dec_enc_u8(s, pos, 2u8);
        }
    }
}

/// Decoding an encoded worker notification yields the notification back,
/// whatever follows it in the buffer.
pub proof fn lemma_worker_notification_round_trip(m: WorkerNotificationVal, rest: Seq<u8>)
    requires
        encodable_worker_notification(m),
    ensures
        dec_worker_notification(enc_worker_notification(m) + rest, 0)
            == Some((m, enc_worker_notification(m).len() as int)),
{
    let s = enc_worker_notification(m) + rest;
    assert(s.subrange(0, enc_worker_notification(m).len() as int)
        =~= enc_worker_notification(m));
    lemma_dec_enc_worker_notification(s, 0, m);
}

/// Decoding an encoded leader notification yields the notification back,
/// whatever follows it in the buffer.
pub proof fn lemma_leader_notification_round_trip(m: LeaderNotificationVal, rest: Seq<u8>)
    requires
        encodable_leader_notification(m),
    ensures
        dec_leader_notification(enc_leader_notification(m) + rest, 0)
            == Some((m, enc_leader_notification(m).len() as int)),
{
    let s = enc_leader_notification(m) + rest;
    assert(s.subrange(0, enc_leader_notification(m).len() as int)
        =~= enc_leader_notification(m));
    lemma_dec_enc_leader_notification(s, 0, m);
}

// ------------------------------------------------------------------
// Executable encoders.
// ------------------------------------------------------------------

pub fn write_bool(out: &mut Vec<u8>, b: bool)
    ensures
        final(out)@ == old(out)@ + enc_bool(b),
{
    if b {
        write_u8(out, 1);
    } else {
        write_u8(out, 0);
    }
}

pub fn write_opt_uuid(out: &mut Vec<u8>, o: &Option<Uuid>)
    ensures
        final(out)@ == old(out)@ + enc_opt_uuid(*o),
{
    match o {
        None => {
            write_u8(out, 0);
        }
        Some(u) => {
            write_u8(out, 1);
            write_uuid(out, u);
        }
    }
    proof {
        assert(final(out)@ =~= old(out)@ + enc_opt_uuid(*o));
    }
}

pub open spec fn opt_bytes_view(o: Option<Vec<u8>>) -> Option<Seq<u8>> {
    match o {
        None => None,
        Some(b) => Some(b@),
    }
}

pub fn write_opt_bytes(out: &mut Vec<u8>, o: &Option<Vec<u8>>)
    requires
        (opt_bytes_view(*o) matches Some(b) ==> b.len() <= u32::MAX),
    ensures
        final(out)@ == old(out)@ + enc_opt_bytes(opt_bytes_view(*o)),
{
    match o {
        None => {
            write_u8(out, 0);
        }
        Some(b) => {
            write_u8(out, 1);
            let ok = write_bytes(out, b);
            proof {
                assert(ok);
            }
        }
    }
    proof {
        assert(final(out)@ =~= old(out)@ + enc_opt_bytes(opt_bytes_view(*o)));
    }
}

pub fn write_opt_job(out: &mut Vec<u8>, o: &Option<Job>)
    ensures
        final(out)@ == old(out)@ + enc_opt_job(*o),
{
    match o {
        None => {
            write_u8(out, 0);
        }
        Some(j) => {
            write_u8(out, 1);
            write_job(out, j);
        }
    }
    proof {
        assert(final(out)@ =~= old(out)@ + enc_opt_job(*o));
    }
}

pub fn write_op_type(out: &mut Vec<u8>, t: AbstractOperatorType)
    ensures
        final(out)@ == old(out)@ + enc_op_type(t),
{
    let tag: u8 = match t {
        AbstractOperatorType::Source => 0,
        AbstractOperatorType::ParallelSink => 1,
        AbstractOperatorType::Sink => 2,
        AbstractOperatorType::ParallelOneInOneOut => 3,
        AbstractOperatorType::OneInOneOut => 4,
        AbstractOperatorType::ParallelTwoInOneOut => 5,
        AbstractOperatorType::TwoInOneOut => 6,
        AbstractOperatorType::ParallelOneInTwoOut => 7,
        AbstractOperatorType::OneInTwoOut => 8,
    };
    write_u8(out, tag);
}

pub fn write_config(out: &mut Vec<u8>, c: &OperatorConfig)
    requires
        encodable_config(c@),
    ensures
        final(out)@ == old(out)@ + enc_config(c@),
{
    write_opt_bytes(out, &c.name);
    write_opt_uuid(out, &c.worker);
    write_bool(out, c.flow_watermarks);
    proof {
        assert(final(out)@ =~= old(out)@ + enc_config(c@));
    }
}

proof fn lemma_enc_uuid_items_snoc(v: Seq<Uuid>, i: int)
    requires
        0 <= i < v.len(),
    ensures
        enc_uuid_items(v.subrange(0, i + 1))
            == enc_uuid_items(v.subrange(0, i)) + enc_uuid(v[i]),
    decreases i,
{
    if i == 0 {
        assert(v.subrange(0, 1) =~= seq![v[0]]);
        assert(v.subrange(0, 1).skip(1) =~= Seq::<Uuid>::empty());
        assert(v.subrange(0, 0) =~= Seq::<Uuid>::empty());
        assert(enc_uuid_items(v.subrange(0, 1))
            =~= enc_uuid_items(v.subrange(0, 0)) + enc_uuid(v[0]));
    } else {
        lemma_enc_uuid_items_snoc(v.skip(1), i - 1);
        assert(v.subrange(0, i + 1).skip(1) =~= v.skip(1).subrange(0, i));
        assert(v.subrange(0, i).skip(1) =~= v.skip(1).subrange(0, i - 1));
        assert(v.subrange(0, i + 1)[0] == v[0]);
        assert(v.subrange(0, i)[0] == v[0]);
        assert(v.skip(1)[i - 1] == v[i]);
        assert(enc_uuid_items(v.subrange(0, i + 1))
            =~= enc_uuid_items(v.subrange(0, i)) + enc_uuid(v[i]));
    }
}

#[verifier::loop_isolation(false)]
pub fn write_uuid_vec(out: &mut Vec<u8>, v: &Vec<Uuid>)
    requires
        v@.len() <= u32::MAX,
    ensures
        final(out)@ == old(out)@ + enc_uuid_seq(v@),
{
    let ghost o0 = out@;
    write_u32(out, v.len() as u32);
    let mut i: usize = 0;
    while i < v.len()
        invariant
            i <= v@.len(),
            out@ == o0 + enc_u32(v@.len() as u32) + enc_uuid_items(v@.subrange(0, i as int)),
        decreases v@.len() - i,
    {
        proof {
            lemma_enc_uuid_items_snoc(v@, i as int);
        }
        write_uuid(out, &v[i]);
        proof {
            assert(out@ =~= o0 + enc_u32(v@.len() as u32)
                + enc_uuid_items(v@.subrange(0, i + 1)));
        }
        i = i + 1;
    }
    proof {
        assert(v@.subrange(0, v@.len() as int) =~= v@);
        assert(out@ =~= o0 + enc_uuid_seq(v@));
    }
}

proof fn lemma_enc_job_items_snoc(v: Seq<Job>, i: int)
    requires
        0 <= i < v.len(),
    ensures
        enc_job_items(v.subrange(0, i + 1))
            == enc_job_items(v.subrange(0, i)) + enc_job(v[i]),
    decreases i,
{
    if i == 0 {
        assert(v.subrange(0, 1) =~= seq![v[0]]);
        assert(v.subrange(0, 1).skip(1) =~= Seq::<Job>::empty());
        assert(v.subrange(0, 0) =~= Seq::<Job>::empty());
        assert(enc_job_items(v.subrange(0, 1))
            =~= enc_job_items(v.subrange(0, 0)) + enc_job(v[0]));
    } else {
        lemma_enc_job_items_snoc(v.skip(1), i - 1);
        assert(v.subrange(0, i + 1).skip(1) =~= v.skip(1).subrange(0, i));
        assert(v.subrange(0, i).skip(1) =~= v.skip(1).subrange(0, i - 1));
        assert(v.subrange(0, i + 1)[0] == v[0]);
        assert(v.subrange(0, i)[0] == v[0]);
        assert(v.skip(1)[i - 1] == v[i]);
        assert(enc_job_items(v.subrange(0, i + 1))
            =~= enc_job_items(v.subrange(0, i)) + enc_job(v[i]));
    }
}

#[verifier::loop_isolation(false)]
pub fn write_job_vec(out: &mut Vec<u8>, v: &Vec<Job>)
    requires
        v@.len() <= u32::MAX,
    ensures
        final(out)@ == old(out)@ + enc_job_seq(v@),
{
    let ghost o0 = out@;
    write_u32(out, v.len() as u32);
    let mut i: usize = 0;
    while i < v.len()
        invariant
            i <= v@.len(),
            out@ == o0 + enc_u32(v@.len() as u32) + enc_job_items(v@.subrange(0, i as int)),
        decreases v@.len() - i,
    {
        proof {
            lemma_enc_job_items_snoc(v@, i as int);
        }
        write_job(out, &v[i]);
        proof {
            assert(out@ =~= o0 + enc_u32(v@.len() as u32)
                + enc_job_items(v@.subrange(0, i + 1)));
        }
        i = i + 1;
    }
    proof {
        assert(v@.subrange(0, v@.len() as int) =~= v@);
        assert(out@ =~= o0 + enc_job_seq(v@));
    }
}

pub fn write_operator(out: &mut Vec<u8>, op: &AbstractOperator)
    requires
        encodable_operator(op@),
    ensures
        final(out)@ == old(out)@ + enc_operator(op@),
{
    write_uuid(out, &op.id);
    write_config(out, &op.config);
    write_uuid_vec(out, &op.read_streams);
    write_uuid_vec(out, &op.write_streams);
    write_op_type(out, op.operator_type);
    proof {
        assert(final(out)@ =~= old(out)@ + enc_operator(op@));
    }
}

pub fn write_stream(out: &mut Vec<u8>, st: &AbstractStream)
    requires
        encodable_stream(st@),
    ensures
        final(out)@ == old(out)@ + enc_stream(st@),
{
    let id = st.id();
    write_uuid(out, &id);
    let name = st.name();
    let ok = write_bytes(out, &name);
    proof {
        assert(ok);
    }
    let source = st.get_source();
    write_opt_job(out, &source);
    let dests = st.get_destinations();
    write_job_vec(out, &dests);
    proof {
        assert(final(out)@ =~= old(out)@ + enc_stream(st@));
    }
}

proof fn lemma_enc_operator_items_snoc(v: Seq<AbstractOperatorVal>, i: int)
    requires
        0 <= i < v.len(),
    ensures
        enc_operator_items(v.subrange(0, i + 1))
            == enc_operator_items(v.subrange(0, i)) + enc_operator(v[i]),
    decreases i,
{
    if i == 0 {
        assert(v.subrange(0, 1) =~= seq![v[0]]);
        assert(v.subrange(0, 1).skip(1) =~= Seq::<AbstractOperatorVal>::empty());
        assert(v.subrange(0, 0) =~= Seq::<AbstractOperatorVal>::empty());
        assert(enc_operator_items(v.subrange(0, 1))
            =~= enc_operator_items(v.subrange(0, 0)) + enc_operator(v[0]));
    } else {
        lemma_enc_operator_items_snoc(v.skip(1), i - 1);
        assert(v.subrange(0, i + 1).skip(1) =~= v.skip(1).subrange(0, i));
        assert(v.subrange(0, i).skip(1) =~= v.skip(1).subrange(0, i - 1));
        assert(v.subrange(0, i + 1)[0] == v[0]);
        assert(v.subrange(0, i)[0] == v[0]);
        assert(v.skip(1)[i - 1] == v[i]);
        assert(enc_operator_items(v.subrange(0, i + 1))
            =~= enc_operator_items(v.subrange(0, i)) + enc_operator(v[i]));
    }
}

proof fn lemma_enc_stream_items_snoc(v: Seq<AbstractStreamVal>, i: int)
    requires
        0 <= i < v.len(),
    ensures
        enc_stream_items(v.subrange(0, i + 1))
            == enc_stream_items(v.subrange(0, i)) + enc_stream(v[i]),
    decreases i,
{
    if i == 0 {
        assert(v.subrange(0, 1) =~= seq![v[0]]);
        assert(v.subrange(0, 1).skip(1) =~= Seq::<AbstractStreamVal>::empty());
        assert(v.subrange(0, 0) =~= Seq::<AbstractStreamVal>::empty());
        assert(enc_stream_items(v.subrange(0, 1))
            =~= enc_stream_items(v.subrange(0, 0)) + enc_stream(v[0]));
    } else {
        lemma_enc_stream_items_snoc(v.skip(1), i - 1);
        assert(v.subrange(0, i + 1).skip(1) =~= v.skip(1).subrange(0, i));
        assert(v.subrange(0, i).skip(1) =~= v.skip(1).subrange(0, i - 1));
        assert(v.subrange(0, i + 1)[0] == v[0]);
        assert(v.subrange(0, i)[0] == v[0]);
        assert(v.skip(1)[i - 1] == v[i]);
        assert(enc_stream_items(v.subrange(0, i + 1))
            =~= enc_stream_items(v.subrange(0, i)) + enc_stream(v[i]));
    }
}

#[verifier::loop_isolation(false)]
#[verifier::rlimit(100)]
pub fn write_graph(out: &mut Vec<u8>, g: &JobGraph)
    requires
        encodable_graph(g@),
    ensures
        final(out)@ == old(out)@ + enc_graph(g@),
{
    let ghost o0 = out@;
    let gid = g.id();
    write_uuid(out, &gid.0);
    let name = g.name();
    let ok = write_bytes(out, &name);
    proof {
        assert(ok);
    }
    let ghost base_ops = o0 + enc_uuid(g@.id.0) + enc_bytes(g@.name);
    let n_ops = g.num_operators();
    write_u32(out, n_ops as u32);
    let mut i: usize = 0;
    proof {
        assert(g@.operators.subrange(0, 0) =~= Seq::<AbstractOperatorVal>::empty());
        assert(out@ =~= base_ops + enc_u32(g@.operators.len() as u32)
            + enc_operator_items(g@.operators.subrange(0, 0)));
    }
    while i < n_ops
        invariant
            i <= g@.operators.len(),
            out@ == base_ops + enc_u32(g@.operators.len() as u32)
                + enc_operator_items(g@.operators.subrange(0, i as int)),
        decreases g@.operators.len() - i,
    {
        proof {
            lemma_enc_operator_items_snoc(g@.operators, i as int);
        }
        let op = g.operator_at(i);
        write_operator(out, op);
        proof {
            assert(out@ =~= base_ops + enc_u32(g@.operators.len() as u32)
                + enc_operator_items(g@.operators.subrange(0, i + 1)));
        }
        i = i + 1;
    }
    proof {
        assert(g@.operators.subrange(0, g@.operators.len() as int) =~= g@.operators);
    }
    let ghost base_sts = base_ops + enc_operator_seq(g@.operators);
    proof {
        assert(out@ =~= base_sts);
    }
    let n_sts = g.num_streams();
    write_u32(out, n_sts as u32);
    let mut j: usize = 0;
    proof {
        assert(g@.streams.subrange(0, 0) =~= Seq::<AbstractStreamVal>::empty());
        assert(out@ =~= base_sts + enc_u32(g@.streams.len() as u32)
            + enc_stream_items(g@.streams.subrange(0, 0)));
    }
    while j < n_sts
        invariant
            j <= g@.streams.len(),
            out@ == base_sts + enc_u32(g@.streams.len() as u32)
                + enc_stream_items(g@.streams.subrange(0, j as int)),
        decreases g@.streams.len() - j,
    {
        proof {
            lemma_enc_stream_items_snoc(g@.streams, j as int);
        }
        let st = g.stream_at(j);
        write_stream(out, st);
        proof {
            assert(out@ =~= base_sts + enc_u32(g@.streams.len() as u32)
                + enc_stream_items(g@.streams.subrange(0, j + 1)));
        }
        j = j + 1;
    }
    proof {
        assert(g@.streams.subrange(0, g@.streams.len() as int) =~= g@.streams);
        assert(out@ =~= o0 + enc_graph(g@));
    }
}

proof fn lemma_enc_assignment_items_snoc(v: Seq<(Job, WorkerAddress)>, i: int)
    requires
        0 <= i < v.len(),
    ensures
        enc_assignment_items(v.subrange(0, i + 1))
            == enc_assignment_items(v.subrange(0, i)) + enc_job(v[i].0) + enc_addr(v[i].1),
    decreases i,
{
    if i == 0 {
        assert(v.subrange(0, 1) =~= seq![v[0]]);
        assert(v.subrange(0, 1).skip(1) =~= Seq::<(Job, WorkerAddress)>::empty());
        assert(v.subrange(0, 0) =~= Seq::<(Job, WorkerAddress)>::empty());
        assert(enc_assignment_items(v.subrange(0, 1))
            =~= enc_assignment_items(v.subrange(0, 0)) + enc_job(v[0].0) + enc_addr(v[0].1));
    } else {
        lemma_enc_assignment_items_snoc(v.skip(1), i - 1);
        assert(v.subrange(0, i + 1).skip(1) =~= v.skip(1).subrange(0, i));
        assert(v.subrange(0, i).skip(1) =~= v.skip(1).subrange(0, i - 1));
        assert(v.subrange(0, i + 1)[0] == v[0]);
        assert(v.subrange(0, i)[0] == v[0]);
        assert(v.skip(1)[i - 1] == v[i]);
        assert(enc_assignment_items(v.subrange(0, i + 1))
            =~= enc_assignment_items(v.subrange(0, i)) + enc_job(v[i].0) + enc_addr(v[i].1));
    }
}

#[verifier::loop_isolation(false)]
pub fn write_assignment_vec(out: &mut Vec<u8>, v: &Vec<(Job, WorkerAddress)>)
    requires
        v@.len() <= u32::MAX,
    ensures
        final(out)@ == old(out)@ + enc_assignment_seq(v@),
{
    let ghost o0 = out@;
    write_u32(out, v.len() as u32);
    let mut i: usize = 0;
    while i < v.len()
        invariant
            i <= v@.len(),
            out@ == o0 + enc_u32(v@.len() as u32)
                + enc_assignment_items(v@.subrange(0, i as int)),
        decreases v@.len() - i,
    {
        proof {
            lemma_enc_assignment_items_snoc(v@, i as int);
        }
        write_job(out, &v[i].0);
        write_addr(out, &v[i].1);
        proof {
            assert(out@ =~= o0 + enc_u32(v@.len() as u32)
                + enc_assignment_items(v@.subrange(0, i + 1)));
        }
        i = i + 1;
    }
    proof {
        assert(v@.subrange(0, v@.len() as int) =~= v@);
        assert(out@ =~= o0 + enc_assignment_seq(v@));
    }
}

/// Decides whether a graph fits on the wire: every length prefix fits 32 bits.
#[verifier::loop_isolation(false)]
pub fn graph_encodable_check(g: &JobGraph) -> (r: bool)
    ensures
        r == encodable_graph(g@),
{
    let name = g.name();
    if name.len() > u32::MAX as usize {
        return false;
    }
    if g.num_operators() > u32::MAX as usize {
        return false;
    }
    if g.num_streams() > u32::MAX as usize {
        return false;
    }
    let mut i: usize = 0;
    while i < g.num_operators()
        invariant
            i <= g@.operators.len(),
            forall|j: int| 0 <= j < i ==> encodable_operator(#[trigger] g@.operators[j]),
        decreases g@.operators.len() - i,
    {
        let op = g.operator_at(i);
        match &op.config.name {
            Some(n) => {
                if n.len() > u32::MAX as usize {
                    return false;
                }
            }
            None => {}
        }
        if op.read_streams.len() > u32::MAX as usize {
            return false;
        }
        if op.write_streams.len() > u32::MAX as usize {
            return false;
        }
        i = i + 1;
    }
    let mut j: usize = 0;
    while j < g.num_streams()
        invariant
            j <= g@.streams.len(),
            forall|k: int| 0 <= k < j ==> encodable_stream(#[trigger] g@.streams[k]),
        decreases g@.streams.len() - j,
    {
        let st = g.stream_at(j);
        let st_name = st.name();
        if st_name.len() > u32::MAX as usize {
            return false;
        }
        let dests = st.get_destinations();
        if dests.len() > u32::MAX as usize {
            return false;
        }
        j = j + 1;
    }
    true
}

/// Encodes a worker notification; yields the bytes exactly when every length
/// in the message fits its 32-bit wire prefix.
pub fn encode_worker_notification(m: &WorkerNotification) -> (r: Option<Vec<u8>>)
    ensures
        match r {
            Some(bytes) => encodable_worker_notification(m@)
                && bytes@ == enc_worker_notification(m@),
            None => !encodable_worker_notification(m@),
        },
{
    let mut out: Vec<u8> = Vec::new();
    match m {
        WorkerNotification::Initialized(w) => {
            write_u8(&mut out, 0);
            write_worker_state(&mut out, w);
            proof {
                assert(out@ =~= enc_worker_notification(m@));
            }
            Some(out)
        }
        WorkerNotification::SubmitGraph(gid, g) => {
            if !graph_encodable_check(g) {
                return None;
            }
            write_u8(&mut out, 1);
            write_uuid(&mut out, &gid.0);
            write_graph(&mut out, g);
            proof {
                assert(out@ =~= enc_worker_notification(m@));
            }
            Some(out)
        }
        WorkerNotification::JobReady(gid, j) => {
            write_u8(&mut out, 2);
            write_uuid(&mut out, &gid.0);
            write_job(&mut out, j);
            proof {
                assert(out@ =~= enc_worker_notification(m@));
            }
            Some(out)
        }
        WorkerNotification::Shutdown => {
            write_u8(&mut out, 3);
            proof {
                assert(out@ =~= enc_worker_notification(m@));
            }
            Some(out)
        }
    }
}

/// Encodes a leader notification; yields the bytes exactly when the address
/// map fits its 32-bit wire prefix.
pub fn encode_leader_notification(m: &LeaderNotification) -> (r: Option<Vec<u8>>)
    ensures
        match r {
            Some(bytes) => encodable_leader_notification(m@)
                && bytes@ == enc_leader_notification(m@),
            None => !encodable_leader_notification(m@),
        },
{
    let mut out: Vec<u8> = Vec::new();
    match m {
        LeaderNotification::ScheduleJob(gid, j, addrs) => {
            if addrs.len() > u32::MAX as usize {
                return None;
            }
            write_u8(&mut out, 0);
            write_uuid(&mut out, &gid.0);
            write_job(&mut out, j);
            write_assignment_vec(&mut out, addrs);
            proof {
                assert(out@ =~= enc_leader_notification(m@));
            }
            Some(out)
        }
        LeaderNotification::ExecuteGraph(gid) => {
            write_u8(&mut out, 1);
            write_uuid(&mut out, &gid.0);
            proof {
                assert(out@ =~= enc_leader_notification(m@));
            }
            Some(out)
        }
        LeaderNotification::Shutdown => {
            write_u8(&mut out, 2);
            proof {
                assert(out@ =~= enc_leader_notification(m@));
            }
            Some(out)
        }
    }
}

// ------------------------------------------------------------------
// Executable decoders.
// ------------------------------------------------------------------

pub fn read_bool(b: &Vec<u8>, pos: usize) -> (r: Option<(bool, usize)>)
    ensures
        match r {
            Some((v, p)) => dec_bool(b@, pos as int) == Some((v, p as int)),
            None => dec_bool(b@, pos as int) is None,
        },
{
    match read_u8(b, pos) {
        Some((tag, p)) => {
            if tag == 0 {
                Some((false, p))
            } else if tag == 1 {
                Some((true, p))
            } else {
                None
            }
        }
        None => None,
    }
}

pub fn read_opt_uuid(b: &Vec<u8>, pos: usize) -> (r: Option<(Option<Uuid>, usize)>)
    ensures
        match r {
            Some((v, p)) => dec_opt_uuid(b@, pos as int) == Some((v, p as int)),
            None => dec_opt_uuid(b@, pos as int) is None,
        },
{
    match read_u8(b, pos) {
        Some((tag, p)) => {
            if tag == 0 {
                Some((None, p))
            } else if tag == 1 {
                match read_uuid(b, p) {
                    Some((u, p2)) => Some((Some(u), p2)),
                    None => None,
                }
            } else {
                None
            }
        }
        None => None,
    }
}

pub fn read_opt_bytes(b: &Vec<u8>, pos: usize) -> (r: Option<(Option<Vec<u8>>, usize)>)
    ensures
        match r {
            Some((v, p)) => dec_opt_bytes(b@, pos as int) == Some((opt_bytes_view(v), p as int)),
            None => dec_opt_bytes(b@, pos as int) is None,
        },
{
    match read_u8(b, pos) {
        Some((tag, p)) => {
            if tag == 0 {
                Some((None, p))
            } else if tag == 1 {
                match read_bytes(b, p) {
                    Some((v, p2)) => Some((Some(v), p2)),
                    None => None,
                }
            } else {
                None
            }
        }
        None => None,
    }
}

pub fn read_opt_job(b: &Vec<u8>, pos: usize) -> (r: Option<(Option<Job>, usize)>)
    ensures
        match r {
            Some((v, p)) => dec_opt_job(b@, pos as int) == Some((v, p as int)),
            None => dec_opt_job(b@, pos as int) is None,
        },
{
    match read_u8(b, pos) {
        Some((tag, p)) => {
            if tag == 0 {
                Some((None, p))
            } else if tag == 1 {
                match read_job(b, p) {
                    Some((j, p2)) => Some((Some(j), p2)),
                    None => None,
                }
            } else {
                None
            }
        }
        None => None,
    }
}

pub fn read_op_type(b: &Vec<u8>, pos: usize) -> (r: Option<(AbstractOperatorType, usize)>)
    ensures
        match r {
            Some((v, p)) => dec_op_type(b@, pos as int) == Some((v, p as int)),
            None => dec_op_type(b@, pos as int) is None,
        },
{
    match read_u8(b, pos) {
        Some((tag, p)) => {
            if tag == 0 {
                Some((AbstractOperatorType::Source, p))
            } else if tag == 1 {
                Some((AbstractOperatorType::ParallelSink, p))
            } else if tag == 2 {
                Some((AbstractOperatorType::Sink, p))
            } else if tag == 3 {
                Some((AbstractOperatorType::ParallelOneInOneOut, p))
            } else if tag == 4 {
                Some((AbstractOperatorType::OneInOneOut, p))
            } else if tag == 5 {
                Some((AbstractOperatorType::ParallelTwoInOneOut, p))
            } else if tag == 6 {
                Some((AbstractOperatorType::TwoInOneOut, p))
            } else if tag == 7 {
                Some((AbstractOperatorType::ParallelOneInTwoOut, p))
            } else if tag == 8 {
                Some((AbstractOperatorType::OneInTwoOut, p))
            } else {
                None
            }
        }
        None => None,
    }
}

pub fn read_config(b: &Vec<u8>, pos: usize) -> (r: Option<(OperatorConfig, usize)>)
    ensures
        match r {
            Some((v, p)) => dec_config(b@, pos as int) == Some((v@, p as int)),
            None => dec_config(b@, pos as int) is None,
        },
{
    match read_opt_bytes(b, pos) {
        Some((name, p1)) => match read_opt_uuid(b, p1) {
            Some((worker, p2)) => match read_bool(b, p2) {
                Some((flow_watermarks, p3)) => Some((
                    OperatorConfig { name, worker, flow_watermarks },
                    p3,
                )),
                None => None,
            },
            None => None,
        },
        None => None,
    }
}

#[verifier::loop_isolation(false)]
pub fn read_uuid_vec(b: &Vec<u8>, pos: usize) -> (r: Option<(Vec<Uuid>, usize)>)
    ensures
        match r {
            Some((v, p)) => dec_uuid_seq(b@, pos as int) == Some((v@, p as int)),
            None => dec_uuid_seq(b@, pos as int) is None,
        },
{
    match read_u32(b, pos) {
        Some((n, p)) => {
            let mut v: Vec<Uuid> = Vec::new();
            let mut i: u32 = 0;
            let mut q: usize = p;
            proof {
                let d = dec_uuid_items(b@, p as int, n as int);
                if d is Some {
                    assert(Seq::<Uuid>::empty() + d->Some_0.0 =~= d->Some_0.0);
                }
                assert(v@ =~= Seq::<Uuid>::empty());
            }
            loop
                invariant
                    i <= n,
                    dec_u32(b@, pos as int) == Some((n, p as int)),
                    dec_uuid_items(b@, p as int, n as int)
                        == match dec_uuid_items(b@, q as int, n - i) {
                            Some((rest, pe)) => Some((v@ + rest, pe)),
                            None => None::<(Seq<Uuid>, int)>,
                        },
                decreases n - i,
            {
                if i == n {
                    proof {
                        assert(dec_uuid_items(b@, q as int, 0)
                            == Some((Seq::<Uuid>::empty(), q as int)));
                        assert(v@ + Seq::<Uuid>::empty() =~= v@);
                    }
                    return Some((v, q));
                }
                match read_uuid(b, q) {
                    Some((x, q2)) => {
                        let ghost v0 = v@;
                        v.push(x);
                        proof {
                            let d2 = dec_uuid_items(b@, q2 as int, n - (i + 1));
                            if d2 is Some {
                                let (rest2, pe) = d2->Some_0;
                                assert(v0.push(x) + rest2 =~= v0 + (seq![x] + rest2));
                            }
                            assert(v@ =~= v0.push(x));
                        }
                        q = q2;
                        i = i + 1;
                    }
                    None => {
                        return None;
                    }
                }
            }
        }
        None => None,
    }
}

#[verifier::loop_isolation(false)]
pub fn read_job_vec(b: &Vec<u8>, pos: usize) -> (r: Option<(Vec<Job>, usize)>)
    ensures
        match r {
            Some((v, p)) => dec_job_seq(b@, pos as int) == Some((v@, p as int)),
            None => dec_job_seq(b@, pos as int) is None,
        },
{
    match read_u32(b, pos) {
        Some((n, p)) => {
            let mut v: Vec<Job> = Vec::new();
            let mut i: u32 = 0;
            let mut q: usize = p;
            proof {
                let d = dec_job_items(b@, p as int, n as int);
                if d is Some {
                    assert(Seq::<Job>::empty() + d->Some_0.0 =~= d->Some_0.0);
                }
                assert(v@ =~= Seq::<Job>::empty());
            }
            loop
                invariant
                    i <= n,
                    dec_u32(b@, pos as int) == Some((n, p as int)),
                    dec_job_items(b@, p as int, n as int)
                        == match dec_job_items(b@, q as int, n - i) {
                            Some((rest, pe)) => Some((v@ + rest, pe)),
                            None => None::<(Seq<Job>, int)>,
                        },
                decreases n - i,
            {
                if i == n {
                    proof {
                        assert(dec_job_items(b@, q as int, 0)
                            == Some((Seq::<Job>::empty(), q as int)));
                        assert(v@ + Seq::<Job>::empty() =~= v@);
                    }
                    return Some((v, q));
                }
                match read_job(b, q) {
                    Some((x, q2)) => {
                        let ghost v0 = v@;
                        v.push(x);
                        proof {
                            let d2 = dec_job_items(b@, q2 as int, n - (i + 1));
                            if d2 is Some {
                                let (rest2, pe) = d2->Some_0;
                                assert(v0.push(x) + rest2 =~= v0 + (seq![x] + rest2));
                            }
                            assert(v@ =~= v0.push(x));
                        }
                        q = q2;
                        i = i + 1;
                    }
                    None => {
                        return None;
                    }
                }
            }
        }
        None => None,
    }
}

pub fn read_operator(b: &Vec<u8>, pos: usize) -> (r: Option<(AbstractOperator, usize)>)
    ensures
        match r {
            Some((v, p)) => dec_operator(b@, pos as int) == Some((v@, p as int)),
            None => dec_operator(b@, pos as int) is None,
        },
{
    match read_uuid(b, pos) {
        Some((id, p1)) => match read_config(b, p1) {
            Some((config, p2)) => match read_uuid_vec(b, p2) {
                Some((read_streams, p3)) => match read_uuid_vec(b, p3) {
                    Some((write_streams, p4)) => match read_op_type(b, p4) {
                        Some((operator_type, p5)) => Some((
                            AbstractOperator {
                                id,
                                config,
                                read_streams,
                                write_streams,
                                operator_type,
                            },
                            p5,
                        )),
                        None => None,
                    },
                    None => None,
                },
                None => None,
            },
            None => None,
        },
        None => None,
    }
}

pub fn read_stream(b: &Vec<u8>, pos: usize) -> (r: Option<(AbstractStream, usize)>)
    ensures
        match r {
            Some((v, p)) => dec_stream(b@, pos as int) == Some((v@, p as int)),
            None => dec_stream(b@, pos as int) is None,
        },
{
    match read_uuid(b, pos) {
        Some((id, p1)) => match read_bytes(b, p1) {
            Some((name, p2)) => match read_opt_job(b, p2) {
                Some((source, p3)) => match read_job_vec(b, p3) {
                    Some((destinations, p4)) => Some((
                        AbstractStream::from_parts(id, name, source, destinations),
                        p4,
                    )),
                    None => None,
                },
                None => None,
            },
            None => None,
        },
        None => None,
    }
}

#[verifier::loop_isolation(false)]
pub fn read_operator_vec(b: &Vec<u8>, pos: usize) -> (r: Option<(Vec<AbstractOperator>, usize)>)
    ensures
        match r {
            Some((v, p)) => dec_operator_seq(b@, pos as int)
                == Some((crate::graph::ops_view(v@), p as int)),
            None => dec_operator_seq(b@, pos as int) is None,
        },
{
    match read_u32(b, pos) {
        Some((n, p)) => {
            let mut v: Vec<AbstractOperator> = Vec::new();
            let mut i: u32 = 0;
            let mut q: usize = p;
            proof {
                let d = dec_operator_items(b@, p as int, n as int);
                if d is Some {
                    assert(Seq::<AbstractOperatorVal>::empty() + d->Some_0.0 =~= d->Some_0.0);
                }
                assert(ops_view(v@) =~= Seq::<AbstractOperatorVal>::empty());
            }
            loop
                invariant
                    i <= n,
                    dec_u32(b@, pos as int) == Some((n, p as int)),
                    dec_operator_items(b@, p as int, n as int)
                        == match dec_operator_items(b@, q as int, n - i) {
                            Some((rest, pe)) => Some((ops_view(v@) + rest, pe)),
                            None => None::<(Seq<AbstractOperatorVal>, int)>,
                        },
                decreases n - i,
            {
                if i == n {
                    proof {
                        assert(dec_operator_items(b@, q as int, 0)
                            == Some((Seq::<AbstractOperatorVal>::empty(), q as int)));
                        assert(ops_view(v@) + Seq::<AbstractOperatorVal>::empty()
                            =~= ops_view(v@));
                    }
                    return Some((v, q));
                }
                match read_operator(b, q) {
                    Some((x, q2)) => {
                        let ghost v0 = v@;
                        let ghost xv = x@;
                        v.push(x);
                        proof {
                            let d2 = dec_operator_items(b@, q2 as int, n - (i + 1));
                            if d2 is Some {
                                let (rest2, pe) = d2->Some_0;
                                assert(ops_view(v0).push(xv) + rest2
                                    =~= ops_view(v0) + (seq![xv] + rest2));
                            }
                            assert(ops_view(v@) =~= ops_view(v0).push(xv));
                        }
                        q = q2;
                        i = i + 1;
                    }
                    None => {
                        return None;
                    }
                }
            }
        }
        None => None,
    }
}

#[verifier::loop_isolation(false)]
pub fn read_stream_vec(b: &Vec<u8>, pos: usize) -> (r: Option<(Vec<AbstractStream>, usize)>)
    ensures
        match r {
            Some((v, p)) => dec_stream_seq(b@, pos as int)
                == Some((crate::graph::streams_view(v@), p as int)),
            None => dec_stream_seq(b@, pos as int) is None,
        },
{
    match read_u32(b, pos) {
        Some((n, p)) => {
            let mut v: Vec<AbstractStream> = Vec::new();
            let mut i: u32 = 0;
            let mut q: usize = p;
            proof {
                let d = dec_stream_items(b@, p as int, n as int);
                if d is Some {
                    assert(Seq::<AbstractStreamVal>::empty() + d->Some_0.0 =~= d->Some_0.0);
                }
                assert(streams_view(v@) =~= Seq::<AbstractStreamVal>::empty());
            }
            loop
                invariant
                    i <= n,
                    dec_u32(b@, pos as int) == Some((n, p as int)),
                    dec_stream_items(b@, p as int, n as int)
                        == match dec_stream_items(b@, q as int, n - i) {
                            Some((rest, pe)) => Some((streams_view(v@) + rest, pe)),
                            None => None::<(Seq<AbstractStreamVal>, int)>,
                        },
                decreases n - i,
            {
                if i == n {
                    proof {
                        assert(dec_stream_items(b@, q as int, 0)
                            == Some((Seq::<AbstractStreamVal>::empty(), q as int)));
                        assert(streams_view(v@) + Seq::<AbstractStreamVal>::empty()
                            =~= streams_view(v@));
                    }
                    return Some((v, q));
                }
                match read_stream(b, q) {
                    Some((x, q2)) => {
                        let ghost v0 = v@;
                        let ghost xv = x@;
                        v.push(x);
                        proof {
                            let d2 = dec_stream_items(b@, q2 as int, n - (i + 1));
                            if d2 is Some {
                                let (rest2, pe) = d2->Some_0;
                                assert(streams_view(v0).push(xv) + rest2
                                    =~= streams_view(v0) + (seq![xv] + rest2));
                            }
                            assert(streams_view(v@) =~= streams_view(v0).push(xv));
                        }
                        q = q2;
                        i = i + 1;
                    }
                    None => {
                        return None;
                    }
                }
            }
        }
        None => None,
    }
}

/// Decodes a graph; yields it exactly when the bytes hold an encoding of a
/// well-formed graph at this position.
pub fn read_graph(b: &Vec<u8>, pos: usize) -> (r: Option<(JobGraph, usize)>)
    ensures
        match r {
            Some((g, p)) => dec_graph(b@, pos as int) == Some((g@, p as int))
                && graph_ok(g@.operators, g@.streams),
            None => match dec_graph(b@, pos as int) {
                None => true,
                Some((gv, _)) => !graph_ok(gv.operators, gv.streams),
            },
        },
{
    match read_uuid(b, pos) {
        Some((gid, p1)) => match read_bytes(b, p1) {
            Some((name, p2)) => match read_operator_vec(b, p2) {
                Some((operators, p3)) => match read_stream_vec(b, p3) {
                    Some((streams, p4)) => {
                        match JobGraph::assemble(JobGraphId(gid), name, operators, streams) {
                            Some(g) => Some((g, p4)),
                            None => None,
                        }
                    }
                    None => None,
                },
                None => None,
            },
            None => None,
        },
        None => None,
    }
}

/// Decodes a worker notification; yields it exactly when the bytes hold an
/// encoding at this position, and a submitted graph is well-formed.
pub fn decode_worker_notification(b: &Vec<u8>, pos: usize) -> (r: Option<(
    WorkerNotification,
    usize,
)>)
    ensures
        match r {
            Some((m, p)) => dec_worker_notification(b@, pos as int) == Some((m@, p as int)),
            None => match dec_worker_notification(b@, pos as int) {
                None => true,
                Some((mv, _)) => mv matches WorkerNotificationVal::SubmitGraph(_, g)
                    && !graph_ok(g.operators, g.streams),
            },
        },
{
    match read_u8(b, pos) {
        Some((tag, p)) => {
            if tag == 0 {
                match read_worker_state(b, p) {
                    Some((w, p2)) => Some((WorkerNotification::Initialized(w), p2)),
                    None => None,
                }
            } else if tag == 1 {
                match read_uuid(b, p) {
                    Some((gid, p2)) => match read_graph(b, p2) {
                        Some((g, p3)) => Some((
                            WorkerNotification::SubmitGraph(JobGraphId(gid), g),
                            p3,
                        )),
                        None => None,
                    },
                    None => None,
                }
            } else if tag == 2 {
                match read_uuid(b, p) {
                    Some((gid, p2)) => match read_job(b, p2) {
                        Some((j, p3)) => Some((
                            WorkerNotification::JobReady(JobGraphId(gid), j),
                            p3,
                        )),
                        None => None,
                    },
                    None => None,
                }
            } else if tag == 3 {
                Some((WorkerNotification::Shutdown, p))
            } else {
                None
            }
        }
        None => None,
    }
}

#[verifier::loop_isolation(false)]
pub fn read_assignment_vec(b: &Vec<u8>, pos: usize) -> (r: Option<(
    Vec<(Job, WorkerAddress)>,
    usize,
)>)
    ensures
        match r {
            Some((v, p)) => dec_assignment_seq(b@, pos as int) == Some((v@, p as int)),
            None => dec_assignment_seq(b@, pos as int) is None,
        },
{
    match read_u32(b, pos) {
        Some((n, p)) => {
            let mut v: Vec<(Job, WorkerAddress)> = Vec::new();
            let mut i: u32 = 0;
            let mut q: usize = p;
            proof {
                let d = dec_assignment_items(b@, p as int, n as int);
                if d is Some {
                    assert(Seq::<(Job, WorkerAddress)>::empty() + d->Some_0.0 =~= d->Some_0.0);
                }
                assert(v@ =~= Seq::<(Job, WorkerAddress)>::empty());
            }
            loop
                invariant
                    i <= n,
                    dec_u32(b@, pos as int) == Some((n, p as int)),
                    dec_assignment_items(b@, p as int, n as int)
                        == match dec_assignment_items(b@, q as int, n - i) {
                            Some((rest, pe)) => Some((v@ + rest, pe)),
                            None => None::<(Seq<(Job, WorkerAddress)>, int)>,
                        },
                decreases n - i,
            {
                if i == n {
                    proof {
                        assert(dec_assignment_items(b@, q as int, 0)
                            == Some((Seq::<(Job, WorkerAddress)>::empty(), q as int)));
                        assert(v@ + Seq::<(Job, WorkerAddress)>::empty() =~= v@);
                    }
                    return Some((v, q));
                }
                match read_job(b, q) {
                    Some((j, q2)) => match read_addr(b, q2) {
                        Some((a, q3)) => {
                            let ghost v0 = v@;
                            v.push((j, a));
                            proof {
                                let d2 = dec_assignment_items(b@, q3 as int, n - (i + 1));
                                if d2 is Some {
                                    let (rest2, pe) = d2->Some_0;
                                    assert(v0.push((j, a)) + rest2
                                        =~= v0 + (seq![(j, a)] + rest2));
                                }
                                assert(v@ =~= v0.push((j, a)));
                            }
                            q = q3;
                            i = i + 1;
                        }
                        None => {
                            return None;
                        }
                    },
                    None => {
                        return None;
                    }
                }
            }
        }
        None => None,
    }
}

/// Decodes a leader notification; yields it exactly when the bytes hold an
/// encoding at this position.
pub fn decode_leader_notification(b: &Vec<u8>, pos: usize) -> (r: Option<(
    LeaderNotification,
    usize,
)>)
    ensures
        match r {
            Some((m, p)) => dec_leader_notification(b@, pos as int) == Some((m@, p as int)),
            None => dec_leader_notification(b@, pos as int) is None,
        },
{
    match read_u8(b, pos) {
        Some((tag, p)) => {
            if tag == 0 {
                match read_uuid(b, p) {
                    Some((gid, p2)) => match read_job(b, p2) {
                        Some((j, p3)) => match read_assignment_vec(b, p3) {
                            Some((addrs, p4)) => Some((
                                LeaderNotification::ScheduleJob(JobGraphId(gid), j, addrs),
                                p4,
                            )),
                            None => None,
                        },
                        None => None,
                    },
                    None => None,
                }
            } else if tag == 1 {
                match read_uuid(b, p) {
                    Some((gid, p2)) => Some((
                        LeaderNotification::ExecuteGraph(JobGraphId(gid)),
                        p2,
                    )),
                    None => None,
                }
            } else if tag == 2 {
                Some((LeaderNotification::Shutdown, p))
            } else {
                None
            }
        }
        None => None,
    }
}

} // verus!
