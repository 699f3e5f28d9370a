//! The leader and worker state machines: scheduling, readiness, execution
//! release, and shutdown.

use erdos::control_plane::{
    DriverNotification, LeaderNotification, Resources, WorkerAddress, WorkerNotification,
    WorkerState,
};
use erdos::data_plane::DataPlaneNotification;
use erdos::graph::{Graph, Job, JobGraphId, OperatorConfig};
use erdos::ids::Uuid;
use erdos::leader_node::{LeaderAction, LeaderNode};
use erdos::worker_node::{WorkerAction, WorkerNode};

fn wid(n: u64) -> Uuid {
    Uuid::new(8, n)
}

fn addr(n: u32) -> WorkerAddress {
    WorkerAddress { ip: n, port: 4444 }
}

/// A graph with one source and one sink, compiled.
fn two_step_graph() -> (erdos::graph::JobGraph, JobGraphId, Job, Job, Uuid) {
    let mut g = Graph::new("pipeline");
    let (src, stream) = g.connect_source(OperatorConfig::new().name("numbers"));
    let sink = g.connect_sink(OperatorConfig::new().name("collector"), &stream);
    let gid = g.id();
    let stream_id = stream.id();
    let jg = g.compile().unwrap();
    (jg, gid, Job::Operator(src), Job::Operator(sink), stream_id)
}

#[test]
fn worker_schedules_and_reports_ready_once() {
    let (jg, gid, src, sink, stream_id) = two_step_graph();
    let mut w = WorkerNode::new(wid(1), addr(1), addr(2), Resources::new(1, 0));
    assert!(w.handle_driver_messages(DriverNotification::RegisterGraph(jg)).is_empty());

    // schedule the sink here; the map covers the source and the sink
    let addrs = vec![(src, addr(3)), (sink, addr(2))];
    let actions = w.handle_leader_messages(LeaderNotification::ScheduleJob(gid, sink, addrs));
    assert_eq!(actions.len(), 1);
    match &actions[0] {
        WorkerAction::SetupStreams(j, setups) => {
            assert_eq!(*j, sink);
            assert_eq!(setups.len(), 1);
            assert_eq!(setups[0].id(), stream_id);
        }
        _ => panic!("expected a stream setup"),
    }

    // the job's one stream becomes ready: the worker reports it, exactly once
    let actions =
        w.handle_data_plane_messages(DataPlaneNotification::StreamReady(sink, stream_id));
    assert_eq!(actions.len(), 1);
    match &actions[0] {
        WorkerAction::SendToLeader(WorkerNotification::JobReady(g, j)) => {
            assert_eq!(*g, gid);
            assert_eq!(*j, sink);
        }
        _ => panic!("expected a readiness report"),
    }
    let again =
        w.handle_data_plane_messages(DataPlaneNotification::StreamReady(sink, stream_id));
    assert!(again.is_empty());
}

#[test]
fn worker_ignores_schedule_with_missing_address() {
    let (jg, gid, _src, sink, _stream_id) = two_step_graph();
    let mut w = WorkerNode::new(wid(1), addr(1), addr(2), Resources::new(1, 0));
    let _ = w.handle_driver_messages(DriverNotification::RegisterGraph(jg));
    // the source's address is missing
    let actions = w.handle_leader_messages(LeaderNotification::ScheduleJob(
        gid,
        sink,
        vec![(sink, addr(2))],
    ));
    assert!(actions.is_empty());
}

#[test]
fn worker_spawns_ready_jobs_on_execute() {
    let (jg, gid, src, sink, stream_id) = two_step_graph();
    let mut w = WorkerNode::new(wid(1), addr(1), addr(2), Resources::new(1, 0));
    let _ = w.handle_driver_messages(DriverNotification::RegisterGraph(jg));
    let addrs = vec![(src, addr(2)), (sink, addr(2))];
    let _ = w.handle_leader_messages(LeaderNotification::ScheduleJob(gid, sink, addrs));
    let _ = w.handle_data_plane_messages(DataPlaneNotification::StreamReady(sink, stream_id));
    let actions = w.handle_leader_messages(LeaderNotification::ExecuteGraph(gid));
    assert_eq!(actions.len(), 1);
    assert!(matches!(
        &actions[0],
        WorkerAction::SpawnJob(g, j) if *g == gid && *j == sink
    ));
}

#[test]
fn worker_submits_registered_graph() {
    let (jg, gid, _src, _sink, _stream_id) = two_step_graph();
    let mut w = WorkerNode::new(wid(1), addr(1), addr(2), Resources::new(1, 0));
    let _ = w.handle_driver_messages(DriverNotification::RegisterGraph(jg));
    let actions = w.handle_driver_messages(DriverNotification::SubmitGraph(gid));
    assert_eq!(actions.len(), 1);
    assert!(matches!(
        &actions[0],
        WorkerAction::SendToLeader(WorkerNotification::SubmitGraph(g, _)) if *g == gid
    ));
    // an unregistered graph is not forwarded
    let none = w.handle_driver_messages(DriverNotification::SubmitGraph(JobGraphId(wid(99))));
    assert!(none.is_empty());
}

/// Repeated shutdown signals terminate the worker exactly once.
#[test]
fn worker_shutdown_is_idempotent() {
    let mut w = WorkerNode::new(wid(1), addr(1), addr(2), Resources::new(1, 0));
    let first = w.handle_shutdown(true);
    assert_eq!(first.len(), 1);
    assert!(matches!(
        &first[0],
        WorkerAction::SendToLeader(WorkerNotification::Shutdown)
    ));
    for _ in 0..3 {
        assert!(w.handle_shutdown(true).is_empty());
        assert!(w.handle_shutdown(false).is_empty());
    }
}

#[test]
fn leader_schedules_submitted_graph() {
    let (jg, gid, src, sink, _stream_id) = two_step_graph();
    let mut l = LeaderNode::new();
    let w1 = WorkerState::new(wid(1), addr(1), Resources::new(1, 0));
    let w2 = WorkerState::new(wid(2), addr(2), Resources::new(1, 0));
    l.handle_worker_initialized(w1);
    l.handle_worker_initialized(w2);
    let actions = l.handle_submit_graph(wid(1), gid, jg);
    assert_eq!(actions.len(), 2);
    let mut scheduled: Vec<Job> = Vec::new();
    for a in &actions {
        match a {
            LeaderAction::SendTo(_, LeaderNotification::ScheduleJob(g, j, addrs)) => {
                assert_eq!(*g, gid);
                assert!(!addrs.is_empty());
                scheduled.push(*j);
            }
            _ => panic!("expected a schedule request"),
        }
    }
    assert!(scheduled.contains(&src));
    assert!(scheduled.contains(&sink));
}

#[test]
fn leader_respects_pinned_worker() {
    let mut g = Graph::new("pinned");
    let (_src, stream) = g.connect_source(OperatorConfig::new().name("numbers").worker(wid(2)));
    let sink = g.connect_sink(OperatorConfig::new().name("collector").worker(wid(2)), &stream);
    let gid = g.id();
    let jg = g.compile().unwrap();
    let mut l = LeaderNode::new();
    l.handle_worker_initialized(WorkerState::new(wid(1), addr(1), Resources::new(1, 0)));
    l.handle_worker_initialized(WorkerState::new(wid(2), addr(2), Resources::new(1, 0)));
    let actions = l.handle_submit_graph(wid(1), gid, jg);
    for a in &actions {
        match a {
            LeaderAction::SendTo(w, LeaderNotification::ScheduleJob(_, j, _)) => {
                if *j == Job::Operator(sink) {
                    assert_eq!(*w, wid(2));
                }
            }
            _ => panic!("expected a schedule request"),
        }
    }
}

#[test]
fn leader_without_workers_schedules_nothing() {
    let (jg, gid, _src, _sink, _stream_id) = two_step_graph();
    let mut l = LeaderNode::new();
    l.handle_worker_initialized(WorkerState::new(wid(1), addr(1), Resources::empty()));
    let actions = l.handle_submit_graph(wid(1), gid, jg);
    assert!(actions.is_empty());
}

/// The graph is released exactly once, after every assigned job is ready.
#[test]
fn leader_releases_graph_exactly_once() {
    let (jg, gid, src, sink, _stream_id) = two_step_graph();
    let mut l = LeaderNode::new();
    l.handle_worker_initialized(WorkerState::new(wid(1), addr(1), Resources::new(1, 0)));
    let _ = l.handle_submit_graph(wid(1), gid, jg);

    // the driver job counts as ready from submission; the operators'
    // reports alone release the graph
    let none = l.handle_job_ready(gid, src);
    assert!(none.is_empty());
    let actions = l.handle_job_ready(gid, sink);
    assert_eq!(actions.len(), 1);
    assert!(matches!(
        &actions[0],
        LeaderAction::Broadcast(LeaderNotification::ExecuteGraph(g)) if *g == gid
    ));
    // a late readiness report releases nothing further
    let again = l.handle_job_ready(gid, sink);
    assert!(again.is_empty());
    let again = l.handle_job_ready(gid, src);
    assert!(again.is_empty());
}

/// Losing a worker abandons its graphs and tells the remaining workers to
/// shut the execution down.
#[test]
fn leader_handles_worker_disconnect() {
    let (jg, gid, _src, _sink, _stream_id) = two_step_graph();
    let mut l = LeaderNode::new();
    l.handle_worker_initialized(WorkerState::new(wid(1), addr(1), Resources::new(1, 0)));
    l.handle_worker_initialized(WorkerState::new(wid(2), addr(2), Resources::new(1, 0)));
    let _ = l.handle_submit_graph(wid(1), gid, jg);
    let actions = l.handle_worker_disconnected(wid(2));
    for a in &actions {
        match a {
            LeaderAction::SendTo(w, LeaderNotification::Shutdown) => {
                assert_ne!(*w, wid(2));
            }
            _ => panic!("expected a shutdown"),
        }
    }
    // readiness reports after abandonment release nothing
    let none = l.handle_job_ready(gid, Job::Driver);
    assert!(none.is_empty());
}

/// A driver shutdown travels worker → leader → every worker.
#[test]
fn driver_shutdown_reaches_everyone() {
    let mut w = WorkerNode::new(wid(1), addr(1), addr(2), Resources::new(1, 0));
    let worker_actions = w.handle_shutdown(true);
    assert!(matches!(
        &worker_actions[0],
        WorkerAction::SendToLeader(WorkerNotification::Shutdown)
    ));
    let mut l = LeaderNode::new();
    l.handle_worker_initialized(WorkerState::new(wid(1), addr(1), Resources::new(1, 0)));
    let leader_actions = l.handle_shutdown();
    assert_eq!(leader_actions.len(), 1);
    assert!(matches!(
        &leader_actions[0],
        LeaderAction::Broadcast(LeaderNotification::Shutdown)
    ));
    // the leader shuts down exactly once as well
    assert!(l.handle_shutdown().is_empty());
}

/// A job's recorded state only moves forward: scheduling a job that already
/// has a state is refused and changes nothing.
#[test]
fn worker_refuses_rescheduling_a_recorded_job() {
    let (jg, gid, src, sink, stream_id) = two_step_graph();
    let mut w = WorkerNode::new(wid(1), addr(1), addr(2), Resources::new(1, 0));
    let _ = w.handle_driver_messages(DriverNotification::RegisterGraph(jg));
    let addrs = vec![(src, addr(3)), (sink, addr(2))];
    let first =
        w.handle_leader_messages(LeaderNotification::ScheduleJob(gid, sink, addrs.clone()));
    assert_eq!(first.len(), 1);
    // a duplicate request leaves the worker as it is
    let again =
        w.handle_leader_messages(LeaderNotification::ScheduleJob(gid, sink, addrs.clone()));
    assert!(again.is_empty());
    // even after the job reported ready, its state is not reset to scheduled
    let _ = w.handle_data_plane_messages(DataPlaneNotification::StreamReady(sink, stream_id));
    let after_ready =
        w.handle_leader_messages(LeaderNotification::ScheduleJob(gid, sink, addrs));
    assert!(after_ready.is_empty());
}

/// Assignments are immutable until the graph completes: resubmitting a graph
/// with standing assignments schedules nothing anew.
#[test]
fn leader_refuses_resubmission() {
    let (jg, gid, _src, _sink, _stream_id) = two_step_graph();
    let mut l = LeaderNode::new();
    l.handle_worker_initialized(WorkerState::new(wid(1), addr(1), Resources::new(1, 0)));
    let first = l.handle_submit_graph(wid(1), gid, jg);
    assert_eq!(first.len(), 2);
    let (jg2, _, _, _, _) = two_step_graph();
    let again = l.handle_submit_graph(wid(1), gid, jg2);
    assert!(again.is_empty());
}

/// Losing a worker sends exactly one shutdown to each remaining worker.
#[test]
fn leader_disconnect_notifies_each_survivor_once() {
    let mut l = LeaderNode::new();
    l.handle_worker_initialized(WorkerState::new(wid(1), addr(1), Resources::new(1, 0)));
    l.handle_worker_initialized(WorkerState::new(wid(2), addr(2), Resources::new(1, 0)));
    l.handle_worker_initialized(WorkerState::new(wid(3), addr(3), Resources::new(1, 0)));
    let actions = l.handle_worker_disconnected(wid(2));
    assert_eq!(actions.len(), 2);
    let mut told: Vec<erdos::ids::Uuid> = Vec::new();
    for a in &actions {
        match a {
            LeaderAction::SendTo(w, LeaderNotification::Shutdown) => {
                assert_ne!(*w, wid(2));
                assert!(!told.contains(w));
                told.push(*w);
            }
            _ => panic!("expected a shutdown"),
        }
    }
    assert!(told.contains(&wid(1)) && told.contains(&wid(3)));
}

/// The composed system releases a graph: the worker submits, the leader
/// schedules, the worker's readiness reports alone complete the release,
/// and the worker spawns the jobs.
#[test]
fn composed_worker_and_leader_release_a_graph() {
    let (jg, gid, _src, _sink, _stream_id) = two_step_graph();
    let mut w = WorkerNode::new(wid(1), addr(1), addr(1), Resources::new(1, 0));
    let mut l = LeaderNode::new();
    l.handle_worker_initialized(WorkerState::new(wid(1), addr(1), Resources::new(1, 0)));

    // register and submit through the worker, forwarding to the leader
    let _ = w.handle_driver_messages(DriverNotification::RegisterGraph(jg));
    let submit = w.handle_driver_messages(DriverNotification::SubmitGraph(gid));
    let mut schedule_msgs: Vec<LeaderNotification> = Vec::new();
    for a in submit {
        match a {
            WorkerAction::SendToLeader(WorkerNotification::SubmitGraph(g, graph)) => {
                for la in l.handle_submit_graph(wid(1), g, graph) {
                    match la {
                        LeaderAction::SendTo(_, n) => schedule_msgs.push(n),
                        LeaderAction::Broadcast(n) => schedule_msgs.push(n),
                    }
                }
            }
            _ => panic!("expected a graph submission"),
        }
    }
    assert_eq!(schedule_msgs.len(), 2);

    // the worker materializes the scheduled streams and reports readiness
    let mut ready_reports: Vec<(JobGraphId, Job)> = Vec::new();
    for msg in schedule_msgs {
        for a in w.handle_leader_messages(msg) {
            match a {
                WorkerAction::SetupStreams(job, setups) => {
                    for st in &setups {
                        let more = w.handle_data_plane_messages(
                            DataPlaneNotification::StreamReady(job, st.id()),
                        );
                        for m in more {
                            match m {
                                WorkerAction::SendToLeader(WorkerNotification::JobReady(
                                    g,
                                    j,
                                )) => ready_reports.push((g, j)),
                                _ => panic!("expected a readiness report"),
                            }
                        }
                    }
                }
                _ => panic!("expected stream setups"),
            }
        }
    }
    assert_eq!(ready_reports.len(), 2);

    // the operators' reports alone release the graph, exactly once
    let first = l.handle_job_ready(ready_reports[0].0, ready_reports[0].1);
    assert!(first.is_empty());
    let second = l.handle_job_ready(ready_reports[1].0, ready_reports[1].1);
    assert_eq!(second.len(), 1);
    match &second[0] {
        LeaderAction::Broadcast(LeaderNotification::ExecuteGraph(g)) => assert_eq!(*g, gid),
        _ => panic!("expected the release"),
    }

    // on release the worker spawns both ready jobs
    let spawn = w.handle_leader_messages(LeaderNotification::ExecuteGraph(gid));
    assert_eq!(spawn.len(), 2);
    for a in &spawn {
        assert!(matches!(a, WorkerAction::SpawnJob(g, _) if *g == gid));
    }
}
