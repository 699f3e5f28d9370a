//! Building and compiling job graphs.

use erdos::graph::{
    AbstractOperator, AbstractOperatorType, AbstractStream, Graph, JobGraph, JobGraphId,
    OperatorConfig, Job,
};
use erdos::handles::{compile_for_registration, HandleError};
use erdos::ids::Uuid;

#[test]
fn compile_well_formed_graph() {
    let mut g = Graph::new("wordcount");
    let (src, stream) = g.connect_source(OperatorConfig::new().name("reader"));
    let sink = g.connect_sink(OperatorConfig::new().name("counter"), &stream);
    let gid = g.id();
    let jg = g.compile().unwrap();
    assert_eq!(jg.id(), gid);
    assert_eq!(jg.num_operators(), 2);
    assert_eq!(jg.num_streams(), 1);
    assert!(jg.get_job(&Job::Operator(src)).is_some());
    assert!(jg.get_job(&Job::Operator(sink)).is_some());
    assert!(jg.get_job(&Job::Driver).is_none());
    assert!(jg.get_job(&Job::Operator(Uuid::new(0, 99))).is_none());
}

#[test]
fn graph_ids_are_content_deterministic() {
    let a = Graph::new("same-name");
    let b = Graph::new("same-name");
    let c = Graph::new("other-name");
    assert_eq!(a.id(), b.id());
    assert_ne!(a.id(), c.id());
}

#[test]
fn duplicate_graph_is_equal() {
    let mut g = Graph::new("copy-me");
    let (_src, stream) = g.connect_source(OperatorConfig::new());
    let _sink = g.connect_sink(OperatorConfig::new(), &stream);
    let jg = g.compile().unwrap();
    let copy = jg.duplicate();
    assert_eq!(copy.id(), jg.id());
    assert_eq!(copy.num_operators(), jg.num_operators());
    assert_eq!(copy.num_streams(), jg.num_streams());
}

#[test]
fn assemble_rejects_ill_formed_parts() {
    // an operator that reads a stream the graph lacks
    let op = AbstractOperator {
        id: Uuid::new(1, 1),
        config: OperatorConfig::new(),
        read_streams: vec![Uuid::new(9, 9)],
        write_streams: vec![],
        operator_type: AbstractOperatorType::Sink,
    };
    let r = JobGraph::assemble(JobGraphId(Uuid::new(5, 5)), b"broken".to_vec(), vec![op], vec![]);
    assert!(r.is_none());

    // a stream without a source
    let st = AbstractStream::from_parts(Uuid::new(2, 2), b"s".to_vec(), None, vec![]);
    let r = JobGraph::assemble(JobGraphId(Uuid::new(5, 5)), b"broken".to_vec(), vec![], vec![st]);
    assert!(r.is_none());

    // a stream with a duplicate destination
    let st = AbstractStream::from_parts(
        Uuid::new(2, 2),
        b"s".to_vec(),
        Some(Job::Driver),
        vec![Job::Driver, Job::Driver],
    );
    let r = JobGraph::assemble(JobGraphId(Uuid::new(5, 5)), b"broken".to_vec(), vec![], vec![st]);
    assert!(r.is_none());

    // well-formed parts assemble
    let st = AbstractStream::from_parts(
        Uuid::new(2, 2),
        b"s".to_vec(),
        Some(Job::Driver),
        vec![Job::Driver],
    );
    let r = JobGraph::assemble(JobGraphId(Uuid::new(5, 5)), b"ok".to_vec(), vec![], vec![st]);
    assert!(r.is_some());
}

#[test]
fn registration_compiles_the_graph() {
    let mut g = Graph::new("register-me");
    let (_src, stream) = g.connect_source(OperatorConfig::new());
    let _sink = g.connect_sink(OperatorConfig::new(), &stream);
    let gid = g.id();
    match compile_for_registration(g) {
        Ok((got, jg)) => {
            assert_eq!(got, gid);
            assert_eq!(jg.id(), gid);
        }
        Err(_) => panic!("a well-formed graph compiles"),
    }
}

#[test]
fn handle_error_reports_compilation_failure() {
    let e = HandleError::GraphCompilationError(
        erdos::graph::GraphCompilationError::StreamWithoutSource(Uuid::new(1, 2)),
    );
    assert!(matches!(e, HandleError::GraphCompilationError(_)));
}
