//! What a driver holds: the error type its commands report, and the pure
//! part of registering a graph with a worker.

use vstd::prelude::*;

use crate::graph::{graph_ok, Graph, GraphCompilationError, JobGraph, JobGraphId};

verus! {

/// The error raised by the driver handles when executing commands.
#[derive(Clone, Copy, PartialEq, Eq, Structural, Debug)]
pub enum HandleError {
    /// The graph failed to compile.
    GraphCompilationError(GraphCompilationError),
    /// The worker or leader could not be reached.
    CommunicationError,
}

/// Compiles a graph for registration with a worker: the pure half of a
/// driver's register command.  Yields the graph's identity and its compiled
/// form exactly when the graph is well-formed.
pub fn compile_for_registration(graph: Graph) -> (r: Result<(JobGraphId, JobGraph), HandleError>)
    ensures
        match r {
            Ok((gid, jg)) => {
                &&& graph_ok(graph@.operators, graph@.streams)
                &&& jg@ == graph@
                &&& gid == graph@.id
            },
            Err(e) => {
                &&& !graph_ok(graph@.operators, graph@.streams)
                &&& e is GraphCompilationError
            },
        },
{
    match graph.compile() {
        Ok(jg) => {
            let gid = jg.id();
            Ok((gid, jg))
        }
        Err(e) => Err(HandleError::GraphCompilationError(e)),
    }
}

} // verus!
