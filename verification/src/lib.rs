//! A distributed dataflow execution runtime: a user describes a computation as
//! a directed graph of operators exchanging typed, timestamped messages over
//! streams.  A Leader schedules operators onto Worker processes; Workers wire
//! the streams of their operators across the fleet and run them.
//!
//! This crate holds the verified core of the runtime: the job-graph model, the
//! framed control- and data-plane codecs, the Leader and Worker state machines,
//! the stream manager, and the endpoint and pusher primitives with their
//! ordering guarantees.  The surrounding process plumbing (sockets, tasks)
//! lives outside the library and drives these functions.

pub mod ids;
pub mod table;
pub mod codec;
pub mod timestamp;
pub mod message;
pub mod graph;
pub mod control_plane;
pub mod control_codec;
pub mod data_plane;
pub mod worker_node;
pub mod leader_node;
pub mod stream;
pub mod message_codec;
pub mod receivers;
pub mod stream_manager;
pub mod operator_executor;
pub mod handles;
