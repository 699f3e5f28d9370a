//! The streams, pushers and receivers: delivery order, watermark rules,
//! multicast, and the pusher-install protocol.

use erdos::codec::{read_frame, write_frame, FrameOutcome};
use erdos::data_plane::{
    decode_inter_worker_message, encode_inter_worker_message, InterWorkerMessage,
    MessageMetadata,
};
use erdos::message_codec::decode_message;
use erdos::graph::JobGraphId;
use erdos::stream::{IngestStream, OperatorStream};
use erdos::graph::Job;
use erdos::ids::Uuid;
use erdos::message::Message;
use erdos::message_codec::encode_message;
use erdos::operator_executor::OperatorExecutor;
use erdos::receivers::{CommunicationError, DataReceiver, Pusher};
use erdos::stream::{Channels, ReadOutcome, SendError};
use erdos::stream_manager::{StreamManager, StreamManagerError};
use erdos::timestamp::Timestamp;

fn sid(n: u64) -> Uuid {
    Uuid::new(21, n)
}

fn data(t: u64, v: u64) -> Message<u64> {
    Message::new_message(Timestamp::Time(vec![t]), v)
}

fn watermark(t: u64) -> Message<u64> {
    Message::new_watermark(Timestamp::Time(vec![t]))
}

fn top() -> Message<u64> {
    Message::new_watermark(Timestamp::Top)
}

/// One worker, source to sink in process: the sink observes the sent
/// sequence, in order, and the stream closes after the top watermark.
#[test]
fn single_process_source_to_sink() {
    let mut channels: Channels<u64> = Channels::new();
    let mut manager: StreamManager<u64> = StreamManager::new(Uuid::new(1, 1));
    let stream = sid(1);
    let sink_job = Job::Operator(Uuid::new(2, 2));
    manager.add_inter_thread_channel(&mut channels, stream, b"s".to_vec(), sink_job);
    let mut ws = manager.write_stream(stream).unwrap();
    let mut rs = manager.take_read_stream(stream).unwrap();

    let input = vec![data(0, 0), watermark(0), data(1, 1), watermark(1), top()];
    for m in input {
        ws.send(&mut channels, m).unwrap();
    }
    assert!(ws.is_closed());

    let mut seen: Vec<Message<u64>> = Vec::new();
    loop {
        match rs.read(&mut channels) {
            ReadOutcome::Msg(m) => seen.push(m),
            ReadOutcome::Empty => panic!("stream should end with a top watermark"),
            ReadOutcome::Closed => break,
        }
    }
    assert_eq!(seen.len(), 5);
    assert_eq!(seen[0].data(), Some(&0));
    assert!(seen[1].is_watermark_msg() && !seen[1].is_top_watermark_msg());
    assert_eq!(seen[2].data(), Some(&1));
    assert!(seen[3].is_watermark_msg());
    assert!(seen[4].is_top_watermark_msg());
    // watermarks arrive in nondecreasing order
    assert!(seen[1].timestamp().is_le(seen[3].timestamp()));
    assert!(seen[3].timestamp().is_le(seen[4].timestamp()));
    // after the top watermark the stream stays closed
    assert!(matches!(rs.read(&mut channels), ReadOutcome::Closed));
}

/// A watermark below the low watermark is refused, and a closed stream
/// accepts nothing further.
#[test]
fn write_stream_enforces_watermark_order() {
    let mut channels: Channels<u64> = Channels::new();
    let mut manager: StreamManager<u64> = StreamManager::new(Uuid::new(1, 1));
    let stream = sid(2);
    manager.add_inter_thread_channel(&mut channels, stream, b"s".to_vec(), Job::Driver);
    let mut ws = manager.write_stream(stream).unwrap();

    ws.send(&mut channels, watermark(5)).unwrap();
    assert_eq!(ws.send(&mut channels, watermark(3)), Err(SendError::TimestampError));
    ws.send(&mut channels, watermark(5)).unwrap();
    ws.send(&mut channels, top()).unwrap();
    assert_eq!(ws.send(&mut channels, data(9, 9)), Err(SendError::Closed));
}

/// Each receive endpoint is handed out exactly once.
#[test]
fn take_read_stream_is_single_take() {
    let mut channels: Channels<u64> = Channels::new();
    let mut manager: StreamManager<u64> = StreamManager::new(Uuid::new(1, 1));
    let stream = sid(3);
    manager.add_inter_thread_channel(&mut channels, stream, b"s".to_vec(), Job::Driver);
    assert!(manager.take_read_stream(stream).is_ok());
    assert_eq!(
        manager.take_read_stream(stream).err(),
        Some(StreamManagerError::NoRecvEndpoint)
    );
    assert_eq!(
        manager.take_read_stream(sid(99)).err(),
        Some(StreamManagerError::NoSuchStream)
    );
}

/// Multicast: two sinks on one worker each observe the full sequence, and
/// neither observes duplicates.
#[test]
fn pusher_multicasts_to_every_destination() {
    let mut channels: Channels<u64> = Channels::new();
    let a = channels.open_channel();
    let b = channels.open_channel();
    let mut pusher: Pusher<u64> = Pusher::new(sid(4));
    pusher.add_endpoint(Job::Operator(Uuid::new(3, 1)), a);
    pusher.add_endpoint(Job::Operator(Uuid::new(3, 2)), b);

    let input = vec![data(0, 10), data(1, 11), watermark(1)];
    for m in &input {
        let bytes = encode_message(m).unwrap();
        pusher.send_from_bytes(&mut channels, &bytes).unwrap();
    }
    for ch in [a, b] {
        let mut got: Vec<Message<u64>> = Vec::new();
        while let Some(m) = channels.pop_from(ch) {
            got.push(m);
        }
        assert_eq!(got.len(), 3);
        assert_eq!(got[0].data(), Some(&10));
        assert_eq!(got[1].data(), Some(&11));
        assert!(got[2].is_watermark_msg());
    }
}

/// A malformed body fails the frame but poisons nothing.
#[test]
fn pusher_drops_malformed_frame() {
    let mut channels: Channels<u64> = Channels::new();
    let a = channels.open_channel();
    let mut pusher: Pusher<u64> = Pusher::new(sid(5));
    pusher.add_endpoint(Job::Driver, a);
    assert_eq!(
        pusher.send_from_bytes(&mut channels, &vec![9u8, 9, 9]),
        Err(CommunicationError::Serialization)
    );
    assert!(channels.pop_from(a).is_none());
    // the pusher still works afterwards
    let bytes = encode_message(&data(0, 1)).unwrap();
    pusher.send_from_bytes(&mut channels, &bytes).unwrap();
    assert!(channels.pop_from(a).is_some());
}

/// A frame for a stream with no installed pusher is a protocol error; after
/// the install, frames flow; after an update, the new destination receives
/// from the next frame on, with no duplicates for the old one.
#[test]
fn pusher_install_precedes_data() {
    let mut channels: Channels<u64> = Channels::new();
    let stream = sid(6);
    let meta = MessageMetadata { stream_id: stream, sender_worker_id: Uuid::new(1, 1) };
    let mut receiver: DataReceiver<u64> = DataReceiver::new(Uuid::new(1, 2));
    let bytes = encode_message(&data(0, 7)).unwrap();

    // no pusher installed: the frame must not be dispatched
    assert_eq!(
        receiver.process_frame(&mut channels, meta, &bytes),
        Err(CommunicationError::Protocol)
    );

    // install, then dispatch
    let a = channels.open_channel();
    let mut pusher: Pusher<u64> = Pusher::new(stream);
    pusher.add_endpoint(Job::Operator(Uuid::new(3, 1)), a);
    receiver.install_pusher(stream, pusher);
    receiver.process_frame(&mut channels, meta, &bytes).unwrap();
    assert!(channels.pop_from(a).is_some());
    assert!(channels.pop_from(a).is_none());

    // update with a second destination: it receives from the next frame on
    let b = channels.open_channel();
    let mut pusher2: Pusher<u64> = Pusher::new(stream);
    pusher2.add_endpoint(Job::Operator(Uuid::new(3, 1)), a);
    pusher2.add_endpoint(Job::Operator(Uuid::new(3, 2)), b);
    receiver.install_pusher(stream, pusher2);
    let bytes2 = encode_message(&data(1, 8)).unwrap();
    receiver.process_frame(&mut channels, meta, &bytes2).unwrap();
    let got_a = channels.pop_from(a).unwrap();
    assert_eq!(got_a.data(), Some(&8));
    assert!(channels.pop_from(a).is_none());
    let got_b = channels.pop_from(b).unwrap();
    assert_eq!(got_b.data(), Some(&8));
    assert!(channels.pop_from(b).is_none());
}

/// The executor drains its read stream in arrival order.
#[test]
fn executor_drains_in_order() {
    let mut channels: Channels<u64> = Channels::new();
    let mut manager: StreamManager<u64> = StreamManager::new(Uuid::new(1, 1));
    let stream = sid(7);
    manager.add_inter_thread_channel(&mut channels, stream, b"s".to_vec(), Job::Driver);
    let mut ws = manager.write_stream(stream).unwrap();
    let rs = manager.take_read_stream(stream).unwrap();
    ws.send(&mut channels, data(0, 1)).unwrap();
    ws.send(&mut channels, data(0, 2)).unwrap();
    ws.send(&mut channels, watermark(0)).unwrap();

    let mut exec = OperatorExecutor::new(Some(rs), None, None, None);
    let drained = exec.execute(&mut channels);
    assert_eq!(drained.len(), 3);
    assert_eq!(drained[0].data(), Some(&1));
    assert_eq!(drained[1].data(), Some(&2));
    assert!(drained[2].is_watermark_msg());
}

/// Two workers, one stream: the wire carries one frame per message, in send
/// order — the data frames and watermark frames of the input sequence.
#[test]
fn wire_carries_frames_in_order() {
    let meta = MessageMetadata { stream_id: sid(8), sender_worker_id: Uuid::new(1, 1) };
    let input = vec![data(0, 0), watermark(0), data(1, 1), watermark(1), top()];
    let mut wire: Vec<u8> = Vec::new();
    for m in &input {
        let body = encode_message(m).unwrap();
        let frame = encode_inter_worker_message(&InterWorkerMessage::Data {
            metadata: meta,
            bytes: body,
        })
        .unwrap();
        write_frame(&mut wire, &frame);
    }

    let mut pos = 0usize;
    let mut kinds: Vec<(bool, bool)> = Vec::new();
    while pos < wire.len() {
        match read_frame(&wire, pos) {
            FrameOutcome::Frame(payload, next) => {
                pos = next;
                match decode_inter_worker_message(&payload, 0) {
                    Some((InterWorkerMessage::Data { metadata, bytes }, _)) => {
                        assert_eq!(metadata, meta);
                        let m: Message<u64> = decode_message(&bytes).unwrap();
                        kinds.push((m.is_watermark_msg(), m.is_top_watermark_msg()));
                    }
                    _ => panic!("expected a data frame"),
                }
            }
            _ => panic!("expected a complete frame"),
        }
    }
    assert_eq!(
        kinds,
        vec![(false, false), (true, false), (false, false), (true, false), (true, true)]
    );
}

/// An ingest stream counts as closed until its write half is set up, then
/// carries driver messages into the dataflow.
#[test]
fn ingest_stream_waits_for_setup() {
    let mut channels: Channels<u64> = Channels::new();
    let mut ingest: IngestStream<u64> = IngestStream::new(sid(9));
    assert!(ingest.is_closed());
    assert_eq!(ingest.send(&mut channels, data(0, 1)), Err(SendError::Closed));

    let mut manager: StreamManager<u64> = StreamManager::new(Uuid::new(1, 1));
    manager.add_inter_thread_channel(&mut channels, sid(9), b"in".to_vec(), Job::Driver);
    let ws = manager.write_stream(sid(9)).unwrap();
    let mut rs = manager.take_read_stream(sid(9)).unwrap();
    ingest.set_write_stream(ws);
    assert!(!ingest.is_closed());
    ingest.send(&mut channels, data(0, 5)).unwrap();
    match rs.read(&mut channels) {
        ReadOutcome::Msg(m) => assert_eq!(m.data(), Some(&5)),
        _ => panic!("the sent message arrives"),
    }
}

/// An executor on a closed stream yields nothing further.
#[test]
fn executor_yields_nothing_after_close() {
    let mut channels: Channels<u64> = Channels::new();
    let mut manager: StreamManager<u64> = StreamManager::new(Uuid::new(1, 1));
    let stream = sid(10);
    manager.add_inter_thread_channel(&mut channels, stream, b"s".to_vec(), Job::Driver);
    let mut ws = manager.write_stream(stream).unwrap();
    let rs = manager.take_read_stream(stream).unwrap();
    ws.send(&mut channels, data(0, 1)).unwrap();
    ws.send(&mut channels, top()).unwrap();

    let mut exec = OperatorExecutor::new(Some(rs), None, None, None);
    let drained = exec.execute(&mut channels);
    assert_eq!(drained.len(), 2);
    assert!(drained[1].is_top_watermark_msg());
    // the stream is closed now: a further pass yields nothing
    let nothing = exec.execute(&mut channels);
    assert!(nothing.is_empty());
}

/// When a peer dies, its conduits are closed: queued messages still drain,
/// then readers observe the end of the stream.
#[test]
fn reader_of_lost_peer_stream_observes_closed() {
    let mut channels: Channels<u64> = Channels::new();
    let mut manager: StreamManager<u64> = StreamManager::new(Uuid::new(1, 1));
    let stream = sid(11);
    manager.add_inter_thread_channel(&mut channels, stream, b"s".to_vec(), Job::Driver);
    let mut ws = manager.write_stream(stream).unwrap();
    let mut rs = manager.take_read_stream(stream).unwrap();
    ws.send(&mut channels, data(0, 9)).unwrap();

    // the data plane loses the peer feeding this conduit
    let ch = rs.channel_index();
    channels.close_channel(ch);

    // the queued message drains first, then the stream ends
    match rs.read(&mut channels) {
        ReadOutcome::Msg(m) => assert_eq!(m.data(), Some(&9)),
        _ => panic!("the queued message drains first"),
    }
    assert!(matches!(rs.read(&mut channels), ReadOutcome::Closed));
    assert!(matches!(rs.read(&mut channels), ReadOutcome::Closed));
}

/// The driver extracts a stream's output through an egress stream.
#[test]
fn egress_stream_extracts_output() {
    let op_stream: OperatorStream<u64> =
        OperatorStream::new(sid(12), "outputs", JobGraphId(Uuid::new(4, 4)));
    let mut egress = op_stream.to_egress();
    let mut channels: Channels<u64> = Channels::new();
    // nothing to read before the read half is installed
    assert!(matches!(egress.read(&mut channels), ReadOutcome::Empty));

    let mut manager: StreamManager<u64> = StreamManager::new(Uuid::new(1, 1));
    manager.add_inter_thread_channel(&mut channels, sid(12), b"out".to_vec(), Job::Driver);
    let mut ws = manager.write_stream(sid(12)).unwrap();
    let rs = manager.take_read_stream(sid(12)).unwrap();
    egress.set_read_stream(rs);
    ws.send(&mut channels, data(0, 3)).unwrap();
    match egress.read(&mut channels) {
        ReadOutcome::Msg(m) => assert_eq!(m.data(), Some(&3)),
        _ => panic!("the sent message is extracted"),
    }
    assert!(matches!(egress.read(&mut channels), ReadOutcome::Empty));
}
