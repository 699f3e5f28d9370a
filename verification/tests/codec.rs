//! Round trips and failure cases of the framed codecs.

use erdos::codec::{read_frame, write_frame, FrameOutcome};
use erdos::control_codec::{
    decode_leader_notification, decode_worker_notification, encode_leader_notification,
    encode_worker_notification,
};
use erdos::control_plane::{
    decode_control_plane_notification, encode_control_plane_notification,
    ControlPlaneNotification, LeaderNotification, Resources, WorkerAddress, WorkerNotification,
    WorkerState,
};
use erdos::data_plane::{
    decode_inter_worker_message, encode_inter_worker_message, InterWorkerMessage,
    MessageMetadata,
};
use erdos::graph::{Graph, Job, JobGraphId, OperatorConfig};
use erdos::ids::Uuid;
use erdos::message::Message;
use erdos::message_codec::{decode_message, encode_message};
use erdos::timestamp::Timestamp;

fn wid(n: u64) -> Uuid {
    Uuid::new(7, n)
}

#[test]
fn control_plane_notification_round_trip() {
    for m in [
        ControlPlaneNotification::Ready(wid(3)),
        ControlPlaneNotification::Testing,
    ] {
        let bytes = encode_control_plane_notification(&m);
        let (back, used) = decode_control_plane_notification(&bytes, 0).unwrap();
        assert_eq!(back, m);
        assert_eq!(used, bytes.len());
    }
}

#[test]
fn control_plane_notification_rejects_bad_tag() {
    let bytes = vec![9u8, 0, 0];
    assert!(decode_control_plane_notification(&bytes, 0).is_none());
}

#[test]
fn worker_notification_round_trip_flat() {
    let state = WorkerState::new(
        wid(1),
        WorkerAddress { ip: 0x7f000001, port: 4444 },
        Resources::new(2, 0),
    );
    let m = WorkerNotification::Initialized(state);
    let bytes = encode_worker_notification(&m).unwrap();
    let (back, used) = decode_worker_notification(&bytes, 0).unwrap();
    assert_eq!(used, bytes.len());
    match back {
        WorkerNotification::Initialized(s2) => assert_eq!(s2, state),
        _ => panic!("wrong variant"),
    }

    let m = WorkerNotification::JobReady(JobGraphId(wid(9)), Job::Operator(wid(5)));
    let bytes = encode_worker_notification(&m).unwrap();
    let (back, _) = decode_worker_notification(&bytes, 0).unwrap();
    match back {
        WorkerNotification::JobReady(g, j) => {
            assert_eq!(g, JobGraphId(wid(9)));
            assert_eq!(j, Job::Operator(wid(5)));
        }
        _ => panic!("wrong variant"),
    }

    let bytes = encode_worker_notification(&WorkerNotification::Shutdown).unwrap();
    assert!(matches!(
        decode_worker_notification(&bytes, 0),
        Some((WorkerNotification::Shutdown, _))
    ));
}

#[test]
fn worker_notification_round_trip_submit_graph() {
    let mut g = Graph::new("two-step");
    let (src_id, stream) = g.connect_source(OperatorConfig::new().name("numbers"));
    let sink_id = g.connect_sink(OperatorConfig::new().name("collector"), &stream);
    let gid = g.id();
    let jg = g.compile().unwrap();
    let m = WorkerNotification::SubmitGraph(gid, jg);
    let bytes = encode_worker_notification(&m).unwrap();
    let (back, used) = decode_worker_notification(&bytes, 0).unwrap();
    assert_eq!(used, bytes.len());
    match back {
        WorkerNotification::SubmitGraph(g2, jg2) => {
            assert_eq!(g2, gid);
            assert_eq!(jg2.id(), gid);
            assert_eq!(jg2.num_operators(), 2);
            assert_eq!(jg2.num_streams(), 1);
            assert!(jg2.get_job(&Job::Operator(src_id)).is_some());
            assert!(jg2.get_job(&Job::Operator(sink_id)).is_some());
            let st = jg2.get_stream(&stream.id()).unwrap();
            assert_eq!(st.get_source(), Some(Job::Operator(src_id)));
            assert_eq!(st.get_destinations(), vec![Job::Operator(sink_id)]);
        }
        _ => panic!("wrong variant"),
    }
}

#[test]
fn leader_notification_round_trip() {
    let addrs = vec![
        (Job::Operator(wid(5)), WorkerAddress { ip: 1, port: 2 }),
        (Job::Driver, WorkerAddress { ip: 3, port: 4 }),
    ];
    let m = LeaderNotification::ScheduleJob(JobGraphId(wid(9)), Job::Operator(wid(5)), addrs.clone());
    let bytes = encode_leader_notification(&m).unwrap();
    let (back, used) = decode_leader_notification(&bytes, 0).unwrap();
    assert_eq!(used, bytes.len());
    match back {
        LeaderNotification::ScheduleJob(g, j, a) => {
            assert_eq!(g, JobGraphId(wid(9)));
            assert_eq!(j, Job::Operator(wid(5)));
            assert_eq!(a, addrs);
        }
        _ => panic!("wrong variant"),
    }

    let bytes =
        encode_leader_notification(&LeaderNotification::ExecuteGraph(JobGraphId(wid(9)))).unwrap();
    assert!(matches!(
        decode_leader_notification(&bytes, 0),
        Some((LeaderNotification::ExecuteGraph(_), _))
    ));
    let bytes = encode_leader_notification(&LeaderNotification::Shutdown).unwrap();
    assert!(matches!(
        decode_leader_notification(&bytes, 0),
        Some((LeaderNotification::Shutdown, _))
    ));
}

#[test]
fn inter_worker_message_round_trip() {
    let m = InterWorkerMessage::Ehlo { worker_id: wid(4) };
    let bytes = encode_inter_worker_message(&m).unwrap();
    match decode_inter_worker_message(&bytes, 0) {
        Some((InterWorkerMessage::Ehlo { worker_id }, used)) => {
            assert_eq!(worker_id, wid(4));
            assert_eq!(used, bytes.len());
        }
        _ => panic!("wrong decode"),
    }

    let meta = MessageMetadata { stream_id: wid(11), sender_worker_id: wid(4) };
    let m = InterWorkerMessage::Data { metadata: meta, bytes: vec![1, 2, 3] };
    let bytes = encode_inter_worker_message(&m).unwrap();
    match decode_inter_worker_message(&bytes, 0) {
        Some((InterWorkerMessage::Data { metadata, bytes: body }, used)) => {
            assert_eq!(metadata, meta);
            assert_eq!(body, vec![1, 2, 3]);
            assert_eq!(used, bytes.len());
        }
        _ => panic!("wrong decode"),
    }
}

#[test]
fn frame_round_trip_and_incomplete() {
    let payload = vec![5u8, 6, 7, 8];
    let mut wire: Vec<u8> = Vec::new();
    write_frame(&mut wire, &payload);
    assert_eq!(wire.len(), 4 + payload.len());
    match read_frame(&wire, 0) {
        FrameOutcome::Frame(body, next) => {
            assert_eq!(body, payload);
            assert_eq!(next, wire.len());
        }
        _ => panic!("expected a frame"),
    }
    // a truncated frame asks for more bytes
    let partial = wire[..wire.len() - 1].to_vec();
    assert!(matches!(read_frame(&partial, 0), FrameOutcome::NeedMoreData));
    // an advertised length over the cap breaks the connection
    let huge = vec![0xffu8, 0xff, 0xff, 0xff];
    assert!(matches!(read_frame(&huge, 0), FrameOutcome::Oversized));
}

#[test]
fn message_round_trip() {
    let msgs: Vec<Message<u64>> = vec![
        Message::new_message(Timestamp::Time(vec![0]), 17u64),
        Message::new_watermark(Timestamp::Time(vec![0])),
        Message::new_watermark(Timestamp::Top),
    ];
    for m in msgs {
        let bytes = encode_message(&m).unwrap();
        let back: Message<u64> = decode_message(&bytes).unwrap();
        assert_eq!(back.timestamp(), m.timestamp());
        assert_eq!(back.is_watermark_msg(), m.is_watermark_msg());
        assert_eq!(back.is_top_watermark_msg(), m.is_top_watermark_msg());
        assert_eq!(back.data(), m.data());
    }
    // garbage does not decode
    assert!(decode_message::<u64>(&vec![42u8, 0, 0]).is_none());
}
