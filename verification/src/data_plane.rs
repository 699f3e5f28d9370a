//! The inter-worker data plane: the framed wire vocabulary (peer handshake
//! and data frames) and the notifications the data plane exchanges with the
//! worker supervisor.

use vstd::prelude::*;

use crate::codec::{
    dec_bytes, dec_u8, dec_uuid, enc_bytes, enc_u8, enc_uuid, lemma_dec_enc_bytes,
    lemma_dec_enc_u8, lemma_dec_enc_uuid, lemma_subrange_parts, read_bytes, read_u8, read_uuid,
    write_bytes, write_u8, write_uuid,
};
use crate::control_plane::WorkerAddress;
use crate::graph::{AbstractStream, AbstractStreamVal, Job};
use crate::ids::{StreamId, WorkerId};

verus! {

/// What a data frame says about itself: which stream it belongs to and which
/// worker sent it.
#[derive(Clone, Copy, PartialEq, Eq, Structural, Debug)]
pub struct MessageMetadata {
    pub stream_id: StreamId,
    pub sender_worker_id: WorkerId,
}

/// A message on the wire between two workers: the one-off peer handshake, or
/// a data frame carrying an operator's serialized message.
pub enum InterWorkerMessage {
    /// The handshake a dialing worker sends first: its own identity.
    Ehlo { worker_id: WorkerId },
    /// A data frame: metadata and the serialized message body.
    Data { metadata: MessageMetadata, bytes: Vec<u8> },
}

/// The mathematical value of an inter-worker message.
pub enum InterWorkerMessageVal {
    Ehlo { worker_id: WorkerId },
    Data { metadata: MessageMetadata, bytes: Seq<u8> },
}

impl View for InterWorkerMessage {
    type V = InterWorkerMessageVal;

    open spec fn view(&self) -> InterWorkerMessageVal {
        match self {
            InterWorkerMessage::Ehlo { worker_id } => InterWorkerMessageVal::Ehlo {
                worker_id: *worker_id,
            },
            InterWorkerMessage::Data { metadata, bytes } => InterWorkerMessageVal::Data {
                metadata: *metadata,
                bytes: bytes@,
            },
        }
    }
}

pub open spec fn enc_metadata(m: MessageMetadata) -> Seq<u8> {
    enc_uuid(m.stream_id) + enc_uuid(m.sender_worker_id)
}

pub open spec fn dec_metadata(s: Seq<u8>, pos: int) -> Option<(MessageMetadata, int)> {
    match dec_uuid(s, pos) {
        Some((stream_id, p1)) => match dec_uuid(s, p1) {
            Some((sender_worker_id, p2)) => Some((
                MessageMetadata { stream_id, sender_worker_id },
                p2,
            )),
            None => None,
        },
        None => None,
    }
}

pub open spec fn enc_inter_worker_message(m: InterWorkerMessageVal) -> Seq<u8> {
    match m {
        InterWorkerMessageVal::Ehlo { worker_id } => seq![0u8] + enc_uuid(worker_id),
        InterWorkerMessageVal::Data { metadata, bytes } => seq![1u8] + enc_metadata(metadata)
            + enc_bytes(bytes),
    }
}

pub open spec fn dec_inter_worker_message(s: Seq<u8>, pos: int) -> Option<(
    InterWorkerMessageVal,
    int,
)> {
    match dec_u8(s, pos) {
        Some((tag, p)) => if tag == 0 {
            match dec_uuid(s, p) {
                Some((worker_id, p2)) => Some((InterWorkerMessageVal::Ehlo { worker_id }, p2)),
                None => None,
            }
        } else if tag == 1 {
            match dec_metadata(s, p) {
                Some((metadata, p2)) => match dec_bytes(s, p2) {
                    Some((bytes, p3)) => Some((
                        InterWorkerMessageVal::Data { metadata, bytes },
                        p3,
                    )),
                    None => None,
                },
                None => None,
            }
        } else {
            None
        },
        None => None,
    }
}

/// Whether a data message fits on the wire.
pub open spec fn encodable_inter_worker_message(m: InterWorkerMessageVal) -> bool {
    match m {
        InterWorkerMessageVal::Ehlo { .. } => true,
        InterWorkerMessageVal::Data { bytes, .. } => bytes.len() <= u32::MAX,
    }
}

pub proof fn lemma_dec_enc_metadata(s: Seq<u8>, pos: int, m: MessageMetadata)
    requires
        0 <= pos,
        pos + enc_metadata(m).len() <= s.len(),
        s.subrange(pos, pos + enc_metadata(m).len()) == enc_metadata(m),
    ensures
        dec_metadata(s, pos) == Some((m, pos + enc_metadata(m).len())),
{
    lemma_subrange_parts(s, pos, enc_uuid(m.stream_id), enc_uuid(m.sender_worker_id));
    lemma_dec_enc_uuid(s, pos, m.stream_id);
    lemma_dec_enc_uuid(s, pos + 16, m.sender_worker_id);
}

pub proof fn lemma_dec_enc_inter_worker_message(s: Seq<u8>, pos: int, m: InterWorkerMessageVal)
    requires
        0 <= pos,
        encodable_inter_worker_message(m),
        pos + enc_inter_worker_message(m).len() <= s.len(),
        s.subrange(pos, pos + enc_inter_worker_message(m).len()) == enc_inter_worker_message(m),
    ensures
        dec_inter_worker_message(s, pos)
            == Some((m, pos + enc_inter_worker_message(m).len())),
{
    match m {
        InterWorkerMessageVal::Ehlo { worker_id } => {
            lemma_subrange_parts(s, pos, seq![0u8], enc_uuid(worker_id));
            lemma_dec_enc_u8(s, pos, 0u8);
            lemma_dec_enc_uuid(s, pos + 1, worker_id);
        }
        InterWorkerMessageVal::Data { metadata, bytes } => {
            let e1 = enc_metadata(metadata);
            let e2 = enc_bytes(bytes);
            assert(enc_inter_worker_message(m) == seq![1u8] + (e1 + e2)) by {
                assert(seq![1u8] + e1 + e2 =~= seq![1u8] + (e1 + e2));
            }
            lemma_subrange_parts(s, pos, seq![1u8], e1 + e2);
            lemma_subrange_parts(s, pos + 1, e1, e2);
            lemma_dec_enc_u8(s, pos, 1u8);
            lemma_dec_enc_metadata(s, pos + 1, metadata);
            lemma_dec_enc_bytes(s, pos + 1 + e1.len(), bytes);
        }
    }
}

/// Decoding an encoded inter-worker message yields the message back,
/// whatever follows it in the buffer.
pub proof fn lemma_inter_worker_message_round_trip(m: InterWorkerMessageVal, rest: Seq<u8>)
    requires
        encodable_inter_worker_message(m),
    ensures
        dec_inter_worker_message(enc_inter_worker_message(m) + rest, 0)
            == Some((m, enc_inter_worker_message(m).len() as int)),
{
    let s = enc_inter_worker_message(m) + rest;
    assert(s.subrange(0, enc_inter_worker_message(m).len() as int)
        =~= enc_inter_worker_message(m));
    lemma_dec_enc_inter_worker_message(s, 0, m);
}

/// Encodes an inter-worker message; yields the bytes exactly when the body
/// fits its 32-bit wire prefix.
pub fn encode_inter_worker_message(m: &InterWorkerMessage) -> (r: Option<Vec<u8>>)
    ensures
        match r {
            Some(bytes) => encodable_inter_worker_message(m@)
                && bytes@ == enc_inter_worker_message(m@),
            None => !encodable_inter_worker_message(m@),
        },
{
    let mut out: Vec<u8> = Vec::new();
    match m {
        InterWorkerMessage::Ehlo { worker_id } => {
            write_u8(&mut out, 0);
            write_uuid(&mut out, worker_id);
            proof {
                assert(out@ =~= enc_inter_worker_message(m@));
            }
            Some(out)
        }
        InterWorkerMessage::Data { metadata, bytes } => {
            if bytes.len() > u32::MAX as usize {
                return None;
            }
            write_u8(&mut out, 1);
            write_uuid(&mut out, &metadata.stream_id);
            write_uuid(&mut out, &metadata.sender_worker_id);
            let ok = write_bytes(&mut out, bytes);
            proof {
                assert(ok);
                assert(out@ =~= enc_inter_worker_message(m@));
            }
            Some(out)
        }
    }
}

/// Decodes one inter-worker message; yields it exactly when the bytes hold
/// an encoding at this position.
pub fn decode_inter_worker_message(b: &Vec<u8>, pos: usize) -> (r: Option<(
    InterWorkerMessage,
    usize,
)>)
    ensures
        match r {
            Some((m, p)) => dec_inter_worker_message(b@, pos as int) == Some((m@, p as int)),
            None => dec_inter_worker_message(b@, pos as int) is None,
        },
{
    match read_u8(b, pos) {
        Some((tag, p)) => {
            if tag == 0 {
                match read_uuid(b, p) {
                    Some((worker_id, p2)) => Some((InterWorkerMessage::Ehlo { worker_id }, p2)),
                    None => None,
                }
            } else if tag == 1 {
                match read_uuid(b, p) {
                    Some((stream_id, p2)) => match read_uuid(b, p2) {
                        Some((sender_worker_id, p3)) => match read_bytes(b, p3) {
                            Some((bytes, p4)) => Some((
                                InterWorkerMessage::Data {
                                    metadata: MessageMetadata { stream_id, sender_worker_id },
                                    bytes,
                                },
                                p4,
                            )),
                            None => None,
                        },
                        None => None,
                    },
                    None => None,
                }
            } else {
                None
            }
        }
        None => None,
    }
}

/// One stream-setup instruction the worker supervisor hands the data plane
/// when a job is scheduled.
pub enum StreamType {
    /// Materialize a read stream; the address names the worker executing the
    /// stream's source.
    ReadStream(AbstractStream, WorkerAddress),
    /// Materialize a write stream; the addresses name the workers executing
    /// each destination.
    WriteStream(AbstractStream, Vec<(Job, WorkerAddress)>),
}

/// The mathematical value of a stream-setup instruction.
pub enum StreamTypeVal {
    ReadStream(AbstractStreamVal, WorkerAddress),
    WriteStream(AbstractStreamVal, Seq<(Job, WorkerAddress)>),
}

impl View for StreamType {
    type V = StreamTypeVal;

    open spec fn view(&self) -> StreamTypeVal {
        match self {
            StreamType::ReadStream(st, a) => StreamTypeVal::ReadStream(st@, *a),
            StreamType::WriteStream(st, addrs) => StreamTypeVal::WriteStream(st@, addrs@),
        }
    }
}

/// The stream a setup instruction concerns.
pub open spec fn stream_type_id(st: StreamTypeVal) -> StreamId {
    match st {
        StreamTypeVal::ReadStream(s, _) => s.id,
        StreamTypeVal::WriteStream(s, _) => s.id,
    }
}

impl StreamType {
    pub fn id(&self) -> (r: StreamId)
        ensures
            r == stream_type_id(self@),
    {
        match self {
            StreamType::ReadStream(st, _) => st.id(),
            StreamType::WriteStream(st, _) => st.id(),
        }
    }
}

/// Notifications between the data plane and the worker supervisor.
pub enum DataPlaneNotification {
    /// Ask the data plane to materialize these streams for a job.
    SetupStreams(Job, Vec<StreamType>),
    /// A stream of the job is materialized; counts toward job readiness.
    StreamReady(Job, StreamId),
    /// A peer's receiver must install the pusher for this stream before any
    /// frame of the stream arrives.
    InstallPusher(StreamId),
    /// A peer's receiver must re-read the shared pusher before dispatching
    /// its next frame.
    UpdatePusher(StreamId),
    /// A receiver applied a pusher update.
    PusherUpdated(StreamId),
    /// A peer connection's receiving half is up.
    ReceiverInitialized(WorkerId),
    /// A peer connection's sending half is up.
    SenderInitialized(WorkerId),
}

} // verus!
