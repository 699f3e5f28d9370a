//! The receiving side of the data plane: pushers that deserialize a frame
//! once and multicast it to local destinations, and the per-peer receiver
//! that dispatches frames only through an installed pusher.

use vstd::prelude::*;

use crate::data_plane::MessageMetadata;
use crate::graph::Job;
use crate::ids::{StreamId, WorkerId};
use crate::message::{Data, MessageVal};
use crate::message_codec::{dec_message_frame, decode_message, frame_of, MessageFrame};
use crate::stream::Channels;
use crate::table::Table;

verus! {

/// Why a data-plane step failed.
#[derive(Clone, Copy, PartialEq, Eq, Structural, Debug)]
pub enum CommunicationError {
    /// A frame arrived for a stream with no installed pusher, or a malformed
    /// frame; the connection is torn down.
    Protocol,
    /// The other side of a conduit or socket is gone.
    Disconnected,
    /// One frame failed to decode; it is dropped and the connection lives on.
    Serialization,
}

/// Delivers one stream's inbound frames to every local destination: the
/// frame body is deserialized once and the message pushed to each
/// destination's conduit.
pub struct Pusher<D> {
    stream_id: StreamId,
    endpoints: Table<Job, usize>,
    phantom: core::marker::PhantomData<D>,
}

/// The frame body does not decode as exactly one message of payload type `D`.
pub open spec fn frame_undecodable<D: Data>(bytes: Seq<u8>) -> bool {
    match dec_message_frame(bytes, 0) {
        None => true,
        Some((f, p)) => p != bytes.len() || (f matches MessageFrame::DataFrame(_, payload)
            && forall|d: D| (#[trigger] d.spec_bytes()) != payload),
    }
}

/// The effect of one successful dispatch: some message whose wire shape is
/// the whole frame body was pushed to every destination conduit of the
/// pusher, and no other conduit changed.
pub open spec fn multicast_effect<D: Data>(
    p: Pusher<D>,
    ch0: Channels<D>,
    ch1: Channels<D>,
    bytes: Seq<u8>,
) -> bool {
    &&& ch1.len() == ch0.len()
    &&& exists|mv: MessageVal<D>|
        #![trigger frame_of(mv)]
        {
            &&& (dec_message_frame(bytes, 0) matches Some((f, q))
                && q == bytes.len() && f == frame_of(mv))
            &&& forall|i: int| 0 <= i < p.spec_endpoints().len()
                ==> ch1.pushed_at((#[trigger] p.spec_endpoints()[i]).1 as int)
                    == ch0.pushed_at(p.spec_endpoints()[i].1 as int).push(mv)
            &&& forall|k: int| 0 <= k < ch0.len()
                ==> ((exists|i: int| 0 <= i < p.spec_endpoints().len()
                    && (#[trigger] p.spec_endpoints()[i]).1 == k)
                    || ch1.spec_channels()[k] == ch0.spec_channels()[k])
        }
}

/// The destination conduits are in range and pairwise distinct.
pub open spec fn pusher_endpoints_ok<D: Data>(p: &Pusher<D>, n: int) -> bool {
    &&& forall|i: int| 0 <= i < p.spec_endpoints().len()
        ==> 0 <= (#[trigger] p.spec_endpoints()[i]).1 < n
    &&& forall|i: int, j: int| 0 <= i < j < p.spec_endpoints().len()
        ==> p.spec_endpoints()[i].1 != p.spec_endpoints()[j].1
}

impl<D: Data> Pusher<D> {
    pub closed spec fn spec_stream_id(&self) -> StreamId {
        self.stream_id
    }

    /// The destinations, in installation order.
    pub closed spec fn spec_endpoints(&self) -> Seq<(Job, usize)> {
        self.endpoints.entry_seq()
    }

    pub closed spec fn endpoint_map(&self) -> Map<Job, usize> {
        self.endpoints@
    }

    pub fn new(stream_id: StreamId) -> (r: Pusher<D>)
        ensures
            r.spec_stream_id() == stream_id,
            r.spec_endpoints() == Seq::<(Job, usize)>::empty(),
            r.endpoint_map() == Map::<Job, usize>::empty(),
    {
        Pusher {
            stream_id,
            endpoints: Table::new(),
            phantom: core::marker::PhantomData,
        }
    }

    pub fn stream_id(&self) -> (r: StreamId)
        ensures
            r == self.spec_stream_id(),
    {
        self.stream_id
    }

    /// Registers a destination; registering the same job again replaces its
    /// conduit, so the operation is idempotent per destination.
    pub fn add_endpoint(&mut self, job: Job, channel: usize)
        ensures
            final(self).spec_stream_id() == old(self).spec_stream_id(),
            final(self).endpoint_map() == old(self).endpoint_map().insert(job, channel),
    {
        self.endpoints.insert(job, channel);
    }

    /// Deserializes a frame body once and forwards the message to every
    /// destination.  A body that does not decode fails the frame but leaves
    /// the conduits untouched.
    #[verifier::loop_isolation(false)]
    pub fn send_from_bytes(&self, channels: &mut Channels<D>, bytes: &Vec<u8>) -> (r: Result<
        (),
        CommunicationError,
    >)
        requires
            pusher_endpoints_ok(self, old(channels).len()),
        ensures
            final(channels).len() == old(channels).len(),
            // dispatch is owed exactly when the body decodes as one message
            r is Ok <==> !frame_undecodable::<D>(bytes@),
            match r {
                Ok(()) => multicast_effect(
                    *self,
                    *old(channels),
                    *final(channels),
                    bytes@,
                ),
                Err(e) => {
                    &&& e == CommunicationError::Serialization
                    &&& frame_undecodable::<D>(bytes@)
                    &&& final(channels).spec_channels() == old(channels).spec_channels()
                },
            },
    {
        let msg = match decode_message::<D>(bytes) {
            Some(m) => m,
            None => {
                return Err(CommunicationError::Serialization);
            }
        };
        let ghost mv = msg@;
        proof {
            // the decoded message witnesses that the body is decodable
            match mv {
                MessageVal::Data(_, d0) => {
                    assert(frame_of(mv) matches MessageFrame::DataFrame(_, payload)
                        && d0.spec_bytes() == payload);
                }
                MessageVal::Watermark(_) => {}
            }
            assert(!frame_undecodable::<D>(bytes@));
        }
        let n = self.endpoints.num_entries();
        let mut i: usize = 0;
        while i < n
            invariant
                i <= n,
                n == self.spec_endpoints().len(),
                channels.len() == old(channels).len(),
                forall|t: int| 0 <= t < i
                    ==> channels.pushed_at((#[trigger] self.spec_endpoints()[t]).1 as int)
                        == old(channels).pushed_at(self.spec_endpoints()[t].1 as int)
                            .push(mv),
                forall|t: int| i <= t < n
                    ==> channels.pushed_at((#[trigger] self.spec_endpoints()[t]).1 as int)
                        == old(channels).pushed_at(self.spec_endpoints()[t].1 as int),
                forall|k: int| 0 <= k < old(channels).len()
                    ==> ((exists|t: int| 0 <= t < n
                        && (#[trigger] self.spec_endpoints()[t]).1 == k)
                        || channels.spec_channels()[k] == old(channels).spec_channels()[k]),
            decreases n - i,
        {
            let ch = self.endpoints.entry_at(i).1;
            channels.push_to(ch, msg.clone_message());
            i = i + 1;
        }
        Ok(())
    }
}

/// The receiving half of one peer connection.  It dispatches each inbound
/// frame through the pusher installed for the frame's stream; a frame whose
/// stream has no pusher is a protocol error, because a pusher must be
/// installed at a strictly earlier instant than any frame of its stream.
pub struct DataReceiver<D> {
    node_id: WorkerId,
    stream_id_to_pusher: Table<StreamId, Pusher<D>>,
}

impl<D: Data> DataReceiver<D> {
    pub closed spec fn spec_node_id(&self) -> WorkerId {
        self.node_id
    }

    pub closed spec fn pushers(&self) -> Map<StreamId, Pusher<D>> {
        self.stream_id_to_pusher@
    }

    pub fn new(node_id: WorkerId) -> (r: DataReceiver<D>)
        ensures
            r.spec_node_id() == node_id,
            r.pushers() == Map::<StreamId, Pusher<D>>::empty(),
    {
        DataReceiver { node_id, stream_id_to_pusher: Table::new() }
    }

    /// Applies an install or update for one stream's pusher.  Only this
    /// operation makes a stream dispatchable.
    pub fn install_pusher(&mut self, stream_id: StreamId, pusher: Pusher<D>)
        ensures
            final(self).spec_node_id() == old(self).spec_node_id(),
            final(self).pushers() == old(self).pushers().insert(stream_id, pusher),
    {
        self.stream_id_to_pusher.insert(stream_id, pusher);
    }

    /// Dispatches one inbound frame.  The frame reaches destination conduits
    /// only when a pusher for its stream was installed earlier, and then it
    /// behaves exactly as that pusher's dispatch; otherwise the frame is a
    /// protocol error and nothing is dispatched.
    pub fn process_frame(
        &self,
        channels: &mut Channels<D>,
        metadata: MessageMetadata,
        bytes: &Vec<u8>,
    ) -> (r: Result<(), CommunicationError>)
        requires
            forall|sid: StreamId| self.pushers().contains_key(sid)
                ==> pusher_endpoints_ok(&self.pushers()[sid], old(channels).len()),
        ensures
            final(channels).len() == old(channels).len(),
            r is Ok <==> (self.pushers().contains_key(metadata.stream_id)
                && !frame_undecodable::<D>(bytes@)),
            !self.pushers().contains_key(metadata.stream_id)
                ==> (r == Err::<(), CommunicationError>(CommunicationError::Protocol)
                    && final(channels).spec_channels() == old(channels).spec_channels()),
            (self.pushers().contains_key(metadata.stream_id) ==> match r {
                Ok(()) => multicast_effect(
                    self.pushers()[metadata.stream_id],
                    *old(channels),
                    *final(channels),
                    bytes@,
                ),
                Err(e) => {
                    &&& e == CommunicationError::Serialization
                    &&& frame_undecodable::<D>(bytes@)
                    &&& final(channels).spec_channels() == old(channels).spec_channels()
                },
            }),
    {
        match self.stream_id_to_pusher.get(&metadata.stream_id) {
            Some(pusher) => {
                proof {
                    assert(*pusher == self.pushers()[metadata.stream_id]);
                }
                pusher.send_from_bytes(channels, bytes)
            }
            None => Err(CommunicationError::Protocol),
        }
    }
}

} // verus!
