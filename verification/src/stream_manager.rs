//! The per-worker stream manager: it materializes endpoints for scheduled
//! streams, hands each receive endpoint out exactly once, and keeps the
//! pusher for every stream received from a peer.

use vstd::prelude::*;

use crate::graph::Job;
use crate::ids::{StreamId, WorkerId};
use crate::message::Data;
use crate::receivers::Pusher;
use crate::stream::{Channels, ReadStream, RecvEndpoint, SendEndpoint, WriteStream};
use crate::table::{distinct_keys, Table};

verus! {

/// Why a stream-manager operation failed.
#[derive(Clone, Copy, PartialEq, Eq, Structural, Debug)]
pub enum StreamManagerError {
    /// No endpoints exist for the stream.
    NoSuchStream,
    /// Every receive endpoint of the stream was already taken.
    NoRecvEndpoint,
}

/// The endpoints materialized for one stream: receive endpoints keyed by the
/// job that consumes, send endpoints keyed by the destination job.
pub struct StreamEndpoints<D> {
    stream_id: StreamId,
    name: Vec<u8>,
    recv_endpoints: Table<Job, RecvEndpoint>,
    send_endpoints: Table<Job, SendEndpoint>,
    phantom: core::marker::PhantomData<D>,
}

impl<D: Data> StreamEndpoints<D> {
    pub closed spec fn spec_stream_id(&self) -> StreamId {
        self.stream_id
    }

    pub closed spec fn spec_name(&self) -> Seq<u8> {
        self.name@
    }

    pub closed spec fn recvs(&self) -> Map<Job, RecvEndpoint> {
        self.recv_endpoints@
    }

    pub closed spec fn recv_seq(&self) -> Seq<(Job, RecvEndpoint)> {
        self.recv_endpoints.entry_seq()
    }

    pub closed spec fn sends(&self) -> Map<Job, SendEndpoint> {
        self.send_endpoints@
    }

    pub closed spec fn send_seq(&self) -> Seq<(Job, SendEndpoint)> {
        self.send_endpoints.entry_seq()
    }

    pub fn new(stream_id: StreamId, name: Vec<u8>) -> (r: StreamEndpoints<D>)
        ensures
            r.spec_stream_id() == stream_id,
            r.spec_name() == name@,
            r.recvs() == Map::<Job, RecvEndpoint>::empty(),
            r.sends() == Map::<Job, SendEndpoint>::empty(),
    {
        StreamEndpoints {
            stream_id,
            name,
            recv_endpoints: Table::new(),
            send_endpoints: Table::new(),
            phantom: core::marker::PhantomData,
        }
    }

    /// Opens a fresh in-process conduit for a consumer on this worker: the
    /// send half under the consumer's job, the receive half under the same
    /// key.
    pub fn add_inter_thread_channel(&mut self, channels: &mut Channels<D>, job: Job)
        ensures
            final(self).spec_stream_id() == old(self).spec_stream_id(),
            final(self).spec_name() == old(self).spec_name(),
            final(channels).len() == old(channels).len() + 1,
            final(self).sends() == old(self).sends().insert(
                job,
                SendEndpoint::InterThread(old(channels).len() as usize),
            ),
            final(self).recvs() == old(self).recvs().insert(
                job,
                RecvEndpoint { channel: old(channels).len() as usize },
            ),
            final(channels).pushed_at(old(channels).len())
                == Seq::<crate::message::MessageVal<D>>::empty(),
            forall|i: int| 0 <= i < old(channels).len()
                ==> final(channels).spec_channels()[i] == old(channels).spec_channels()[i],
    {
        let ch = channels.open_channel();
        self.send_endpoints.insert(job, SendEndpoint::InterThread(ch));
        self.recv_endpoints.insert(job, RecvEndpoint { channel: ch });
    }

    /// Adds a send endpoint bound for a peer worker's sender queue.
    pub fn add_inter_worker_send_endpoint(&mut self, job: Job, sender_channel: usize)
        ensures
            final(self).spec_stream_id() == old(self).spec_stream_id(),
            final(self).recvs() == old(self).recvs(),
            final(self).sends() == old(self).sends().insert(
                job,
                SendEndpoint::InterWorker(sender_channel),
            ),
    {
        self.send_endpoints.insert(job, SendEndpoint::InterWorker(sender_channel));
    }

    /// Opens a fresh conduit pair between the stream's pusher and a local
    /// consumer: the pusher learns the send half, the receive half is stored
    /// under the consumer's job.
    pub fn add_inter_worker_recv_endpoint(
        &mut self,
        channels: &mut Channels<D>,
        job: Job,
        pusher: &mut Pusher<D>,
    )
        ensures
            final(self).spec_stream_id() == old(self).spec_stream_id(),
            final(self).sends() == old(self).sends(),
            final(channels).len() == old(channels).len() + 1,
            final(self).recvs() == old(self).recvs().insert(
                job,
                RecvEndpoint { channel: old(channels).len() as usize },
            ),
            final(pusher).endpoint_map() == old(pusher).endpoint_map().insert(
                job,
                old(channels).len() as usize,
            ),
            final(pusher).spec_stream_id() == old(pusher).spec_stream_id(),
            final(channels).pushed_at(old(channels).len())
                == Seq::<crate::message::MessageVal<D>>::empty(),
            forall|i: int| 0 <= i < old(channels).len()
                ==> final(channels).spec_channels()[i] == old(channels).spec_channels()[i],
    {
        let ch = channels.open_channel();
        pusher.add_endpoint(job, ch);
        self.recv_endpoints.insert(job, RecvEndpoint { channel: ch });
    }

    /// Makes the relation between the receive-endpoint sequence and map
    /// available to a caller's proof: whoever registered an endpoint can
    /// conclude that one is there to take.
    pub fn recv_map_facts(&self)
        ensures
            distinct_keys(self.recv_seq()),
            self.recv_seq().len() == self.recvs().dom().len(),
            forall|i: int| 0 <= i < self.recv_seq().len()
                ==> self.recvs().contains_key(#[trigger] self.recv_seq()[i].0)
                    && self.recvs()[self.recv_seq()[i].0] == self.recv_seq()[i].1,
            forall|j: Job| self.recvs().contains_key(j)
                ==> exists|i: int|
                    0 <= i < self.recv_seq().len() && #[trigger] self.recv_seq()[i].0 == j,
    {
        self.recv_endpoints.entry_map_facts();
        let _ = self.recv_endpoints.len();
    }

    /// Takes one receive endpoint out of the stream; each endpoint can be
    /// taken only once, because taking removes it.
    pub fn take_recv_endpoint(&mut self) -> (r: Result<RecvEndpoint, StreamManagerError>)
        ensures
            final(self).spec_stream_id() == old(self).spec_stream_id(),
            final(self).sends() == old(self).sends(),
            match r {
                Ok(ep) => {
                    &&& old(self).recv_seq().len() > 0
                    &&& ep == old(self).recv_seq()[0].1
                    &&& final(self).recvs()
                        == old(self).recvs().remove(old(self).recv_seq()[0].0)
                },
                Err(e) => {
                    &&& e == StreamManagerError::NoRecvEndpoint
                    &&& old(self).recv_seq().len() == 0
                    &&& *final(self) == *old(self)
                },
            },
    {
        if self.recv_endpoints.num_entries() == 0 {
            return Err(StreamManagerError::NoRecvEndpoint);
        }
        let key = self.recv_endpoints.entry_at(0).0;
        match self.recv_endpoints.remove(&key) {
            Some(ep) => Ok(ep),
            None => Err(StreamManagerError::NoRecvEndpoint),
        }
    }

    /// A copy of the send endpoints, keyed by destination job.
    #[verifier::loop_isolation(false)]
    pub fn get_send_endpoints(&self) -> (r: Vec<(Job, SendEndpoint)>)
        ensures
            r@ == self.send_seq(),
    {
        let mut r: Vec<(Job, SendEndpoint)> = Vec::new();
        let n = self.send_endpoints.num_entries();
        let mut i: usize = 0;
        while i < n
            invariant
                i <= n,
                n == self.send_seq().len(),
                r@ == self.send_seq().subrange(0, i as int),
            decreases n - i,
        {
            let e = self.send_endpoints.entry_at(i);
            r.push((e.0, e.1));
            proof {
                assert(r@ =~= self.send_seq().subrange(0, i + 1));
            }
            i = i + 1;
        }
        proof {
            assert(self.send_seq().subrange(0, n as int) =~= self.send_seq());
        }
        r
    }
}

/// The send endpoints a stream's entry held before an operation, or none.
pub open spec fn prior_sends<D: Data>(
    m: Map<StreamId, StreamEndpoints<D>>,
    sid: StreamId,
) -> Map<Job, SendEndpoint> {
    if m.contains_key(sid) {
        m[sid].sends()
    } else {
        Map::empty()
    }
}

/// The receive endpoints a stream's entry held before an operation, or none.
pub open spec fn prior_recvs<D: Data>(
    m: Map<StreamId, StreamEndpoints<D>>,
    sid: StreamId,
) -> Map<Job, RecvEndpoint> {
    if m.contains_key(sid) {
        m[sid].recvs()
    } else {
        Map::empty()
    }
}

/// The destinations a stream's pusher held before an operation, or none.
pub open spec fn prior_pusher_endpoints<D: Data>(
    m: Map<StreamId, Pusher<D>>,
    sid: StreamId,
) -> Map<Job, usize> {
    if m.contains_key(sid) {
        m[sid].endpoint_map()
    } else {
        Map::empty()
    }
}

/// The per-worker registry of stream endpoints and pushers.
pub struct StreamManager<D> {
    worker_id: WorkerId,
    stream_entries: Table<StreamId, StreamEndpoints<D>>,
    stream_pushers: Table<StreamId, Pusher<D>>,
}

impl<D: Data> StreamManager<D> {
    pub closed spec fn spec_worker_id(&self) -> WorkerId {
        self.worker_id
    }

    pub closed spec fn entries(&self) -> Map<StreamId, StreamEndpoints<D>> {
        self.stream_entries@
    }

    pub closed spec fn pushers(&self) -> Map<StreamId, Pusher<D>> {
        self.stream_pushers@
    }

    pub fn new(worker_id: WorkerId) -> (r: StreamManager<D>)
        ensures
            r.spec_worker_id() == worker_id,
            r.entries() == Map::<StreamId, StreamEndpoints<D>>::empty(),
            r.pushers() == Map::<StreamId, Pusher<D>>::empty(),
    {
        StreamManager {
            worker_id,
            stream_entries: Table::new(),
            stream_pushers: Table::new(),
        }
    }

    pub fn worker_id(&self) -> (r: WorkerId)
        ensures
            r == self.spec_worker_id(),
    {
        self.worker_id
    }

    /// Creates the stream's endpoints if absent and opens a conduit between
    /// two jobs on this worker.
    pub fn add_inter_thread_channel(
        &mut self,
        channels: &mut Channels<D>,
        stream_id: StreamId,
        name: Vec<u8>,
        job: Job,
    )
        ensures
            final(self).spec_worker_id() == old(self).spec_worker_id(),
            final(self).pushers() == old(self).pushers(),
            final(self).entries().contains_key(stream_id),
            final(channels).len() == old(channels).len() + 1,
            final(self).entries().dom() == old(self).entries().dom().insert(stream_id),
            forall|s2: StreamId| old(self).entries().contains_key(s2) && s2 != stream_id
                ==> final(self).entries()[s2] == old(self).entries()[s2],
            // the pair is stored under the consumer's job and names the
            // fresh conduit
            final(self).entries()[stream_id].sends()
                == prior_sends(old(self).entries(), stream_id).insert(
                job,
                SendEndpoint::InterThread(old(channels).len() as usize),
            ),
            final(self).entries()[stream_id].recvs()
                == prior_recvs(old(self).entries(), stream_id).insert(
                job,
                RecvEndpoint { channel: old(channels).len() as usize },
            ),
            final(channels).pushed_at(old(channels).len())
                == Seq::<crate::message::MessageVal<D>>::empty(),
            forall|i: int| 0 <= i < old(channels).len()
                ==> final(channels).spec_channels()[i] == old(channels).spec_channels()[i],
    {
        let ghost entries0 = self.stream_entries@;
        let mut entry = match self.stream_entries.remove(&stream_id) {
            Some(e) => e,
            None => StreamEndpoints::new(stream_id, name),
        };
        entry.add_inter_thread_channel(channels, job);
        self.stream_entries.insert(stream_id, entry);
        proof {
            assert(self.stream_entries@.dom() =~= entries0.dom().insert(stream_id));
        }
    }

    /// Creates the stream's endpoints and pusher if absent, adds a fresh
    /// conduit from the pusher to the receiving job, and says whether the
    /// pusher is newly created, so the caller can have it installed on the
    /// peer's receiver before any frame arrives.
    pub fn add_inter_worker_recv_endpoint(
        &mut self,
        channels: &mut Channels<D>,
        stream_id: StreamId,
        name: Vec<u8>,
        receiving_job: Job,
    ) -> (r: bool)
        ensures
            final(self).spec_worker_id() == old(self).spec_worker_id(),
            r == !old(self).pushers().contains_key(stream_id),
            final(channels).len() == old(channels).len() + 1,
            final(self).entries().dom() == old(self).entries().dom().insert(stream_id),
            final(self).pushers().dom() == old(self).pushers().dom().insert(stream_id),
            forall|s2: StreamId| old(self).entries().contains_key(s2) && s2 != stream_id
                ==> final(self).entries()[s2] == old(self).entries()[s2],
            forall|s2: StreamId| old(self).pushers().contains_key(s2) && s2 != stream_id
                ==> final(self).pushers()[s2] == old(self).pushers()[s2],
            // the receive half of the fresh conduit goes to the consumer,
            // the send half to the stream's pusher
            final(self).entries()[stream_id].sends()
                == prior_sends(old(self).entries(), stream_id),
            final(self).entries()[stream_id].recvs()
                == prior_recvs(old(self).entries(), stream_id).insert(
                receiving_job,
                RecvEndpoint { channel: old(channels).len() as usize },
            ),
            final(self).pushers()[stream_id].endpoint_map()
                == prior_pusher_endpoints(old(self).pushers(), stream_id).insert(
                receiving_job,
                old(channels).len() as usize,
            ),
            final(channels).pushed_at(old(channels).len())
                == Seq::<crate::message::MessageVal<D>>::empty(),
            forall|i: int| 0 <= i < old(channels).len()
                ==> final(channels).spec_channels()[i] == old(channels).spec_channels()[i],
    {
        let ghost entries0 = self.stream_entries@;
        let ghost pushers0 = self.stream_pushers@;
        let is_new = !self.stream_pushers.contains_key(&stream_id);
        let mut entry = match self.stream_entries.remove(&stream_id) {
            Some(e) => e,
            None => StreamEndpoints::new(stream_id, name),
        };
        let mut pusher = match self.stream_pushers.remove(&stream_id) {
            Some(p) => p,
            None => Pusher::new(stream_id),
        };
        entry.add_inter_worker_recv_endpoint(channels, receiving_job, &mut pusher);
        self.stream_entries.insert(stream_id, entry);
        self.stream_pushers.insert(stream_id, pusher);
        proof {
            assert(self.stream_entries@.dom() =~= entries0.dom().insert(stream_id));
            assert(self.stream_pushers@.dom() =~= pushers0.dom().insert(stream_id));
        }
        is_new
    }

    /// A copy of the stream's pusher, as installed on a peer receiver.
    pub fn get_pusher(&self, stream_id: &StreamId) -> (r: Option<&Pusher<D>>)
        ensures
            match r {
                Some(p) => self.pushers().contains_key(*stream_id)
                    && *p == self.pushers()[*stream_id],
                None => !self.pushers().contains_key(*stream_id),
            },
    {
        self.stream_pushers.get(stream_id)
    }

    /// Creates the stream's endpoints if absent and adds a send endpoint
    /// bound for a peer's sender queue.
    pub fn add_inter_worker_send_endpoint(
        &mut self,
        stream_id: StreamId,
        name: Vec<u8>,
        destination_job: Job,
        sender_channel: usize,
    )
        ensures
            final(self).spec_worker_id() == old(self).spec_worker_id(),
            final(self).pushers() == old(self).pushers(),
            final(self).entries().dom() == old(self).entries().dom().insert(stream_id),
            forall|s2: StreamId| old(self).entries().contains_key(s2) && s2 != stream_id
                ==> final(self).entries()[s2] == old(self).entries()[s2],
            final(self).entries()[stream_id].sends()
                == prior_sends(old(self).entries(), stream_id).insert(
                destination_job,
                SendEndpoint::InterWorker(sender_channel),
            ),
            final(self).entries()[stream_id].recvs()
                == prior_recvs(old(self).entries(), stream_id),
    {
        let ghost entries0 = self.stream_entries@;
        let mut entry = match self.stream_entries.remove(&stream_id) {
            Some(e) => e,
            None => StreamEndpoints::new(stream_id, name),
        };
        entry.add_inter_worker_send_endpoint(destination_job, sender_channel);
        self.stream_entries.insert(stream_id, entry);
        proof {
            assert(self.stream_entries@.dom() =~= entries0.dom().insert(stream_id));
        }
    }

    /// Makes the facts of one stream's receive endpoints available to a
    /// caller's proof.
    pub fn recv_facts(&self, stream_id: &StreamId)
        ensures
            self.entries().contains_key(*stream_id) ==> {
                let e = self.entries()[*stream_id];
                &&& distinct_keys(e.recv_seq())
                &&& e.recv_seq().len() == e.recvs().dom().len()
                &&& forall|i: int| 0 <= i < e.recv_seq().len()
                    ==> e.recvs().contains_key(#[trigger] e.recv_seq()[i].0)
                        && e.recvs()[e.recv_seq()[i].0] == e.recv_seq()[i].1
                &&& forall|j: Job| e.recvs().contains_key(j)
                    ==> exists|i: int|
                        0 <= i < e.recv_seq().len()
                            && #[trigger] e.recv_seq()[i].0 == j
            },
    {
        match self.stream_entries.get(stream_id) {
            Some(e) => {
                e.recv_map_facts();
            }
            None => {}
        }
    }

    /// Takes a receive endpoint of the stream; each one is handed out at
    /// most once.
    pub fn take_recv_endpoint(&mut self, stream_id: StreamId) -> (r: Result<
        RecvEndpoint,
        StreamManagerError,
    >)
        ensures
            final(self).spec_worker_id() == old(self).spec_worker_id(),
            final(self).pushers() == old(self).pushers(),
            match r {
                Ok(ep) => {
                    &&& old(self).entries().contains_key(stream_id)
                    &&& old(self).entries()[stream_id].recv_seq().len() > 0
                    &&& ep == old(self).entries()[stream_id].recv_seq()[0].1
                    &&& final(self).entries().dom() == old(self).entries().dom()
                    &&& forall|s2: StreamId| old(self).entries().contains_key(s2)
                        && s2 != stream_id ==> final(self).entries()[s2]
                        == old(self).entries()[s2]
                    &&& final(self).entries()[stream_id].recvs()
                        == old(self).entries()[stream_id].recvs().remove(
                            old(self).entries()[stream_id].recv_seq()[0].0,
                        )
                    &&& final(self).entries()[stream_id].sends()
                        == old(self).entries()[stream_id].sends()
                },
                Err(StreamManagerError::NoSuchStream) => {
                    &&& !old(self).entries().contains_key(stream_id)
                    &&& final(self).entries() == old(self).entries()
                },
                Err(StreamManagerError::NoRecvEndpoint) => {
                    &&& old(self).entries().contains_key(stream_id)
                    &&& old(self).entries()[stream_id].recv_seq().len() == 0
                    &&& final(self).entries() == old(self).entries()
                },
            },
    {
        let ghost entries0 = self.stream_entries@;
        match self.stream_entries.remove(&stream_id) {
            Some(mut entry) => {
                let ghost e0 = entry;
                let r = entry.take_recv_endpoint();
                self.stream_entries.insert(stream_id, entry);
                proof {
                    assert(self.stream_entries@.dom() =~= entries0.dom());
                    if r is Err {
                        assert(self.stream_entries@ =~= entries0);
                    }
                }
                match r {
                    Ok(ep) => Ok(ep),
                    Err(e) => Err(e),
                }
            }
            None => {
                proof {
                    assert(self.stream_entries@ =~= entries0);
                }
                Err(StreamManagerError::NoSuchStream)
            }
        }
    }

    /// Builds the read stream of a consumer: a taken receive endpoint,
    /// wrapped; it can be built at most once per endpoint.
    pub fn take_read_stream(&mut self, stream_id: StreamId) -> (r: Result<
        ReadStream<D>,
        StreamManagerError,
    >)
        ensures
            final(self).spec_worker_id() == old(self).spec_worker_id(),
            final(self).pushers() == old(self).pushers(),
            match r {
                Ok(rs) => {
                    &&& old(self).entries().contains_key(stream_id)
                    &&& old(self).entries()[stream_id].recv_seq().len() > 0
                    &&& rs.spec_id() == stream_id
                    &&& rs.spec_channel()
                        == old(self).entries()[stream_id].recv_seq()[0].1.channel
                    &&& !rs.is_closed()
                    &&& rs.read_so_far()
                        == Seq::<crate::message::MessageVal<D>>::empty()
                    &&& final(self).entries().dom() == old(self).entries().dom()
                    &&& forall|s2: StreamId| old(self).entries().contains_key(s2)
                        && s2 != stream_id ==> final(self).entries()[s2]
                        == old(self).entries()[s2]
                    &&& final(self).entries()[stream_id].recvs()
                        == old(self).entries()[stream_id].recvs().remove(
                            old(self).entries()[stream_id].recv_seq()[0].0,
                        )
                    &&& final(self).entries()[stream_id].sends()
                        == old(self).entries()[stream_id].sends()
                },
                Err(StreamManagerError::NoSuchStream) => {
                    &&& !old(self).entries().contains_key(stream_id)
                    &&& final(self).entries() == old(self).entries()
                },
                Err(StreamManagerError::NoRecvEndpoint) => {
                    &&& old(self).entries().contains_key(stream_id)
                    &&& old(self).entries()[stream_id].recv_seq().len() == 0
                    &&& final(self).entries() == old(self).entries()
                },
            },
    {
        match self.take_recv_endpoint(stream_id) {
            Ok(ep) => Ok(ReadStream::new(stream_id, ep)),
            Err(e) => Err(e),
        }
    }

    /// Builds the write stream of a producer over a copy of the stream's
    /// send endpoints.
    pub fn write_stream(&mut self, stream_id: StreamId) -> (r: Result<
        WriteStream<D>,
        StreamManagerError,
    >)
        ensures
            final(self).spec_worker_id() == old(self).spec_worker_id(),
            final(self).entries() == old(self).entries(),
            final(self).pushers() == old(self).pushers(),
            match r {
                Ok(ws) => {
                    &&& old(self).entries().contains_key(stream_id)
                    &&& ws.spec_id() == stream_id
                    &&& !ws.is_closed_spec()
                    &&& ws.sent() == Seq::<crate::message::MessageVal<D>>::empty()
                    &&& ws.spec_endpoints().len()
                        == old(self).entries()[stream_id].send_seq().len()
                    &&& forall|i: int| 0 <= i < ws.spec_endpoints().len()
                        ==> ws.spec_endpoints()[i]
                            == old(self).entries()[stream_id].send_seq()[i].1
                },
                Err(e) => {
                    &&& e == StreamManagerError::NoSuchStream
                    &&& !old(self).entries().contains_key(stream_id)
                },
            },
    {
        match self.stream_entries.get(&stream_id) {
            Some(entry) => {
                let pairs = entry.get_send_endpoints();
                let mut eps: Vec<SendEndpoint> = Vec::new();
                let mut i: usize = 0;
                while i < pairs.len()
                    invariant
                        i <= pairs@.len(),
                        eps@.len() == i,
                        forall|t: int| 0 <= t < i ==> eps@[t] == pairs@[t].1,
                    decreases pairs@.len() - i,
                {
                    eps.push(pairs[i].1);
                    i = i + 1;
                }
                Ok(WriteStream::new(stream_id, eps))
            }
            None => Err(StreamManagerError::NoSuchStream),
        }
    }
}

} // verus!
