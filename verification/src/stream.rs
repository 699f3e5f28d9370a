//! Streams and their endpoints: in-process conduits with first-in-first-out
//! delivery, write streams that enforce watermark order, and read streams
//! that close after the `Top` watermark.

use vstd::prelude::*;

use crate::graph::JobGraphId;
use crate::ids::StreamId;
use crate::message::{is_top_watermark, is_watermark, msg_time, Data, Message, MessageVal};
use crate::timestamp::{time_le, TimeVal, Timestamp};

verus! {

/// Why a send failed.
#[derive(Clone, Copy, PartialEq, Eq, Structural, Debug)]
pub enum SendError {
    /// The stream was closed by a `Top` watermark.
    Closed,
    /// The message's timestamp precedes the stream's low watermark.
    TimestampError,
    /// The receiving side is gone.
    Disconnected,
}

/// Watermark timestamps never decrease along the sequence.
pub open spec fn wm_monotone<D>(s: Seq<MessageVal<D>>) -> bool {
    forall|i: int, j: int| 0 <= i < j < s.len()
        && is_watermark(#[trigger] s[i]) && is_watermark(#[trigger] s[j])
        ==> time_le(msg_time(s[i]), msg_time(s[j]))
}

/// A prefix of a watermark-monotone sequence is watermark-monotone.
pub proof fn lemma_wm_monotone_prefix<D>(s: Seq<MessageVal<D>>, n: int)
    requires
        wm_monotone(s),
        0 <= n <= s.len(),
    ensures
        wm_monotone(s.take(n)),
{
    assert forall|i: int, j: int| 0 <= i < j < s.take(n).len()
        && is_watermark(#[trigger] s.take(n)[i]) && is_watermark(#[trigger] s.take(n)[j])
        implies time_le(msg_time(s.take(n)[i]), msg_time(s.take(n)[j])) by {
        assert(s.take(n)[i] == s[i]);
        assert(s.take(n)[j] == s[j]);
    }
}

/// The end-to-end law on the read side: when a conduit carries exactly what
/// a single producer accepted, everything delivered so far is the oldest
/// prefix of the accepted sends, unchanged and in order, and its watermarks
/// are nondecreasing.  The accepted history's monotonicity is the write
/// stream's invariant, and the prefix shape is the conduit's delivery
/// invariant; this law composes the two.
pub proof fn lemma_reader_sees_sent_prefix<D>(
    sent: Seq<MessageVal<D>>,
    delivered: Seq<MessageVal<D>>,
    n: int,
)
    requires
        wm_monotone(sent),
        0 <= n <= sent.len(),
        delivered == sent.take(n),
    ensures
        wm_monotone(delivered),
        delivered.len() == n,
        forall|i: int| 0 <= i < delivered.len() ==> delivered[i] == sent[i],
{
    lemma_wm_monotone_prefix(sent, n);
}

/// Every watermark in the sequence is at or below `low`.
pub open spec fn wms_at_most<D>(s: Seq<MessageVal<D>>, low: TimeVal) -> bool {
    forall|i: int| 0 <= i < s.len() && is_watermark(#[trigger] s[i])
        ==> time_le(msg_time(s[i]), low)
}

/// One in-process conduit: messages queued between a sender and a receiver,
/// with the ghost history of everything pushed and everything delivered.
pub struct Channel<D> {
    buf: Vec<Message<D>>,
    closed: bool,
    delivered_count: Ghost<int>,
    pushed: Ghost<Seq<MessageVal<D>>>,
}

impl<D> Channel<D> {
    /// Everything ever pushed into the conduit, in order.
    pub closed spec fn pushed(&self) -> Seq<MessageVal<D>> {
        self.pushed@
    }

    /// Everything already delivered to the receiver, in order.
    pub open spec fn delivered(&self) -> Seq<MessageVal<D>> {
        self.pushed().take(self.num_delivered())
    }

    pub closed spec fn num_delivered(&self) -> int {
        self.delivered_count@
    }

    /// Whether the sending side is gone; queued messages still drain, and a
    /// drained closed conduit is end-of-stream for its reader.
    pub closed spec fn is_closed(&self) -> bool {
        self.closed
    }

    #[verifier::type_invariant]
    spec fn wf(self) -> bool {
        &&& 0 <= self.delivered_count@
    &&& self.delivered_count@ + self.buf@.len() == self.pushed@.len()
        &&& forall|i: int| 0 <= i < self.buf@.len()
            ==> (#[trigger] self.buf@[i])@ == self.pushed@[self.delivered_count@ + i]
    }

    /// What the receiver has seen is exactly the oldest prefix of what the
    /// sender pushed: delivery is first-in-first-out and loses nothing.
    pub fn fifo_facts(&self)
        ensures
            0 <= self.num_delivered() <= self.pushed().len(),
            self.delivered() == self.pushed().take(self.num_delivered()),
            self.pushed().len() == self.num_delivered() + self.queued_len(),
    {
        proof {
            use_type_invariant(self);
        }
    }

    pub open spec fn queued_len(&self) -> int {
        self.spec_buf().len() as int
    }

    pub closed spec fn spec_buf(&self) -> Seq<Message<D>> {
        self.buf@
    }

    pub fn new() -> (r: Channel<D>)
        ensures
            r.pushed() == Seq::<MessageVal<D>>::empty(),
            r.num_delivered() == 0,
            !r.is_closed(),
    {
        let r = Channel {
            buf: Vec::new(),
            closed: false,
            delivered_count: Ghost(0),
            pushed: Ghost(Seq::empty()),
        };
        proof {
            assert(r.pushed@ =~= Seq::<MessageVal<D>>::empty());
        }
        r
    }

    /// The sender appends a message.
    pub fn push(&mut self, m: Message<D>)
        ensures
            final(self).pushed() == old(self).pushed().push(m@),
            final(self).num_delivered() == old(self).num_delivered(),
            final(self).is_closed() == old(self).is_closed(),
    {
        proof {
            use_type_invariant(&*self);
        }
        let ghost mv = m@;
        let mut tmp = Channel::new();
        core::mem::swap(&mut tmp, self);
        let Channel { mut buf, closed, delivered_count, pushed } = tmp;
        buf.push(m);
        *self = Channel { buf, closed, delivered_count, pushed: Ghost(pushed@.push(mv)) };
    }

    pub fn is_closed_exec(&self) -> (r: bool)
        ensures
            r == self.is_closed(),
    {
        self.closed
    }

    /// Marks the sending side gone; what is queued still drains.
    pub fn close(&mut self)
        ensures
            final(self).pushed() == old(self).pushed(),
            final(self).num_delivered() == old(self).num_delivered(),
            final(self).is_closed(),
    {
        proof {
            use_type_invariant(&*self);
        }
        let mut tmp = Channel::new();
        core::mem::swap(&mut tmp, self);
        let Channel { buf, closed: _, delivered_count, pushed } = tmp;
        *self = Channel { buf, closed: true, delivered_count, pushed };
    }

    /// The receiver takes the oldest queued message, if any.
    pub fn pop(&mut self) -> (r: Option<Message<D>>)
        ensures
            final(self).pushed() == old(self).pushed(),
            final(self).is_closed() == old(self).is_closed(),
            match r {
                Some(m) => {
                    &&& old(self).num_delivered() < old(self).pushed().len()
                    &&& m@ == old(self).pushed()[old(self).num_delivered()]
                    &&& final(self).num_delivered() == old(self).num_delivered() + 1
                },
                None => {
                    &&& old(self).num_delivered() == old(self).pushed().len()
                    &&& *final(self) == *old(self)
                },
            },
    {
        proof {
            use_type_invariant(&*self);
        }
        if self.buf.len() == 0 {
            return None;
        }
        let mut tmp = Channel::new();
        core::mem::swap(&mut tmp, self);
        let Channel { mut buf, closed, delivered_count, pushed } = tmp;
        let m = buf.remove(0);
        *self = Channel { buf, closed, delivered_count: Ghost(delivered_count@ + 1), pushed };
        Some(m)
    }
}

/// All in-process conduits of one worker, indexed by allocation order.
/// Endpoints name their conduit by index.
pub struct Channels<D> {
    channels: Vec<Channel<D>>,
}

impl<D> Channels<D> {
    pub closed spec fn spec_channels(&self) -> Seq<Channel<D>> {
        self.channels@
    }

    pub open spec fn len(&self) -> int {
        self.spec_channels().len() as int
    }

    pub open spec fn pushed_at(&self, i: int) -> Seq<MessageVal<D>> {
        self.spec_channels()[i].pushed()
    }

    pub open spec fn delivered_at(&self, i: int) -> Seq<MessageVal<D>> {
        self.spec_channels()[i].delivered()
    }

    pub open spec fn closed_at(&self, i: int) -> bool {
        self.spec_channels()[i].is_closed()
    }

    pub fn new() -> (r: Channels<D>)
        ensures
            r.len() == 0,
    {
        Channels { channels: Vec::new() }
    }

    /// Opens a new conduit; its index names it from now on.
    pub fn open_channel(&mut self) -> (r: usize)
        ensures
            r == old(self).len(),
            final(self).len() == old(self).len() + 1,
            final(self).pushed_at(r as int) == Seq::<MessageVal<D>>::empty(),
            final(self).spec_channels()[r as int].num_delivered() == 0,
            forall|i: int| 0 <= i < old(self).len()
                ==> final(self).spec_channels()[i] == old(self).spec_channels()[i],
    {
        let r = self.channels.len();
        let c = Channel::new();
        self.channels.push(c);
        r
    }

    /// Marks one conduit's sending side gone, as the data plane does when
    /// the peer that fed it is lost; what is queued still drains, then the
    /// reader sees end-of-stream.
    pub fn close_channel(&mut self, i: usize)
        requires
            i < old(self).len(),
        ensures
            final(self).len() == old(self).len(),
            final(self).pushed_at(i as int) == old(self).pushed_at(i as int),
            final(self).spec_channels()[i as int].num_delivered()
                == old(self).spec_channels()[i as int].num_delivered(),
            final(self).closed_at(i as int),
            forall|k: int| 0 <= k < old(self).len() && k != i
                ==> final(self).spec_channels()[k] == old(self).spec_channels()[k],
    {
        let mut c = self.channels.remove(i);
        c.close();
        self.channels.insert(i, c);
        proof {
            assert(final(self).spec_channels()
                =~= old(self).spec_channels().update(i as int, final(self).spec_channels()[i as int]));
        }
    }

    pub fn is_closed_at(&self, i: usize) -> (r: bool)
        requires
            i < self.len(),
        ensures
            r == self.closed_at(i as int),
    {
        self.channels[i].is_closed_exec()
    }

    /// Makes one conduit's delivery bound available to a caller's proof.
    pub fn fifo_facts_at(&self, i: usize)
        requires
            i < self.len(),
        ensures
            0 <= self.spec_channels()[i as int].num_delivered()
                <= self.pushed_at(i as int).len(),
            self.delivered_at(i as int) == self.pushed_at(i as int).take(
                self.spec_channels()[i as int].num_delivered(),
            ),
    {
        let c = &self.channels[i];
        c.fifo_facts();
    }

    /// Appends a message to one conduit.
    pub fn push_to(&mut self, i: usize, m: Message<D>)
        requires
            i < old(self).len(),
        ensures
            final(self).len() == old(self).len(),
            final(self).pushed_at(i as int) == old(self).pushed_at(i as int).push(m@),
            final(self).spec_channels()[i as int].num_delivered()
                == old(self).spec_channels()[i as int].num_delivered(),
            forall|k: int| 0 <= k < old(self).len() && k != i
                ==> final(self).spec_channels()[k] == old(self).spec_channels()[k],
    {
        let mut c = self.channels.remove(i);
        c.push(m);
        self.channels.insert(i, c);
        proof {
            assert(final(self).spec_channels()
                =~= old(self).spec_channels().update(i as int, final(self).spec_channels()[i as int]));
        }
    }

    /// Takes the oldest queued message of one conduit, if any.
    pub fn pop_from(&mut self, i: usize) -> (r: Option<Message<D>>)
        requires
            i < old(self).len(),
        ensures
            final(self).len() == old(self).len(),
            final(self).pushed_at(i as int) == old(self).pushed_at(i as int),
            forall|k: int| 0 <= k < old(self).len() && k != i
                ==> final(self).spec_channels()[k] == old(self).spec_channels()[k],
            match r {
                Some(m) => {
                    &&& old(self).spec_channels()[i as int].num_delivered()
                        < old(self).pushed_at(i as int).len()
                    &&& m@ == old(self).pushed_at(i as int)[
                        old(self).spec_channels()[i as int].num_delivered()
                    ]
                    &&& final(self).spec_channels()[i as int].num_delivered()
                        == old(self).spec_channels()[i as int].num_delivered() + 1
                },
                None => {
                    &&& old(self).spec_channels()[i as int].num_delivered()
                        == old(self).pushed_at(i as int).len()
                    &&& final(self).spec_channels() == old(self).spec_channels()
                },
            },
    {
        let ghost ch0 = self.channels@;
        let mut c = self.channels.remove(i);
        let r = c.pop();
        self.channels.insert(i, c);
        proof {
            assert(self.channels@
                =~= ch0.update(i as int, self.channels@[i as int]));
            if r is None {
                assert(self.channels@ =~= ch0);
            }
        }
        r
    }
}

/// Where a write stream hands a message: an in-process conduit, or the queue
/// toward a peer worker's sender task.
#[derive(Clone, Copy, PartialEq, Eq, Structural, Debug)]
pub enum SendEndpoint {
    /// The index of an in-process conduit.
    InterThread(usize),
    /// A stream bound for a peer: the conduit index of the peer's sender queue.
    InterWorker(usize),
}

impl SendEndpoint {
    pub open spec fn channel(self) -> int {
        match self {
            SendEndpoint::InterThread(i) => i as int,
            SendEndpoint::InterWorker(i) => i as int,
        }
    }

    pub fn channel_index(self) -> (r: usize)
        ensures
            r as int == self.channel(),
    {
        match self {
            SendEndpoint::InterThread(i) => i,
            SendEndpoint::InterWorker(i) => i,
        }
    }
}

/// Where a read stream takes its messages from: an in-process conduit.
#[derive(Clone, Copy, PartialEq, Eq, Structural, Debug)]
pub struct RecvEndpoint {
    pub channel: usize,
}

/// What `ReadStream::read` yields.
pub enum ReadOutcome<D> {
    /// The next message of the stream.
    Msg(Message<D>),
    /// Nothing queued right now.
    Empty,
    /// The stream ended: a `Top` watermark was read earlier.
    Closed,
}

/// The read half of a stream: one conduit, closing after `Top`.
pub struct ReadStream<D> {
    id: StreamId,
    endpoint: RecvEndpoint,
    closed: bool,
    read_so_far: Ghost<Seq<MessageVal<D>>>,
}

impl<D: Data> ReadStream<D> {
    pub closed spec fn spec_id(&self) -> StreamId {
        self.id
    }

    pub closed spec fn spec_channel(&self) -> int {
        self.endpoint.channel as int
    }

    pub closed spec fn is_closed(&self) -> bool {
        self.closed
    }

    /// Every message this stream has yielded, in order.
    pub closed spec fn read_so_far(&self) -> Seq<MessageVal<D>> {
        self.read_so_far@
    }

    pub fn new(id: StreamId, endpoint: RecvEndpoint) -> (r: ReadStream<D>)
        ensures
            r.spec_id() == id,
            r.spec_channel() == endpoint.channel,
            !r.is_closed(),
            r.read_so_far() == Seq::<MessageVal<D>>::empty(),
    {
        ReadStream { id, endpoint, closed: false, read_so_far: Ghost(Seq::empty()) }
    }

    pub fn id(&self) -> (r: StreamId)
        ensures
            r == self.spec_id(),
    {
        self.id
    }

    pub fn channel_index(&self) -> (r: usize)
        ensures
            r as int == self.spec_channel(),
    {
        self.endpoint.channel
    }

    /// Takes the next message of the stream.  After a `Top` watermark the
    /// stream is closed and nothing further is yielded; a drained conduit
    /// whose sending side is gone is end-of-stream too, so readers of a lost
    /// peer's streams observe `Closed`.
    pub fn read(&mut self, channels: &mut Channels<D>) -> (r: ReadOutcome<D>)
        requires
            0 <= old(self).spec_channel() < old(channels).len(),
        ensures
            final(self).spec_id() == old(self).spec_id(),
            final(self).spec_channel() == old(self).spec_channel(),
            final(channels).len() == old(channels).len(),
            final(channels).pushed_at(old(self).spec_channel())
                == old(channels).pushed_at(old(self).spec_channel()),
            forall|k: int| 0 <= k < old(channels).len() && k != old(self).spec_channel()
                ==> final(channels).spec_channels()[k] == old(channels).spec_channels()[k],
            old(self).is_closed() ==> (r is Closed && *final(self) == *old(self)
                && final(channels).spec_channels() == old(channels).spec_channels()),
            match r {
                ReadOutcome::Msg(m) => {
                    &&& !old(self).is_closed()
                    &&& final(self).read_so_far() == old(self).read_so_far().push(m@)
                    &&& final(self).is_closed() == is_top_watermark(m@)
                    &&& old(channels).spec_channels()[old(self).spec_channel()]
                        .num_delivered() < old(channels).pushed_at(
                        old(self).spec_channel(),
                    ).len()
                    &&& m@ == old(channels).pushed_at(old(self).spec_channel())[
                        old(channels).spec_channels()[old(self).spec_channel()]
                            .num_delivered()
                    ]
                    &&& final(channels).spec_channels()[old(self).spec_channel()]
                        .num_delivered() == old(channels).spec_channels()[
                        old(self).spec_channel()
                    ].num_delivered() + 1
                },
                ReadOutcome::Empty => {
                    &&& !old(self).is_closed()
                    &&& *final(self) == *old(self)
                    &&& final(channels).spec_channels() == old(channels).spec_channels()
                    &&& old(channels).spec_channels()[old(self).spec_channel()]
                        .num_delivered() == old(channels).pushed_at(
                        old(self).spec_channel(),
                    ).len()
                    &&& !old(channels).closed_at(old(self).spec_channel())
                },
                ReadOutcome::Closed => {
                    &&& final(self).is_closed()
                    &&& final(channels).spec_channels() == old(channels).spec_channels()
                    &&& (old(self).is_closed()
                        || (old(channels).closed_at(old(self).spec_channel())
                            && old(channels).spec_channels()[old(self).spec_channel()]
                                .num_delivered() == old(channels).pushed_at(
                                old(self).spec_channel(),
                            ).len()
                            && final(self).read_so_far() == old(self).read_so_far()))
                },
            },
    {
        if self.closed {
            return ReadOutcome::Closed;
        }
        match channels.pop_from(self.endpoint.channel) {
            Some(m) => {
                if m.is_top_watermark_msg() {
                    self.closed = true;
                }
                proof {
                    self.read_so_far@ = self.read_so_far@.push(m@);
                }
                ReadOutcome::Msg(m)
            }
            None => {
                if channels.is_closed_at(self.endpoint.channel) {
                    // the sending side is gone and the queue is drained:
                    // this stream has ended
                    self.closed = true;
                    ReadOutcome::Closed
                } else {
                    ReadOutcome::Empty
                }
            }
        }
    }
}

/// The write half of a stream: a set of endpoints, the low watermark, and a
/// closed flag.  Sends enforce watermark order and refuse anything after the
/// `Top` watermark.
pub struct WriteStream<D> {
    id: StreamId,
    endpoints: Vec<SendEndpoint>,
    low: Timestamp,
    closed: bool,
    sent: Ghost<Seq<MessageVal<D>>>,
}

impl<D> WriteStream<D> {
    #[verifier::type_invariant]
    spec fn wf(self) -> bool {
        &&& wm_monotone(self.sent@)
        &&& wms_at_most(self.sent@, self.low@)
    }
}

/// Whether a write stream accepts a message: the stream is open, and a
/// watermark does not fall below the low watermark.
pub open spec fn send_accepted<D: Data>(ws: WriteStream<D>, m: MessageVal<D>) -> bool {
    &&& !ws.is_closed_spec()
    &&& (is_watermark(m) ==> time_le(ws.spec_low(), msg_time(m)))
}

/// How an accepted message changes a write stream and the conduits: the
/// accepted history grows by the message, a watermark raises the low
/// watermark, a `Top` watermark closes the stream, every endpoint's conduit
/// receives the message, and no other conduit changes.
pub open spec fn send_effect<D: Data>(
    ws0: WriteStream<D>,
    ws1: WriteStream<D>,
    ch0: Channels<D>,
    ch1: Channels<D>,
    m: MessageVal<D>,
) -> bool {
    &&& ws1.spec_id() == ws0.spec_id()
    &&& ws1.spec_endpoints() == ws0.spec_endpoints()
    &&& ws1.sent() == ws0.sent().push(m)
    &&& ws1.spec_low() == (if is_watermark(m) {
        msg_time(m)
    } else {
        ws0.spec_low()
    })
    &&& ws1.is_closed_spec() == is_top_watermark(m)
    &&& ch1.len() == ch0.len()
    &&& forall|i: int| 0 <= i < ws0.spec_endpoints().len()
        ==> ch1.pushed_at((#[trigger] ws0.spec_endpoints()[i]).channel()).len() > 0
    &&& forall|k: int| 0 <= k < ch0.len()
        ==> (ws0.spec_endpoints().contains(SendEndpoint::InterThread(k as usize))
            || ws0.spec_endpoints().contains(SendEndpoint::InterWorker(k as usize))
            || ch1.spec_channels()[k] == ch0.spec_channels()[k])
    &&& (ws0.spec_endpoints().len() == 1
        ==> ch1.pushed_at(ws0.spec_endpoints()[0].channel())
            == ch0.pushed_at(ws0.spec_endpoints()[0].channel()).push(m))
}

impl<D: Data> WriteStream<D> {
    /// Everything this stream ever accepted keeps watermark order: the
    /// stream refuses any watermark below its low watermark, so the accepted
    /// sequence is watermark-monotone end to end, and every watermark in it
    /// is at or below the low watermark.
    pub fn sent_watermark_facts(&self)
        ensures
            wm_monotone(self.sent()),
            wms_at_most(self.sent(), self.spec_low()),
    {
        proof {
            use_type_invariant(self);
        }
    }

    pub closed spec fn spec_id(&self) -> StreamId {
        self.id
    }

    pub closed spec fn spec_endpoints(&self) -> Seq<SendEndpoint> {
        self.endpoints@
    }

    pub closed spec fn spec_low(&self) -> TimeVal {
        self.low@
    }

    pub closed spec fn is_closed_spec(&self) -> bool {
        self.closed
    }

    /// Every message accepted by this stream, in order.
    pub closed spec fn sent(&self) -> Seq<MessageVal<D>> {
        self.sent@
    }

    /// All endpoints name conduits below this bound.
    pub open spec fn endpoints_in(&self, n: int) -> bool {
        forall|i: int| 0 <= i < self.spec_endpoints().len()
            ==> 0 <= (#[trigger] self.spec_endpoints()[i]).channel() < n
    }

    pub fn new(id: StreamId, endpoints: Vec<SendEndpoint>) -> (r: WriteStream<D>)
        ensures
            r.spec_id() == id,
            r.spec_endpoints() == endpoints@,
            !r.is_closed_spec(),
            r.spec_low() == TimeVal::At(Seq::<u64>::empty()),
            r.sent() == Seq::<MessageVal<D>>::empty(),
    {
        let r = WriteStream {
            id,
            endpoints,
            low: Timestamp::Time(Vec::new()),
            closed: false,
            sent: Ghost(Seq::empty()),
        };
        proof {
            assert(r.low@ == TimeVal::At(Seq::<u64>::empty())) by {
                assert(r.low@ matches TimeVal::At(s) && s =~= Seq::<u64>::empty());
            }
        }
        r
    }

    pub fn id(&self) -> (r: StreamId)
        ensures
            r == self.spec_id(),
    {
        self.id
    }

    /// Whether a `Top` watermark has closed the stream.
    pub fn is_closed(&self) -> (r: bool)
        ensures
            r == self.is_closed_spec(),
    {
        self.closed
    }

    /// Broadcasts a message to every endpoint.  A message on a closed stream
    /// is refused; a watermark below the low watermark is refused; an
    /// accepted watermark raises the low watermark, and an accepted `Top`
    /// watermark closes the stream.
    #[verifier::loop_isolation(false)]
    pub fn send(&mut self, channels: &mut Channels<D>, msg: Message<D>) -> (r: Result<
        (),
        SendError,
    >)
        requires
            old(self).endpoints_in(old(channels).len()),
        ensures
            final(self).spec_id() == old(self).spec_id(),
            final(self).spec_endpoints() == old(self).spec_endpoints(),
            final(channels).len() == old(channels).len(),
            final(self).endpoints_in(final(channels).len()),
            // acceptance is owed exactly on an open stream whose watermark,
            // if any, respects the low watermark
            r is Ok <==> send_accepted(*old(self), msg@),
            match r {
                Ok(()) => send_effect(
                    *old(self),
                    *final(self),
                    *old(channels),
                    *final(channels),
                    msg@,
                ),
                Err(e) => {
                    &&& *final(self) == *old(self)
                    &&& final(channels).spec_channels() == old(channels).spec_channels()
                    &&& (e == SendError::Closed <==> old(self).is_closed_spec())
                    &&& (e == SendError::TimestampError <==> !old(self).is_closed_spec()
                        && is_watermark(msg@)
                        && !time_le(old(self).spec_low(), msg_time(msg@)))
                },
            },
    {
        let ghost ch_len0 = channels.len();
        let ghost eps0 = self.spec_endpoints();
        proof {
            assert(self.endpoints_in(ch_len0));
        }
        if self.closed {
            return Err(SendError::Closed);
        }
        let is_wm = msg.is_watermark_msg();
        if is_wm {
            let ts = msg.timestamp();
            if !self.low.is_le(ts) {
                return Err(SendError::TimestampError);
            }
        }
        // accepted: update the low watermark and the closed flag
        proof {
            use_type_invariant(&*self);
        }
        if is_wm {
            let ts = msg.timestamp();
            let new_low = ts.duplicate();
            proof {
                // the old watermarks stay at or below the raised low watermark
                assert forall|i: int| 0 <= i < self.sent@.len()
                    && is_watermark(#[trigger] self.sent@[i])
                    implies time_le(msg_time(self.sent@[i]), new_low@) by {
                    crate::timestamp::lemma_time_le_trans(
                        msg_time(self.sent@[i]),
                        self.low@,
                        new_low@,
                    );
                }
            }
            self.low = new_low;
            if msg.is_top_watermark_msg() {
                self.closed = true;
            }
        }
        let ghost mv = msg@;
        proof {
            // the accepted message extends the watermark-monotone history
            if is_watermark(mv) {
                crate::timestamp::lemma_time_le_refl(msg_time(mv));
            }
            assert(wm_monotone(self.sent@.push(mv)));
            assert(wms_at_most(self.sent@.push(mv), self.low@));
        }
        proof {
            assert(self.spec_endpoints() == eps0);
            assert(channels.len() == ch_len0);
            assert(self.endpoints_in(channels.len()));
        }
        let mut i: usize = 0;
        let n = self.endpoints.len();
        while i < n
            invariant
                i <= n,
                n == self.endpoints@.len(),
                channels.len() == old(channels).len(),
                self.endpoints_in(channels.len()),
                forall|t: int| 0 <= t < i
                    ==> channels.pushed_at((#[trigger] self.endpoints@[t]).channel())
                        .len() > 0,
                forall|k: int| 0 <= k < old(channels).len()
                    ==> (self.endpoints@.contains(SendEndpoint::InterThread(k as usize))
                        || self.endpoints@.contains(SendEndpoint::InterWorker(k as usize))
                        || channels.spec_channels()[k] == old(channels).spec_channels()[k]),
                n == 1 && i == 0 ==> channels.spec_channels()
                    == old(channels).spec_channels(),
                n == 1 && i == 1 ==> channels.pushed_at(self.endpoints@[0].channel())
                    == old(channels).pushed_at(self.endpoints@[0].channel()).push(mv),
            decreases n - i,
        {
            let ep = self.endpoints[i];
            let idx = ep.channel_index();
            channels.push_to(idx, msg.clone_message());
            proof {
                let epv = self.endpoints@[i as int];
                assert(epv == SendEndpoint::InterThread(idx)
                    || epv == SendEndpoint::InterWorker(idx));
                assert(self.endpoints@.contains(epv));
            }
            i = i + 1;
        }
        proof {
            self.sent@ = self.sent@.push(mv);
        }
        Ok(())
    }
}

// ------------------------------------------------------------------
// The user-facing stream traits and types.
// ------------------------------------------------------------------

/// The send half of any stream a user can write.
pub trait WriteStreamT<D: Data> {
    /// Sends a message to the stream's destinations through the worker's
    /// conduits.
    fn send(&mut self, channels: &mut Channels<D>, msg: Message<D>) -> Result<(), SendError>;
}

/// An edge of a dataflow graph under construction.
pub trait Stream<D: Data>: InternalStream<D> {
    /// The stream's name, as a value.
    spec fn stream_name(&self) -> Seq<char>;

    /// The stream's identity, as a value.
    spec fn stream_id(&self) -> StreamId;

    /// The name of the stream, used in debugging.
    fn name(&self) -> (r: String)
        ensures
            r@ == self.stream_name(),
    ;

    /// The stream's unique identity.
    fn id(&self) -> (r: StreamId)
        ensures
            r == self.stream_id(),
    ;
}

/// Internals shared by stream types: which graph a stream belongs to.
pub trait InternalStream<D: Data> {
    /// The owning graph, as a value.
    spec fn stream_graph(&self) -> JobGraphId;

    /// The identity of the graph this stream was created in.
    fn internal_graph(&self) -> (r: JobGraphId)
        ensures
            r == self.stream_graph(),
    ;
}

/// A stream produced by connecting an operator to a graph.
pub struct OperatorStream<D: Data> {
    id: StreamId,
    name: String,
    graph: JobGraphId,
    phantom: core::marker::PhantomData<D>,
}

impl<D: Data> OperatorStream<D> {
    /// Creates a new stream handle.
    pub fn new(id: StreamId, name: &str, graph: JobGraphId) -> (r: OperatorStream<D>)
        ensures
            r.spec_id() == id,
            r.spec_graph() == graph,
            r.spec_name() == name@,
    {
        OperatorStream {
            id,
            name: name.to_owned(),
            graph,
            phantom: core::marker::PhantomData,
        }
    }

    pub closed spec fn spec_id(&self) -> StreamId {
        self.id
    }

    pub closed spec fn spec_graph(&self) -> JobGraphId {
        self.graph
    }

    pub closed spec fn spec_name(&self) -> Seq<char> {
        self.name@
    }

    /// A driver-side extraction stream over this stream; its read half is
    /// installed once the stream manager materializes the endpoints.
    pub fn to_egress(&self) -> (r: EgressStream<D>)
        ensures
            r.spec_id() == self.spec_id(),
            r.read_stream() is None,
    {
        EgressStream::new(self.id)
    }
}

impl<D: Data> Stream<D> for OperatorStream<D> {
    open spec fn stream_name(&self) -> Seq<char> {
        self.spec_name()
    }

    open spec fn stream_id(&self) -> StreamId {
        self.spec_id()
    }

    fn name(&self) -> (r: String) {
        self.name.as_str().to_owned()
    }

    fn id(&self) -> (r: StreamId) {
        self.id
    }
}

impl<D: Data> InternalStream<D> for OperatorStream<D> {
    open spec fn stream_graph(&self) -> JobGraphId {
        self.spec_graph()
    }

    fn internal_graph(&self) -> (r: JobGraphId) {
        self.graph
    }
}

/// A driver-side stream for injecting messages into a running dataflow.
/// Until its write half is set up it counts as closed for sending.
pub struct IngestStream<D: Data> {
    id: StreamId,
    write_stream_option: Option<WriteStream<D>>,
}

impl<D: Data> IngestStream<D> {
    pub closed spec fn spec_id(&self) -> StreamId {
        self.id
    }

    pub closed spec fn write_stream(&self) -> Option<WriteStream<D>> {
        self.write_stream_option
    }

    pub fn new(id: StreamId) -> (r: IngestStream<D>)
        ensures
            r.spec_id() == id,
            r.write_stream() is None,
    {
        IngestStream { id, write_stream_option: None }
    }

    pub fn id(&self) -> (r: StreamId)
        ensures
            r == self.spec_id(),
    {
        self.id
    }

    /// Installs the write half once the stream manager has materialized it.
    pub fn set_write_stream(&mut self, ws: WriteStream<D>)
        ensures
            final(self).spec_id() == old(self).spec_id(),
            final(self).write_stream() == Some(ws),
    {
        self.write_stream_option = Some(ws);
    }

    /// Whether a top watermark was sent, or the stream is not yet set up.
    pub fn is_closed(&self) -> (r: bool)
        ensures
            r == match self.write_stream() {
                Some(ws) => ws.is_closed_spec(),
                None => true,
            },
    {
        match &self.write_stream_option {
            Some(ws) => ws.is_closed(),
            None => true,
        }
    }

    /// Sends a message to the running dataflow; it is accepted exactly when
    /// the write half is installed, open, and a watermark respects the low
    /// watermark, and then reaches the destinations as a direct send would.
    /// While the stream is closed or not yet set up the send fails with
    /// `Closed` and nothing changes.
    pub fn send(&mut self, channels: &mut Channels<D>, msg: Message<D>) -> (r: Result<
        (),
        SendError,
    >)
        requires
            (old(self).write_stream() matches Some(ws)
                ==> ws.endpoints_in(old(channels).len())),
        ensures
            final(self).spec_id() == old(self).spec_id(),
            final(channels).len() == old(channels).len(),
            r is Ok <==> (old(self).write_stream() matches Some(ws)
                && send_accepted(ws, msg@)),
            old(self).write_stream() is None
                ==> (r == Err::<(), SendError>(SendError::Closed)
                    && final(self).write_stream() is None
                    && final(channels).spec_channels()
                        == old(channels).spec_channels()),
            (old(self).write_stream() matches Some(ws) ==> match r {
                Ok(()) => final(self).write_stream() matches Some(ws2) && send_effect(
                    ws,
                    ws2,
                    *old(channels),
                    *final(channels),
                    msg@,
                ),
                Err(e) => {
                    &&& final(self).write_stream() == Some(ws)
                    &&& final(channels).spec_channels() == old(channels).spec_channels()
                    &&& (e == SendError::Closed <==> ws.is_closed_spec())
                    &&& (e == SendError::TimestampError <==> !ws.is_closed_spec()
                        && is_watermark(msg@)
                        && !time_le(ws.spec_low(), msg_time(msg@)))
                },
            }),
    {
        let mut taken: Option<WriteStream<D>> = None;
        core::mem::swap(&mut taken, &mut self.write_stream_option);
        match taken {
            Some(mut ws) => {
                let r = ws.send(channels, msg);
                self.write_stream_option = Some(ws);
                r
            }
            None => {
                self.write_stream_option = None;
                Err(SendError::Closed)
            }
        }
    }
}

/// A driver-side stream for extracting messages from a running dataflow:
/// the counterpart of an ingest stream.  Until its read half is set up
/// nothing can be read.
pub struct EgressStream<D: Data> {
    id: StreamId,
    read_stream_option: Option<ReadStream<D>>,
}

impl<D: Data> EgressStream<D> {
    pub closed spec fn spec_id(&self) -> StreamId {
        self.id
    }

    pub closed spec fn read_stream(&self) -> Option<ReadStream<D>> {
        self.read_stream_option
    }

    pub fn new(id: StreamId) -> (r: EgressStream<D>)
        ensures
            r.spec_id() == id,
            r.read_stream() is None,
    {
        EgressStream { id, read_stream_option: None }
    }

    pub fn id(&self) -> (r: StreamId)
        ensures
            r == self.spec_id(),
    {
        self.id
    }

    /// Installs the read half once the stream manager has materialized it.
    pub fn set_read_stream(&mut self, rs: ReadStream<D>)
        ensures
            final(self).spec_id() == old(self).spec_id(),
            final(self).read_stream() == Some(rs),
    {
        self.read_stream_option = Some(rs);
    }

    /// Takes the next message from the dataflow; before the read half is set
    /// up there is nothing to take.
    pub fn read(&mut self, channels: &mut Channels<D>) -> (r: ReadOutcome<D>)
        requires
            (old(self).read_stream() matches Some(rs)
                ==> 0 <= rs.spec_channel() < old(channels).len()),
        ensures
            final(self).spec_id() == old(self).spec_id(),
            final(channels).len() == old(channels).len(),
            old(self).read_stream() is None
                ==> (r is Empty && *final(self) == *old(self)
                    && final(channels).spec_channels()
                        == old(channels).spec_channels()),
            (old(self).read_stream() matches Some(rs0) ==> {
                &&& final(self).read_stream() matches Some(rs1)
                    && rs1.spec_id() == rs0.spec_id()
                    && rs1.spec_channel() == rs0.spec_channel()
                &&& final(channels).pushed_at(rs0.spec_channel())
                    == old(channels).pushed_at(rs0.spec_channel())
                &&& forall|k: int| 0 <= k < old(channels).len()
                    && k != rs0.spec_channel()
                    ==> final(channels).spec_channels()[k]
                        == old(channels).spec_channels()[k]
                &&& match r {
                    ReadOutcome::Msg(m) => {
                        &&& !rs0.is_closed()
                        &&& final(self).read_stream()->Some_0.read_so_far()
                            == rs0.read_so_far().push(m@)
                        &&& m@ == old(channels).pushed_at(rs0.spec_channel())[
                            old(channels).spec_channels()[rs0.spec_channel()]
                                .num_delivered()
                        ]
                        &&& final(channels).spec_channels()[rs0.spec_channel()]
                            .num_delivered() == old(channels).spec_channels()[
                            rs0.spec_channel()
                        ].num_delivered() + 1
                    },
                    ReadOutcome::Empty => {
                        &&& !rs0.is_closed()
                        &&& *final(self) == *old(self)
                        &&& final(channels).spec_channels()
                            == old(channels).spec_channels()
                    },
                    ReadOutcome::Closed => {
                        &&& final(self).read_stream()->Some_0.is_closed()
                        &&& final(channels).spec_channels()
                            == old(channels).spec_channels()
                    },
                }
            }),
    {
        let mut taken: Option<ReadStream<D>> = None;
        core::mem::swap(&mut taken, &mut self.read_stream_option);
        match taken {
            Some(mut rs) => {
                let r = rs.read(channels);
                self.read_stream_option = Some(rs);
                r
            }
            None => {
                self.read_stream_option = None;
                ReadOutcome::Empty
            }
        }
    }
}

} // verus!