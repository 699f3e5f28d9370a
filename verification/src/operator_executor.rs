//! The per-operator executor: it owns the operator's streams and drains its
//! inbound messages in arrival order, which respects the event order —
//! a watermark is handled only after every earlier message of its conduit.

use vstd::prelude::*;

use crate::message::{Data, Message, MessageVal};
use crate::stream::{Channels, ReadOutcome, ReadStream, WriteStream};

verus! {

/// Runs one operator: up to two read streams in, up to two write streams
/// out.  Absent streams mark the operator's kind (a source has no read
/// streams, a sink no write streams).
pub struct OperatorExecutor<D> {
    left_read_stream: Option<ReadStream<D>>,
    right_read_stream: Option<ReadStream<D>>,
    left_write_stream: Option<WriteStream<D>>,
    right_write_stream: Option<WriteStream<D>>,
}

impl<D: Data> OperatorExecutor<D> {
    pub closed spec fn spec_left_read(&self) -> Option<ReadStream<D>> {
        self.left_read_stream
    }

    pub closed spec fn spec_right_read(&self) -> Option<ReadStream<D>> {
        self.right_read_stream
    }

    pub closed spec fn spec_left_write(&self) -> Option<WriteStream<D>> {
        self.left_write_stream
    }

    pub closed spec fn spec_right_write(&self) -> Option<WriteStream<D>> {
        self.right_write_stream
    }

    /// Sets up an executor over the streams the stream manager handed out.
    pub fn new(
        left_read_stream: Option<ReadStream<D>>,
        right_read_stream: Option<ReadStream<D>>,
        left_write_stream: Option<WriteStream<D>>,
        right_write_stream: Option<WriteStream<D>>,
    ) -> (r: OperatorExecutor<D>)
        ensures
            r.spec_left_read() == left_read_stream,
            r.spec_right_read() == right_read_stream,
            r.spec_left_write() == left_write_stream,
            r.spec_right_write() == right_write_stream,
    {
        OperatorExecutor {
            left_read_stream,
            right_read_stream,
            left_write_stream,
            right_write_stream,
        }
    }

    /// Drains every message queued on the left read stream, in arrival
    /// order; stops only at a drained conduit or when a `Top` watermark
    /// closes the stream, and an already-closed stream yields nothing.
    /// Yields the drained messages for the operator's callbacks.
    pub fn execute(&mut self, channels: &mut Channels<D>) -> (r: Vec<Message<D>>)
        requires
            (old(self).spec_left_read() matches Some(rs)
                ==> 0 <= rs.spec_channel() < old(channels).len()),
        ensures
            final(channels).len() == old(channels).len(),
            final(self).spec_left_write() == old(self).spec_left_write(),
            final(self).spec_right_write() == old(self).spec_right_write(),
            final(self).spec_right_read() == old(self).spec_right_read(),
            old(self).spec_left_read() is None
                ==> (r@ == Seq::<Message<D>>::empty() && *final(self) == *old(self)),
            (old(self).spec_left_read() matches Some(rs0)
                ==> final(self).spec_left_read() matches Some(rs1)
                    && rs1.spec_id() == rs0.spec_id()
                    && rs1.spec_channel() == rs0.spec_channel()
                    && rs1.read_so_far() == rs0.read_so_far() + r@.map_values(
                        |m: Message<D>| m@,
                    )
                    // the conduit's pushed history is untouched, and the
                    // yield is exactly the segment delivered by this call
                    && final(channels).pushed_at(rs0.spec_channel())
                        == old(channels).pushed_at(rs0.spec_channel())
                    && (forall|k: int| 0 <= k < old(channels).len()
                        && k != rs0.spec_channel()
                        ==> final(channels).spec_channels()[k]
                            == old(channels).spec_channels()[k])
                    && r@.map_values(|m: Message<D>| m@)
                        == old(channels).pushed_at(rs0.spec_channel()).subrange(
                        old(channels).spec_channels()[rs0.spec_channel()].num_delivered(),
                        old(channels).spec_channels()[rs0.spec_channel()].num_delivered()
                            + r@.len(),
                    )
                    && final(channels).spec_channels()[rs0.spec_channel()].num_delivered()
                        == old(channels).spec_channels()[rs0.spec_channel()]
                            .num_delivered() + r@.len()
                    // on return the stream is closed or its conduit drained
                    && (rs1.is_closed() || final(channels).spec_channels()[
                        rs0.spec_channel()
                    ].num_delivered() == final(channels).pushed_at(rs0.spec_channel()).len())),
            // a closed stream yields nothing and touches nothing
            (old(self).spec_left_read() is Some
                && old(self).spec_left_read()->Some_0.is_closed())
                ==> (r@ == Seq::<Message<D>>::empty()
                    && final(self).spec_left_read() == old(self).spec_left_read()
                    && final(channels).spec_channels()
                        == old(channels).spec_channels()),
    {
        let mut out: Vec<Message<D>> = Vec::new();
        let mut taken: Option<ReadStream<D>> = None;
        core::mem::swap(&mut taken, &mut self.left_read_stream);
        match taken {
            Some(mut rs) => {
                let ghost rs0 = rs;
                let idx = rs.channel_index();
                channels.fifo_facts_at(idx);
                let ghost d0 = channels.spec_channels()[rs.spec_channel()].num_delivered();
                let ghost ch0 = *channels;
                proof {
                    assert(out@.map_values(|m: Message<D>| m@)
                        =~= Seq::<MessageVal<D>>::empty());
                    assert(rs.read_so_far() =~= rs0.read_so_far()
                        + out@.map_values(|m: Message<D>| m@));
                    assert(out@.map_values(|m: Message<D>| m@)
                        =~= ch0.pushed_at(rs.spec_channel()).subrange(d0, d0 + out@.len()));
                }
                loop
                    invariant
                        0 <= d0,
                        0 <= rs.spec_channel() < channels.len(),
                        channels.len() == old(channels).len(),
                        rs.spec_id() == rs0.spec_id(),
                        rs.spec_channel() == rs0.spec_channel(),
                        rs.read_so_far() == rs0.read_so_far() + out@.map_values(
                            |m: Message<D>| m@,
                        ),
                        channels.spec_channels()[rs.spec_channel()].num_delivered()
                            <= channels.pushed_at(rs.spec_channel()).len(),
                        channels.pushed_at(rs.spec_channel())
                            == ch0.pushed_at(rs.spec_channel()),
                        forall|k: int| 0 <= k < old(channels).len()
                            && k != rs.spec_channel()
                            ==> channels.spec_channels()[k] == ch0.spec_channels()[k],
                        channels.spec_channels()[rs.spec_channel()].num_delivered()
                            == d0 + out@.len(),
                        out@.map_values(|m: Message<D>| m@)
                            == ch0.pushed_at(rs.spec_channel()).subrange(
                            d0,
                            d0 + out@.len(),
                        ),
                        rs0.is_closed() ==> (rs == rs0
                            && out@ == Seq::<Message<D>>::empty()
                            && channels.spec_channels()
                                == old(channels).spec_channels()),
                    ensures
                        rs.spec_id() == rs0.spec_id(),
                        rs.spec_channel() == rs0.spec_channel(),
                        channels.len() == old(channels).len(),
                        rs.read_so_far() == rs0.read_so_far() + out@.map_values(
                            |m: Message<D>| m@,
                        ),
                        channels.pushed_at(rs.spec_channel())
                            == ch0.pushed_at(rs.spec_channel()),
                        forall|k: int| 0 <= k < old(channels).len()
                            && k != rs.spec_channel()
                            ==> channels.spec_channels()[k] == ch0.spec_channels()[k],
                        channels.spec_channels()[rs.spec_channel()].num_delivered()
                            == d0 + out@.len(),
                        out@.map_values(|m: Message<D>| m@)
                            == ch0.pushed_at(rs.spec_channel()).subrange(
                            d0,
                            d0 + out@.len(),
                        ),
                        rs.is_closed() || channels.spec_channels()[rs.spec_channel()]
                            .num_delivered() == channels.pushed_at(rs.spec_channel()).len(),
                        rs0.is_closed() ==> (rs == rs0
                            && out@ == Seq::<Message<D>>::empty()
                            && channels.spec_channels()
                                == old(channels).spec_channels()),
                    decreases channels.pushed_at(rs.spec_channel()).len()
                        - channels.spec_channels()[rs.spec_channel()].num_delivered(),
                {
                    let outcome = rs.read(channels);
                    match outcome {
                        ReadOutcome::Msg(m) => {
                            let ghost o0 = out@;
                            let ghost mval = m@;
                            out.push(m);
                            proof {
                                assert(out@.map_values(|m: Message<D>| m@)
                                    =~= o0.map_values(|m: Message<D>| m@).push(
                                        out@[o0.len() as int]@,
                                    ));
                                assert(rs.read_so_far() =~= rs0.read_so_far()
                                    + out@.map_values(|m: Message<D>| m@));
                                let ch = rs.spec_channel();
                                assert(mval == ch0.pushed_at(ch)[d0 + o0.len()]);
                                assert(ch0.pushed_at(ch).subrange(d0, d0 + o0.len() + 1)
                                    =~= ch0.pushed_at(ch).subrange(d0, d0 + o0.len())
                                        .push(ch0.pushed_at(ch)[d0 + o0.len()]));
                                assert(out@.map_values(|m: Message<D>| m@)
                                    =~= ch0.pushed_at(ch).subrange(
                                    d0,
                                    d0 + out@.len(),
                                ));
                            }
                        }
                        ReadOutcome::Empty => {
                            break;
                        }
                        ReadOutcome::Closed => {
                            break;
                        }
                    }
                }
                self.left_read_stream = Some(rs);
            }
            None => {
                self.left_read_stream = None;
                proof {
                    assert(out@ =~= Seq::<Message<D>>::empty());
                }
            }
        }
        out
    }
}

} // verus!
