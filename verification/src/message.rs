//! Messages carried on streams: timestamped data and watermarks, and the
//! payload contract that lets a message cross between workers as bytes.

use vstd::prelude::*;

use crate::codec::{
    dec_u64, enc_u64, lemma_dec_enc_u64, read_u64, write_u64,
};
use crate::timestamp::{TimeVal, Timestamp};

verus! {

/// A payload that operators exchange on streams.  The byte form is the
/// operator's own serialization; encoding then decoding yields the payload
/// back, and two payloads with one byte form are one payload.
pub trait Data: Sized {
    /// The payload's byte form.
    spec fn spec_bytes(&self) -> Seq<u8>;

    /// One byte form belongs to at most one payload.
    proof fn lemma_bytes_injective(a: &Self, b: &Self)
        ensures
            a.spec_bytes() == b.spec_bytes() ==> *a == *b,
    ;

    /// Serializes the payload.
    fn to_bytes(&self) -> (r: Vec<u8>)
        ensures
            r@ == self.spec_bytes(),
    ;

    /// Recovers a payload from its byte form.
    fn from_bytes(b: &Vec<u8>) -> (r: Option<Self>)
        ensures
            match r {
                Some(d) => d.spec_bytes() == b@,
                None => forall|d: Self| (#[trigger] d.spec_bytes()) != b@,
            },
    ;

    /// A copy equal to this payload, standing in for a shared handle.
    fn clone_data(&self) -> (r: Self)
        ensures
            r == *self,
    ;
}

/// A message on a stream: either a timestamped payload, or a watermark
/// asserting that no further data at or below its timestamp will appear.
pub enum Message<D> {
    Data(Timestamp, D),
    Watermark(Timestamp),
}

/// The mathematical value of a message.
pub enum MessageVal<D> {
    Data(TimeVal, D),
    Watermark(TimeVal),
}

impl<D> View for Message<D> {
    type V = MessageVal<D>;

    open spec fn view(&self) -> MessageVal<D> {
        match self {
            Message::Data(t, d) => MessageVal::Data(t@, *d),
            Message::Watermark(t) => MessageVal::Watermark(t@),
        }
    }
}

/// The timestamp of a message value.
pub open spec fn msg_time<D>(m: MessageVal<D>) -> TimeVal {
    match m {
        MessageVal::Data(t, _) => t,
        MessageVal::Watermark(t) => t,
    }
}

pub open spec fn is_watermark<D>(m: MessageVal<D>) -> bool {
    m is Watermark
}

/// Whether a message is the `Top` watermark that closes a stream.
pub open spec fn is_top_watermark<D>(m: MessageVal<D>) -> bool {
    match m {
        MessageVal::Watermark(t) => t is Top,
        MessageVal::Data(_, _) => false,
    }
}

impl<D: Data> Message<D> {
    /// A data message.
    pub fn new_message(timestamp: Timestamp, data: D) -> (r: Message<D>)
        ensures
            r@ == MessageVal::Data(timestamp@, data),
    {
        Message::Data(timestamp, data)
    }

    /// A watermark message.
    pub fn new_watermark(timestamp: Timestamp) -> (r: Message<D>)
        ensures
            r@ == MessageVal::<D>::Watermark(timestamp@),
    {
        Message::Watermark(timestamp)
    }

    pub fn timestamp(&self) -> (r: &Timestamp)
        ensures
            r@ == msg_time(self@),
    {
        match self {
            Message::Data(t, _) => t,
            Message::Watermark(t) => t,
        }
    }

    pub fn is_watermark_msg(&self) -> (r: bool)
        ensures
            r == is_watermark(self@),
    {
        match self {
            Message::Data(_, _) => false,
            Message::Watermark(_) => true,
        }
    }

    pub fn is_top_watermark_msg(&self) -> (r: bool)
        ensures
            r == is_top_watermark(self@),
    {
        match self {
            Message::Data(_, _) => false,
            Message::Watermark(t) => t.is_top(),
        }
    }

    pub fn data(&self) -> (r: Option<&D>)
        ensures
            match r {
                Some(d) => self@ matches MessageVal::Data(_, dd) && *d == dd,
                None => self@ is Watermark,
            },
    {
        match self {
            Message::Data(_, d) => Some(d),
            Message::Watermark(_) => None,
        }
    }

    /// A copy equal in value to this message, standing in for a shared handle.
    pub fn clone_message(&self) -> (r: Message<D>)
        ensures
            r@ == self@,
    {
        match self {
            Message::Data(t, d) => Message::Data(t.duplicate(), d.clone_data()),
            Message::Watermark(t) => Message::Watermark(t.duplicate()),
        }
    }
}

// ------------------------------------------------------------------
// A base payload: a 64-bit value, serialized big-endian.
// ------------------------------------------------------------------

impl Data for u64 {
    open spec fn spec_bytes(&self) -> Seq<u8> {
        enc_u64(*self)
    }

    proof fn lemma_bytes_injective(a: &Self, b: &Self)
    {
        if a.spec_bytes() == b.spec_bytes() {
            let s = enc_u64(*a);
            assert(s.subrange(0, 8) =~= enc_u64(*a));
            lemma_dec_enc_u64(s, 0, *a);
            lemma_dec_enc_u64(s, 0, *b);
        }
    }

    fn to_bytes(&self) -> (r: Vec<u8>)
    {
        let mut r: Vec<u8> = Vec::new();
        write_u64(&mut r, *self);
        proof {
            assert(r@ =~= enc_u64(*self));
        }
        r
    }

    fn from_bytes(b: &Vec<u8>) -> (r: Option<Self>)
    {
        if b.len() != 8 {
            proof {
                assert(forall|d: u64| (#[trigger] d.spec_bytes()).len() == 8);
            }
            return None;
        }
        match read_u64(b, 0) {
            Some((v, _)) => {
                proof {
                    let b0 = b@[0];
                    let b1 = b@[1];
                    let b2 = b@[2];
                    let b3 = b@[3];
                    let b4 = b@[4];
                    let b5 = b@[5];
                    let b6 = b@[6];
                    let b7 = b@[7];
                    let w = crate::codec::combine_u64(b0, b1, b2, b3, b4, b5, b6, b7);
                    assert({
                        let w = ((b0 as u64) << 56) | ((b1 as u64) << 48) | ((b2 as u64) << 40)
                            | ((b3 as u64) << 32) | ((b4 as u64) << 24) | ((b5 as u64) << 16)
                            | ((b6 as u64) << 8) | (b7 as u64);
                        (w >> 56) as u8 == b0 && (w >> 48) as u8 == b1 && (w >> 40) as u8 == b2
                            && (w >> 32) as u8 == b3 && (w >> 24) as u8 == b4
                            && (w >> 16) as u8 == b5 && (w >> 8) as u8 == b6 && w as u8 == b7
                    }) by (bit_vector);
                    assert(enc_u64(w) =~= b@);
                }
                Some(v)
            }
            None => {
                proof {
                    assert(dec_u64(b@, 0) is Some);
                }
                None
            }
        }
    }

    fn clone_data(&self) -> (r: Self)
    {
        *self
    }
}

} // verus!
