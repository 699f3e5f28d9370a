//! The byte form of an operator message: what crosses the data plane as a
//! frame body, and what a pusher deserializes once on arrival.

use vstd::prelude::*;

use crate::codec::{
    dec_bytes, dec_u64_seq, dec_u8, enc_bytes, enc_u64_seq, enc_u8, lemma_dec_enc_bytes,
    lemma_dec_enc_u64_seq, lemma_dec_enc_u8, lemma_subrange_parts, read_bytes, read_u64_seq,
    read_u8, write_bytes, write_u64_seq, write_u8,
};
use crate::message::{Data, Message, MessageVal};
use crate::timestamp::{TimeVal, Timestamp};

verus! {

pub open spec fn enc_timestamp(t: TimeVal) -> Seq<u8> {
    match t {
        TimeVal::At(s) => seq![0u8] + enc_u64_seq(s),
        TimeVal::Top => seq![1u8],
    }
}

pub open spec fn dec_timestamp(s: Seq<u8>, pos: int) -> Option<(TimeVal, int)> {
    match dec_u8(s, pos) {
        Some((tag, p)) => if tag == 0 {
            match dec_u64_seq(s, p) {
                Some((v, p2)) => Some((TimeVal::At(v), p2)),
                None => None,
            }
        } else if tag == 1 {
            Some((TimeVal::Top, p))
        } else {
            None
        },
        None => None,
    }
}

pub open spec fn encodable_timestamp(t: TimeVal) -> bool {
    match t {
        TimeVal::At(s) => s.len() <= u32::MAX,
        TimeVal::Top => true,
    }
}

pub proof fn lemma_dec_enc_timestamp(s: Seq<u8>, pos: int, t: TimeVal)
    requires
        0 <= pos,
        encodable_timestamp(t),
        pos + enc_timestamp(t).len() <= s.len(),
        s.subrange(pos, pos + enc_timestamp(t).len()) == enc_timestamp(t),
    ensures
        dec_timestamp(s, pos) == Some((t, pos + enc_timestamp(t).len())),
{
    match t {
        TimeVal::At(v) => {
            lemma_subrange_parts(s, pos, seq![0u8], enc_u64_seq(v));
            lemma_dec_enc_u8(s, pos, 0u8);
            lemma_dec_enc_u64_seq(s, pos + 1, v);
        }
        TimeVal::Top => {
            lemma_dec_enc_u8(s, pos, 1u8);
        }
    }
}

pub fn write_timestamp(out: &mut Vec<u8>, t: &Timestamp) -> (ok: bool)
    ensures
        ok ==> encodable_timestamp(t@) && final(out)@ == old(out)@ + enc_timestamp(t@),
        !ok ==> final(out)@ == old(out)@ && !encodable_timestamp(t@),
{
    match t {
        Timestamp::Time(v) => {
            if v.len() > u32::MAX as usize {
                return false;
            }
            write_u8(out, 0);
            let ok = write_u64_seq(out, v);
            proof {
                assert(ok);
                assert(final(out)@ =~= old(out)@ + enc_timestamp(t@));
            }
            true
        }
        Timestamp::Top => {
            write_u8(out, 1);
            proof {
                assert(final(out)@ =~= old(out)@ + enc_timestamp(t@));
            }
            true
        }
    }
}

pub fn read_timestamp(b: &Vec<u8>, pos: usize) -> (r: Option<(Timestamp, usize)>)
    ensures
        match r {
            Some((t, p)) => dec_timestamp(b@, pos as int) == Some((t@, p as int)),
            None => dec_timestamp(b@, pos as int) is None,
        },
{
    match read_u8(b, pos) {
        Some((tag, p)) => {
            if tag == 0 {
                match read_u64_seq(b, p) {
                    Some((v, p2)) => Some((Timestamp::Time(v), p2)),
                    None => None,
                }
            } else if tag == 1 {
                Some((Timestamp::Top, p))
            } else {
                None
            }
        }
        None => None,
    }
}

/// The shape of a message on the wire, before its payload is deserialized.
pub enum MessageFrame {
    DataFrame(TimeVal, Seq<u8>),
    WatermarkFrame(TimeVal),
}

/// The wire shape of a message value.
pub open spec fn frame_of<D: Data>(m: MessageVal<D>) -> MessageFrame {
    match m {
        MessageVal::Data(t, d) => MessageFrame::DataFrame(t, d.spec_bytes()),
        MessageVal::Watermark(t) => MessageFrame::WatermarkFrame(t),
    }
}

pub open spec fn enc_message_frame(f: MessageFrame) -> Seq<u8> {
    match f {
        MessageFrame::DataFrame(t, payload) => seq![0u8] + enc_timestamp(t) + enc_bytes(payload),
        MessageFrame::WatermarkFrame(t) => seq![1u8] + enc_timestamp(t),
    }
}

/// The byte form of a message.
pub open spec fn enc_message<D: Data>(m: MessageVal<D>) -> Seq<u8> {
    enc_message_frame(frame_of(m))
}

pub open spec fn dec_message_frame(s: Seq<u8>, pos: int) -> Option<(MessageFrame, int)> {
    match dec_u8(s, pos) {
        Some((tag, p)) => if tag == 0 {
            match dec_timestamp(s, p) {
                Some((t, p2)) => match dec_bytes(s, p2) {
                    Some((payload, p3)) => Some((MessageFrame::DataFrame(t, payload), p3)),
                    None => None,
                },
                None => None,
            }
        } else if tag == 1 {
            match dec_timestamp(s, p) {
                Some((t, p2)) => Some((MessageFrame::WatermarkFrame(t), p2)),
                None => None,
            }
        } else {
            None
        },
        None => None,
    }
}

pub open spec fn encodable_message<D: Data>(m: MessageVal<D>) -> bool {
    match m {
        MessageVal::Data(t, d) => encodable_timestamp(t) && d.spec_bytes().len() <= u32::MAX,
        MessageVal::Watermark(t) => encodable_timestamp(t),
    }
}

pub proof fn lemma_dec_enc_message_frame(s: Seq<u8>, pos: int, f: MessageFrame)
    requires
        0 <= pos,
        (f matches MessageFrame::DataFrame(t, payload)
            ==> encodable_timestamp(t) && payload.len() <= u32::MAX),
        (f matches MessageFrame::WatermarkFrame(t) ==> encodable_timestamp(t)),
        pos + enc_message_frame(f).len() <= s.len(),
        s.subrange(pos, pos + enc_message_frame(f).len()) == enc_message_frame(f),
    ensures
        dec_message_frame(s, pos) == Some((f, pos + enc_message_frame(f).len())),
{
    match f {
        MessageFrame::DataFrame(t, payload) => {
            let e1 = enc_timestamp(t);
            let e2 = enc_bytes(payload);
            assert(enc_message_frame(f) == seq![0u8] + (e1 + e2)) by {
                assert(seq![0u8] + e1 + e2 =~= seq![0u8] + (e1 + e2));
            }
            lemma_subrange_parts(s, pos, seq![0u8], e1 + e2);
            lemma_subrange_parts(s, pos + 1, e1, e2);
            lemma_dec_enc_u8(s, pos, 0u8);
            lemma_dec_enc_timestamp(s, pos + 1, t);
            lemma_dec_enc_bytes(s, pos + 1 + e1.len(), payload);
        }
        MessageFrame::WatermarkFrame(t) => {
            lemma_subrange_parts(s, pos, seq![1u8], enc_timestamp(t));
            lemma_dec_enc_u8(s, pos, 1u8);
            lemma_dec_enc_timestamp(s, pos + 1, t);
        }
    }
}

/// Encodes a message; yields the bytes exactly when its lengths fit their
/// 32-bit wire prefixes.
pub fn encode_message<D: Data>(m: &Message<D>) -> (r: Option<Vec<u8>>)
    ensures
        match r {
            Some(bytes) => encodable_message(m@) && bytes@ == enc_message(m@),
            None => !encodable_message(m@),
        },
{
    let mut out: Vec<u8> = Vec::new();
    match m {
        Message::Data(t, d) => {
            write_u8(&mut out, 0);
            let ok = write_timestamp(&mut out, t);
            if !ok {
                return None;
            }
            let payload = d.to_bytes();
            let ok2 = write_bytes(&mut out, &payload);
            if !ok2 {
                return None;
            }
            proof {
                assert(out@ =~= enc_message(m@));
            }
            Some(out)
        }
        Message::Watermark(t) => {
            write_u8(&mut out, 1);
            let ok = write_timestamp(&mut out, t);
            if !ok {
                return None;
            }
            proof {
                assert(out@ =~= enc_message(m@));
            }
            Some(out)
        }
    }
}

/// Decodes a whole buffer as one message, deserializing the payload once.
pub fn decode_message<D: Data>(b: &Vec<u8>) -> (r: Option<Message<D>>)
    ensures
        match r {
            Some(m) => {
                &&& dec_message_frame(b@, 0) matches Some((f, p))
                    && p == b@.len() && f == frame_of(m@)
            },
            None => match dec_message_frame(b@, 0) {
                None => true,
                Some((f, p)) => p != b@.len() || (f matches MessageFrame::DataFrame(_, payload)
                    && forall|d: D| (#[trigger] d.spec_bytes()) != payload),
            },
        },
{
    match read_u8(b, 0) {
        Some((tag, p)) => {
            if tag == 0 {
                match read_timestamp(b, p) {
                    Some((t, p2)) => match read_bytes(b, p2) {
                        Some((payload, p3)) => {
                            if p3 != b.len() {
                                return None;
                            }
                            match D::from_bytes(&payload) {
                                Some(d) => Some(Message::Data(t, d)),
                                None => None,
                            }
                        }
                        None => None,
                    },
                    None => None,
                }
            } else if tag == 1 {
                match read_timestamp(b, p) {
                    Some((t, p2)) => {
                        if p2 != b.len() {
                            return None;
                        }
                        Some(Message::Watermark(t))
                    }
                    None => None,
                }
            } else {
                None
            }
        }
        None => None,
    }
}

/// Decoding an encoded message yields an equal message back.
pub proof fn lemma_message_frame_round_trip<D: Data>(m: MessageVal<D>)
    requires
        encodable_message(m),
    ensures
        dec_message_frame(enc_message(m), 0)
            == Some((frame_of(m), enc_message(m).len() as int)),
{
    let s = enc_message(m);
    assert(s.subrange(0, s.len() as int) =~= s);
    lemma_dec_enc_message_frame(s, 0, frame_of(m));
}

} // verus!
