//! Byte-level primitives shared by the control- and data-plane codecs: big-endian
//! integers, length-prefixed byte strings, and the 4-byte length-prefix framing.

use vstd::prelude::*;

use crate::ids::Uuid;

verus! {

/// The largest payload a frame may carry: 64 MiB.
pub const MAX_FRAME_LEN: u32 = 67108864;

// ------------------------------------------------------------------
// Specification-level encodings.
// ------------------------------------------------------------------

pub open spec fn enc_u8(v: u8) -> Seq<u8> {
    seq![v]
}

pub open spec fn enc_u16(v: u16) -> Seq<u8> {
    seq![(v >> 8) as u8, v as u8]
}

pub open spec fn enc_u32(v: u32) -> Seq<u8> {
    seq![(v >> 24) as u8, (v >> 16) as u8, (v >> 8) as u8, v as u8]
}

pub open spec fn enc_u64(v: u64) -> Seq<u8> {
    seq![
        (v >> 56) as u8,
        (v >> 48) as u8,
        (v >> 40) as u8,
        (v >> 32) as u8,
        (v >> 24) as u8,
        (v >> 16) as u8,
        (v >> 8) as u8,
        v as u8,
    ]
}

pub open spec fn enc_uuid(v: Uuid) -> Seq<u8> {
    enc_u64(v.hi) + enc_u64(v.lo)
}

/// A byte string, prefixed by its 32-bit length.  Meaningful only for
/// strings that fit in a `u32` length.
pub open spec fn enc_bytes(b: Seq<u8>) -> Seq<u8> {
    enc_u32(b.len() as u32) + b
}

pub open spec fn enc_u64_items(s: Seq<u64>) -> Seq<u8>
    decreases s.len(),
{
    if s.len() == 0 {
        Seq::empty()
    } else {
        enc_u64(s[0]) + enc_u64_items(s.skip(1))
    }
}

/// A tuple of 64-bit values, prefixed by its 32-bit length.
pub open spec fn enc_u64_seq(s: Seq<u64>) -> Seq<u8> {
    enc_u32(s.len() as u32) + enc_u64_items(s)
}

// ------------------------------------------------------------------
// Specification-level decoders.  Each takes the full byte sequence and a
// position, and yields the decoded value with the position after it.
// ------------------------------------------------------------------

pub open spec fn dec_u8(s: Seq<u8>, pos: int) -> Option<(u8, int)> {
    if 0 <= pos && pos + 1 <= s.len() {
        Some((s[pos], pos + 1))
    } else {
        None
    }
}

pub open spec fn combine_u16(b0: u8, b1: u8) -> u16 {
    ((b0 as u16) << 8) | (b1 as u16)
}

pub open spec fn dec_u16(s: Seq<u8>, pos: int) -> Option<(u16, int)> {
    if 0 <= pos && pos + 2 <= s.len() {
        Some((combine_u16(s[pos], s[pos + 1]), pos + 2))
    } else {
        None
    }
}

pub open spec fn combine_u32(b0: u8, b1: u8, b2: u8, b3: u8) -> u32 {
    ((b0 as u32) << 24) | ((b1 as u32) << 16) | ((b2 as u32) << 8) | (b3 as u32)
}

pub open spec fn dec_u32(s: Seq<u8>, pos: int) -> Option<(u32, int)> {
    if 0 <= pos && pos + 4 <= s.len() {
        Some((combine_u32(s[pos], s[pos + 1], s[pos + 2], s[pos + 3]), pos + 4))
    } else {
        None
    }
}

pub open spec fn combine_u64(
    b0: u8, b1: u8, b2: u8, b3: u8, b4: u8, b5: u8, b6: u8, b7: u8,
) -> u64 {
    ((b0 as u64) << 56) | ((b1 as u64) << 48) | ((b2 as u64) << 40) | ((b3 as u64) << 32)
        | ((b4 as u64) << 24) | ((b5 as u64) << 16) | ((b6 as u64) << 8) | (b7 as u64)
}

pub open spec fn dec_u64(s: Seq<u8>, pos: int) -> Option<(u64, int)> {
    if 0 <= pos && pos + 8 <= s.len() {
        Some((
            combine_u64(
                s[pos], s[pos + 1], s[pos + 2], s[pos + 3],
                s[pos + 4], s[pos + 5], s[pos + 6], s[pos + 7],
            ),
            pos + 8,
        ))
    } else {
        None
    }
}

pub open spec fn dec_uuid(s: Seq<u8>, pos: int) -> Option<(Uuid, int)> {
    match dec_u64(s, pos) {
        Some((hi, p1)) => match dec_u64(s, p1) {
            Some((lo, p2)) => Some((Uuid { hi, lo }, p2)),
            None => None,
        },
        None => None,
    }
}

pub open spec fn dec_bytes(s: Seq<u8>, pos: int) -> Option<(Seq<u8>, int)> {
    match dec_u32(s, pos) {
        Some((n, p)) => if p + n <= s.len() {
            Some((s.subrange(p, p + n), p + n))
        } else {
            None
        },
        None => None,
    }
}

pub open spec fn dec_u64_items(s: Seq<u8>, pos: int, n: int) -> Option<(Seq<u64>, int)>
    decreases n,
{
    if n <= 0 {
        Some((Seq::empty(), pos))
    } else {
        match dec_u64(s, pos) {
            Some((v, p)) => match dec_u64_items(s, p, n - 1) {
                Some((rest, p2)) => Some((seq![v] + rest, p2)),
                None => None,
            },
            None => None,
        }
    }
}

pub open spec fn dec_u64_seq(s: Seq<u8>, pos: int) -> Option<(Seq<u64>, int)> {
    match dec_u32(s, pos) {
        Some((n, p)) => dec_u64_items(s, p, n as int),
        None => None,
    }
}

// ------------------------------------------------------------------
// Splitting lemmas for concatenated encodings.
// ------------------------------------------------------------------

/// If a range of `s` holds `a + b`, the two halves of the range hold `a` and `b`.
pub proof fn lemma_subrange_parts(s: Seq<u8>, pos: int, a: Seq<u8>, b: Seq<u8>)
    requires
        0 <= pos,
        pos + a.len() + b.len() <= s.len(),
        s.subrange(pos, pos + a.len() + b.len()) == a + b,
    ensures
        s.subrange(pos, pos + a.len()) == a,
        s.subrange(pos + a.len(), pos + a.len() + b.len()) == b,
{
    let t = s.subrange(pos, pos + a.len() + b.len());
    assert forall|i: int| 0 <= i < a.len() implies s[pos + i] == a[i] by {
        assert(t[i] == s[pos + i]);
        assert((a + b)[i] == a[i]);
    }
    assert forall|i: int| 0 <= i < b.len() implies s[pos + a.len() + i] == b[i] by {
        assert(t[a.len() + i] == s[pos + a.len() + i]);
        assert((a + b)[a.len() + i] == b[i]);
    }
    assert(s.subrange(pos, pos + a.len()) =~= a);
    assert(s.subrange(pos + a.len(), pos + a.len() + b.len()) =~= b);
}

// ------------------------------------------------------------------
// Round-trip lemmas: decoding an encoding yields the value back.
// ------------------------------------------------------------------

pub proof fn lemma_dec_enc_u8(s: Seq<u8>, pos: int, v: u8)
    requires
        0 <= pos,
        pos + 1 <= s.len(),
        s.subrange(pos, pos + 1) == enc_u8(v),
    ensures
        dec_u8(s, pos) == Some((v, pos + 1)),
{
    assert(s[pos] == s.subrange(pos, pos + 1)[0]);
}

pub proof fn lemma_dec_enc_u16(s: Seq<u8>, pos: int, v: u16)
    requires
        0 <= pos,
        pos + 2 <= s.len(),
        s.subrange(pos, pos + 2) == enc_u16(v),
    ensures
        dec_u16(s, pos) == Some((v, pos + 2)),
{
    assert(s[pos] == s.subrange(pos, pos + 2)[0]);
    assert(s[pos + 1] == s.subrange(pos, pos + 2)[1]);
    assert(((((v >> 8) as u8) as u16) << 8) | (((v as u8)) as u16) == v) by (bit_vector);
}

pub proof fn lemma_dec_enc_u32(s: Seq<u8>, pos: int, v: u32)
    requires
        0 <= pos,
        pos + 4 <= s.len(),
        s.subrange(pos, pos + 4) == enc_u32(v),
    ensures
        dec_u32(s, pos) == Some((v, pos + 4)),
{
    assert(s[pos] == s.subrange(pos, pos + 4)[0]);
    assert(s[pos + 1] == s.subrange(pos, pos + 4)[1]);
    assert(s[pos + 2] == s.subrange(pos, pos + 4)[2]);
    assert(s[pos + 3] == s.subrange(pos, pos + 4)[3]);
    assert(((((v >> 24) as u8) as u32) << 24) | ((((v >> 16) as u8) as u32) << 16)
        | ((((v >> 8) as u8) as u32) << 8) | (((v as u8)) as u32) == v) by (bit_vector);
}

pub proof fn lemma_dec_enc_u64(s: Seq<u8>, pos: int, v: u64)
    requires
        0 <= pos,
        pos + 8 <= s.len(),
        s.subrange(pos, pos + 8) == enc_u64(v),
    ensures
        dec_u64(s, pos) == Some((v, pos + 8)),
{
    assert(s[pos] == s.subrange(pos, pos + 8)[0]);
    assert(s[pos + 1] == s.subrange(pos, pos + 8)[1]);
    assert(s[pos + 2] == s.subrange(pos, pos + 8)[2]);
    assert(s[pos + 3] == s.subrange(pos, pos + 8)[3]);
    assert(s[pos + 4] == s.subrange(pos, pos + 8)[4]);
    assert(s[pos + 5] == s.subrange(pos, pos + 8)[5]);
    assert(s[pos + 6] == s.subrange(pos, pos + 8)[6]);
    assert(s[pos + 7] == s.subrange(pos, pos + 8)[7]);
    assert(((((v >> 56) as u8) as u64) << 56) | ((((v >> 48) as u8) as u64) << 48)
        | ((((v >> 40) as u8) as u64) << 40) | ((((v >> 32) as u8) as u64) << 32)
        | ((((v >> 24) as u8) as u64) << 24) | ((((v >> 16) as u8) as u64) << 16)
        | ((((v >> 8) as u8) as u64) << 8) | (((v as u8)) as u64) == v) by (bit_vector);
}

pub proof fn lemma_dec_enc_uuid(s: Seq<u8>, pos: int, v: Uuid)
    requires
        0 <= pos,
        pos + 16 <= s.len(),
        s.subrange(pos, pos + 16) == enc_uuid(v),
    ensures
        dec_uuid(s, pos) == Some((v, pos + 16)),
{
    lemma_subrange_parts(s, pos, enc_u64(v.hi), enc_u64(v.lo));
    lemma_dec_enc_u64(s, pos, v.hi);
    lemma_dec_enc_u64(s, pos + 8, v.lo);
}

pub proof fn lemma_dec_enc_bytes(s: Seq<u8>, pos: int, b: Seq<u8>)
    requires
        0 <= pos,
        b.len() <= u32::MAX,
        pos + enc_bytes(b).len() <= s.len(),
        s.subrange(pos, pos + enc_bytes(b).len()) == enc_bytes(b),
    ensures
        dec_bytes(s, pos) == Some((b, pos + 4 + b.len())),
{
    lemma_subrange_parts(s, pos, enc_u32(b.len() as u32), b);
    lemma_dec_enc_u32(s, pos, b.len() as u32);
    assert((b.len() as u32) as int == b.len());
}

pub proof fn lemma_dec_enc_u64_items(s: Seq<u8>, pos: int, v: Seq<u64>)
    requires
        0 <= pos,
        pos + enc_u64_items(v).len() <= s.len(),
        s.subrange(pos, pos + enc_u64_items(v).len()) == enc_u64_items(v),
    ensures
        dec_u64_items(s, pos, v.len() as int) == Some((v, pos + enc_u64_items(v).len())),
    decreases v.len(),
{
    if v.len() == 0 {
        assert(v =~= Seq::<u64>::empty());
    } else {
        let head = enc_u64(v[0]);
        let tail = enc_u64_items(v.skip(1));
        assert(enc_u64_items(v) == head + tail);
        lemma_subrange_parts(s, pos, head, tail);
        lemma_dec_enc_u64(s, pos, v[0]);
        lemma_dec_enc_u64_items(s, pos + 8, v.skip(1));
        assert(seq![v[0]] + v.skip(1) =~= v);
    }
}

pub proof fn lemma_dec_enc_u64_seq(s: Seq<u8>, pos: int, v: Seq<u64>)
    requires
        0 <= pos,
        v.len() <= u32::MAX,
        pos + enc_u64_seq(v).len() <= s.len(),
        s.subrange(pos, pos + enc_u64_seq(v).len()) == enc_u64_seq(v),
    ensures
        dec_u64_seq(s, pos) == Some((v, pos + enc_u64_seq(v).len())),
{
    lemma_subrange_parts(s, pos, enc_u32(v.len() as u32), enc_u64_items(v));
    lemma_dec_enc_u32(s, pos, v.len() as u32);
    lemma_dec_enc_u64_items(s, pos + 4, v);
    assert((v.len() as u32) as int == v.len());
}

// ------------------------------------------------------------------
// Executable encoders.  Each appends the encoding of its value.
// ------------------------------------------------------------------

pub fn write_u8(out: &mut Vec<u8>, v: u8)
    ensures
        final(out)@ == old(out)@ + enc_u8(v),
{
    out.push(v);
    proof {
        assert(final(out)@ =~= old(out)@ + enc_u8(v));
    }
}

pub fn write_u16(out: &mut Vec<u8>, v: u16)
    ensures
        final(out)@ == old(out)@ + enc_u16(v),
{
    out.push(#[verifier::truncate] ((v >> 8) as u8));
    out.push(#[verifier::truncate] (v as u8));
    proof {
        assert(final(out)@ =~= old(out)@ + enc_u16(v));
    }
}

pub fn write_u32(out: &mut Vec<u8>, v: u32)
    ensures
        final(out)@ == old(out)@ + enc_u32(v),
{
    out.push(#[verifier::truncate] ((v >> 24) as u8));
    out.push(#[verifier::truncate] ((v >> 16) as u8));
    out.push(#[verifier::truncate] ((v >> 8) as u8));
    out.push(#[verifier::truncate] (v as u8));
    proof {
        assert(final(out)@ =~= old(out)@ + enc_u32(v));
    }
}

pub fn write_u64(out: &mut Vec<u8>, v: u64)
    ensures
        final(out)@ == old(out)@ + enc_u64(v),
{
    out.push(#[verifier::truncate] ((v >> 56) as u8));
    out.push(#[verifier::truncate] ((v >> 48) as u8));
    out.push(#[verifier::truncate] ((v >> 40) as u8));
    out.push(#[verifier::truncate] ((v >> 32) as u8));
    out.push(#[verifier::truncate] ((v >> 24) as u8));
    out.push(#[verifier::truncate] ((v >> 16) as u8));
    out.push(#[verifier::truncate] ((v >> 8) as u8));
    out.push(#[verifier::truncate] (v as u8));
    proof {
        assert(final(out)@ =~= old(out)@ + enc_u64(v));
    }
}

pub fn write_uuid(out: &mut Vec<u8>, v: &Uuid)
    ensures
        final(out)@ == old(out)@ + enc_uuid(*v),
{
    write_u64(out, v.hi);
    write_u64(out, v.lo);
    proof {
        assert(final(out)@ =~= old(out)@ + enc_uuid(*v));
    }
}

pub fn write_bytes(out: &mut Vec<u8>, b: &Vec<u8>) -> (ok: bool)
    ensures
        ok ==> b@.len() <= u32::MAX && final(out)@ == old(out)@ + enc_bytes(b@),
        !ok ==> final(out)@ == old(out)@,
        b@.len() <= u32::MAX ==> ok,
{
    if b.len() > u32::MAX as usize {
        return false;
    }
    let ghost o0 = out@;
    write_u32(out, b.len() as u32);
    let mut i: usize = 0;
    while i < b.len()
        invariant
            i <= b@.len(),
            out@ == o0 + enc_u32(b@.len() as u32) + b@.subrange(0, i as int),
        decreases b@.len() - i,
    {
        out.push(b[i]);
        proof {
            assert(out@ =~= o0 + enc_u32(b@.len() as u32) + b@.subrange(0, i + 1));
        }
        i = i + 1;
    }
    proof {
        assert(b@.subrange(0, b@.len() as int) =~= b@);
        assert(out@ =~= o0 + enc_bytes(b@));
    }
    true
}

pub fn write_u64_seq(out: &mut Vec<u8>, v: &Vec<u64>) -> (ok: bool)
    ensures
        ok ==> v@.len() <= u32::MAX && final(out)@ == old(out)@ + enc_u64_seq(v@),
        !ok ==> final(out)@ == old(out)@,
        v@.len() <= u32::MAX ==> ok,
{
    if v.len() > u32::MAX as usize {
        return false;
    }
    let ghost o0 = out@;
    write_u32(out, v.len() as u32);
    let mut i: usize = 0;
    while i < v.len()
        invariant
            i <= v@.len(),
            out@ == o0 + enc_u32(v@.len() as u32) + enc_u64_items(v@.subrange(0, i as int)),
        decreases v@.len() - i,
    {
        proof {
            lemma_enc_u64_items_snoc(v@, i as int);
        }
        write_u64(out, v[i]);
        proof {
            assert(out@ =~= o0 + enc_u32(v@.len() as u32)
                + enc_u64_items(v@.subrange(0, i + 1)));
        }
        i = i + 1;
    }
    proof {
        assert(v@.subrange(0, v@.len() as int) =~= v@);
        assert(out@ =~= o0 + enc_u64_seq(v@));
    }
    true
}

/// Extending the encoded prefix by one element appends that element's encoding.
proof fn lemma_enc_u64_items_snoc(v: Seq<u64>, i: int)
    requires
        0 <= i < v.len(),
    ensures
        enc_u64_items(v.subrange(0, i + 1))
            == enc_u64_items(v.subrange(0, i)) + enc_u64(v[i]),
    decreases i,
{
    if i == 0 {
        assert(v.subrange(0, 1) =~= seq![v[0]]);
        assert(v.subrange(0, 1).skip(1) =~= Seq::<u64>::empty());
        assert(v.subrange(0, 0) =~= Seq::<u64>::empty());
        assert(enc_u64_items(v.subrange(0, 1))
            =~= enc_u64_items(v.subrange(0, 0)) + enc_u64(v[0]));
    } else {
        lemma_enc_u64_items_snoc(v.skip(1), i - 1);
        assert(v.subrange(0, i + 1).skip(1) =~= v.skip(1).subrange(0, i));
        assert(v.subrange(0, i).skip(1) =~= v.skip(1).subrange(0, i - 1));
        assert(v.subrange(0, i + 1)[0] == v[0]);
        assert(v.subrange(0, i)[0] == v[0]);
        assert(enc_u64_items(v.subrange(0, i + 1))
            == enc_u64(v[0]) + enc_u64_items(v.subrange(0, i + 1).skip(1)));
        assert(v.skip(1)[i - 1] == v[i]);
        assert(enc_u64_items(v.subrange(0, i + 1))
            =~= enc_u64_items(v.subrange(0, i)) + enc_u64(v[i]));
    }
}

// ------------------------------------------------------------------
// Executable decoders.  Each agrees exactly with its specification decoder.
// ------------------------------------------------------------------

pub fn read_u8(b: &Vec<u8>, pos: usize) -> (r: Option<(u8, usize)>)
    ensures
        match r {
            Some((v, p)) => dec_u8(b@, pos as int) == Some((v, p as int)),
            None => dec_u8(b@, pos as int) is None,
        },
{
    if pos < b.len() {
        Some((b[pos], pos + 1))
    } else {
        None
    }
}

pub fn read_u16(b: &Vec<u8>, pos: usize) -> (r: Option<(u16, usize)>)
    ensures
        match r {
            Some((v, p)) => dec_u16(b@, pos as int) == Some((v, p as int)),
            None => dec_u16(b@, pos as int) is None,
        },
{
    if b.len() >= 2 && pos <= b.len() - 2 {
        let v = ((b[pos] as u16) << 8u16) | (b[pos + 1] as u16);
        Some((v, pos + 2))
    } else {
        None
    }
}

pub fn read_u32(b: &Vec<u8>, pos: usize) -> (r: Option<(u32, usize)>)
    ensures
        match r {
            Some((v, p)) => dec_u32(b@, pos as int) == Some((v, p as int)),
            None => dec_u32(b@, pos as int) is None,
        },
{
    if b.len() >= 4 && pos <= b.len() - 4 {
        let v = ((b[pos] as u32) << 24u32) | ((b[pos + 1] as u32) << 16u32)
            | ((b[pos + 2] as u32) << 8u32) | (b[pos + 3] as u32);
        Some((v, pos + 4))
    } else {
        None
    }
}

pub fn read_u64(b: &Vec<u8>, pos: usize) -> (r: Option<(u64, usize)>)
    ensures
        match r {
            Some((v, p)) => dec_u64(b@, pos as int) == Some((v, p as int)),
            None => dec_u64(b@, pos as int) is None,
        },
{
    if b.len() >= 8 && pos <= b.len() - 8 {
        let v = ((b[pos] as u64) << 56u64) | ((b[pos + 1] as u64) << 48u64)
            | ((b[pos + 2] as u64) << 40u64) | ((b[pos + 3] as u64) << 32u64)
            | ((b[pos + 4] as u64) << 24u64) | ((b[pos + 5] as u64) << 16u64)
            | ((b[pos + 6] as u64) << 8u64) | (b[pos + 7] as u64);
        Some((v, pos + 8))
    } else {
        None
    }
}

pub fn read_uuid(b: &Vec<u8>, pos: usize) -> (r: Option<(Uuid, usize)>)
    ensures
        match r {
            Some((v, p)) => dec_uuid(b@, pos as int) == Some((v, p as int)),
            None => dec_uuid(b@, pos as int) is None,
        },
{
    match read_u64(b, pos) {
        Some((hi, p1)) => match read_u64(b, p1) {
            Some((lo, p2)) => Some((Uuid { hi, lo }, p2)),
            None => None,
        },
        None => None,
    }
}

pub fn read_bytes(b: &Vec<u8>, pos: usize) -> (r: Option<(Vec<u8>, usize)>)
    ensures
        match r {
            Some((v, p)) => dec_bytes(b@, pos as int) == Some((v@, p as int)),
            None => dec_bytes(b@, pos as int) is None,
        },
{
    match read_u32(b, pos) {
        Some((n, p)) => {
            let n = n as usize;
            if n <= b.len() && p <= b.len() - n {
                let end: usize = p + n;
                let mut v: Vec<u8> = Vec::new();
                let mut i: usize = 0;
                while i < n
                    invariant
                        i <= n,
                        end == p + n,
                        end <= b@.len(),
                        v@ == b@.subrange(p as int, p + i),
                    decreases n - i,
                {
                    v.push(b[p + i]);
                    proof {
                        assert(v@ =~= b@.subrange(p as int, p + i + 1));
                    }
                    i = i + 1;
                }
                Some((v, end))
            } else {
                None
            }
        }
        None => None,
    }
}

pub fn read_u64_seq(b: &Vec<u8>, pos: usize) -> (r: Option<(Vec<u64>, usize)>)
    ensures
        match r {
            Some((v, p)) => dec_u64_seq(b@, pos as int) == Some((v@, p as int)),
            None => dec_u64_seq(b@, pos as int) is None,
        },
{
    match read_u32(b, pos) {
        Some((n, p)) => {
            let mut v: Vec<u64> = Vec::new();
            let mut i: u32 = 0;
            let mut q: usize = p;
            proof {
                let d = dec_u64_items(b@, p as int, n as int);
                if d is Some {
                    assert(Seq::<u64>::empty() + d->Some_0.0 =~= d->Some_0.0);
                }
                assert(v@ =~= Seq::<u64>::empty());
            }
            loop
                invariant
                    i <= n,
                    dec_u32(b@, pos as int) == Some((n, p as int)),
                    dec_u64_items(b@, p as int, n as int)
                        == match dec_u64_items(b@, q as int, n - i) {
                            Some((rest, pe)) => Some((v@ + rest, pe)),
                            None => None::<(Seq<u64>, int)>,
                        },
                decreases n - i,
            {
                if i == n {
                    proof {
                        assert(dec_u64_items(b@, q as int, 0)
                            == Some((Seq::<u64>::empty(), q as int)));
                        assert(v@ + Seq::<u64>::empty() =~= v@);
                    }
                    return Some((v, q));
                }
                match read_u64(b, q) {
                    Some((x, q2)) => {
                        let ghost v0 = v@;
                        v.push(x);
                        proof {
                            let d2 = dec_u64_items(b@, q2 as int, n - (i + 1));
                            if d2 is Some {
                                let (rest2, pe) = d2->Some_0;
                                assert(v0.push(x) + rest2 =~= v0 + (seq![x] + rest2));
                            }
                            assert(v@ =~= v0.push(x));
                        }
                        q = q2;
                        i = i + 1;
                    }
                    None => {
                        return None;
                    }
                }
            }
        }
        None => None,
    }
}

// ------------------------------------------------------------------
// Framing: a 4-byte big-endian length, at most `MAX_FRAME_LEN`, then the payload.
// ------------------------------------------------------------------

pub open spec fn enc_frame(payload: Seq<u8>) -> Seq<u8> {
    enc_u32(payload.len() as u32) + payload
}

/// The outcome of scanning a byte buffer for one frame.
pub enum FrameOutcome {
    /// A complete frame: its payload, and the position just after it.
    Frame(Vec<u8>, usize),
    /// The buffer holds only part of a frame; more bytes are needed.
    NeedMoreData,
    /// The advertised length exceeds the limit; the connection is broken.
    Oversized,
}

/// Appends the frame for `payload`.
pub fn write_frame(out: &mut Vec<u8>, payload: &Vec<u8>)
    requires
        payload@.len() <= MAX_FRAME_LEN,
    ensures
        final(out)@ == old(out)@ + enc_frame(payload@),
{
    let ghost o0 = out@;
    write_u32(out, payload.len() as u32);
    let mut i: usize = 0;
    while i < payload.len()
        invariant
            i <= payload@.len(),
            out@ == o0 + enc_u32(payload@.len() as u32) + payload@.subrange(0, i as int),
        decreases payload@.len() - i,
    {
        out.push(payload[i]);
        proof {
            assert(out@ =~= o0 + enc_u32(payload@.len() as u32)
                + payload@.subrange(0, i + 1));
        }
        i = i + 1;
    }
    proof {
        assert(payload@.subrange(0, payload@.len() as int) =~= payload@);
        assert(out@ =~= o0 + enc_frame(payload@));
    }
}

/// Scans for one frame at `pos`.
pub fn read_frame(b: &Vec<u8>, pos: usize) -> (r: FrameOutcome)
    ensures
        match r {
            FrameOutcome::Frame(payload, p) => {
                &&& dec_u32(b@, pos as int) matches Some((n, q))
                    && n <= MAX_FRAME_LEN
                    && q + n <= b@.len()
                    && payload@ == b@.subrange(q, q + n)
                    && p == q + n
            },
            FrameOutcome::NeedMoreData => {
                match dec_u32(b@, pos as int) {
                    Some((n, q)) => n <= MAX_FRAME_LEN && q + n > b@.len(),
                    None => true,
                }
            },
            FrameOutcome::Oversized => {
                dec_u32(b@, pos as int) matches Some((n, q)) && n > MAX_FRAME_LEN
            },
        },
{
    match read_u32(b, pos) {
        Some((n, q)) => {
            if n > MAX_FRAME_LEN {
                return FrameOutcome::Oversized;
            }
            let n = n as usize;
            if n > b.len() || q > b.len() - n {
                return FrameOutcome::NeedMoreData;
            }
            let end: usize = q + n;
            let mut v: Vec<u8> = Vec::new();
            let mut i: usize = 0;
            while i < n
                invariant
                    i <= n,
                    end == q + n,
                    end <= b@.len(),
                    v@ == b@.subrange(q as int, q + i),
                decreases n - i,
            {
                v.push(b[q + i]);
                proof {
                    assert(v@ =~= b@.subrange(q as int, q + i + 1));
                }
                i = i + 1;
            }
            FrameOutcome::Frame(v, end)
        }
        None => FrameOutcome::NeedMoreData,
    }
}

/// A frame's payload decodes back from its framing.
pub proof fn lemma_frame_round_trip(s: Seq<u8>, pos: int, payload: Seq<u8>)
    requires
        0 <= pos,
        payload.len() <= MAX_FRAME_LEN,
        pos + enc_frame(payload).len() <= s.len(),
        s.subrange(pos, pos + enc_frame(payload).len()) == enc_frame(payload),
    ensures
        dec_u32(s, pos) == Some((payload.len() as u32, pos + 4)),
        s.subrange(pos + 4, pos + 4 + payload.len()) == payload,
{
    lemma_subrange_parts(s, pos, enc_u32(payload.len() as u32), payload);
    lemma_dec_enc_u32(s, pos, payload.len() as u32);
}

} // verus!
