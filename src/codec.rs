//! Fixed-width byte encodings shared by every ledger entity.
use crate::err::GulfStreamError;
use vstd::prelude::*;
use vstd::slice::slice_subrange;

verus! {

/// Values that have a canonical byte encoding.
pub trait BytesSerialize: View + Sized {
    spec fn encoding(v: Self::V) -> Seq<u8>;

    fn serialize(&self) -> (r: Vec<u8>)
        ensures
            r@ == Self::encoding(self@),
    ;
}

/// Values that can be read back from the front of a byte buffer; the second
/// component of a success is the number of bytes consumed.
pub trait BytesDeserialize: View + Sized {
    spec fn decoding(buf: Seq<u8>) -> Option<(Self::V, nat)>;

    fn deserialize(buf: &[u8]) -> (r: Result<(Self, usize), GulfStreamError>)
        ensures
            match r {
                Ok(p) => Self::decoding(buf@) == Some((p.0@, p.1 as nat)),
                Err(_) => Self::decoding(buf@) is None,
            },
    ;
}

/// The little-endian bytes of `x`.
pub open spec fn le_bytes(x: u64) -> Seq<u8> {
    seq![
        (x & 0xff) as u8,
        ((x >> 8u64) & 0xff) as u8,
        ((x >> 16u64) & 0xff) as u8,
        ((x >> 24u64) & 0xff) as u8,
        ((x >> 32u64) & 0xff) as u8,
        ((x >> 40u64) & 0xff) as u8,
        ((x >> 48u64) & 0xff) as u8,
        ((x >> 56u64) & 0xff) as u8,
    ]
}

/// The integer whose little-endian bytes open `b`.
pub open spec fn le_value(b: Seq<u8>) -> u64
    recommends
        b.len() >= 8,
{
    (b[0] as u64) | ((b[1] as u64) << 8u64) | ((b[2] as u64) << 16u64) | ((b[3] as u64) << 24u64)
        | ((b[4] as u64) << 32u64) | ((b[5] as u64) << 40u64) | ((b[6] as u64) << 48u64) | ((
    b[7] as u64) << 56u64)
}

pub proof fn lemma_le_round_trip(x: u64, rest: Seq<u8>)
    ensures
        (le_bytes(x) + rest).len() == 8 + rest.len(),
        le_value(le_bytes(x) + rest) == x,
{
    let b = le_bytes(x) + rest;
    assert(b[0] == (x & 0xff) as u8);
    assert(b[1] == ((x >> 8u64) & 0xff) as u8);
    assert(b[2] == ((x >> 16u64) & 0xff) as u8);
    assert(b[3] == ((x >> 24u64) & 0xff) as u8);
    assert(b[4] == ((x >> 32u64) & 0xff) as u8);
    assert(b[5] == ((x >> 40u64) & 0xff) as u8);
    assert(b[6] == ((x >> 48u64) & 0xff) as u8);
    assert(b[7] == ((x >> 56u64) & 0xff) as u8);
    assert(((x & 0xff) as u8 as u64) | ((((x >> 8u64) & 0xff) as u8 as u64) << 8u64) | ((((x
        >> 16u64) & 0xff) as u8 as u64) << 16u64) | ((((x >> 24u64) & 0xff) as u8 as u64)
        << 24u64) | ((((x >> 32u64) & 0xff) as u8 as u64) << 32u64) | ((((x >> 40u64) & 0xff)
        as u8 as u64) << 40u64) | ((((x >> 48u64) & 0xff) as u8 as u64) << 48u64) | ((((x
        >> 56u64) & 0xff) as u8 as u64) << 56u64) == x) by (bit_vector);
}

/// Appends the little-endian bytes of `x`.
pub fn push_le(out: &mut Vec<u8>, x: u64)
    ensures
        final(out)@ == old(out)@ + le_bytes(x),
{
    out.push((x & 0xff) as u8);
    out.push(((x >> 8u64) & 0xff) as u8);
    out.push(((x >> 16u64) & 0xff) as u8);
    out.push(((x >> 24u64) & 0xff) as u8);
    out.push(((x >> 32u64) & 0xff) as u8);
    out.push(((x >> 40u64) & 0xff) as u8);
    out.push(((x >> 48u64) & 0xff) as u8);
    out.push(((x >> 56u64) & 0xff) as u8);
    assert(out@ =~= old(out)@ + le_bytes(x));
}

/// Appends every byte of `b`.
pub fn push_all(out: &mut Vec<u8>, b: &[u8])
    ensures
        final(out)@ == old(out)@ + b@,
{
    let mut i: usize = 0;
    while i < b.len()
        invariant
            i <= b@.len(),
            out@ == old(out)@ + b@.subrange(0, i as int),
        decreases b@.len() - i,
    {
        out.push(b[i]);
        i = i + 1;
        assert(out@ =~= old(out)@ + b@.subrange(0, i as int));
    }
    assert(b@.subrange(0, b@.len() as int) =~= b@);
}

/// Copies the bytes of `b` in `[start, end)` into a new vector.
pub fn copy_range(b: &[u8], start: usize, end: usize) -> (r: Vec<u8>)
    requires
        start <= end <= b@.len(),
    ensures
        r@ == b@.subrange(start as int, end as int),
{
    let mut r: Vec<u8> = Vec::new();
    push_all(&mut r, slice_subrange(b, start, end));
    assert(r@ =~= b@.subrange(start as int, end as int));
    r
}

/// Reads the integer whose little-endian bytes open `b`.
pub fn read_le(b: &[u8]) -> (r: u64)
    requires
        b@.len() >= 8,
    ensures
        r == le_value(b@),
{
    (b[0] as u64) | ((b[1] as u64) << 8u64) | ((b[2] as u64) << 16u64) | ((b[3] as u64) << 24u64)
        | ((b[4] as u64) << 32u64) | ((b[5] as u64) << 40u64) | ((b[6] as u64) << 48u64) | ((
    b[7] as u64) << 56u64)
}

impl BytesSerialize for u64 {
    open spec fn encoding(v: u64) -> Seq<u8> {
        le_bytes(v)
    }

    fn serialize(&self) -> (r: Vec<u8>) {
        let mut r: Vec<u8> = Vec::new();
        push_le(&mut r, *self);
        assert(r@ =~= le_bytes(*self));
        r
    }
}

impl BytesDeserialize for u64 {
    open spec fn decoding(buf: Seq<u8>) -> Option<(u64, nat)> {
        if buf.len() >= 8 {
            Some((le_value(buf), 8))
        } else {
            None
        }
    }

    fn deserialize(buf: &[u8]) -> (r: Result<(u64, usize), GulfStreamError>) {
        if buf.len() < 8 {
            Err(GulfStreamError::SerDeError("u64".to_string()))
        } else {
            Ok((read_le(buf), 8))
        }
    }
}

impl BytesSerialize for bool {
    open spec fn encoding(v: bool) -> Seq<u8> {
        if v {
            seq![1u8]
        } else {
            seq![0u8]
        }
    }

    fn serialize(&self) -> (r: Vec<u8>) {
        let mut r: Vec<u8> = Vec::new();
        if *self {
            r.push(1);
        } else {
            r.push(0);
        }
        assert(r@ =~= Self::encoding(*self));
        r
    }
}

impl BytesDeserialize for bool {
    open spec fn decoding(buf: Seq<u8>) -> Option<(bool, nat)> {
        if buf.len() >= 1 && buf[0] == 1 {
            Some((true, 1))
        } else if buf.len() >= 1 && buf[0] == 0 {
            Some((false, 1))
        } else {
            None
        }
    }

    fn deserialize(buf: &[u8]) -> (r: Result<(bool, usize), GulfStreamError>) {
        if buf.len() >= 1 && buf[0] == 1 {
            Ok((true, 1))
        } else if buf.len() >= 1 && buf[0] == 0 {
            Ok((false, 1))
        } else {
            Err(GulfStreamError::SerDeError("bool".to_string()))
        }
    }
}

/// Reading back what was written gives the integer again, whatever follows it.
pub proof fn lemma_u64_round_trip(x: u64, rest: Seq<u8>)
    ensures
        <u64 as BytesDeserialize>::decoding(<u64 as BytesSerialize>::encoding(x) + rest) == Some(
            (x, 8nat),
        ),
{
    lemma_le_round_trip(x, rest);
}

/// Reading back what was written gives the flag again, whatever follows it.
pub proof fn lemma_bool_round_trip(x: bool, rest: Seq<u8>)
    ensures
        <bool as BytesDeserialize>::decoding(<bool as BytesSerialize>::encoding(x) + rest) == Some(
            (x, 1nat),
        ),
{
}

} // verus!
