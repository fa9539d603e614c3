//! The wire frame of the native-API protocol.
//!
//! A frame is one delimiter byte `0x00`, a varint with the payload
//! length, a varint with the message-type id, and the payload itself.
//! `next_message` pulls the first complete frame off a growable inbound
//! buffer and leaves the buffer untouched when no complete frame has
//! arrived yet, or when the first byte is not the delimiter (a protocol
//! error the caller acts on).

use vstd::prelude::*;

verus! {

use crate::varint::{
    varint_bytes, varint_decode, VarintError, decode_varint, encode_varint,
    lemma_varint_decode_with_rest, lemma_varint_prefix_incomplete, lemma_varint_decode_ok_bounds,
    lemma_varint_bytes_shape,
};

/// The bytes of one whole frame.
pub open spec fn frame_bytes(msg_type: u64, payload: Seq<u8>) -> Seq<u8> {
    seq![0u8] + varint_bytes(payload.len()) + varint_bytes(msg_type as nat) + payload
}

/// What the first complete frame of `s` holds — its message type, its
/// payload, and how many bytes of `s` it spans — if one has fully
/// arrived.
pub open spec fn frame_parse(s: Seq<u8>) -> Option<(u64, Seq<u8>, int)> {
    if s.len() == 0 || s[0] != 0 {
        None
    } else {
        match varint_decode(s.skip(1)) {
            Ok((l, n1)) => match varint_decode(s.skip(1 + n1 as int)) {
                Ok((t, n2)) => {
                    let total = 1 + n1 + n2 + l;
                    if s.len() >= total {
                        Some((t, s.subrange(1 + n1 + n2, total as int), total as int))
                    } else {
                        None
                    }
                },
                Err(_) => None,
            },
            Err(_) => None,
        }
    }
}

/// Builds one frame around an already-serialized payload.
pub fn encode_response(msg_type: u32, payload: &[u8]) -> (r: Vec<u8>)
    ensures
        r@ == frame_bytes(msg_type as u64, payload@),
{
    let mut out: Vec<u8> = Vec::new();
    out.push(0u8);
    let len_varint = encode_varint(payload.len() as u64);
    let type_varint = encode_varint(msg_type as u64);
    let mut i: usize = 0;
    while i < len_varint.len()
        invariant
            0 <= i <= len_varint@.len(),
            out@ =~= seq![0u8] + len_varint@.take(i as int),
        decreases len_varint@.len() - i,
    {
        out.push(len_varint[i]);
        i = i + 1;
    }
    let mut j: usize = 0;
    while j < type_varint.len()
        invariant
            0 <= j <= type_varint@.len(),
            out@ =~= seq![0u8] + len_varint@ + type_varint@.take(j as int),
        decreases type_varint@.len() - j,
    {
        out.push(type_varint[j]);
        j = j + 1;
    }
    let mut k: usize = 0;
    while k < payload.len()
        invariant
            0 <= k <= payload@.len(),
            out@ =~= seq![0u8] + len_varint@ + type_varint@ + payload@.take(k as int),
        decreases payload@.len() - k,
    {
        out.push(payload[k]);
        k = k + 1;
    }
    proof {
        assert(len_varint@.take(len_varint@.len() as int) =~= len_varint@);
        assert(type_varint@.take(type_varint@.len() as int) =~= type_varint@);
        assert(payload@.take(payload@.len() as int) =~= payload@);
        assert(out@ =~= frame_bytes(msg_type as u64, payload@));
    }
    out
}

/// Removes and returns the first complete frame of `buf`, if one has
/// arrived; otherwise leaves `buf` exactly as it was.
pub fn next_message(buf: &mut Vec<u8>) -> (r: Option<(u32, Vec<u8>)>)
    ensures
        match frame_parse(old(buf)@) {
            Some(f) => {
                &&& r matches Some(m) && m.0 == (f.0 % 0x1_0000_0000) as u32 && m.1@ == f.1
                &&& final(buf)@ == old(buf)@.skip(f.2)
            },
            None => r is None && final(buf)@ == old(buf)@,
        },
{
    if buf.len() == 0 {
        return None;
    }
    if buf[0] != 0u8 {
        return None;
    }
    let n = buf.len();
    let tail1 = vstd::slice::slice_subrange(buf.as_slice(), 1, n);
    proof {
        assert(tail1@ =~= buf@.skip(1));
    }
    let (l, n1) = match decode_varint(tail1) {
        Ok(p) => p,
        Err(_) => {
            return None;
        },
    };
    proof {
        lemma_varint_decode_ok_bounds(buf@.skip(1), l, n1);
    }
    let off1 = 1 + n1;
    let tail2 = vstd::slice::slice_subrange(buf.as_slice(), off1, n);
    proof {
        assert(tail2@ =~= buf@.skip(off1 as int));
    }
    let (t, n2) = match decode_varint(tail2) {
        Ok(p) => p,
        Err(_) => {
            return None;
        },
    };
    proof {
        lemma_varint_decode_ok_bounds(buf@.skip(off1 as int), t, n2);
    }
    let off2 = off1 + n2;
    if (n as u128) < (off2 as u128) + (l as u128) {
        return None;
    }
    let plen = l as usize;
    let payload = vstd::slice::slice_to_vec(
        vstd::slice::slice_subrange(buf.as_slice(), off2, off2 + plen),
    );
    let rest = vstd::slice::slice_to_vec(
        vstd::slice::slice_subrange(buf.as_slice(), off2 + plen, n),
    );
    let mt = ((t % 0x1_0000_0000) as u32);
    proof {
        assert(payload@ =~= buf@.subrange(off2 as int, off2 as int + l as int));
        assert(rest@ =~= buf@.skip(off2 as int + l as int));
    }
    *buf = rest;
    Some((mt, payload))
}

/// A frame followed by anything parses back to exactly its message type
/// and payload, spanning exactly the frame.
pub proof fn lemma_frame_parse_encoding(msg_type: u32, payload: Seq<u8>, rest: Seq<u8>)
    requires
        payload.len() < 0x1_0000_0000_0000_0000,
    ensures
        frame_parse(frame_bytes(msg_type as u64, payload) + rest) == Some(
            (msg_type as u64, payload, frame_bytes(msg_type as u64, payload).len() as int),
        ),
{
    let f = frame_bytes(msg_type as u64, payload);
    let s = f + rest;
    let av = varint_bytes(payload.len());
    let bv = varint_bytes(msg_type as nat);
    let a = av.len() as int;
    let b = bv.len() as int;
    let l = payload.len() as int;
    lemma_varint_bytes_shape(payload.len());
    lemma_varint_bytes_shape(msg_type as nat);
    assert(1 <= a <= 10 && 1 <= b <= 10);
    assert(s[0] == 0);
    assert(s.skip(1) =~= av + (bv + payload + rest));
    lemma_varint_decode_with_rest(payload.len() as u64, bv + payload + rest);
    assert(varint_bytes((payload.len() as u64) as nat) == av);
    assert(varint_decode(s.skip(1)) == Ok::<(u64, usize), VarintError>(
        (payload.len() as u64, a as usize),
    ));
    assert(s.skip(1 + a) =~= bv + (payload + rest));
    lemma_varint_decode_with_rest(msg_type as u64, payload + rest);
    assert(varint_decode(s.skip(1 + a)) == Ok::<(u64, usize), VarintError>(
        (msg_type as u64, b as usize),
    ));
    let total = 1 + a + b + l;
    assert(f.len() == total);
    assert(s.len() >= total);
    assert(s.subrange(1 + a + b, total) =~= payload);
}

/// No strict prefix of a frame parses: the frame appears only once its
/// final byte has arrived.
pub proof fn lemma_frame_parse_needs_all(msg_type: u32, payload: Seq<u8>, n: int)
    requires
        payload.len() < 0x1_0000_0000_0000_0000,
        0 <= n < frame_bytes(msg_type as u64, payload).len(),
    ensures
        frame_parse(frame_bytes(msg_type as u64, payload).take(n)) is None,
{
    let f = frame_bytes(msg_type as u64, payload);
    let av = varint_bytes(payload.len());
    let bv = varint_bytes(msg_type as nat);
    let a = av.len() as int;
    let b = bv.len() as int;
    let l = payload.len() as int;
    lemma_varint_bytes_shape(payload.len());
    lemma_varint_bytes_shape(msg_type as nat);
    assert(1 <= a <= 10 && 1 <= b <= 10);
    let p = f.take(n);
    if n == 0 {
    } else {
        assert(p[0] == 0);
        if n < 1 + a {
            assert(p.skip(1) =~= av.take(n - 1));
            lemma_varint_prefix_incomplete(payload.len() as u64, n - 1);
            assert(varint_decode(p.skip(1)) == Err::<(u64, usize), VarintError>(
                VarintError::Incomplete,
            ));
        } else if n < 1 + a + b {
            assert(p.skip(1) =~= av + bv.take(n - 1 - a));
            lemma_varint_decode_with_rest(payload.len() as u64, bv.take(n - 1 - a));
            assert(varint_decode(p.skip(1)) == Ok::<(u64, usize), VarintError>(
                (payload.len() as u64, a as usize),
            ));
            assert(p.skip(1 + a) =~= bv.take(n - 1 - a));
            lemma_varint_prefix_incomplete(msg_type as u32 as u64, n - 1 - a);
            assert(varint_decode(p.skip(1 + a)) == Err::<(u64, usize), VarintError>(
                VarintError::Incomplete,
            ));
        } else {
            assert(p.skip(1) =~= av + (bv + payload.take(n - 1 - a - b)));
            lemma_varint_decode_with_rest(payload.len() as u64, bv + payload.take(n - 1 - a - b));
            assert(varint_decode(p.skip(1)) == Ok::<(u64, usize), VarintError>(
                (payload.len() as u64, a as usize),
            ));
            assert(p.skip(1 + a) =~= bv + payload.take(n - 1 - a - b));
            lemma_varint_decode_with_rest(msg_type as u64, payload.take(n - 1 - a - b));
            assert(varint_decode(p.skip(1 + a)) == Ok::<(u64, usize), VarintError>(
                (msg_type as u64, b as usize),
            ));
            assert(p.len() == n < 1 + a + b + l);
        }
    }
}

} // verus!
