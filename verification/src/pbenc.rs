//! Protobuf wire-format encoding for the handful of native-API message
//! fields the proxy emits.
//!
//! Only the two wire types the schema needs are produced: varint fields
//! (wire type 0) and length-delimited fields (wire type 2).  Scalar
//! fields equal to their default — zero, false, the empty string — are
//! omitted, as protobuf serializers do; an entry of a repeated field is
//! always written out.

use vstd::prelude::*;

verus! {

use crate::varint::{varint_bytes, encode_varint};
use vstd::string::StringSliceAdditionalSpecFns;
use vstd::utf8::encode_utf8;

/// The key introducing a field: field number and wire type packed into
/// one varint.
pub open spec fn pb_key(field: nat, wire: nat) -> nat {
    field * 8 + wire
}

/// A varint-typed field; omitted when the value is the default zero.
pub open spec fn pb_varint_field(field: nat, v: u64) -> Seq<u8> {
    if v == 0 {
        Seq::empty()
    } else {
        varint_bytes(pb_key(field, 0)) + varint_bytes(v as nat)
    }
}

/// A length-delimited payload with its key, written unconditionally.
pub open spec fn pb_len_payload(field: nat, data: Seq<u8>) -> Seq<u8> {
    varint_bytes(pb_key(field, 2)) + varint_bytes(data.len()) + data
}

/// A bytes-typed field; omitted when empty.
pub open spec fn pb_bytes_field(field: nat, data: Seq<u8>) -> Seq<u8> {
    if data.len() == 0 {
        Seq::empty()
    } else {
        pb_len_payload(field, data)
    }
}

/// A string-typed field: its UTF-8 bytes, omitted when empty.
pub open spec fn pb_string_field(field: nat, s: Seq<char>) -> Seq<u8> {
    pb_bytes_field(field, encode_utf8(s))
}

/// The zigzag mapping of a 32-bit signed value, as `sint32` fields use.
pub open spec fn zigzag32(v: i32) -> nat {
    if v >= 0 {
        (2 * v) as nat
    } else {
        (-2 * (v as int) - 1) as nat
    }
}

/// An `sint32` field; omitted when zero.
pub open spec fn pb_sint32_field(field: nat, v: i32) -> Seq<u8> {
    if v == 0 {
        Seq::empty()
    } else {
        varint_bytes(pb_key(field, 0)) + varint_bytes(zigzag32(v))
    }
}

/// Appends every byte of `data` to `out`.
pub fn push_bytes(out: &mut Vec<u8>, data: &[u8])
    ensures
        final(out)@ =~= old(out)@ + data@,
{
    let ghost out0 = out@;
    let mut k: usize = 0;
    while k < data.len()
        invariant
            0 <= k <= data@.len(),
            out@ =~= out0 + data@.take(k as int),
        decreases data@.len() - k,
    {
        out.push(data[k]);
        k = k + 1;
    }
    proof {
        assert(data@.take(data@.len() as int) =~= data@);
    }
}

/// Appends the key for (`field`, `wire`).
fn push_key(out: &mut Vec<u8>, field: u32, wire: u8)
    requires
        1 <= field,
        wire == 0 || wire == 2,
    ensures
        final(out)@ =~= old(out)@ + varint_bytes(pb_key(field as nat, wire as nat)),
{
    let key: u64 = (field as u64) * 8 + (wire as u64);
    let kv = encode_varint(key);
    push_bytes(out, kv.as_slice());
}

/// Appends a varint field, skipping the default zero.
pub fn pb_push_varint_field(out: &mut Vec<u8>, field: u32, v: u64)
    requires
        1 <= field,
    ensures
        final(out)@ =~= old(out)@ + pb_varint_field(field as nat, v),
{
    if v == 0 {
        proof {
            assert(out@ =~= old(out)@ + Seq::<u8>::empty());
        }
        return ;
    }
    push_key(out, field, 0);
    let vv = encode_varint(v);
    push_bytes(out, vv.as_slice());
}

/// Appends a `uint32` field, skipping the default zero.
pub fn pb_push_u32_field(out: &mut Vec<u8>, field: u32, v: u32)
    requires
        1 <= field,
    ensures
        final(out)@ =~= old(out)@ + pb_varint_field(field as nat, v as u64),
{
    pb_push_varint_field(out, field, v as u64);
}

/// Appends a `bool` field, skipping the default `false`.
pub fn pb_push_bool_field(out: &mut Vec<u8>, field: u32, v: bool)
    requires
        1 <= field,
    ensures
        final(out)@ =~= old(out)@ + pb_varint_field(field as nat, if v {
            1u64
        } else {
            0u64
        }),
{
    pb_push_varint_field(out, field, if v { 1 } else { 0 });
}

/// Appends a bytes field, skipping the empty default.
pub fn pb_push_bytes_field(out: &mut Vec<u8>, field: u32, data: &[u8])
    requires
        1 <= field,
    ensures
        final(out)@ =~= old(out)@ + pb_bytes_field(field as nat, data@),
{
    if data.len() == 0 {
        proof {
            assert(out@ =~= old(out)@ + Seq::<u8>::empty());
        }
        return ;
    }
    push_key(out, field, 2);
    let lv = encode_varint(data.len() as u64);
    push_bytes(out, lv.as_slice());
    push_bytes(out, data);
}

/// Appends a string field, skipping the empty default.
pub fn pb_push_string_field(out: &mut Vec<u8>, field: u32, s: &str)
    requires
        1 <= field,
    ensures
        final(out)@ =~= old(out)@ + pb_string_field(field as nat, s@),
{
    let bytes = s.as_bytes();
    proof {
        assert(bytes@ == encode_utf8(s@));
    }
    pb_push_bytes_field(out, field, bytes);
}

/// Appends one entry of a repeated message field, never omitted.
pub fn pb_push_submessage(out: &mut Vec<u8>, field: u32, payload: &[u8])
    requires
        1 <= field,
    ensures
        final(out)@ =~= old(out)@ + pb_len_payload(field as nat, payload@),
{
    push_key(out, field, 2);
    let lv = encode_varint(payload.len() as u64);
    push_bytes(out, lv.as_slice());
    push_bytes(out, payload);
}

/// Appends an `sint32` field, skipping the default zero.
pub fn pb_push_sint32_field(out: &mut Vec<u8>, field: u32, v: i32)
    requires
        1 <= field,
    ensures
        final(out)@ =~= old(out)@ + pb_sint32_field(field as nat, v),
{
    if v == 0 {
        proof {
            assert(out@ =~= old(out)@ + Seq::<u8>::empty());
        }
        return ;
    }
    let z: u64 = if v >= 0 {
        (v as u64) * 2
    } else {
        let m: i64 = -(v as i64);
        (m as u64) * 2 - 1
    };
    proof {
        assert(z == zigzag32(v));
    }
    push_key(out, field, 0);
    let vv = encode_varint(z);
    push_bytes(out, vv.as_slice());
}

} // verus!
