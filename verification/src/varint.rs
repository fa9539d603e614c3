//! Base-128 varints, the integer encoding of the native-API wire protocol.
//!
//! A varint carries 7 data bits per byte, least-significant group first;
//! the high bit of a byte is set exactly when another byte follows.  The
//! decoder caps a varint at 10 bytes (enough for 64 bits) and reports a
//! buffer that ends mid-varint as `Incomplete` and a varint whose tenth
//! byte still continues as `Overlong`.

use vstd::prelude::*;

verus! {

use vstd::arithmetic::div_mod::{lemma_small_mod, lemma_mod_multiples_vanish, lemma_fundamental_div_mod};

/// Why a varint could not be decoded.
#[derive(Clone, Copy, Debug, PartialEq, Eq, Structural)]
pub enum VarintError {
    /// The buffer ended before the final byte of the varint arrived.
    Incomplete,
    /// The varint did not terminate within 10 bytes (64 bits).
    Overlong,
}

/// 128 raised to `n`; the weight of the `n`-th varint byte.
pub open spec fn p128(n: nat) -> nat
    decreases n,
{
    if n == 0 {
        1
    } else {
        128 * p128((n - 1) as nat)
    }
}

/// The base-128 encoding of `v`: low group first, high bit marking
/// continuation.
pub open spec fn varint_bytes(v: nat) -> Seq<u8>
    decreases v,
{
    if v < 128 {
        seq![v as u8]
    } else {
        seq![(v % 128 + 128) as u8] + varint_bytes(v / 128)
    }
}

/// The value carried by a whole sequence of varint data bytes
/// (continuation bits ignored, no truncation).
pub open spec fn varint_value(s: Seq<u8>) -> nat
    decreases s.len(),
{
    if s.len() == 0 {
        0
    } else {
        ((s[0] % 128) as nat) + 128 * varint_value(s.skip(1))
    }
}

/// The index of the first byte at or after `i` with its high bit clear,
/// if one occurs before the 10-byte cap and before the buffer ends.
pub open spec fn varint_terminator(s: Seq<u8>, i: int) -> Option<int>
    decreases 10 - i,
{
    if i >= 10 || i >= s.len() {
        None
    } else if s[i] < 128 {
        Some(i)
    } else {
        varint_terminator(s, i + 1)
    }
}

/// What decoding a varint from the front of `s` yields: the value
/// truncated to 64 bits and the number of bytes consumed, or the error.
pub open spec fn varint_decode(s: Seq<u8>) -> Result<(u64, usize), VarintError> {
    match varint_terminator(s, 0) {
        Some(k) => Ok(
            (
                (varint_value(s.take(k + 1)) % 0x1_0000_0000_0000_0000) as u64,
                (k + 1) as usize,
            ),
        ),
        None => if s.len() >= 10 {
            Err(VarintError::Overlong)
        } else {
            Err(VarintError::Incomplete)
        },
    }
}

proof fn lemma_p128_pos(n: nat)
    ensures
        p128(n) >= 1,
    decreases n,
{
    if n > 0 {
        lemma_p128_pos((n - 1) as nat);
    }
}

proof fn lemma_p128_le(i: nat, j: nat)
    requires
        i <= j,
    ensures
        p128(i) <= p128(j),
    decreases j,
{
    if i < j {
        lemma_p128_le(i, (j - 1) as nat);
        lemma_p128_pos((j - 1) as nat);
        assert(p128(j) == 128 * p128((j - 1) as nat));
    }
}

proof fn lemma_p128_values()
    ensures
        p128(8) == 0x100_0000_0000_0000,
        p128(9) == 0x8000_0000_0000_0000,
        2 * p128(9) == 0x1_0000_0000_0000_0000,
{
    reveal_with_fuel(p128, 10);
}

/// The value of varint data bytes is bounded by the weight just past
/// their end.
proof fn lemma_varint_value_bound(s: Seq<u8>)
    ensures
        varint_value(s) < p128(s.len()),
    decreases s.len(),
{
    if s.len() == 0 {
    } else {
        lemma_varint_value_bound(s.skip(1));
        assert(varint_value(s) < 128 * p128(s.skip(1).len())) by (nonlinear_arith)
            requires
                varint_value(s) == ((s[0] % 128) as nat) + 128 * varint_value(s.skip(1)),
                varint_value(s.skip(1)) < p128(s.skip(1).len()),
        {
        }
    }
}

/// Extending the data bytes by one adds that byte's group at its weight.
proof fn lemma_varint_value_snoc(s: Seq<u8>, n: int)
    requires
        0 <= n < s.len(),
    ensures
        varint_value(s.take(n + 1)) == varint_value(s.take(n)) + ((s[n] % 128) as nat) * p128(
            n as nat,
        ),
    decreases n,
{
    if n == 0 {
        assert(s.take(1) =~= seq![s[0]]);
        assert(s.take(1).skip(1) =~= Seq::<u8>::empty());
        assert(s.take(0) =~= Seq::<u8>::empty());
        assert(varint_value(Seq::<u8>::empty()) == 0);
        assert(varint_value(s.take(1)) == ((s[0] % 128) as nat));
        assert(p128(0) == 1);
        assert(((s[0] % 128) as nat) * p128(0) == ((s[0] % 128) as nat)) by (nonlinear_arith)
            requires
                p128(0) == 1,
        {
        }
        assert(varint_value(s.take(n + 1)) == varint_value(s.take(n)) + ((s[n] % 128) as nat)
            * p128(n as nat));
    } else {
        let t = s.skip(1);
        lemma_varint_value_snoc(t, n - 1);
        assert(s.take(n + 1).skip(1) =~= t.take(n));
        assert(s.take(n).skip(1) =~= t.take(n - 1));
        assert(s.take(n + 1)[0] == s[0]);
        assert(s.take(n)[0] == s[0]);
        assert(t[n - 1] == s[n]);
        let a = (s[0] % 128) as nat;
        let x = varint_value(t.take(n - 1));
        let g = (s[n] % 128) as nat;
        let w = p128((n - 1) as nat);
        assert(varint_value(t.take(n)) == x + g * w);
        assert(varint_value(s.take(n + 1)) == a + 128 * (x + g * w));
        assert(varint_value(s.take(n)) == a + 128 * x);
        assert(128 * (x + g * w) == 128 * x + g * (128 * w)) by (nonlinear_arith);
        assert(p128(n as nat) == 128 * w);
        assert(g * p128(n as nat) == g * (128 * w));
        assert(varint_value(s.take(n + 1)) == a + (128 * x + g * (128 * w)));
        assert(varint_value(s.take(n + 1)) == (a + 128 * x) + g * (128 * w));
        assert(varint_value(s.take(n + 1)) == varint_value(s.take(n)) + ((s[n] % 128) as nat)
            * p128(n as nat));
    }
}

proof fn lemma_terminator_at(s: Seq<u8>, i: int, k: int)
    requires
        0 <= i <= k < 10,
        k < s.len(),
        s[k] < 128,
        forall|j: int| i <= j < k ==> s[j] >= 128,
    ensures
        varint_terminator(s, i) == Some(k),
    decreases k - i,
{
    if i < k {
        lemma_terminator_at(s, i + 1, k);
    }
}

proof fn lemma_terminator_none(s: Seq<u8>, i: int)
    requires
        0 <= i,
        forall|j: int| i <= j < 10 && j < s.len() ==> s[j] >= 128,
    ensures
        varint_terminator(s, i) is None,
    decreases 10 - i,
{
    if i < 10 && i < s.len() {
        lemma_terminator_none(s, i + 1);
    }
}

proof fn lemma_terminator_bounds(s: Seq<u8>, i: int, k: int)
    requires
        0 <= i,
        varint_terminator(s, i) == Some(k),
    ensures
        i <= k < 10,
        k < s.len(),
    decreases 10 - i,
{
    if i < 10 && i < s.len() && s[i] >= 128 {
        lemma_terminator_bounds(s, i + 1, k);
    }
}

/// A successful decode consumes between 1 and 10 bytes, all within the
/// buffer.
pub proof fn lemma_varint_decode_ok_bounds(s: Seq<u8>, v: u64, n: usize)
    requires
        varint_decode(s) == Ok::<(u64, usize), VarintError>((v, n)),
    ensures
        1 <= n <= 10,
        n <= s.len(),
{
    let k = varint_terminator(s, 0)->Some_0;
    lemma_terminator_bounds(s, 0, k);
}

/// Decodes a varint from the front of `buf`, yielding the value and the
/// number of bytes consumed.
pub fn decode_varint(buf: &[u8]) -> (r: Result<(u64, usize), VarintError>)
    ensures
        r == varint_decode(buf@),
{
    let mut result: u64 = 0;
    let mut mult: u64 = 1;
    let mut i: usize = 0;
    proof {
        assert(buf@.take(0) =~= Seq::<u8>::empty());
    }
    while i < 10
        invariant
            0 <= i <= 10,
            i <= buf@.len(),
            forall|j: int| 0 <= j < i ==> buf@[j] >= 128,
            i <= 9 ==> mult == p128(i as nat),
            i <= 9 ==> result == varint_value(buf@.take(i as int)),
        decreases 10 - i,
    {
        if i >= buf.len() {
            proof {
                lemma_terminator_none(buf@, 0);
            }
            return Err(VarintError::Incomplete);
        }
        let b = buf[i];
        let g = (b % 128) as u64;
        proof {
            lemma_varint_value_bound(buf@.take(i as int));
            lemma_varint_value_snoc(buf@, i as int);
            lemma_p128_values();
            if i <= 8 {
                lemma_p128_le(i as nat, 8);
            }
        }
        if i == 9 {
            result = result + (g % 2) * mult;
        } else {
            assert(g * mult <= 127 * p128(i as nat)) by (nonlinear_arith)
                requires
                    g <= 127,
                    mult == p128(i as nat),
                    p128(i as nat) >= 0,
            {
            }
            assert(result + 127 * p128(i as nat) < 128 * p128(i as nat)) by (nonlinear_arith)
                requires
                    result < p128(i as nat),
            {
            }
            assert(128 * p128(i as nat) == p128((i + 1) as nat));
            result = result + g * mult;
        }
        if b < 128 {
            proof {
                lemma_terminator_at(buf@, 0, i as int);
                let full = varint_value(buf@.take(i + 1));
                if i == 9 {
                    let m: int = 0x1_0000_0000_0000_0000;
                    assert(g * p128(9) == (g / 2) * (2 * p128(9)) + (g % 2) * p128(9))
                        by (nonlinear_arith)
                        requires
                            g == 2 * (g / 2) + g % 2,
                            p128(9) >= 0,
                    {
                    }
                    lemma_fundamental_div_mod(g as int, 2);
                    assert(full == (m * (g as int / 2) + result));
                    lemma_mod_multiples_vanish(g as int / 2, result as int, m);
                    lemma_small_mod(result as nat, m as nat);
                } else {
                    lemma_p128_le((i + 1) as nat, 9);
                    lemma_small_mod(full, 0x1_0000_0000_0000_0000);
                }
            }
            return Ok((result, i + 1));
        }
        if i < 9 {
            mult = mult * 128;
        }
        i = i + 1;
    }
    proof {
        lemma_terminator_none(buf@, 0);
    }
    Err(VarintError::Overlong)
}

/// Encodes `value` as a varint.
pub fn encode_varint(value: u64) -> (r: Vec<u8>)
    ensures
        r@ == varint_bytes(value as nat),
{
    let mut buf: Vec<u8> = Vec::new();
    let mut v: u64 = value;
    while v >= 128
        invariant
            varint_bytes(value as nat) =~= buf@ + varint_bytes(v as nat),
        decreases v,
    {
        let ghost pre = buf@;
        buf.push((v % 128 + 128) as u8);
        proof {
            assert(varint_bytes(v as nat) == seq![((v as nat) % 128 + 128) as u8] + varint_bytes(
                (v as nat) / 128,
            ));
            assert(pre + varint_bytes(v as nat) =~= buf@ + varint_bytes((v as nat) / 128));
        }
        v = v / 128;
    }
    let ghost pre = buf@;
    buf.push(v as u8);
    proof {
        assert(varint_bytes(v as nat) =~= seq![v as u8]);
        assert(varint_bytes(value as nat) =~= buf@);
    }
    buf
}

/// Every byte of an encoded varint but the last continues; the last does
/// not; and a value below 2^64 takes at most 10 bytes.
pub proof fn lemma_varint_bytes_shape(v: nat)
    ensures
        1 <= varint_bytes(v).len(),
        forall|j: int| 0 <= j < varint_bytes(v).len() - 1 ==> varint_bytes(v)[j] >= 128,
        varint_bytes(v)[varint_bytes(v).len() - 1] < 128,
        v < 0x1_0000_0000_0000_0000 ==> varint_bytes(v).len() <= 10,
    decreases v,
{
    if v < 128 {
    } else {
        lemma_varint_bytes_shape(v / 128);
        if v < 0x1_0000_0000_0000_0000 {
            lemma_varint_len_bound_64(v);
        }
    }
}

proof fn lemma_varint_len_bound(v: nat, n: nat)
    requires
        1 <= n,
        v < p128(n),
    ensures
        varint_bytes(v).len() <= n,
    decreases n,
{
    if v < 128 {
    } else {
        assert(n >= 2) by {
            if n == 1 {
                reveal_with_fuel(p128, 2);
            }
        }
        assert(v / 128 < p128((n - 1) as nat)) by (nonlinear_arith)
            requires
                v < p128(n),
                p128(n) == 128 * p128((n - 1) as nat),
                v >= 0,
        {
        }
        lemma_varint_len_bound(v / 128, (n - 1) as nat);
    }
}

/// Fact used above: 2^64 <= 128^10.
proof fn lemma_varint_len_bound_64(v: nat)
    requires
        v < 0x1_0000_0000_0000_0000,
    ensures
        varint_bytes(v).len() <= 10,
{
    lemma_p128_values();
    lemma_p128_le(9, 10);
    lemma_varint_len_bound(v, 10);
}

/// Reading back the data bytes of an encoding recovers the value.
proof fn lemma_varint_bytes_value(v: nat)
    ensures
        varint_value(varint_bytes(v)) == v,
    decreases v,
{
    if v < 128 {
        assert(varint_bytes(v) =~= seq![v as u8]);
        assert(varint_bytes(v).skip(1) =~= Seq::<u8>::empty());
        assert(varint_value(Seq::<u8>::empty()) == 0);
        assert(varint_value(varint_bytes(v)) == ((varint_bytes(v)[0] % 128) as nat));
    } else {
        lemma_varint_bytes_value(v / 128);
        let s = varint_bytes(v);
        assert(s.skip(1) =~= varint_bytes(v / 128));
        assert(s[0] == (v % 128 + 128) as u8);
        assert((s[0] % 128) as nat == v % 128);
        assert(varint_value(s) == (v % 128) + 128 * (v / 128));
        lemma_fundamental_div_mod(v as int, 128);
    }
}

/// Decoding an encoded varint, with anything at all after it, yields the
/// encoded value and consumes exactly the encoding.
pub proof fn lemma_varint_decode_with_rest(v: u64, rest: Seq<u8>)
    ensures
        varint_decode(varint_bytes(v as nat) + rest) == Ok::<(u64, usize), VarintError>(
            (v, varint_bytes(v as nat).len() as usize),
        ),
{
    let e = varint_bytes(v as nat);
    let s = e + rest;
    let k = e.len() - 1;
    lemma_varint_bytes_shape(v as nat);
    lemma_varint_len_bound_64(v as nat);
    assert(forall|j: int| 0 <= j < k ==> s[j] == e[j]);
    lemma_terminator_at(s, 0, k);
    assert(s.take(k + 1) =~= e);
    lemma_varint_bytes_value(v as nat);
    lemma_small_mod(v as nat, 0x1_0000_0000_0000_0000);
}

/// Round trip: decoding an encoded varint yields the value and its
/// encoded length.
pub proof fn lemma_varint_round_trip(v: u64)
    ensures
        varint_decode(varint_bytes(v as nat)) == Ok::<(u64, usize), VarintError>(
            (v, varint_bytes(v as nat).len() as usize),
        ),
{
    lemma_varint_decode_with_rest(v, Seq::<u8>::empty());
    assert(varint_bytes(v as nat) + Seq::<u8>::empty() =~= varint_bytes(v as nat));
}

/// A strict prefix of an encoded varint decodes as `Incomplete`.
pub proof fn lemma_varint_prefix_incomplete(v: u64, n: int)
    requires
        0 <= n < varint_bytes(v as nat).len(),
    ensures
        varint_decode(varint_bytes(v as nat).take(n)) == Err::<(u64, usize), VarintError>(
            VarintError::Incomplete,
        ),
{
    let e = varint_bytes(v as nat);
    let p = e.take(n);
    lemma_varint_bytes_shape(v as nat);
    lemma_varint_len_bound_64(v as nat);
    assert(forall|j: int| 0 <= j < n ==> p[j] == e[j] && p[j] >= 128);
    lemma_terminator_none(p, 0);
}

} // verus!
