//! 48-bit device addresses: parsing the colon-separated string form,
//! packing the little-endian on-wire byte order, and the agreement of
//! the two with the big-endian 64-bit packing used on the bus.

use vstd::prelude::*;

verus! {

use crate::utils::{
    split_colon, parse_hex_u8, mac_string, hex_pair, hex_digit, str_chars, split_colon_ranges,
    parse_hex_range,
};

/// 256 raised to `n`; the weight of the `n`-th address byte.
pub open spec fn p256(n: nat) -> nat
    decreases n,
{
    if n == 0 {
        1
    } else {
        256 * p256((n - 1) as nat)
    }
}

proof fn lemma_p256_pos(n: nat)
    ensures
        p256(n) >= 1,
    decreases n,
{
    if n > 0 {
        lemma_p256_pos((n - 1) as nat);
    }
}

proof fn lemma_p256_values()
    ensures
        p256(6) == 0x1_0000_0000_0000,
        p256(7) == 0x100_0000_0000_0000,
{
    reveal_with_fuel(p256, 8);
}

/// The value of address bytes given most significant first.
pub open spec fn be_bytes_value(s: Seq<u8>) -> nat
    decreases s.len(),
{
    if s.len() == 0 {
        0
    } else {
        ((s[0] as nat) * p256((s.len() - 1) as nat) + be_bytes_value(s.skip(1))) as nat
    }
}

/// The value of address bytes given least significant first, the order
/// the HCI wire and the kernel carry them in.
pub open spec fn bdaddr_value(s: Seq<u8>) -> nat
    decreases s.len(),
{
    if s.len() == 0 {
        0
    } else {
        ((s[0] as nat) + 256 * bdaddr_value(s.skip(1))) as nat
    }
}

proof fn lemma_be_bytes_value_bound(s: Seq<u8>)
    ensures
        be_bytes_value(s) < p256(s.len()),
    decreases s.len(),
{
    if s.len() == 0 {
    } else {
        lemma_be_bytes_value_bound(s.skip(1));
        let w = p256((s.len() - 1) as nat);
        assert(s[0] * w <= 255 * w) by (nonlinear_arith)
            requires
                0 <= s[0] <= 255,
                w >= 0,
        {
        }
        assert(255 * w + w == 256 * w) by (nonlinear_arith);
        assert(p256(s.len()) == 256 * w);
    }
}

proof fn lemma_bdaddr_value_bound(s: Seq<u8>)
    ensures
        bdaddr_value(s) < p256(s.len()),
    decreases s.len(),
{
    if s.len() == 0 {
    } else {
        lemma_bdaddr_value_bound(s.skip(1));
        let w = p256((s.len() - 1) as nat);
        assert(256 * bdaddr_value(s.skip(1)) + 256 <= 256 * w) by (nonlinear_arith)
            requires
                bdaddr_value(s.skip(1)) < w,
        {
        }
        assert(p256(s.len()) == 256 * w);
    }
}

proof fn lemma_bdaddr_snoc(s: Seq<u8>)
    requires
        s.len() >= 1,
    ensures
        bdaddr_value(s) == bdaddr_value(s.drop_last()) + s.last() * p256((s.len() - 1) as nat),
    decreases s.len(),
{
    if s.len() == 1 {
        assert(s.drop_last() =~= Seq::<u8>::empty());
        assert(s.skip(1) =~= Seq::<u8>::empty());
        assert(bdaddr_value(Seq::<u8>::empty()) == 0);
        assert(s.last() == s[0]);
        assert(p256(0) == 1);
        assert(s.last() * 1 == s.last()) by (nonlinear_arith);
    } else {
        let t = s.skip(1);
        lemma_bdaddr_snoc(t);
        assert(s.drop_last().skip(1) =~= t.drop_last());
        assert(s.drop_last()[0] == s[0]);
        assert(t.last() == s.last());
        let w = p256((s.len() - 2) as nat);
        assert(bdaddr_value(s) == s[0] + 256 * (bdaddr_value(t.drop_last()) + s.last() * w));
        assert(256 * (bdaddr_value(t.drop_last()) + s.last() * w) == 256 * bdaddr_value(
            t.drop_last(),
        ) + s.last() * (256 * w)) by (nonlinear_arith);
        assert(p256((s.len() - 1) as nat) == 256 * w);
        assert(bdaddr_value(s.drop_last()) == s[0] + 256 * bdaddr_value(t.drop_last()));
    }
}

/// The little-endian and big-endian byte orders of one address agree on
/// its value: reading bytes least-significant-first gives the same
/// 48-bit quantity as reading the reversed sequence
/// most-significant-first.
pub proof fn lemma_bdaddr_matches_big_endian(le: Seq<u8>, be: Seq<u8>)
    requires
        le.len() == be.len(),
        forall|i: int| 0 <= i < le.len() ==> le[i] == be[le.len() - 1 - i],
    ensures
        bdaddr_value(le) == be_bytes_value(be),
    decreases be.len(),
{
    if be.len() == 0 {
    } else {
        let lt = le.drop_last();
        let bt = be.skip(1);
        assert(forall|i: int| 0 <= i < lt.len() ==> lt[i] == le[i] && bt[i] == be[i + 1]);
        lemma_bdaddr_matches_big_endian(lt, bt);
        lemma_bdaddr_snoc(le);
        assert(le.last() == be[0]);
    }
}

/// Packs the six little-endian on-wire bytes of a device address into
/// the 64-bit big-endian-packed form the bus carries.
pub fn bdaddr_to_u64(bd: &[u8]) -> (r: u64)
    requires
        bd@.len() == 6,
    ensures
        r == bdaddr_value(bd@),
{
    proof {
        lemma_p256_values();
    }
    let mut acc: u64 = 0;
    let mut j: usize = 6;
    proof {
        assert(bd@.skip(6) =~= Seq::<u8>::empty());
    }
    while j > 0
        invariant
            0 <= j <= 6,
            bd@.len() == 6,
            acc == bdaddr_value(bd@.skip(j as int)),
            acc < p256((6 - j) as nat),
            p256(6) == 0x1_0000_0000_0000,
        decreases j,
    {
        let b = bd[j - 1];
        proof {
            lemma_bdaddr_value_bound(bd@.skip(j - 1));
            assert(bd@.skip(j - 1).skip(1) =~= bd@.skip(j as int));
            assert(bd@.skip(j - 1)[0] == bd@[j - 1]);
            let w = p256((6 - j) as nat);
            assert(256 * acc + 256 <= 256 * w) by (nonlinear_arith)
                requires
                    acc < w,
            {
            }
            assert(p256((7 - j) as nat) == 256 * w);
            if j >= 2 {
                crate::addr::lemma_p256_le((7 - j) as nat, 6);
            }
        }
        acc = acc * 256 + (b as u64);
        j = j - 1;
    }
    proof {
        assert(bd@.skip(0) =~= bd@);
    }
    acc
}

proof fn lemma_p256_le(i: nat, j: nat)
    requires
        i <= j,
    ensures
        p256(i) <= p256(j),
    decreases j,
{
    if i < j {
        lemma_p256_le(i, (j - 1) as nat);
        lemma_p256_pos((j - 1) as nat);
        assert(p256(j) == 256 * p256((j - 1) as nat));
    }
}

/// One step of address folding: shift the accumulator up a byte and add
/// the next one, truncating to 64 bits as the fold proceeds.
pub open spec fn fold_ble_address(parts: Seq<Seq<char>>, acc: u64) -> u64
    decreases parts.len(),
{
    if parts.len() == 0 {
        acc
    } else {
        let b = match parse_hex_u8(parts[0]) {
            Some(v) => v,
            None => 0u8,
        };
        let acc2 = ((acc * 256 + b) % 0x1_0000_0000_0000_0000) as u64;
        fold_ble_address(parts.skip(1), acc2)
    }
}

/// The value of a colon-separated address string: each part read as a
/// hex byte (unparsable parts count as zero), folded big-endian.
pub open spec fn ble_address_value(s: Seq<char>) -> u64 {
    fold_ble_address(split_colon(s), 0)
}

/// Parses a colon-separated BLE address string into its
/// big-endian-packed 64-bit form.
pub fn parse_ble_address(address: &str) -> (r: u64)
    ensures
        r == ble_address_value(address@),
{
    let chars = str_chars(address);
    let ranges = split_colon_ranges(&chars);
    let ghost parts = split_colon(address@);
    let mut acc: u64 = 0;
    let mut i: usize = 0;
    proof {
        assert(parts.skip(0) =~= parts);
    }
    while i < ranges.len()
        invariant
            0 <= i <= ranges@.len(),
            chars@ =~= address@,
            parts == split_colon(address@),
            ranges@.len() == parts.len(),
            forall|t: int|
                0 <= t < ranges@.len() ==> 0 <= #[trigger] ranges@[t].0 <= ranges@[t].1
                    <= chars@.len() && chars@.subrange(ranges@[t].0 as int, ranges@[t].1 as int)
                    == parts[t],
            fold_ble_address(parts, 0) == fold_ble_address(parts.skip(i as int), acc),
        decreases ranges@.len() - i,
    {
        let b: u8 = match parse_hex_range(&chars, ranges[i].0, ranges[i].1) {
            Some(v) => v,
            None => 0,
        };
        let t: u128 = (acc as u128) * 256 + (b as u128);
        proof {
            assert(parts.skip(i as int)[0] == parts[i as int]);
            assert(parts.skip(i as int).skip(1) =~= parts.skip(i + 1));
        }
        acc = (t % 0x1_0000_0000_0000_0000u128) as u64;
        i = i + 1;
    }
    proof {
        assert(parts.skip(parts.len() as int) =~= Seq::<Seq<char>>::empty());
    }
    acc
}

proof fn lemma_hex_digit_not_colon(d: nat, upper: bool)
    ensures
        hex_digit(d, upper) != ':',
{
}

proof fn lemma_parse_hex_pair(b: u8, upper: bool)
    ensures
        parse_hex_u8(hex_pair(b, upper)) == Some(b),
{
    let hi = (b / 16) as nat;
    let lo = (b % 16) as nat;
    let p = hex_pair(b, upper);
    assert(p.len() == 2);
    assert(p[0] == hex_digit(hi, upper) && p[1] == hex_digit(lo, upper));
    assert(crate::utils::hex_val(hex_digit(hi, upper)) == Some((hi as u8)));
    assert(crate::utils::hex_val(hex_digit(lo, upper)) == Some((lo as u8)));
    assert(p[0] != '+');
    assert(p.skip(1) =~= seq![p[1]]);
    assert(p.skip(1).skip(1) =~= Seq::<char>::empty());
    let hiv = hi as u8;
    let lov = lo as u8;
    assert(parse_hex_u8(p) == crate::utils::hex_accum(p, 0));
    assert(crate::utils::hex_accum(p, 0) == crate::utils::hex_accum(p.skip(1), (0 * 16 + hiv) as nat));
    assert((0 * 16 + hiv) as nat == hi);
    assert(crate::utils::hex_accum(p.skip(1), hi) == crate::utils::hex_accum(
        p.skip(1).skip(1),
        (hi * 16 + lov) as nat,
    ));
    assert(crate::utils::hex_accum(Seq::<char>::empty(), (hi * 16 + lov) as nat) == Some(
        ((hi * 16 + lov) as nat) as u8,
    ));
    assert(hi * 16 + lo == b);
    assert(((hi * 16 + lov) as nat) as u8 == b);
}

/// The hex pairs of `m`, the parts that splitting its formatted string
/// gives back.
pub open spec fn mac_pairs(m: Seq<u8>, upper: bool) -> Seq<Seq<char>> {
    Seq::new(m.len(), |i: int| hex_pair(m[i], upper))
}

proof fn lemma_split_mac_string(m: Seq<u8>, upper: bool)
    requires
        m.len() >= 1,
    ensures
        split_colon(mac_string(m, seq![':'], upper)) =~= mac_pairs(m, upper),
    decreases m.len(),
{
    let s = mac_string(m, seq![':'], upper);
    if m.len() == 1 {
        assert(s == hex_pair(m[0], upper));
        assert(forall|j: int|
            0 <= j < s.len() ==> s[j] == hex_digit(
                if j == 0 {
                    (m[0] / 16) as nat
                } else {
                    (m[0] % 16) as nat
                },
                upper,
            ));
        assert(forall|j: int| 0 <= j < s.len() ==> s[j] != ':');
        crate::utils::lemma_first_colon_none(s);
        assert(split_colon(s) == seq![s]);
        assert(mac_pairs(m, upper) =~= seq![hex_pair(m[0], upper)]);
    } else {
        let rest = mac_string(m.skip(1), seq![':'], upper);
        assert(s == hex_pair(m[0], upper) + seq![':'] + rest);
        assert(s[0] == hex_digit((m[0] / 16) as nat, upper));
        assert(s[1] == hex_digit((m[0] % 16) as nat, upper));
        assert(s[2] == ':');
        assert(s[0] != ':' && s[1] != ':');
        crate::utils::lemma_first_colon_at(s, 2);
        assert(s.take(2) =~= hex_pair(m[0], upper));
        assert(s.skip(3) =~= rest);
        lemma_split_mac_string(m.skip(1), upper);
        assert(split_colon(s) == seq![s.take(2)] + split_colon(rest));
        assert(mac_pairs(m.skip(1), upper) =~= mac_pairs(m, upper).skip(1));
        assert(mac_pairs(m, upper)[0] == hex_pair(m[0], upper));
        assert(split_colon(s) =~= seq![mac_pairs(m, upper)[0]] + mac_pairs(m, upper).skip(1));
        assert(seq![mac_pairs(m, upper)[0]] + mac_pairs(m, upper).skip(1) =~= mac_pairs(m, upper));
    }
}

proof fn lemma_fold_mac_pairs(m: Seq<u8>, acc: u64, upper: bool)
    requires
        acc * p256(m.len()) + be_bytes_value(m) < 0x1_0000_0000_0000_0000,
    ensures
        fold_ble_address(mac_pairs(m, upper), acc) == acc * p256(m.len()) + be_bytes_value(m),
    decreases m.len(),
{
    let pairs = mac_pairs(m, upper);
    if m.len() == 0 {
        assert(pairs.len() == 0);
        assert(p256(0) == 1);
        assert(acc * 1 == acc) by (nonlinear_arith);
    } else {
        let w = p256((m.len() - 1) as nat);
        lemma_p256_pos((m.len() - 1) as nat);
        lemma_be_bytes_value_bound(m.skip(1));
        lemma_parse_hex_pair(m[0], upper);
        assert(pairs[0] == hex_pair(m[0], upper));
        let acc2n = acc * 256 + m[0];
        assert(p256(m.len()) == 256 * w);
        assert(acc * (256 * w) + m[0] * w + be_bytes_value(m.skip(1)) == (acc * 256 + m[0]) * w
            + be_bytes_value(m.skip(1))) by (nonlinear_arith);
        assert(be_bytes_value(m) == m[0] * w + be_bytes_value(m.skip(1)));
        assert(acc2n <= acc2n * w) by (nonlinear_arith)
            requires
                w >= 1,
                acc2n >= 0,
        {
        }
        assert(acc2n * w + be_bytes_value(m.skip(1)) < 0x1_0000_0000_0000_0000);
        vstd::arithmetic::div_mod::lemma_small_mod(acc2n as nat, 0x1_0000_0000_0000_0000);
        let acc2 = ((acc * 256 + m[0]) % 0x1_0000_0000_0000_0000) as u64;
        assert(acc2 == acc2n);
        lemma_fold_mac_pairs(m.skip(1), acc2, upper);
        assert(pairs.skip(1) =~= mac_pairs(m.skip(1), upper));
        assert(fold_ble_address(pairs, acc) == fold_ble_address(pairs.skip(1), acc2));
    }
}

/// Parsing a formatted address recovers its value: rendering six bytes
/// as colon-separated hex pairs, in either case, and parsing the string
/// back yields the big-endian-packed value of those bytes.
pub proof fn lemma_parse_formatted_mac(m: Seq<u8>, upper: bool)
    requires
        m.len() == 6,
    ensures
        ble_address_value(mac_string(m, seq![':'], upper)) == be_bytes_value(m),
{
    lemma_split_mac_string(m, upper);
    lemma_p256_values();
    lemma_be_bytes_value_bound(m);
    assert(0 * p256(m.len()) == 0) by (nonlinear_arith);
    lemma_fold_mac_pairs(m, 0, upper);
}

} // verus!
