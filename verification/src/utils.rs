//! Small string utilities: hexadecimal MAC formatting, MAC parsing, and
//! decimal rendering of small integers.

use vstd::prelude::*;

verus! {

use vstd::string::StringExecFns;
use vstd::std_specs::iter::IteratorSpec;

broadcast use vstd::string::axiom_spec_iter, vstd::string::next_postcondition;

/// The hexadecimal digit for `d`, in upper case.
pub open spec fn hex_digit(d: nat, upper: bool) -> char {
    if d == 0 {
        '0'
    } else if d == 1 {
        '1'
    } else if d == 2 {
        '2'
    } else if d == 3 {
        '3'
    } else if d == 4 {
        '4'
    } else if d == 5 {
        '5'
    } else if d == 6 {
        '6'
    } else if d == 7 {
        '7'
    } else if d == 8 {
        '8'
    } else if d == 9 {
        '9'
    } else if d == 10 {
        if upper {
            'A'
        } else {
            'a'
        }
    } else if d == 11 {
        if upper {
            'B'
        } else {
            'b'
        }
    } else if d == 12 {
        if upper {
            'C'
        } else {
            'c'
        }
    } else if d == 13 {
        if upper {
            'D'
        } else {
            'd'
        }
    } else if d == 14 {
        if upper {
            'E'
        } else {
            'e'
        }
    } else {
        if upper {
            'F'
        } else {
            'f'
        }
    }
}

/// The two hexadecimal digits of one byte.
pub open spec fn hex_pair(b: u8, upper: bool) -> Seq<char> {
    seq![hex_digit((b / 16) as nat, upper), hex_digit((b % 16) as nat, upper)]
}

/// Bytes rendered as hex pairs with `sep` between consecutive bytes.
pub open spec fn mac_string(s: Seq<u8>, sep: Seq<char>, upper: bool) -> Seq<char>
    decreases s.len(),
{
    if s.len() == 0 {
        Seq::empty()
    } else if s.len() == 1 {
        hex_pair(s[0], upper)
    } else {
        hex_pair(s[0], upper) + sep + mac_string(s.skip(1), sep, upper)
    }
}

proof fn lemma_mac_string_snoc(s: Seq<u8>, sep: Seq<char>, upper: bool, n: int)
    requires
        1 <= n < s.len(),
    ensures
        mac_string(s.take(n + 1), sep, upper) =~= mac_string(s.take(n), sep, upper) + sep
            + hex_pair(s[n], upper),
    decreases n,
{
    if n == 1 {
        assert(s.take(2) =~= seq![s[0], s[1]]);
        assert(s.take(2).skip(1) =~= seq![s[1]]);
        assert(s.take(1) =~= seq![s[0]]);
        assert(mac_string(seq![s[1]], sep, upper) == hex_pair(s[1], upper));
        assert(mac_string(s.take(2), sep, upper) == hex_pair(s[0], upper) + sep + mac_string(
            seq![s[1]],
            sep,
            upper,
        ));
        assert(mac_string(s.take(1), sep, upper) == hex_pair(s[0], upper));
    } else {
        let t = s.skip(1);
        lemma_mac_string_snoc(t, sep, upper, n - 1);
        assert(s.take(n + 1).skip(1) =~= t.take(n));
        assert(s.take(n).skip(1) =~= t.take(n - 1));
        assert(s.take(n + 1)[0] == s[0]);
        assert(s.take(n)[0] == s[0]);
        assert(t[n - 1] == s[n]);
        assert(s.take(n + 1).len() == n + 1);
        assert(mac_string(s.take(n + 1), sep, upper) == hex_pair(s[0], upper) + sep + mac_string(
            t.take(n),
            sep,
            upper,
        ));
        assert(mac_string(s.take(n), sep, upper) == hex_pair(s[0], upper) + sep + mac_string(
            t.take(n - 1),
            sep,
            upper,
        ));
        assert(mac_string(t.take(n), sep, upper) =~= mac_string(t.take(n - 1), sep, upper) + sep
            + hex_pair(t[n - 1], upper));
        assert(mac_string(s.take(n + 1), sep, upper) =~= mac_string(s.take(n), sep, upper) + sep
            + hex_pair(s[n], upper));
    }
}

fn hex_digit_str(d: u8, upper: bool) -> (r: &'static str)
    requires
        d < 16,
    ensures
        r@ =~= seq![hex_digit(d as nat, upper)],
{
    let r: &'static str = if d == 0 {
        "0"
    } else if d == 1 {
        "1"
    } else if d == 2 {
        "2"
    } else if d == 3 {
        "3"
    } else if d == 4 {
        "4"
    } else if d == 5 {
        "5"
    } else if d == 6 {
        "6"
    } else if d == 7 {
        "7"
    } else if d == 8 {
        "8"
    } else if d == 9 {
        "9"
    } else if d == 10 {
        if upper {
            "A"
        } else {
            "a"
        }
    } else if d == 11 {
        if upper {
            "B"
        } else {
            "b"
        }
    } else if d == 12 {
        if upper {
            "C"
        } else {
            "c"
        }
    } else if d == 13 {
        if upper {
            "D"
        } else {
            "d"
        }
    } else if d == 14 {
        if upper {
            "E"
        } else {
            "e"
        }
    } else {
        if upper {
            "F"
        } else {
            "f"
        }
    };
    proof {
        reveal_strlit("0");
        reveal_strlit("1");
        reveal_strlit("2");
        reveal_strlit("3");
        reveal_strlit("4");
        reveal_strlit("5");
        reveal_strlit("6");
        reveal_strlit("7");
        reveal_strlit("8");
        reveal_strlit("9");
        reveal_strlit("A");
        reveal_strlit("B");
        reveal_strlit("C");
        reveal_strlit("D");
        reveal_strlit("E");
        reveal_strlit("F");
        reveal_strlit("a");
        reveal_strlit("b");
        reveal_strlit("c");
        reveal_strlit("d");
        reveal_strlit("e");
        reveal_strlit("f");
    }
    r
}

fn format_mac_case(mac: &[u8], sep: &str, upper: bool) -> (r: String)
    ensures
        r@ =~= mac_string(mac@, sep@, upper),
{
    let mut out = String::new();
    let mut i: usize = 0;
    while i < mac.len()
        invariant
            0 <= i <= mac@.len(),
            out@ =~= mac_string(mac@.take(i as int), sep@, upper),
        decreases mac@.len() - i,
    {
        if i > 0 {
            out.append(sep);
        }
        let b = mac[i];
        out.append(hex_digit_str(b / 16, upper));
        out.append(hex_digit_str(b % 16, upper));
        proof {
            if i == 0 {
                assert(mac@.take(1) =~= seq![mac@[0]]);
                assert(out@ =~= hex_pair(mac@[0], upper));
            } else {
                lemma_mac_string_snoc(mac@, sep@, upper, i as int);
            }
        }
        i = i + 1;
    }
    proof {
        assert(mac@.take(mac@.len() as int) =~= mac@);
    }
    out
}

/// Renders bytes as upper-case hex pairs joined by `sep`, the form the
/// device-info and mDNS records carry.
pub fn format_mac(mac: &[u8], sep: &str) -> (r: String)
    ensures
        r@ =~= mac_string(mac@, sep@, true),
{
    format_mac_case(mac, sep, true)
}

/// The lower-case variant, used for the mDNS `mac` TXT record.
pub fn format_mac_lower(mac: &[u8], sep: &str) -> (r: String)
    ensures
        r@ =~= mac_string(mac@, sep@, false),
{
    format_mac_case(mac, sep, false)
}

/// The characters of `s`, collected for index-based scanning.
pub fn str_chars(s: &str) -> (r: Vec<char>)
    ensures
        r@ =~= s@,
{
    let mut it = s.chars();
    let mut out: Vec<char> = Vec::new();
    loop
        invariant
            it.obeys_prophetic_iter_laws(),
            out@ + it.remaining() =~= s@,
        ensures
            out@ =~= s@,
        decreases s@.len() - out@.len(),
    {
        match it.next() {
            Some(c) => {
                out.push(c);
            },
            None => {
                break ;
            },
        }
    }
    out
}

/// The index of the first `':'` in `s`, if any.
pub open spec fn first_colon(s: Seq<char>) -> Option<int>
    decreases s.len(),
{
    if s.len() == 0 {
        None
    } else if s[0] == ':' {
        Some(0)
    } else {
        match first_colon(s.skip(1)) {
            Some(j) => Some(j + 1),
            None => None,
        }
    }
}

proof fn lemma_first_colon_bounds(s: Seq<char>, k: int)
    requires
        first_colon(s) == Some(k),
    ensures
        0 <= k < s.len(),
        s[k] == ':',
        forall|j: int| 0 <= j < k ==> s[j] != ':',
    decreases s.len(),
{
    if s.len() > 0 && s[0] != ':' {
        lemma_first_colon_bounds(s.skip(1), k - 1);
        assert(forall|j: int| 1 <= j < k ==> s[j] == s.skip(1)[j - 1]);
    }
}

pub proof fn lemma_first_colon_at(s: Seq<char>, k: int)
    requires
        0 <= k < s.len(),
        s[k] == ':',
        forall|j: int| 0 <= j < k ==> s[j] != ':',
    ensures
        first_colon(s) == Some(k),
    decreases k,
{
    if k > 0 {
        assert(forall|j: int| 0 <= j < k - 1 ==> s.skip(1)[j] == s[j + 1]);
        lemma_first_colon_at(s.skip(1), k - 1);
    }
}

pub proof fn lemma_first_colon_none(s: Seq<char>)
    requires
        forall|j: int| 0 <= j < s.len() ==> s[j] != ':',
    ensures
        first_colon(s) is None,
    decreases s.len(),
{
    if s.len() > 0 {
        assert(forall|j: int| 0 <= j < s.skip(1).len() ==> s.skip(1)[j] == s[j + 1]);
        lemma_first_colon_none(s.skip(1));
    }
}

/// `s` divided at every `':'`; an empty input yields one empty part,
/// as splitting does.
pub open spec fn split_colon(s: Seq<char>) -> Seq<Seq<char>>
    decreases s.len(),
{
    match first_colon(s) {
        Some(j) => if 0 <= j < s.len() {
            seq![s.take(j)] + split_colon(s.skip(j + 1))
        } else {
            seq![s]
        },
        None => seq![s],
    }
}

/// Splits `chars` at every `':'`, returning the half-open index range of
/// each part.
pub fn split_colon_ranges(chars: &Vec<char>) -> (r: Vec<(usize, usize)>)
    ensures
        r@.len() == split_colon(chars@).len(),
        forall|i: int|
            0 <= i < r@.len() ==> {
                &&& 0 <= #[trigger] r@[i].0 <= r@[i].1 <= chars@.len()
                &&& chars@.subrange(r@[i].0 as int, r@[i].1 as int) == split_colon(chars@)[i]
            },
{
    let ghost all = split_colon(chars@);
    let mut parts: Vec<(usize, usize)> = Vec::new();
    let mut from: usize = 0;
    proof {
        assert(chars@.skip(0) =~= chars@);
        assert(all.skip(0) =~= all);
    }
    loop
        invariant_except_break
            split_colon(chars@.skip(from as int)) =~= all.skip(parts@.len() as int),
        invariant
            0 <= from <= chars@.len(),
            parts@.len() <= all.len(),
            forall|i: int|
                0 <= i < parts@.len() ==> {
                    &&& 0 <= #[trigger] parts@[i].0 <= parts@[i].1 <= chars@.len()
                    &&& chars@.subrange(parts@[i].0 as int, parts@[i].1 as int) == all[i]
                },
        ensures
            parts@.len() == all.len(),
            forall|i: int|
                0 <= i < parts@.len() ==> {
                    &&& 0 <= #[trigger] parts@[i].0 <= parts@[i].1 <= chars@.len()
                    &&& chars@.subrange(parts@[i].0 as int, parts@[i].1 as int) == all[i]
                },
        decreases chars@.len() - from,
    {
        let ghost tail = chars@.skip(from as int);
        let mut j: usize = from;
        let mut colon: Option<usize> = None;
        loop
            invariant_except_break
                colon is None,
            invariant
                from <= j <= chars@.len(),
                forall|t: int| from <= t < j ==> chars@[t] != ':',
            ensures
                match colon {
                    Some(c) => from <= c < chars@.len() && chars@[c as int] == ':' && forall|t: int|
                        from <= t < c ==> chars@[t] != ':',
                    None => forall|t: int| from <= t < chars@.len() ==> chars@[t] != ':',
                },
            decreases chars@.len() - j,
        {
            if j >= chars.len() {
                break ;
            }
            if chars[j] == ':' {
                colon = Some(j);
                break ;
            }
            j = j + 1;
        }
        match colon {
            Some(c) => {
                proof {
                    let n = parts@.len() as int;
                    assert(forall|t: int|
                        0 <= t < c - from ==> tail[t] == chars@[from + t] && tail[t] != ':');
                    assert(tail[c - from] == ':');
                    lemma_first_colon_at(tail, c - from);
                    assert(split_colon(tail) == seq![tail.take(c - from)] + split_colon(
                        tail.skip(c - from + 1),
                    ));
                    assert(tail.take(c - from) =~= chars@.subrange(from as int, c as int));
                    assert(tail.skip(c - from + 1) =~= chars@.skip(c + 1));
                    assert(all[n] == all.skip(n)[0]);
                    assert(all[n] == chars@.subrange(from as int, c as int));
                    assert(all.skip(n + 1) =~= all.skip(n).skip(1));
                    assert(split_colon(chars@.skip(c + 1)) =~= all.skip(n + 1));
                }
                parts.push((from, c));
                let cl = chars.len();
                proof {
                    assert(c < cl);
                }
                from = c + 1;
            },
            None => {
                proof {
                    let n = parts@.len() as int;
                    assert(forall|t: int|
                        0 <= t < tail.len() ==> tail[t] == chars@[from + t] && tail[t] != ':');
                    lemma_first_colon_none(tail);
                    assert(split_colon(tail) == seq![tail]);
                    assert(all.skip(n).len() == 1);
                    assert(all.len() == n + 1);
                    assert(all[n] == all.skip(n)[0]);
                    assert(tail =~= chars@.subrange(from as int, chars@.len() as int));
                    assert(all[n] == chars@.subrange(from as int, chars@.len() as int));
                }
                parts.push((from, chars.len()));
                break ;
            },
        }
    }
    parts
}

/// The value of one hexadecimal digit.
pub open spec fn hex_val(c: char) -> Option<u8> {
    let u = c as u32;
    if 48 <= u <= 57 {
        Some((u - 48) as u8)
    } else if 65 <= u <= 70 {
        Some((u - 55) as u8)
    } else if 97 <= u <= 102 {
        Some((u - 87) as u8)
    } else {
        None
    }
}

/// Folds hex digits into a byte; more than 8 bits of digits is an
/// overflow and fails.
pub open spec fn hex_accum(s: Seq<char>, acc: nat) -> Option<u8>
    decreases s.len(),
{
    if s.len() == 0 {
        Some(acc as u8)
    } else {
        match hex_val(s[0]) {
            None => None,
            Some(d) => if acc * 16 + d > 255 {
                None
            } else {
                hex_accum(s.skip(1), (acc * 16 + d) as nat)
            },
        }
    }
}

/// A byte written in hexadecimal: an optional `'+'`, then one or more
/// digits, rejecting overflow — the shape the standard numeric parser
/// accepts for a `u8`.
pub open spec fn parse_hex_u8(s: Seq<char>) -> Option<u8> {
    let body = if s.len() >= 1 && s[0] == '+' {
        s.skip(1)
    } else {
        s
    };
    if body.len() == 0 {
        None
    } else {
        hex_accum(body, 0)
    }
}

/// Parses the hex byte written in `chars[from..to]`.
pub fn parse_hex_range(chars: &Vec<char>, from: usize, to: usize) -> (r: Option<u8>)
    requires
        0 <= from <= to <= chars@.len(),
    ensures
        r == parse_hex_u8(chars@.subrange(from as int, to as int)),
{
    let ghost part = chars@.subrange(from as int, to as int);
    let start: usize = if to > from && chars[from] == '+' {
        from + 1
    } else {
        from
    };
    let ghost body = chars@.subrange(start as int, to as int);
    proof {
        if to > from && part[0] == '+' {
            assert(part.skip(1) =~= body);
        } else {
            assert(part =~= body);
        }
    }
    proof {
        assert(parse_hex_u8(part) == if body.len() == 0 {
            None::<u8>
        } else {
            hex_accum(body, 0)
        });
    }
    if start == to {
        return None;
    }
    let mut acc: u32 = 0;
    let mut i: usize = start;
    while i < to
        invariant
            start <= i <= to <= chars@.len(),
            start < to,
            acc <= 255,
            part == chars@.subrange(from as int, to as int),
            body.len() > 0,
            parse_hex_u8(part) == hex_accum(body, 0),
            hex_accum(body, 0) == hex_accum(chars@.subrange(i as int, to as int), acc as nat),
        decreases to - i,
    {
        let ghost rest = chars@.subrange(i as int, to as int);
        let c = chars[i];
        proof {
            assert(rest[0] == c);
        }
        let u = c as u32;
        let dopt: Option<u32> = if 48 <= u && u <= 57 {
            Some(u - 48)
        } else if 65 <= u && u <= 70 {
            Some(u - 55)
        } else if 97 <= u && u <= 102 {
            Some(u - 87)
        } else {
            None
        };
        let d = match dopt {
            Some(d) => {
                proof {
                    assert(hex_val(c) == Some(d as u8));
                }
                d
            },
            None => {
                proof {
                    assert(hex_val(c) is None);
                    assert(hex_accum(rest, acc as nat) is None);
                }
                return None;
            },
        };
        let next = acc * 16 + d;
        if next > 255 {
            proof {
                assert(hex_accum(rest, acc as nat) is None);
            }
            return None;
        }
        proof {
            assert(rest.skip(1) =~= chars@.subrange(i + 1, to as int));
        }
        acc = next;
        i = i + 1;
    }
    proof {
        assert(chars@.subrange(to as int, to as int) =~= Seq::<char>::empty());
        assert(hex_accum(Seq::<char>::empty(), acc as nat) == Some(acc as u8));
    }
    Some(acc as u8)
}

/// The index of the first part that does not parse as a hex byte.
pub open spec fn first_unparsable(parts: Seq<Seq<char>>) -> Option<int>
    decreases parts.len(),
{
    if parts.len() == 0 {
        None
    } else if parse_hex_u8(parts[0]) is None {
        Some(0)
    } else {
        match first_unparsable(parts.skip(1)) {
            Some(j) => Some(j + 1),
            None => None,
        }
    }
}

proof fn lemma_first_unparsable_at(parts: Seq<Seq<char>>, k: int)
    requires
        0 <= k < parts.len(),
        parse_hex_u8(parts[k]) is None,
        forall|j: int| 0 <= j < k ==> parse_hex_u8(parts[j]) is Some,
    ensures
        first_unparsable(parts) == Some(k),
    decreases k,
{
    if k > 0 {
        assert(forall|j: int| 0 <= j < k - 1 ==> parts.skip(1)[j] == parts[j + 1]);
        lemma_first_unparsable_at(parts.skip(1), k - 1);
    }
}

proof fn lemma_first_unparsable_none(parts: Seq<Seq<char>>)
    requires
        forall|j: int| 0 <= j < parts.len() ==> parse_hex_u8(parts[j]) is Some,
    ensures
        first_unparsable(parts) is None,
    decreases parts.len(),
{
    if parts.len() > 0 {
        assert(forall|j: int| 0 <= j < parts.skip(1).len() ==> parts.skip(1)[j] == parts[j + 1]);
        lemma_first_unparsable_none(parts.skip(1));
    }
}

/// Parses a `XX:XX:XX:XX:XX:XX` MAC address: exactly six
/// colon-separated hex bytes, or an error naming what was wrong.
pub fn parse_mac(s: &str) -> (r: Result<[u8; 6], String>)
    ensures
        ({
            let parts = split_colon(s@);
            match r {
                Ok(m) => {
                    &&& parts.len() == 6
                    &&& first_unparsable(parts) is None
                    &&& forall|i: int| 0 <= i < 6 ==> m@[i] == parse_hex_u8(parts[i])->Some_0
                },
                Err(msg) => {
                    if parts.len() != 6 {
                        msg@ == "Invalid MAC format: expected 6 hex bytes separated by ':'"@
                    } else {
                        first_unparsable(parts) matches Some(k) && msg@ == "Invalid hex byte: '"@
                            + parts[k] + "'"@
                    }
                },
            }
        }),
{
    let chars = str_chars(s);
    let ranges = split_colon_ranges(&chars);
    let ghost parts = split_colon(s@);
    if ranges.len() != 6 {
        return Err("Invalid MAC format: expected 6 hex bytes separated by ':'".to_owned());
    }
    let mut bytes: Vec<u8> = Vec::new();
    let mut i: usize = 0;
    while i < 6
        invariant
            0 <= i <= 6,
            bytes@.len() == i,
            parts == split_colon(s@),
            ranges@.len() == 6 == parts.len(),
            chars@ =~= s@,
            forall|t: int|
                0 <= t < 6 ==> 0 <= #[trigger] ranges@[t].0 <= ranges@[t].1 <= chars@.len()
                    && chars@.subrange(ranges@[t].0 as int, ranges@[t].1 as int) == parts[t],
            forall|t: int|
                0 <= t < i ==> #[trigger] parse_hex_u8(parts[t]) is Some && bytes@[t]
                    == parse_hex_u8(parts[t])->Some_0,
        decreases 6 - i,
    {
        let (from, to) = (ranges[i].0, ranges[i].1);
        match parse_hex_range(&chars, from, to) {
            Some(b) => {
                bytes.push(b);
            },
            None => {
                proof {
                    lemma_first_unparsable_at(parts, i as int);
                }
                let mut msg = "Invalid hex byte: '".to_owned();
                let part_str = s.substring_char(from, to);
                msg.append(part_str);
                msg.append("'");
                proof {
                    assert(msg@ == "Invalid hex byte: '"@ + parts[i as int] + "'"@);
                }
                return Err(msg);
            },
        }
        i = i + 1;
    }
    proof {
        lemma_first_unparsable_none(parts);
    }
    let m: [u8; 6] = [bytes[0], bytes[1], bytes[2], bytes[3], bytes[4], bytes[5]];
    proof {
        assert(m@ =~= bytes@);
    }
    Ok(m)
}

/// The decimal digits of `n`, most significant first.
pub open spec fn dec_chars(n: nat) -> Seq<char>
    decreases n,
{
    if n < 10 {
        seq![hex_digit(n, true)]
    } else {
        dec_chars(n / 10) + seq![hex_digit(n % 10, true)]
    }
}

/// Renders a 16-bit integer in decimal, as the manufacturer-data keys
/// and the adapter object path need.
pub fn u16_to_dec_string(n: u16) -> (r: String)
    ensures
        r@ =~= dec_chars(n as nat),
    decreases n,
{
    if n < 10 {
        let mut out = String::new();
        out.append(hex_digit_str(n as u8, true));
        out
    } else {
        let mut out = u16_to_dec_string(n / 10);
        out.append(hex_digit_str((n % 10) as u8, true));
        out
    }
}

} // verus!
