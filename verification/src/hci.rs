//! Byte-for-byte parsing of HCI monitor packets into advertisements.
//!
//! Only event packets (type `0x03`) carrying an LE Meta event (`0x3E`)
//! matter; of that event, the legacy (`0x02`) and extended (`0x0D`)
//! advertising-report subevents.  A report whose declared data runs
//! past the end of the packet ends parsing; reports already parsed are
//! still returned.

use vstd::prelude::*;

verus! {

use crate::addr::{bdaddr_value, bdaddr_to_u64};

/// One advertising report as the radio delivered it: the address
/// packed big-endian, the address type (0 public, 1 random), the RSSI
/// in dBm, and the raw advertising data.
pub struct HciAdvertisement {
    pub address: u64,
    pub address_type: u32,
    pub rssi: i32,
    pub data: Vec<u8>,
}

/// The mathematical shape of an [`HciAdvertisement`].
pub struct HciAdvModel {
    pub address: u64,
    pub address_type: u32,
    pub rssi: i32,
    pub data: Seq<u8>,
}

impl View for HciAdvertisement {
    type V = HciAdvModel;

    open spec fn view(&self) -> HciAdvModel {
        HciAdvModel {
            address: self.address,
            address_type: self.address_type,
            rssi: self.rssi,
            data: self.data@,
        }
    }
}

impl DeepView for HciAdvertisement {
    type V = HciAdvModel;

    open spec fn deep_view(&self) -> HciAdvModel {
        self.view()
    }
}

/// A byte read as a signed dBm value.
pub open spec fn signed_byte(b: u8) -> i32 {
    if b >= 128 {
        (b - 256) as i32
    } else {
        b as i32
    }
}

/// Legacy advertising reports, cursor-parsed: address type, six
/// little-endian address bytes, data length, data, RSSI; each report
/// spans `9 + data_len` bytes.
pub open spec fn legacy_reports(s: Seq<u8>, count: nat) -> Seq<HciAdvModel>
    decreases count,
{
    if count == 0 {
        Seq::empty()
    } else if s.len() < 9 {
        Seq::empty()
    } else {
        let dl = s[7] as int;
        if s.len() < 9 + dl {
            Seq::empty()
        } else {
            let adv = HciAdvModel {
                address: bdaddr_value(s.subrange(1, 7)) as u64,
                address_type: s[0] as u32,
                rssi: signed_byte(s[8 + dl]),
                data: s.subrange(8, 8 + dl),
            };
            seq![adv] + legacy_reports(s.skip(9 + dl), (count - 1) as nat)
        }
    }
}

/// Extended advertising reports: two event-type bytes, address type,
/// six address bytes, RSSI at offset 13, data length at offset 23,
/// then the data; each report spans `24 + data_len` bytes.
pub open spec fn extended_reports(s: Seq<u8>, count: nat) -> Seq<HciAdvModel>
    decreases count,
{
    if count == 0 {
        Seq::empty()
    } else if s.len() < 24 {
        Seq::empty()
    } else {
        let dl = s[23] as int;
        if s.len() < 24 + dl {
            Seq::empty()
        } else {
            let adv = HciAdvModel {
                address: bdaddr_value(s.subrange(3, 9)) as u64,
                address_type: s[2] as u32,
                rssi: signed_byte(s[13]),
                data: s.subrange(24, 24 + dl),
            };
            seq![adv] + extended_reports(s.skip(24 + dl), (count - 1) as nat)
        }
    }
}

/// What one monitor-socket packet yields: nothing unless it is an
/// event packet whose event is the LE Meta event with an advertising
/// report subevent, and then one record per well-formed report.
pub open spec fn hci_packet_reports(s: Seq<u8>) -> Seq<HciAdvModel> {
    if s.len() < 10 {
        Seq::empty()
    } else if s[0] != 0x03 {
        Seq::empty()
    } else if s[6] != 0x3e {
        Seq::empty()
    } else {
        let subevent = s[8];
        let count = s[9] as nat;
        if subevent == 0x02 {
            legacy_reports(s.skip(10), count)
        } else if subevent == 0x0d {
            extended_reports(s.skip(10), count)
        } else {
            Seq::empty()
        }
    }
}

fn signed_byte_exec(b: u8) -> (r: i32)
    ensures
        r == signed_byte(b),
{
    if b >= 128 {
        (b as i32) - 256
    } else {
        b as i32
    }
}

fn parse_legacy(packet: &[u8], start: usize, count: u8) -> (r: Vec<HciAdvertisement>)
    requires
        start <= packet@.len(),
    ensures
        r.deep_view() =~= legacy_reports(packet@.skip(start as int), count as nat),
{
    let len = packet.len();
    let ghost total = legacy_reports(packet@.skip(start as int), count as nat);
    let mut out: Vec<HciAdvertisement> = Vec::new();
    let mut cur: usize = start;
    let mut left: u8 = count;
    loop
        invariant
            start <= cur <= len,
            len == packet@.len(),
            total == legacy_reports(packet@.skip(start as int), count as nat),
            out@.len() + legacy_reports(packet@.skip(cur as int), left as nat).len()
                == total.len(),
            forall|j: int| 0 <= j < out@.len() ==> #[trigger] out@[j]@ == total[j],
            forall|j: int|
                0 <= j < legacy_reports(packet@.skip(cur as int), left as nat).len()
                    ==> #[trigger] legacy_reports(packet@.skip(cur as int), left as nat)[j]
                    == total[out@.len() + j],
        ensures
            out@.len() == total.len(),
            forall|j: int| 0 <= j < out@.len() ==> #[trigger] out@[j]@ == total[j],
        decreases left,
    {
        let ghost rest = packet@.skip(cur as int);
        let ghost remaining = legacy_reports(rest, left as nat);
        if left == 0 {
            proof {
                assert(remaining.len() == 0);
            }
            break ;
        }
        if len - cur < 9 {
            proof {
                assert(remaining.len() == 0);
            }
            break ;
        }
        let dl = packet[cur + 7] as usize;
        if len - cur < 9 + dl {
            proof {
                assert(rest.len() < 9 + dl);
                assert(remaining.len() == 0);
            }
            break ;
        }
        proof {
            assert(rest[7] == packet@[cur + 7]);
            assert(rest.subrange(1, 7) =~= packet@.subrange(cur + 1, cur + 7));
            assert(rest.subrange(8, 8 + dl as int) =~= packet@.subrange(
                cur + 8,
                cur + 8 + dl as int,
            ));
            assert(rest[8 + dl as int] == packet@[cur + 8 + dl as int]);
            assert(rest.skip(9 + dl as int) =~= packet@.skip(cur + 9 + dl as int));
        }
        let addr_slice = vstd::slice::slice_subrange(packet, cur + 1, cur + 7);
        let address = bdaddr_to_u64(addr_slice);
        let address_type = packet[cur] as u32;
        let rssi = signed_byte_exec(packet[cur + 8 + dl]);
        let data = vstd::slice::slice_to_vec(
            vstd::slice::slice_subrange(packet, cur + 8, cur + 8 + dl),
        );
        let ghost pre_len = out@.len() as int;
        out.push(HciAdvertisement { address, address_type, rssi, data });
        proof {
            assert(rest[0] == packet@[cur as int]);
            assert(remaining[0] == out@[pre_len]@);
            let rem2 = legacy_reports(packet@.skip(cur + 9 + dl as int), (left - 1) as nat);
            assert(legacy_reports(rest.skip(9 + dl as int), (left - 1) as nat) == rem2);
            assert(remaining == seq![remaining[0]] + rem2);
            assert forall|j: int| 0 <= j < rem2.len() implies rem2[j] == total[(pre_len + 1)
                + j] by {
                assert(remaining[j + 1] == total[pre_len + (j + 1)]);
                assert(rem2[j] == remaining[j + 1]);
            }
        }
        cur = cur + 9 + dl;
        left = left - 1;
    }
    proof {
        assert forall|j: int| 0 <= j < total.len() implies out.deep_view()[j] == total[j] by {
            assert(out@[j]@ == total[j]);
        }
    }
    out
}

fn parse_extended(packet: &[u8], start: usize, count: u8) -> (r: Vec<HciAdvertisement>)
    requires
        start <= packet@.len(),
    ensures
        r.deep_view() =~= extended_reports(packet@.skip(start as int), count as nat),
{
    let len = packet.len();
    let ghost total = extended_reports(packet@.skip(start as int), count as nat);
    let mut out: Vec<HciAdvertisement> = Vec::new();
    let mut cur: usize = start;
    let mut left: u8 = count;
    loop
        invariant
            start <= cur <= len,
            len == packet@.len(),
            total == extended_reports(packet@.skip(start as int), count as nat),
            out@.len() + extended_reports(packet@.skip(cur as int), left as nat).len()
                == total.len(),
            forall|j: int| 0 <= j < out@.len() ==> #[trigger] out@[j]@ == total[j],
            forall|j: int|
                0 <= j < extended_reports(packet@.skip(cur as int), left as nat).len()
                    ==> #[trigger] extended_reports(packet@.skip(cur as int), left as nat)[j]
                    == total[out@.len() + j],
        ensures
            out@.len() == total.len(),
            forall|j: int| 0 <= j < out@.len() ==> #[trigger] out@[j]@ == total[j],
        decreases left,
    {
        let ghost rest = packet@.skip(cur as int);
        let ghost remaining = extended_reports(rest, left as nat);
        if left == 0 {
            proof {
                assert(remaining.len() == 0);
            }
            break ;
        }
        if len - cur < 24 {
            proof {
                assert(remaining.len() == 0);
            }
            break ;
        }
        let dl = packet[cur + 23] as usize;
        if len - cur < 24 + dl {
            proof {
                assert(rest.len() < 24 + dl);
                assert(remaining.len() == 0);
            }
            break ;
        }
        proof {
            assert(rest[23] == packet@[cur + 23]);
            assert(rest.subrange(3, 9) =~= packet@.subrange(cur + 3, cur + 9));
            assert(rest.subrange(24, 24 + dl as int) =~= packet@.subrange(
                cur + 24,
                cur + 24 + dl as int,
            ));
            assert(rest[13] == packet@[cur + 13]);
            assert(rest[2] == packet@[cur + 2]);
            assert(rest.skip(24 + dl as int) =~= packet@.skip(cur + 24 + dl as int));
        }
        let addr_slice = vstd::slice::slice_subrange(packet, cur + 3, cur + 9);
        let address = bdaddr_to_u64(addr_slice);
        let address_type = packet[cur + 2] as u32;
        let rssi = signed_byte_exec(packet[cur + 13]);
        let data = vstd::slice::slice_to_vec(
            vstd::slice::slice_subrange(packet, cur + 24, cur + 24 + dl),
        );
        let ghost pre_len = out@.len() as int;
        out.push(HciAdvertisement { address, address_type, rssi, data });
        proof {
            assert(remaining[0] == out@[pre_len]@);
            let rem2 = extended_reports(packet@.skip(cur + 24 + dl as int), (left - 1) as nat);
            assert(extended_reports(rest.skip(24 + dl as int), (left - 1) as nat) == rem2);
            assert(remaining == seq![remaining[0]] + rem2);
            assert forall|j: int| 0 <= j < rem2.len() implies rem2[j] == total[(pre_len + 1)
                + j] by {
                assert(remaining[j + 1] == total[pre_len + (j + 1)]);
                assert(rem2[j] == remaining[j + 1]);
            }
        }
        cur = cur + 24 + dl;
        left = left - 1;
    }
    proof {
        assert forall|j: int| 0 <= j < total.len() implies out.deep_view()[j] == total[j] by {
            assert(out@[j]@ == total[j]);
        }
    }
    out
}

/// Parses one packet read from the HCI monitor socket into the
/// advertising reports it carries.
pub fn parse_hci_packet(packet: &[u8]) -> (r: Vec<HciAdvertisement>)
    ensures
        r.deep_view() =~= hci_packet_reports(packet@),
{
    if packet.len() < 10 {
        return Vec::new();
    }
    if packet[0] != 0x03u8 {
        return Vec::new();
    }
    if packet[6] != 0x3eu8 {
        return Vec::new();
    }
    let subevent = packet[8];
    let count = packet[9];
    if subevent == 0x02u8 {
        parse_legacy(packet, 10, count)
    } else if subevent == 0x0du8 {
        parse_extended(packet, 10, count)
    } else {
        Vec::new()
    }
}

} // verus!
