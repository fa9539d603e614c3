//! The normalized advertisement record that flows from the radio
//! listeners over the bus to every session, and its wire encoding.

use vstd::prelude::*;

verus! {

use crate::pbenc::{
    pb_varint_field, pb_bytes_field, pb_sint32_field, pb_len_payload, pb_string_field,
    pb_push_varint_field, pb_push_bytes_field, pb_push_sint32_field, pb_push_string_field,
    pb_push_submessage, pb_push_u32_field,
};
use vstd::utf8::encode_utf8;

/// One UUID-keyed blob: a service-data or manufacturer-data entry.
pub struct BluetoothServiceData {
    pub uuid: String,
    pub data: Vec<u8>,
}

/// The mathematical shape of a [`BluetoothServiceData`].
pub struct ServiceDataModel {
    pub uuid: Seq<char>,
    pub data: Seq<u8>,
}

impl View for BluetoothServiceData {
    type V = ServiceDataModel;

    open spec fn view(&self) -> ServiceDataModel {
        ServiceDataModel { uuid: self.uuid@, data: self.data@ }
    }
}

impl DeepView for BluetoothServiceData {
    type V = ServiceDataModel;

    open spec fn deep_view(&self) -> ServiceDataModel {
        self.view()
    }
}

impl Clone for BluetoothServiceData {
    /// Cloning preserves the entry's contents.
    fn clone(&self) -> (res: Self)
        ensures
            res@ == self@,
    {
        BluetoothServiceData {
            uuid: self.uuid.clone(),
            data: vstd::slice::slice_to_vec(self.data.as_slice()),
        }
    }
}

/// A normalized BLE advertisement: 48-bit address packed big-endian
/// into a 64-bit field, address type (0 public, 1 random), RSSI in dBm
/// widened to 32 bits with −127 when absent, the advertised name's raw
/// bytes, and the three UUID-keyed collections.
pub struct Advertisement {
    pub address: u64,
    pub address_type: u32,
    pub rssi: i32,
    pub name: Vec<u8>,
    pub service_uuids: Vec<String>,
    pub service_data: Vec<BluetoothServiceData>,
    pub manufacturer_data: Vec<BluetoothServiceData>,
}

/// The mathematical shape of an [`Advertisement`].
pub struct AdvModel {
    pub address: u64,
    pub address_type: u32,
    pub rssi: i32,
    pub name: Seq<u8>,
    pub service_uuids: Seq<Seq<char>>,
    pub service_data: Seq<ServiceDataModel>,
    pub manufacturer_data: Seq<ServiceDataModel>,
}

impl View for Advertisement {
    type V = AdvModel;

    open spec fn view(&self) -> AdvModel {
        AdvModel {
            address: self.address,
            address_type: self.address_type,
            rssi: self.rssi,
            name: self.name@,
            service_uuids: self.service_uuids.deep_view(),
            service_data: self.service_data.deep_view(),
            manufacturer_data: self.manufacturer_data.deep_view(),
        }
    }
}

impl DeepView for Advertisement {
    type V = AdvModel;

    open spec fn deep_view(&self) -> AdvModel {
        self.view()
    }
}

pub(crate) fn clone_strings(v: &Vec<String>) -> (r: Vec<String>)
    ensures
        r@ =~= v@,
{
    let mut out: Vec<String> = Vec::new();
    let mut i: usize = 0;
    while i < v.len()
        invariant
            0 <= i <= v@.len(),
            out@ =~= v@.take(i as int),
        decreases v@.len() - i,
    {
        out.push(v[i].clone());
        i = i + 1;
    }
    proof {
        assert(v@.take(v@.len() as int) =~= v@);
    }
    out
}

pub(crate) fn clone_entries(v: &Vec<BluetoothServiceData>) -> (r: Vec<BluetoothServiceData>)
    ensures
        r.deep_view() =~= v.deep_view(),
{
    let mut out: Vec<BluetoothServiceData> = Vec::new();
    let mut i: usize = 0;
    while i < v.len()
        invariant
            0 <= i <= v@.len(),
            out@.len() == i,
            forall|j: int| 0 <= j < i ==> #[trigger] out@[j]@ == v@[j]@,
        decreases v@.len() - i,
    {
        out.push(v[i].clone());
        i = i + 1;
    }
    proof {
        assert forall|j: int| 0 <= j < v.deep_view().len() implies out.deep_view()[j]
            == v.deep_view()[j] by {
            assert(out@[j]@ == v@[j]@);
        }
    }
    out
}

impl Clone for Advertisement {
    /// Cloning preserves the whole record, so every subscriber sees the
    /// advertisement as published.
    fn clone(&self) -> (res: Self)
        ensures
            res@ == self@,
    {
        let res = Advertisement {
            address: self.address,
            address_type: self.address_type,
            rssi: self.rssi,
            name: vstd::slice::slice_to_vec(self.name.as_slice()),
            service_uuids: clone_strings(&self.service_uuids),
            service_data: clone_entries(&self.service_data),
            manufacturer_data: clone_entries(&self.manufacturer_data),
        };
        proof {
            assert(res.service_uuids.deep_view() =~= self.service_uuids.deep_view());
        }
        res
    }
}

/// The payload of one service-data or manufacturer-data entry.
pub open spec fn service_data_payload(e: ServiceDataModel) -> Seq<u8> {
    pb_string_field(1, e.uuid) + pb_bytes_field(3, e.data)
}

/// The encoding of a repeated string field, one entry per element.
pub open spec fn repeated_strings(field: nat, items: Seq<Seq<char>>) -> Seq<u8>
    decreases items.len(),
{
    if items.len() == 0 {
        Seq::empty()
    } else {
        pb_len_payload(field, encode_utf8(items[0])) + repeated_strings(field, items.skip(1))
    }
}

/// The encoding of a repeated entry field, one submessage per element.
pub open spec fn repeated_entries(field: nat, items: Seq<ServiceDataModel>) -> Seq<u8>
    decreases items.len(),
{
    if items.len() == 0 {
        Seq::empty()
    } else {
        pb_len_payload(field, service_data_payload(items[0])) + repeated_entries(
            field,
            items.skip(1),
        )
    }
}

proof fn lemma_repeated_strings_snoc(field: nat, items: Seq<Seq<char>>, n: int)
    requires
        0 <= n < items.len(),
    ensures
        repeated_strings(field, items.take(n + 1)) =~= repeated_strings(field, items.take(n))
            + pb_len_payload(field, encode_utf8(items[n])),
    decreases n,
{
    if n == 0 {
        assert(items.take(1) =~= seq![items[0]]);
        assert(items.take(1).skip(1) =~= Seq::<Seq<char>>::empty());
        assert(items.take(0) =~= Seq::<Seq<char>>::empty());
        assert(repeated_strings(field, Seq::<Seq<char>>::empty()) == Seq::<u8>::empty());
    } else {
        let t = items.skip(1);
        lemma_repeated_strings_snoc(field, t, n - 1);
        assert(items.take(n + 1).skip(1) =~= t.take(n));
        assert(items.take(n).skip(1) =~= t.take(n - 1));
        assert(items.take(n + 1)[0] == items[0]);
        assert(items.take(n)[0] == items[0]);
        assert(t[n - 1] == items[n]);
    }
}

proof fn lemma_repeated_entries_snoc(field: nat, items: Seq<ServiceDataModel>, n: int)
    requires
        0 <= n < items.len(),
    ensures
        repeated_entries(field, items.take(n + 1)) =~= repeated_entries(field, items.take(n))
            + pb_len_payload(field, service_data_payload(items[n])),
    decreases n,
{
    if n == 0 {
        assert(items.take(1) =~= seq![items[0]]);
        assert(items.take(1).skip(1) =~= Seq::<ServiceDataModel>::empty());
        assert(items.take(0) =~= Seq::<ServiceDataModel>::empty());
        assert(repeated_entries(field, Seq::<ServiceDataModel>::empty()) == Seq::<u8>::empty());
    } else {
        let t = items.skip(1);
        lemma_repeated_entries_snoc(field, t, n - 1);
        assert(items.take(n + 1).skip(1) =~= t.take(n));
        assert(items.take(n).skip(1) =~= t.take(n - 1));
        assert(items.take(n + 1)[0] == items[0]);
        assert(items.take(n)[0] == items[0]);
        assert(t[n - 1] == items[n]);
    }
}

/// The advertisement response payload: address, name, zigzag RSSI, the
/// repeated UUID and data collections, and the address type.
pub open spec fn adv_payload(a: AdvModel) -> Seq<u8> {
    pb_varint_field(1, a.address) + pb_bytes_field(2, a.name) + pb_sint32_field(3, a.rssi)
        + repeated_strings(4, a.service_uuids) + repeated_entries(5, a.service_data)
        + repeated_entries(6, a.manufacturer_data) + pb_varint_field(7, a.address_type as u64)
}

/// Serializes one service-data entry.
fn build_service_data_payload(e: &BluetoothServiceData) -> (r: Vec<u8>)
    ensures
        r@ =~= service_data_payload(e@),
{
    let mut out: Vec<u8> = Vec::new();
    pb_push_string_field(&mut out, 1, e.uuid.as_str());
    pb_push_bytes_field(&mut out, 3, e.data.as_slice());
    out
}

/// Serializes the advertisement response payload.
pub fn build_adv_payload(a: &Advertisement) -> (r: Vec<u8>)
    ensures
        r@ =~= adv_payload(a@),
{
    let mut out: Vec<u8> = Vec::new();
    pb_push_varint_field(&mut out, 1, a.address);
    pb_push_bytes_field(&mut out, 2, a.name.as_slice());
    pb_push_sint32_field(&mut out, 3, a.rssi);
    let ghost uuids = a.service_uuids.deep_view();
    let ghost base1 = out@;
    let mut i: usize = 0;
    while i < a.service_uuids.len()
        invariant
            0 <= i <= uuids.len(),
            uuids == a.service_uuids.deep_view(),
            a.service_uuids@.len() == uuids.len(),
            out@ =~= base1 + repeated_strings(4, uuids.take(i as int)),
        decreases uuids.len() - i,
    {
        let s = &a.service_uuids[i];
        proof {
            assert(uuids[i as int] == s@);
        }
        pb_push_submessage_str(&mut out, 4, s.as_str());
        proof {
            if i == 0 {
                assert(uuids.take(1) =~= seq![uuids[0]]);
                assert(uuids.take(1).skip(1) =~= Seq::<Seq<char>>::empty());
                assert(uuids.take(0) =~= Seq::<Seq<char>>::empty());
            } else {
                lemma_repeated_strings_snoc(4, uuids, i as int);
            }
        }
        i = i + 1;
    }
    proof {
        assert(uuids.take(uuids.len() as int) =~= uuids);
    }
    push_entries(&mut out, 5, &a.service_data);
    push_entries(&mut out, 6, &a.manufacturer_data);
    pb_push_u32_field(&mut out, 7, a.address_type);
    out
}

/// Appends one entry of a repeated string field.
fn pb_push_submessage_str(out: &mut Vec<u8>, field: u32, s: &str)
    requires
        1 <= field,
    ensures
        final(out)@ =~= old(out)@ + pb_len_payload(field as nat, encode_utf8(s@)),
{
    pb_push_submessage(out, field, s.as_bytes());
}

/// Appends every entry of a repeated service-data field.
fn push_entries(out: &mut Vec<u8>, field: u32, items: &Vec<BluetoothServiceData>)
    requires
        1 <= field,
    ensures
        final(out)@ =~= old(out)@ + repeated_entries(field as nat, items.deep_view()),
{
    let ghost models = items.deep_view();
    let ghost base = out@;
    let mut i: usize = 0;
    while i < items.len()
        invariant
            1 <= field,
            0 <= i <= models.len(),
            models == items.deep_view(),
            items@.len() == models.len(),
            out@ =~= base + repeated_entries(field as nat, models.take(i as int)),
        decreases models.len() - i,
    {
        let p = build_service_data_payload(&items[i]);
        proof {
            assert(models[i as int] == items@[i as int]@);
        }
        pb_push_submessage(out, field, p.as_slice());
        proof {
            if i == 0 {
                assert(models.take(1) =~= seq![models[0]]);
                assert(models.take(1).skip(1) =~= Seq::<ServiceDataModel>::empty());
                assert(models.take(0) =~= Seq::<ServiceDataModel>::empty());
            } else {
                lemma_repeated_entries_snoc(field as nat, models, i as int);
            }
        }
        i = i + 1;
    }
    proof {
        assert(models.take(models.len() as int) =~= models);
    }
}

} // verus!
