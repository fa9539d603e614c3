//! Normalization of BlueZ device properties into advertisements, and
//! the discovery-supervision decisions.
//!
//! The D-Bus shell around the library deserializes signal bodies into
//! plain values and hands them over; everything it then does — whether
//! to restart discovery, whether an error is benign, how properties
//! become an advertisement — is decided here.

use vstd::prelude::*;

verus! {

use crate::addr::{ble_address_value, parse_ble_address};
use crate::adv::{Advertisement, BluetoothServiceData, clone_strings, clone_entries};
use crate::utils::{dec_chars, u16_to_dec_string};
use vstd::string::{StringExecFns, StrSliceExecFns};
use vstd::utf8::encode_utf8;

/// The device properties a BlueZ update carries, as plain values.
/// Absent properties are `None` or empty.
pub struct DeviceProps {
    pub address: Option<String>,
    pub address_type: Option<String>,
    pub rssi: Option<i32>,
    pub name: Option<String>,
    pub service_uuids: Vec<String>,
    pub service_data: Vec<BluetoothServiceData>,
    pub manufacturer_data: Vec<(u16, Vec<u8>)>,
}

/// Whether the update names a random device address.
pub open spec fn is_random_type(props: DeviceProps) -> bool {
    props.address_type matches Some(s) && s@ == "random"@
}

/// What the normalized advertisement for a device update holds: the
/// parsed address, the mapped address type, the RSSI with its −127
/// default, the name's UTF-8 bytes, the UUID collections as given, and
/// each manufacturer id rendered as its decimal string.
pub open spec fn adv_matches_props(a: crate::adv::AdvModel, props: DeviceProps) -> bool {
    &&& props.address matches Some(addr) && a.address == ble_address_value(addr@)
    &&& a.address_type == if is_random_type(props) {
        1u32
    } else {
        0u32
    }
    &&& a.rssi == match props.rssi {
        Some(v) => v,
        None => -127i32,
    }
    &&& a.name == match props.name {
        Some(s) => encode_utf8(s@),
        None => Seq::<u8>::empty(),
    }
    &&& a.service_uuids == props.service_uuids.deep_view()
    &&& a.service_data == props.service_data.deep_view()
    &&& a.manufacturer_data.len() == props.manufacturer_data@.len()
    &&& forall|i: int|
        0 <= i < props.manufacturer_data@.len() ==> {
            &&& #[trigger] a.manufacturer_data[i].uuid == dec_chars(
                props.manufacturer_data@[i].0 as nat,
            )
            &&& a.manufacturer_data[i].data == props.manufacturer_data@[i].1@
        }
}

/// Builds the normalized advertisement for one device update, or
/// nothing when the update carries no address to identify the device
/// by.
pub fn build_advertisement_response(props: &DeviceProps) -> (r: Option<Advertisement>)
    ensures
        match r {
            Some(a) => adv_matches_props(a@, *props),
            None => props.address is None,
        },
{
    let address: u64 = match &props.address {
        Some(s) => parse_ble_address(s.as_str()),
        None => {
            return None;
        },
    };
    let random = "random".to_owned();
    let address_type: u32 = match &props.address_type {
        Some(s) => if *s == random {
            1
        } else {
            0
        },
        None => 0,
    };
    let rssi: i32 = match props.rssi {
        Some(v) => v,
        None => -127,
    };
    let name: Vec<u8> = match &props.name {
        Some(s) => s.as_str().as_bytes_vec(),
        None => Vec::new(),
    };
    let mut manufacturer_data: Vec<BluetoothServiceData> = Vec::new();
    let mut i: usize = 0;
    while i < props.manufacturer_data.len()
        invariant
            0 <= i <= props.manufacturer_data@.len(),
            manufacturer_data@.len() == i,
            forall|j: int|
                0 <= j < i ==> {
                    &&& #[trigger] manufacturer_data@[j]@.uuid == dec_chars(
                        props.manufacturer_data@[j].0 as nat,
                    )
                    &&& manufacturer_data@[j]@.data == props.manufacturer_data@[j].1@
                },
        decreases props.manufacturer_data@.len() - i,
    {
        let id = props.manufacturer_data[i].0;
        let uuid = u16_to_dec_string(id);
        let data = vstd::slice::slice_to_vec(props.manufacturer_data[i].1.as_slice());
        manufacturer_data.push(BluetoothServiceData { uuid, data });
        i = i + 1;
    }
    let ghost md = manufacturer_data.deep_view();
    let a = Advertisement {
        address,
        address_type,
        rssi,
        name,
        service_uuids: clone_strings(&props.service_uuids),
        service_data: clone_entries(&props.service_data),
        manufacturer_data,
    };
    proof {
        assert(a.service_uuids.deep_view() =~= props.service_uuids.deep_view());
        assert(a@.manufacturer_data == md);
        assert forall|i: int| 0 <= i < props.manufacturer_data@.len() implies {
            &&& #[trigger] a@.manufacturer_data[i].uuid == dec_chars(
                props.manufacturer_data@[i].0 as nat,
            )
            &&& a@.manufacturer_data[i].data == props.manufacturer_data@[i].1@
        } by {
            assert(md[i].uuid == dec_chars(props.manufacturer_data@[i].0 as nat));
            assert(md[i].data == props.manufacturer_data@[i].1@);
        }
        assert(adv_matches_props(a@, *props));
    }
    Some(a)
}

/// The adapter object path for an adapter index.
pub fn adapter_path(adapter_index: u16) -> (r: String)
    ensures
        r@ == "/org/bluez/hci"@ + dec_chars(adapter_index as nat),
{
    let mut s = "/org/bluez/hci".to_owned();
    let digits = u16_to_dec_string(adapter_index);
    s.append(digits.as_str());
    s
}

/// Discovery must be restarted exactly when an adapter property change
/// reports that discovery was turned off.
pub fn should_restart_discovery(interface: &str, discovering: Option<bool>) -> (r: bool)
    ensures
        r == (interface@ == "org.bluez.Adapter1"@ && discovering == Some(false)),
{
    let adapter = "org.bluez.Adapter1".to_owned();
    let is_adapter = interface.to_owned() == adapter;
    let turned_off = match discovering {
        Some(b) => !b,
        None => false,
    };
    is_adapter && turned_off
}

/// The one error a discovery start may report harmlessly: discovery is
/// already in progress.
pub fn discovery_error_is_benign(error_name: &str) -> (r: bool)
    ensures
        r == (error_name@ == "org.bluez.Error.InProgress"@),
{
    let benign = "org.bluez.Error.InProgress".to_owned();
    error_name.to_owned() == benign
}

} // verus!
