//! The native-API messages the proxy speaks: their numeric ids and the
//! encoded payloads of every response it sends.
//!
//! Requests are not interpreted beyond their framing: the proxy checks
//! that a request payload is a well-formed protobuf field sequence and
//! otherwise ignores its contents, as the dispatch table keys on the
//! message id alone.

use vstd::prelude::*;

verus! {

use crate::context::ProxyContext;
use crate::pbenc::{
    pb_varint_field, pb_string_field, pb_push_u32_field, pb_push_string_field,
};
use crate::utils::mac_string;
use crate::varint::{varint_decode, decode_varint, lemma_varint_decode_ok_bounds};
use vstd::string::StringExecFns;

/// Every message type the proxy sends or receives.
#[derive(Clone, Copy, Debug, PartialEq, Eq, Structural)]
pub enum MessageKind {
    HelloRequest,
    HelloResponse,
    ConnectRequest,
    ConnectResponse,
    DisconnectRequest,
    DisconnectResponse,
    PingRequest,
    PingResponse,
    DeviceInfoRequest,
    DeviceInfoResponse,
    ListEntitiesRequest,
    ListEntitiesDoneResponse,
    SubscribeBluetoothLEAdvertisementsRequest,
    BluetoothLEAdvertisementResponse,
    SubscribeBluetoothConnectionsFreeRequest,
    BluetoothConnectionsFreeResponse,
    UnsubscribeBluetoothLEAdvertisementsRequest,
}

/// The numeric id attached to each message type in the native-API
/// schema.
pub open spec fn message_id(kind: MessageKind) -> u8 {
    match kind {
        MessageKind::HelloRequest => 0x01,
        MessageKind::HelloResponse => 0x02,
        MessageKind::ConnectRequest => 0x03,
        MessageKind::ConnectResponse => 0x04,
        MessageKind::DisconnectRequest => 0x05,
        MessageKind::DisconnectResponse => 0x06,
        MessageKind::PingRequest => 0x07,
        MessageKind::PingResponse => 0x08,
        MessageKind::DeviceInfoRequest => 0x09,
        MessageKind::DeviceInfoResponse => 0x0A,
        MessageKind::ListEntitiesRequest => 0x0B,
        MessageKind::ListEntitiesDoneResponse => 0x13,
        MessageKind::SubscribeBluetoothLEAdvertisementsRequest => 0x42,
        MessageKind::BluetoothLEAdvertisementResponse => 0x43,
        MessageKind::SubscribeBluetoothConnectionsFreeRequest => 0x50,
        MessageKind::BluetoothConnectionsFreeResponse => 0x51,
        MessageKind::UnsubscribeBluetoothLEAdvertisementsRequest => 0x57,
    }
}

/// Looks up the wire id of a message type.
pub fn get_message_id(kind: MessageKind) -> (id: u8)
    ensures
        id == message_id(kind),
{
    match kind {
        MessageKind::HelloRequest => 0x01,
        MessageKind::HelloResponse => 0x02,
        MessageKind::ConnectRequest => 0x03,
        MessageKind::ConnectResponse => 0x04,
        MessageKind::DisconnectRequest => 0x05,
        MessageKind::DisconnectResponse => 0x06,
        MessageKind::PingRequest => 0x07,
        MessageKind::PingResponse => 0x08,
        MessageKind::DeviceInfoRequest => 0x09,
        MessageKind::DeviceInfoResponse => 0x0A,
        MessageKind::ListEntitiesRequest => 0x0B,
        MessageKind::ListEntitiesDoneResponse => 0x13,
        MessageKind::SubscribeBluetoothLEAdvertisementsRequest => 0x42,
        MessageKind::BluetoothLEAdvertisementResponse => 0x43,
        MessageKind::SubscribeBluetoothConnectionsFreeRequest => 0x50,
        MessageKind::BluetoothConnectionsFreeResponse => 0x51,
        MessageKind::UnsubscribeBluetoothLEAdvertisementsRequest => 0x57,
    }
}

/// The hello response: API version 1.10, fixed server info and name.
pub open spec fn hello_response_payload() -> Seq<u8> {
    pb_varint_field(1, 1) + pb_varint_field(2, 10) + pb_string_field(3, "linux_bt_proxy"@)
        + pb_string_field(4, "Linux Bluetooth Proxy"@)
}

/// Serializes the hello response payload.
pub fn build_hello_response_payload() -> (r: Vec<u8>)
    ensures
        r@ =~= hello_response_payload(),
{
    let mut out: Vec<u8> = Vec::new();
    pb_push_u32_field(&mut out, 1, 1);
    pb_push_u32_field(&mut out, 2, 10);
    pb_push_string_field(&mut out, 3, "linux_bt_proxy");
    pb_push_string_field(&mut out, 4, "Linux Bluetooth Proxy");
    out
}

/// The display name derived from the hostname.
pub open spec fn proxy_display_name(ctx: ProxyContext) -> Seq<char> {
    "Linux BT Proxy: "@ + ctx.hostname@
}

/// The device-info response: names, the two MAC addresses in colon
/// form, the pinned ESPHome version, the build timestamp, the model,
/// legacy proxy version 5 and feature flags 0x38, and no encryption
/// support.
pub open spec fn device_info_payload(ctx: ProxyContext) -> Seq<u8> {
    pb_string_field(2, proxy_display_name(ctx)) + pb_string_field(
        3,
        mac_string(ctx.net_mac@, ":"@, true),
    ) + pb_string_field(4, "2024.8.3"@) + pb_string_field(5, ctx.build_time@) + pb_string_field(
        6,
        "Linux"@,
    ) + pb_varint_field(11, 5) + pb_string_field(13, proxy_display_name(ctx)) + pb_varint_field(
        15,
        0x38,
    ) + pb_string_field(18, mac_string(ctx.bt_mac@, ":"@, true)) + pb_varint_field(19, 0)
}

/// Serializes the device-info response payload for this proxy.
pub fn build_device_info_payload(ctx: &ProxyContext) -> (r: Vec<u8>)
    ensures
        r@ =~= device_info_payload(*ctx),
{
    let mut name = "Linux BT Proxy: ".to_owned();
    name.append(ctx.hostname.as_str());
    let net_mac = crate::utils::format_mac(ctx.net_mac.as_slice(), ":");
    let bt_mac = crate::utils::format_mac(ctx.bt_mac.as_slice(), ":");
    let mut out: Vec<u8> = Vec::new();
    pb_push_string_field(&mut out, 2, name.as_str());
    pb_push_string_field(&mut out, 3, net_mac.as_str());
    pb_push_string_field(&mut out, 4, "2024.8.3");
    pb_push_string_field(&mut out, 5, ctx.build_time.as_str());
    pb_push_string_field(&mut out, 6, "Linux");
    pb_push_u32_field(&mut out, 11, 5);
    pb_push_string_field(&mut out, 13, name.as_str());
    pb_push_u32_field(&mut out, 15, 0x38);
    pb_push_string_field(&mut out, 18, bt_mac.as_str());
    pb_push_u32_field(&mut out, 19, 0);
    out
}

/// The connections-free response carries `free = 0` and `limit = 0`,
/// which protobuf encodes as an empty payload.
pub open spec fn connections_free_payload() -> Seq<u8> {
    pb_varint_field(1, 0) + pb_varint_field(2, 0)
}

/// Serializes the connections-free response payload.
pub fn build_connections_free_payload() -> (r: Vec<u8>)
    ensures
        r@ =~= connections_free_payload(),
{
    let mut out: Vec<u8> = Vec::new();
    pb_push_u32_field(&mut out, 1, 0);
    pb_push_u32_field(&mut out, 2, 0);
    out
}

/// A well-formed protobuf field sequence: a run of fields, each a key
/// varint followed by its wire-type-determined contents, ending exactly
/// at the end of the buffer.  Requests whose payload fails this check
/// are decode errors and end the session.
pub open spec fn pb_well_formed(s: Seq<u8>) -> bool
    decreases s.len(),
{
    if s.len() == 0 {
        true
    } else {
        match varint_decode(s) {
            Ok((key, n)) => {
                let wire = key % 8;
                let field = key / 8;
                if field == 0 {
                    false
                } else if wire == 0 {
                    match varint_decode(s.skip(n as int)) {
                        Ok((_v, m)) => 1 <= n + m <= s.len() && pb_well_formed(s.skip(n + m)),
                        Err(_) => false,
                    }
                } else if wire == 2 {
                    match varint_decode(s.skip(n as int)) {
                        Ok((l, m)) => 1 <= n + m && n + m + l <= s.len() && pb_well_formed(
                            s.skip(n + m + l),
                        ),
                        Err(_) => false,
                    }
                } else if wire == 5 {
                    n + 4 <= s.len() && 1 <= n && pb_well_formed(s.skip(n + 4))
                } else if wire == 1 {
                    n + 8 <= s.len() && 1 <= n && pb_well_formed(s.skip(n + 8))
                } else {
                    false
                }
            },
            Err(_) => false,
        }
    }
}

/// Checks that `payload` is a well-formed protobuf field sequence.
pub fn validate_payload(payload: &[u8]) -> (r: bool)
    ensures
        r == pb_well_formed(payload@),
{
    let len = payload.len();
    let mut off: usize = 0;
    proof {
        assert(payload@.skip(0) =~= payload@);
    }
    loop
        invariant
            0 <= off <= len,
            len == payload@.len(),
            pb_well_formed(payload@) == pb_well_formed(payload@.skip(off as int)),
        ensures
            pb_well_formed(payload@) == pb_well_formed(payload@.skip(off as int)),
            off == len,
        decreases len - off,
    {
        let ghost rest = payload@.skip(off as int);
        if off == len {
            proof {
                assert(rest =~= Seq::<u8>::empty());
            }
            break ;
        }
        let tail = vstd::slice::slice_subrange(payload, off, len);
        proof {
            assert(tail@ =~= rest);
        }
        let (key, n) = match decode_varint(tail) {
            Ok(p) => p,
            Err(_) => {
                return false;
            },
        };
        proof {
            lemma_varint_decode_ok_bounds(rest, key, n);
        }
        let wire = key % 8;
        let field = key / 8;
        if field == 0 {
            return false;
        }
        if wire == 0 {
            let tail2 = vstd::slice::slice_subrange(payload, off + n, len);
            proof {
                assert(tail2@ =~= rest.skip(n as int));
            }
            let (_v, m) = match decode_varint(tail2) {
                Ok(p) => p,
                Err(_) => {
                    return false;
                },
            };
            proof {
                lemma_varint_decode_ok_bounds(rest.skip(n as int), _v, m);
                assert(rest.skip(n + m) =~= payload@.skip(off + n + m));
            }
            off = off + n + m;
        } else if wire == 2 {
            let tail2 = vstd::slice::slice_subrange(payload, off + n, len);
            proof {
                assert(tail2@ =~= rest.skip(n as int));
            }
            let (l, m) = match decode_varint(tail2) {
                Ok(p) => p,
                Err(_) => {
                    return false;
                },
            };
            proof {
                lemma_varint_decode_ok_bounds(rest.skip(n as int), l, m);
            }
            if ((len - off - n - m) as u128) < (l as u128) {
                return false;
            }
            let lu = l as usize;
            proof {
                assert(rest.skip(n + m + l as int) =~= payload@.skip(off + n + m + l as int));
            }
            off = off + n + m + lu;
        } else if wire == 5 {
            if len - off - n < 4 {
                return false;
            }
            proof {
                assert(rest.skip(n + 4) =~= payload@.skip(off + n + 4));
            }
            off = off + n + 4;
        } else if wire == 1 {
            if len - off - n < 8 {
                return false;
            }
            proof {
                assert(rest.skip(n + 8) =~= payload@.skip(off + n + 8));
            }
            off = off + n + 8;
        } else {
            return false;
        }
    }
    true
}

} // verus!
