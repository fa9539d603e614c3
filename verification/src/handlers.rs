//! One handler per recognized request: each checks that the payload is
//! a well-formed protobuf field sequence and returns the fully framed
//! response bytes.
//!
//! A payload that fails the check is a decode error; the session layer
//! terminates the connection on it, so handlers return a `Result`.

use vstd::prelude::*;

verus! {

use crate::adv::{Advertisement, adv_payload, build_adv_payload};
use crate::context::ProxyContext;
use crate::frame::{frame_bytes, encode_response};
use crate::messages::{
    MessageKind, message_id, get_message_id, pb_well_formed, validate_payload,
    hello_response_payload, build_hello_response_payload, device_info_payload,
    build_device_info_payload, connections_free_payload, build_connections_free_payload,
};

/// A request payload that is not well-formed protobuf.
#[derive(Clone, Copy, Debug, PartialEq, Eq, Structural)]
pub struct DecodeError;

/// Responds to a hello request with API 1.10 and the fixed server
/// identity.
pub fn hello_request(payload: &[u8]) -> (r: Result<Vec<u8>, DecodeError>)
    ensures
        match r {
            Ok(v) => pb_well_formed(payload@) && v@ == frame_bytes(
                message_id(MessageKind::HelloResponse) as u64,
                hello_response_payload(),
            ),
            Err(_) => !pb_well_formed(payload@),
        },
{
    if !validate_payload(payload) {
        return Err(DecodeError);
    }
    let body = build_hello_response_payload();
    let id = get_message_id(MessageKind::HelloResponse);
    Ok(encode_response(id as u32, body.as_slice()))
}

/// Responds to a connect request with an empty connect response: the
/// transport is plaintext, so no password check happens.
pub fn connect_request(payload: &[u8]) -> (r: Result<Vec<u8>, DecodeError>)
    ensures
        match r {
            Ok(v) => pb_well_formed(payload@) && v@ == frame_bytes(
                message_id(MessageKind::ConnectResponse) as u64,
                Seq::empty(),
            ),
            Err(_) => !pb_well_formed(payload@),
        },
{
    if !validate_payload(payload) {
        return Err(DecodeError);
    }
    let body: Vec<u8> = Vec::new();
    let id = get_message_id(MessageKind::ConnectResponse);
    Ok(encode_response(id as u32, body.as_slice()))
}

/// Responds to a disconnect request with an empty disconnect response;
/// the caller then half-closes the stream.
pub fn disconnect_request(payload: &[u8]) -> (r: Result<Vec<u8>, DecodeError>)
    ensures
        match r {
            Ok(v) => pb_well_formed(payload@) && v@ == frame_bytes(
                message_id(MessageKind::DisconnectResponse) as u64,
                Seq::empty(),
            ),
            Err(_) => !pb_well_formed(payload@),
        },
{
    if !validate_payload(payload) {
        return Err(DecodeError);
    }
    let body: Vec<u8> = Vec::new();
    let id = get_message_id(MessageKind::DisconnectResponse);
    Ok(encode_response(id as u32, body.as_slice()))
}

/// Responds to a ping with an empty pong.
pub fn ping_request(payload: &[u8]) -> (r: Result<Vec<u8>, DecodeError>)
    ensures
        match r {
            Ok(v) => pb_well_formed(payload@) && v@ == frame_bytes(
                message_id(MessageKind::PingResponse) as u64,
                Seq::empty(),
            ),
            Err(_) => !pb_well_formed(payload@),
        },
{
    if !validate_payload(payload) {
        return Err(DecodeError);
    }
    let body: Vec<u8> = Vec::new();
    let id = get_message_id(MessageKind::PingResponse);
    Ok(encode_response(id as u32, body.as_slice()))
}

/// Reports zero free and zero total BLE connection slots: this proxy
/// forwards advertisements only.
pub fn subscribe_bluetooth_connections_free_request(payload: &[u8]) -> (r: Result<
    Vec<u8>,
    DecodeError,
>)
    ensures
        match r {
            Ok(v) => pb_well_formed(payload@) && v@ == frame_bytes(
                message_id(MessageKind::BluetoothConnectionsFreeResponse) as u64,
                connections_free_payload(),
            ),
            Err(_) => !pb_well_formed(payload@),
        },
{
    if !validate_payload(payload) {
        return Err(DecodeError);
    }
    let body = build_connections_free_payload();
    let id = get_message_id(MessageKind::BluetoothConnectionsFreeResponse);
    Ok(encode_response(id as u32, body.as_slice()))
}

/// Responds to a device-info request with the identity carried in the
/// context.
pub fn device_info_request(ctx: &ProxyContext, payload: &[u8]) -> (r: Result<Vec<u8>, DecodeError>)
    ensures
        match r {
            Ok(v) => pb_well_formed(payload@) && v@ == frame_bytes(
                message_id(MessageKind::DeviceInfoResponse) as u64,
                device_info_payload(*ctx),
            ),
            Err(_) => !pb_well_formed(payload@),
        },
{
    if !validate_payload(payload) {
        return Err(DecodeError);
    }
    let body = build_device_info_payload(ctx);
    let id = get_message_id(MessageKind::DeviceInfoResponse);
    Ok(encode_response(id as u32, body.as_slice()))
}

/// Responds to an entity listing with the done marker alone: the proxy
/// exposes no entities.
pub fn list_entities_request(payload: &[u8]) -> (r: Result<Vec<u8>, DecodeError>)
    ensures
        match r {
            Ok(v) => pb_well_formed(payload@) && v@ == frame_bytes(
                message_id(MessageKind::ListEntitiesDoneResponse) as u64,
                Seq::empty(),
            ),
            Err(_) => !pb_well_formed(payload@),
        },
{
    if !validate_payload(payload) {
        return Err(DecodeError);
    }
    let body: Vec<u8> = Vec::new();
    let id = get_message_id(MessageKind::ListEntitiesDoneResponse);
    Ok(encode_response(id as u32, body.as_slice()))
}

/// Frames one advertisement for the wire.
pub fn forward_ble_advertisement(adv: &Advertisement) -> (r: Vec<u8>)
    ensures
        r@ == frame_bytes(
            message_id(MessageKind::BluetoothLEAdvertisementResponse) as u64,
            adv_payload(adv@),
        ),
{
    let body = build_adv_payload(adv);
    let id = get_message_id(MessageKind::BluetoothLEAdvertisementResponse);
    encode_response(id as u32, body.as_slice())
}

} // verus!
