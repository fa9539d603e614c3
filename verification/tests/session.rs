use linux_bt_proxy::adv::{Advertisement, BluetoothServiceData};
use linux_bt_proxy::context::ProxyContext;
use linux_bt_proxy::frame::encode_response;
use linux_bt_proxy::handlers::{hello_request, ping_request, DecodeError};
use linux_bt_proxy::messages::{
    build_connections_free_payload, build_device_info_payload, build_hello_response_payload,
    get_message_id, validate_payload, MessageKind,
};
use linux_bt_proxy::session::{Session, SessionPhase};

fn test_context() -> ProxyContext {
    ProxyContext {
        hostname: "testhost".to_string(),
        port: 6053,
        net_mac: [0xAC, 0xBC, 0x32, 0x89, 0x0E, 0xAA],
        bt_mac: [0x11, 0x22, 0x33, 0x44, 0x55, 0x66],
        build_time: "2024-01-01 00:00:00 UTC".to_string(),
        version: "0.1.0".to_string(),
    }
}

fn handshake(ctx: &ProxyContext, s: &mut Session) {
    // HelloRequest { client_info: "t" }
    let hello_payload: Vec<u8> = vec![0x0A, 0x01, 0x74];
    let out = s.handle_data(ctx, &encode_response(0x01, &hello_payload));
    assert_eq!(out.output, encode_response(0x02, &build_hello_response_payload()));
    assert!(!out.close);
    let out = s.handle_data(ctx, &encode_response(0x03, &[]));
    assert_eq!(out.output, encode_response(0x04, &[]));
    assert!(!out.close);
}

#[test]
fn message_ids_match_dispatch_table() {
    assert_eq!(get_message_id(MessageKind::HelloRequest), 0x01);
    assert_eq!(get_message_id(MessageKind::HelloResponse), 0x02);
    assert_eq!(get_message_id(MessageKind::ConnectRequest), 0x03);
    assert_eq!(get_message_id(MessageKind::ConnectResponse), 0x04);
    assert_eq!(get_message_id(MessageKind::DisconnectRequest), 0x05);
    assert_eq!(get_message_id(MessageKind::DisconnectResponse), 0x06);
    assert_eq!(get_message_id(MessageKind::PingRequest), 0x07);
    assert_eq!(get_message_id(MessageKind::PingResponse), 0x08);
    assert_eq!(get_message_id(MessageKind::DeviceInfoRequest), 0x09);
    assert_eq!(get_message_id(MessageKind::DeviceInfoResponse), 0x0A);
    assert_eq!(get_message_id(MessageKind::ListEntitiesRequest), 0x0B);
    assert_eq!(get_message_id(MessageKind::ListEntitiesDoneResponse), 0x13);
    assert_eq!(get_message_id(MessageKind::SubscribeBluetoothLEAdvertisementsRequest), 0x42);
    assert_eq!(get_message_id(MessageKind::BluetoothLEAdvertisementResponse), 0x43);
    assert_eq!(get_message_id(MessageKind::SubscribeBluetoothConnectionsFreeRequest), 0x50);
    assert_eq!(get_message_id(MessageKind::BluetoothConnectionsFreeResponse), 0x51);
    assert_eq!(get_message_id(MessageKind::UnsubscribeBluetoothLEAdvertisementsRequest), 0x57);
}

#[test]
fn hello_response_exact_bytes() {
    let mut expected: Vec<u8> = Vec::new();
    expected.extend_from_slice(&[0x08, 0x01]); // api_version_major = 1
    expected.extend_from_slice(&[0x10, 0x0A]); // api_version_minor = 10
    expected.push(0x1A); // server_info
    expected.push(14);
    expected.extend_from_slice(b"linux_bt_proxy");
    expected.push(0x22); // name
    expected.push(21);
    expected.extend_from_slice(b"Linux Bluetooth Proxy");
    assert_eq!(build_hello_response_payload(), expected);
}

#[test]
fn handshake_scenario() {
    let ctx = test_context();
    let mut s = Session::new();
    handshake(&ctx, &mut s);
    assert_eq!(s.phase, SessionPhase::Ready);
}

#[test]
fn device_info_scenario() {
    let ctx = test_context();
    let mut s = Session::new();
    handshake(&ctx, &mut s);
    let out = s.handle_data(&ctx, &encode_response(0x09, &[]));
    assert!(!out.close);
    assert_eq!(out.output, encode_response(0x0A, &build_device_info_payload(&ctx)));

    // The payload field by field, per the schema.
    let mut expected: Vec<u8> = Vec::new();
    let push_str = |out: &mut Vec<u8>, key: u8, s: &str| {
        out.push(key);
        out.push(s.len() as u8);
        out.extend_from_slice(s.as_bytes());
    };
    push_str(&mut expected, 0x12, "Linux BT Proxy: testhost"); // name (2)
    push_str(&mut expected, 0x1A, "AC:BC:32:89:0E:AA"); // mac_address (3)
    push_str(&mut expected, 0x22, "2024.8.3"); // esphome_version (4)
    push_str(&mut expected, 0x2A, "2024-01-01 00:00:00 UTC"); // compilation_time (5)
    push_str(&mut expected, 0x32, "Linux"); // model (6)
    expected.extend_from_slice(&[0x58, 0x05]); // legacy_bluetooth_proxy_version (11) = 5
    push_str(&mut expected, 0x6A, "Linux BT Proxy: testhost"); // friendly_name (13)
    expected.extend_from_slice(&[0x78, 0x38]); // bluetooth_proxy_feature_flags (15) = 0x38
    expected.extend_from_slice(&[0x92, 0x01]); // bluetooth_mac_address (18), two-byte key
    expected.push(17);
    expected.extend_from_slice(b"11:22:33:44:55:66");
    // api_encryption_supported (19) = false is omitted
    assert_eq!(build_device_info_payload(&ctx), expected);
}

#[test]
fn ping_keep_alive_a_thousand_times() {
    let ctx = test_context();
    let mut s = Session::new();
    let ping = encode_response(0x07, &[]);
    let pong = encode_response(0x08, &[]);
    for _ in 0..1000 {
        let out = s.handle_data(&ctx, &ping);
        assert_eq!(out.output, pong);
        assert!(!out.close);
    }
}

#[test]
fn ping_works_before_hello() {
    // Nothing prevents a ping before the handshake.
    let ctx = test_context();
    let mut s = Session::new();
    let out = s.handle_data(&ctx, &encode_response(0x07, &[]));
    assert_eq!(out.output, encode_response(0x08, &[]));
    assert!(!out.close);
}

#[test]
fn list_entities_reports_none() {
    let ctx = test_context();
    let mut s = Session::new();
    handshake(&ctx, &mut s);
    let out = s.handle_data(&ctx, &encode_response(0x0B, &[]));
    assert_eq!(out.output, encode_response(0x13, &[]));
}

#[test]
fn connections_free_is_all_zero() {
    let ctx = test_context();
    let mut s = Session::new();
    handshake(&ctx, &mut s);
    let out = s.handle_data(&ctx, &encode_response(0x50, &[]));
    // free = 0 and limit = 0 encode to an empty payload
    assert!(build_connections_free_payload().is_empty());
    assert_eq!(out.output, encode_response(0x51, &[]));
}

fn test_advertisement() -> Advertisement {
    Advertisement {
        address: 0x1122_3344_5566,
        address_type: 0,
        rssi: -42,
        name: b"test".to_vec(),
        service_uuids: Vec::new(),
        service_data: Vec::new(),
        manufacturer_data: Vec::new(),
    }
}

#[test]
fn advertisement_forwarding_scenario() {
    let ctx = test_context();
    let mut s = Session::new();
    handshake(&ctx, &mut s);

    // Subscribe: no response, but forwarding turns on.
    let out = s.handle_data(&ctx, &encode_response(0x42, &[]));
    assert!(out.output.is_empty());
    assert!(!out.close);
    assert!(s.adv_subscribed);

    let adv = test_advertisement();
    let frame = s.handle_advertisement(&adv).expect("subscribed sessions get the frame");
    let mut payload: Vec<u8> = Vec::new();
    payload.push(0x08); // address (1), varint
    payload.extend_from_slice(&[0xE6, 0xAA, 0x91, 0x9A, 0xA3, 0xA4, 0x04]); // 0x112233445566
    payload.push(0x12); // name (2), bytes
    payload.push(4);
    payload.extend_from_slice(b"test");
    payload.extend_from_slice(&[0x18, 0x53]); // rssi (3), zigzag(-42) = 83
    // address_type 0 is omitted
    assert_eq!(frame, encode_response(0x43, &payload));

    // Unsubscribe: the next advertisement is dropped.
    let out = s.handle_data(&ctx, &encode_response(0x57, &[]));
    assert!(out.output.is_empty());
    assert!(!s.adv_subscribed);
    assert!(s.handle_advertisement(&adv).is_none());
}

#[test]
fn subscribe_before_ready_is_accepted_silently() {
    let ctx = test_context();
    let mut s = Session::new();
    let out = s.handle_data(&ctx, &encode_response(0x42, &[]));
    assert!(out.output.is_empty());
    assert!(!out.close);
    assert!(!s.adv_subscribed, "forwarding only arms in the ready phase");
}

#[test]
fn advertisement_with_service_data_round_trips_fields() {
    let adv = Advertisement {
        address: 0x0000_0000_0001,
        address_type: 1,
        rssi: -1,
        name: Vec::new(),
        service_uuids: vec!["0000180f-0000-1000-8000-00805f9b34fb".to_string()],
        service_data: vec![BluetoothServiceData {
            uuid: "0000180f-0000-1000-8000-00805f9b34fb".to_string(),
            data: vec![0x64],
        }],
        manufacturer_data: vec![BluetoothServiceData {
            uuid: "76".to_string(),
            data: vec![1, 2, 3],
        }],
    };
    let payload = linux_bt_proxy::adv::build_adv_payload(&adv);
    let uuid = b"0000180f-0000-1000-8000-00805f9b34fb";
    let mut expected: Vec<u8> = Vec::new();
    expected.extend_from_slice(&[0x08, 0x01]); // address
    expected.extend_from_slice(&[0x18, 0x01]); // rssi: zigzag(-1) = 1
    expected.push(0x22); // service_uuids (4)
    expected.push(36);
    expected.extend_from_slice(uuid);
    expected.push(0x2A); // service_data (5)
    expected.push(41);
    expected.push(0x0A); // uuid (1)
    expected.push(36);
    expected.extend_from_slice(uuid);
    expected.extend_from_slice(&[0x1A, 0x01, 0x64]); // data (3)
    expected.push(0x32); // manufacturer_data (6)
    expected.push(9);
    expected.extend_from_slice(&[0x0A, 0x02]);
    expected.extend_from_slice(b"76");
    expected.extend_from_slice(&[0x1A, 0x03, 0x01, 0x02, 0x03]);
    expected.extend_from_slice(&[0x38, 0x01]); // address_type (7) = 1
    assert_eq!(payload, expected);
}

#[test]
fn disconnect_half_closes() {
    let ctx = test_context();
    let mut s = Session::new();
    handshake(&ctx, &mut s);
    let out = s.handle_data(&ctx, &encode_response(0x05, &[]));
    assert_eq!(out.output, encode_response(0x06, &[]));
    assert!(out.close);
    assert_eq!(s.phase, SessionPhase::Closing);
}

#[test]
fn unknown_opcode_is_ignored() {
    let ctx = test_context();
    let mut s = Session::new();
    handshake(&ctx, &mut s);
    let out = s.handle_data(&ctx, &encode_response(0x99, &[1, 2, 3]));
    assert!(out.output.is_empty());
    assert!(!out.close);
    assert_eq!(s.phase, SessionPhase::Ready);
}

#[test]
fn malformed_request_payload_closes_session() {
    let ctx = test_context();
    let mut s = Session::new();
    // 0x80 alone is an unterminated varint: not a protobuf field sequence.
    assert!(!validate_payload(&[0x80]));
    let out = s.handle_data(&ctx, &encode_response(0x01, &[0x80]));
    assert!(out.output.is_empty());
    assert!(out.close);
}

#[test]
fn corrupt_delimiter_closes_session() {
    let ctx = test_context();
    let mut s = Session::new();
    let out = s.handle_data(&ctx, &[0x55, 0x00, 0x07]);
    assert!(out.output.is_empty());
    assert!(out.close);
}

#[test]
fn split_frames_across_reads() {
    // Two pings split mid-frame over three reads still yield two pongs.
    let ctx = test_context();
    let mut s = Session::new();
    let ping = encode_response(0x07, &[]);
    let mut stream: Vec<u8> = Vec::new();
    stream.extend_from_slice(&ping);
    stream.extend_from_slice(&ping);
    let out = s.handle_data(&ctx, &stream[..2]);
    assert!(out.output.is_empty());
    let out = s.handle_data(&ctx, &stream[2..4]);
    assert_eq!(out.output, encode_response(0x08, &[]));
    let out = s.handle_data(&ctx, &stream[4..]);
    assert_eq!(out.output, encode_response(0x08, &[]));
}

#[test]
fn responses_come_in_request_order() {
    let ctx = test_context();
    let mut s = Session::new();
    let mut batch: Vec<u8> = Vec::new();
    batch.extend_from_slice(&encode_response(0x01, &[0x0A, 0x01, 0x74]));
    batch.extend_from_slice(&encode_response(0x03, &[]));
    batch.extend_from_slice(&encode_response(0x07, &[]));
    let out = s.handle_data(&ctx, &batch);
    let mut expected: Vec<u8> = Vec::new();
    expected.extend_from_slice(&encode_response(0x02, &build_hello_response_payload()));
    expected.extend_from_slice(&encode_response(0x04, &[]));
    expected.extend_from_slice(&encode_response(0x08, &[]));
    assert_eq!(out.output, expected);
    assert_eq!(s.phase, SessionPhase::Ready);
}

#[test]
fn handlers_reject_malformed_payloads() {
    assert_eq!(hello_request(&[0x80]), Err(DecodeError));
    assert_eq!(ping_request(&[0x0C]), Err(DecodeError));
    let ok = hello_request(&[0x0A, 0x01, 0x74]).expect("a well-formed hello parses");
    assert_eq!(ok, encode_response(0x02, &build_hello_response_payload()));
}

#[test]
fn request_payloads_validate() {
    assert!(validate_payload(&[]));
    assert!(validate_payload(&[0x0A, 0x01, 0x74])); // field 1, string "t"
    assert!(validate_payload(&[0x08, 0x2A])); // field 1, varint
    assert!(validate_payload(&[0x15, 1, 2, 3, 4])); // field 2, 32-bit
    assert!(validate_payload(&[0x11, 1, 2, 3, 4, 5, 6, 7, 8])); // field 2, 64-bit
    assert!(!validate_payload(&[0x0A, 0x05, 0x74])); // length runs past the end
    assert!(!validate_payload(&[0x0C])); // wire type 4 does not exist
    assert!(!validate_payload(&[0x07])); // field number 0
    assert!(!validate_payload(&[0xFF])); // unterminated key varint
}
