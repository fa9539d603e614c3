use linux_bt_proxy::adv::BluetoothServiceData;
use linux_bt_proxy::ble::{
    build_advertisement_response, discovery_error_is_benign, should_restart_discovery, DeviceProps,
};
use linux_bt_proxy::context::ProxyContext;
use linux_bt_proxy::mdns::mdns_service_params;

fn empty_props() -> DeviceProps {
    DeviceProps {
        address: None,
        address_type: None,
        rssi: None,
        name: None,
        service_uuids: Vec::new(),
        service_data: Vec::new(),
        manufacturer_data: Vec::new(),
    }
}

#[test]
fn discovery_restart_decision() {
    // An adapter change reporting Discovering=false restarts discovery.
    assert!(should_restart_discovery("org.bluez.Adapter1", Some(false)));
    assert!(!should_restart_discovery("org.bluez.Adapter1", Some(true)));
    assert!(!should_restart_discovery("org.bluez.Adapter1", None));
    assert!(!should_restart_discovery("org.bluez.Device1", Some(false)));
}

#[test]
fn in_progress_error_is_benign() {
    assert!(discovery_error_is_benign("org.bluez.Error.InProgress"));
    assert!(!discovery_error_is_benign("org.bluez.Error.NotReady"));
    assert!(!discovery_error_is_benign(""));
}

#[test]
fn update_without_address_is_discarded() {
    assert!(build_advertisement_response(&empty_props()).is_none());
}

#[test]
fn full_update_normalizes() {
    let props = DeviceProps {
        address: Some("11:22:33:44:55:66".to_string()),
        address_type: Some("random".to_string()),
        rssi: Some(-60),
        name: Some("kitchen sensor".to_string()),
        service_uuids: vec!["0000180f-0000-1000-8000-00805f9b34fb".to_string()],
        service_data: vec![BluetoothServiceData {
            uuid: "0000180f-0000-1000-8000-00805f9b34fb".to_string(),
            data: vec![0x64],
        }],
        manufacturer_data: vec![(76, vec![0x02, 0x15])],
    };
    let a = build_advertisement_response(&props).expect("an addressed update yields a record");
    assert_eq!(a.address, 0x1122_3344_5566);
    assert_eq!(a.address_type, 1);
    assert_eq!(a.rssi, -60);
    assert_eq!(a.name, b"kitchen sensor".to_vec());
    assert_eq!(a.service_uuids, vec!["0000180f-0000-1000-8000-00805f9b34fb".to_string()]);
    assert_eq!(a.service_data.len(), 1);
    assert_eq!(a.service_data[0].uuid, "0000180f-0000-1000-8000-00805f9b34fb");
    assert_eq!(a.service_data[0].data, vec![0x64]);
    assert_eq!(a.manufacturer_data.len(), 1);
    assert_eq!(a.manufacturer_data[0].uuid, "76");
    assert_eq!(a.manufacturer_data[0].data, vec![0x02, 0x15]);
}

#[test]
fn defaults_apply_when_properties_are_absent() {
    let mut props = empty_props();
    props.address = Some("AA:BB:CC:DD:EE:FF".to_string());
    let a = build_advertisement_response(&props).expect("address alone is enough");
    assert_eq!(a.address, 0xAABB_CCDD_EEFF);
    assert_eq!(a.address_type, 0, "a missing type counts as public");
    assert_eq!(a.rssi, -127, "a missing RSSI defaults to -127");
    assert!(a.name.is_empty());
    assert!(a.service_uuids.is_empty());
    assert!(a.service_data.is_empty());
    assert!(a.manufacturer_data.is_empty());
}

#[test]
fn public_address_type_is_zero() {
    let mut props = empty_props();
    props.address = Some("AA:BB:CC:DD:EE:FF".to_string());
    props.address_type = Some("public".to_string());
    let a = build_advertisement_response(&props).unwrap();
    assert_eq!(a.address_type, 0);
}

#[test]
fn mdns_record_fields() {
    let ctx = ProxyContext {
        hostname: "myhost".to_string(),
        port: 6053,
        net_mac: [0xAC, 0xBC, 0x32, 0x89, 0x0E, 0xAA],
        bt_mac: [0x11, 0x22, 0x33, 0x44, 0x55, 0x66],
        build_time: "2024-01-01 00:00:00 UTC".to_string(),
        version: "0.1.0".to_string(),
    };
    let p = mdns_service_params(&ctx);
    assert_eq!(p.service_type, "_esphomelib._tcp.local.");
    assert_eq!(p.service_name, "myhost_445566");
    assert_eq!(p.service_hostname, "myhost.local.");
    assert_eq!(p.port, 6053);
    assert_eq!(p.txt.len(), 5);
    assert_eq!(p.txt[0], ("friendly_name".to_string(), "Bluetooth Proxy 445566".to_string()));
    assert_eq!(p.txt[1], ("version".to_string(), "0.1.0".to_string()));
    assert_eq!(p.txt[2], ("mac".to_string(), "11:22:33:44:55:66".to_string()));
    assert_eq!(p.txt[3], ("platform".to_string(), "linux".to_string()));
    assert_eq!(p.txt[4], ("network".to_string(), "ethernet".to_string()));
}
