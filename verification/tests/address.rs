use linux_bt_proxy::addr::{bdaddr_to_u64, parse_ble_address};
use linux_bt_proxy::ble::adapter_path;
use linux_bt_proxy::utils::{format_mac, format_mac_lower, parse_mac, u16_to_dec_string};

#[test]
fn ble_address_string_form() {
    assert_eq!(parse_ble_address("AA:BB:CC:DD:EE:FF"), 0xAABB_CCDD_EEFF);
}

#[test]
fn ble_address_lowercase() {
    assert_eq!(parse_ble_address("aa:bb:cc:dd:ee:ff"), 0xAABB_CCDD_EEFF);
}

#[test]
fn bdaddr_little_endian_form() {
    // The same address as its little-endian on-wire bytes.
    assert_eq!(bdaddr_to_u64(&[0xFF, 0xEE, 0xDD, 0xCC, 0xBB, 0xAA]), 0xAABB_CCDD_EEFF);
}

#[test]
fn ble_address_unparsable_part_counts_as_zero() {
    assert_eq!(parse_ble_address("AA:ZZ:CC:DD:EE:FF"), 0xAA00_CCDD_EEFF);
    assert_eq!(parse_ble_address(""), 0);
}

#[test]
fn format_mac_upper() {
    assert_eq!(format_mac(&[0xAC, 0xBC, 0x32, 0x89, 0x0E, 0xAA], ":"), "AC:BC:32:89:0E:AA");
    assert_eq!(format_mac(&[0x89, 0x0E, 0xAA], ""), "890EAA");
    assert_eq!(format_mac(&[], ":"), "");
}

#[test]
fn format_mac_lower_case() {
    assert_eq!(format_mac_lower(&[0xAC, 0xBC, 0x32, 0x89, 0x0E, 0xAA], ":"), "ac:bc:32:89:0e:aa");
}

#[test]
fn format_then_parse_is_identity() {
    let mac: [u8; 6] = [0x11, 0x22, 0x33, 0x44, 0x55, 0x66];
    let s = format_mac(&mac, ":");
    assert_eq!(parse_ble_address(&s), 0x1122_3344_5566);
    assert_eq!(parse_mac(&s), Ok(mac));
}

#[test]
fn parse_mac_happy_path() {
    assert_eq!(
        parse_mac("AC:BC:32:89:0E:AA"),
        Ok([0xAC, 0xBC, 0x32, 0x89, 0x0E, 0xAA])
    );
    assert_eq!(parse_mac("00:00:00:00:00:00"), Ok([0; 6]));
}

#[test]
fn parse_mac_wrong_part_count() {
    assert_eq!(
        parse_mac("AC:BC:32:89:0E"),
        Err("Invalid MAC format: expected 6 hex bytes separated by ':'".to_string())
    );
    assert_eq!(
        parse_mac(""),
        Err("Invalid MAC format: expected 6 hex bytes separated by ':'".to_string())
    );
}

#[test]
fn parse_mac_bad_hex_byte() {
    assert_eq!(
        parse_mac("AC:BC:ZZ:89:0E:AA"),
        Err("Invalid hex byte: 'ZZ'".to_string())
    );
    assert_eq!(
        parse_mac("AC:BC::89:0E:AA"),
        Err("Invalid hex byte: ''".to_string())
    );
    // Three hex digits overflow a byte.
    assert_eq!(
        parse_mac("ACC:BC:32:89:0E:AA"),
        Err("Invalid hex byte: 'ACC'".to_string())
    );
}

#[test]
fn decimal_rendering() {
    assert_eq!(u16_to_dec_string(0), "0");
    assert_eq!(u16_to_dec_string(7), "7");
    assert_eq!(u16_to_dec_string(76), "76");
    assert_eq!(u16_to_dec_string(65535), "65535");
}

#[test]
fn adapter_object_path() {
    assert_eq!(adapter_path(0), "/org/bluez/hci0");
    assert_eq!(adapter_path(12), "/org/bluez/hci12");
}
