use linux_bt_proxy::hci::parse_hci_packet;

#[test]
fn legacy_report_parses() {
    // Event packet, five monitor header bytes, LE Meta event 0x3E,
    // legacy report subevent 0x02, one report.
    let packet: Vec<u8> = vec![
        0x03, 0x00, 0x00, 0x00, 0x00, 0x00, // type + monitor header
        0x3E, 0x0C, // event code, plen
        0x02, 0x01, // subevent, num_reports
        0x00, // address type: public
        0x66, 0x55, 0x44, 0x33, 0x22, 0x11, // address, little-endian
        0x02, 0xAA, 0xBB, // data_len, data
        0xD6, // rssi: -42
    ];
    let advs = parse_hci_packet(&packet);
    assert_eq!(advs.len(), 1);
    assert_eq!(advs[0].address, 0x1122_3344_5566);
    assert_eq!(advs[0].address_type, 0);
    assert_eq!(advs[0].data, vec![0xAA, 0xBB]);
    assert_eq!(advs[0].rssi, -42);
}

#[test]
fn two_legacy_reports_parse_in_order() {
    let mut packet: Vec<u8> = vec![0x03, 0, 0, 0, 0, 0, 0x3E, 0x00, 0x02, 0x02];
    // report one: random address, no data, rssi -1
    packet.extend_from_slice(&[0x01, 1, 0, 0, 0, 0, 0, 0x00, 0xFF]);
    // report two: public address 0x02, one data byte, rssi 0
    packet.extend_from_slice(&[0x00, 2, 0, 0, 0, 0, 0, 0x01, 0x5A, 0x00]);
    let advs = parse_hci_packet(&packet);
    assert_eq!(advs.len(), 2);
    assert_eq!(advs[0].address, 1);
    assert_eq!(advs[0].address_type, 1);
    assert!(advs[0].data.is_empty());
    assert_eq!(advs[0].rssi, -1);
    assert_eq!(advs[1].address, 2);
    assert_eq!(advs[1].data, vec![0x5A]);
    assert_eq!(advs[1].rssi, 0);
}

#[test]
fn truncated_report_keeps_earlier_ones() {
    let mut packet: Vec<u8> = vec![0x03, 0, 0, 0, 0, 0, 0x3E, 0x00, 0x02, 0x02];
    packet.extend_from_slice(&[0x00, 9, 0, 0, 0, 0, 0, 0x00, 0xC4]);
    // second report claims 40 data bytes that never arrive
    packet.extend_from_slice(&[0x00, 8, 0, 0, 0, 0, 0, 0x28, 0x01]);
    let advs = parse_hci_packet(&packet);
    assert_eq!(advs.len(), 1);
    assert_eq!(advs[0].address, 9);
    assert_eq!(advs[0].rssi, -60);
}

#[test]
fn extended_report_parses() {
    let mut packet: Vec<u8> = vec![0x03, 0, 0, 0, 0, 0, 0x3E, 0x00, 0x0D, 0x01];
    let mut report = [0u8; 24];
    report[0] = 0x13; // event type, unused
    report[2] = 0x01; // address type: random
    report[3..9].copy_from_slice(&[0x66, 0x55, 0x44, 0x33, 0x22, 0x11]);
    report[13] = 0xD6; // rssi -42
    report[23] = 0x03; // data_len
    packet.extend_from_slice(&report);
    packet.extend_from_slice(&[0xDE, 0xAD, 0x01]);
    let advs = parse_hci_packet(&packet);
    assert_eq!(advs.len(), 1);
    assert_eq!(advs[0].address, 0x1122_3344_5566);
    assert_eq!(advs[0].address_type, 1);
    assert_eq!(advs[0].rssi, -42);
    assert_eq!(advs[0].data, vec![0xDE, 0xAD, 0x01]);
}

#[test]
fn non_event_packets_yield_nothing() {
    // ACL data packet type
    let packet: Vec<u8> = vec![0x02, 0, 0, 0, 0, 0, 0x3E, 0x0C, 0x02, 0x01, 0x00];
    assert!(parse_hci_packet(&packet).is_empty());
    // event, but not LE Meta
    let packet: Vec<u8> = vec![0x03, 0, 0, 0, 0, 0, 0x0E, 0x04, 0x01, 0x01, 0x00];
    assert!(parse_hci_packet(&packet).is_empty());
    // LE Meta, but a connection-update subevent
    let packet: Vec<u8> = vec![0x03, 0, 0, 0, 0, 0, 0x3E, 0x04, 0x03, 0x01, 0x00];
    assert!(parse_hci_packet(&packet).is_empty());
    // too short to carry any event
    assert!(parse_hci_packet(&[0x03, 0x00]).is_empty());
}
