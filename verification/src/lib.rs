//! A verified core for an ESPHome-compatible Bluetooth LE proxy daemon.
//!
//! The library holds the pure logic of the daemon: the varint and frame
//! codec of the native-API wire protocol, the protobuf payload encoders,
//! the per-connection session state machine, the advertisement bus with
//! its lag semantics, the HCI monitor-packet parser, the BlueZ property
//! normalizer, and the small string utilities around MAC addresses.
//! The I/O shell (sockets, D-Bus, mDNS, CLI) lives outside the library
//! and hands it plain values.

pub mod addr;
pub mod adv;
pub mod ble;
pub mod bus;
pub mod context;
pub mod frame;
pub mod handlers;
pub mod hci;
pub mod mdns;
pub mod messages;
pub mod pbenc;
pub mod session;
pub mod utils;
pub mod varint;
