//! Process-wide configuration, fixed at startup and shared read-only by
//! every session.

use vstd::prelude::*;

verus! {

/// What the daemon knows about itself: advertised hostname, listen
/// port, the two MAC addresses, and the build metadata that device-info
/// responses carry.
pub struct ProxyContext {
    pub hostname: String,
    pub port: u16,
    pub net_mac: [u8; 6],
    pub bt_mac: [u8; 6],
    pub build_time: String,
    pub version: String,
}

} // verus!
