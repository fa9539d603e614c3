//! The service record the proxy announces over multicast DNS, computed
//! from the context; the one-shot registration itself is I/O and lives
//! outside the library.

use vstd::prelude::*;

verus! {

use crate::context::ProxyContext;
use crate::utils::{mac_string, format_mac, format_mac_lower};
use vstd::string::StringExecFns;

/// The last three bytes of the Bluetooth MAC as six hex digits, the
/// suffix that makes the instance name unique on the network.
pub open spec fn short_bt_mac(ctx: ProxyContext) -> Seq<char> {
    mac_string(ctx.bt_mac@.skip(3), Seq::empty(), true)
}

/// Everything the mDNS responder needs to register the proxy.
pub struct MdnsParams {
    pub service_type: String,
    pub service_name: String,
    pub service_hostname: String,
    pub port: u16,
    pub txt: Vec<(String, String)>,
}

/// Computes the service record: type `_esphomelib._tcp.local.`, the
/// hostname-and-MAC-suffix instance name, the `.local.` hostname, the
/// listen port, and the five TXT records the controller reads.
pub fn mdns_service_params(ctx: &ProxyContext) -> (r: MdnsParams)
    ensures
        r.service_type@ == "_esphomelib._tcp.local."@,
        r.service_name@ == ctx.hostname@ + "_"@ + short_bt_mac(*ctx),
        r.service_hostname@ == ctx.hostname@ + ".local."@,
        r.port == ctx.port,
        r.txt@.len() == 5,
        r.txt@[0].0@ == "friendly_name"@ && r.txt@[0].1@ == "Bluetooth Proxy "@ + short_bt_mac(
            *ctx,
        ),
        r.txt@[1].0@ == "version"@ && r.txt@[1].1@ == ctx.version@,
        r.txt@[2].0@ == "mac"@ && r.txt@[2].1@ == mac_string(ctx.bt_mac@, ":"@, false),
        r.txt@[3].0@ == "platform"@ && r.txt@[3].1@ == "linux"@,
        r.txt@[4].0@ == "network"@ && r.txt@[4].1@ == "ethernet"@,
{
    let tail = vstd::slice::slice_subrange(ctx.bt_mac.as_slice(), 3, 6);
    proof {
        assert(tail@ =~= ctx.bt_mac@.skip(3));
    }
    let short = format_mac(tail, "");
    proof {
        reveal_strlit("");
        assert(""@ =~= Seq::<char>::empty());
        assert(short@ == short_bt_mac(*ctx));
    }
    let mut service_name = ctx.hostname.clone();
    service_name.append("_");
    service_name.append(short.as_str());
    let mut service_hostname = ctx.hostname.clone();
    service_hostname.append(".local.");
    let mut friendly = "Bluetooth Proxy ".to_owned();
    friendly.append(short.as_str());
    let mac_lower = format_mac_lower(ctx.bt_mac.as_slice(), ":");
    let mut txt: Vec<(String, String)> = Vec::new();
    txt.push(("friendly_name".to_owned(), friendly));
    txt.push(("version".to_owned(), ctx.version.clone()));
    txt.push(("mac".to_owned(), mac_lower));
    txt.push(("platform".to_owned(), "linux".to_owned()));
    txt.push(("network".to_owned(), "ethernet".to_owned()));
    MdnsParams {
        service_type: "_esphomelib._tcp.local.".to_owned(),
        service_name,
        service_hostname,
        port: ctx.port,
        txt,
    }
}

} // verus!
