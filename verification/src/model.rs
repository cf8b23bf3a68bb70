//! The data model: what the two enumeration sources hand the reconciler,
//! the reconciled interface record, and the full per-tick snapshot.

use vstd::prelude::*;
use crate::rate::NetworkUsage;

verus! {

/// One entry of the address-configuration enumeration: an interface name
/// and a single address, IPv4 or IPv6.
#[derive(Debug, Clone)]
pub struct AddrEntry {
    pub name: String,
    pub address: String,
    pub is_ipv6: bool,
}

/// One entry of the traffic-counter enumeration: an interface name and
/// its cumulative byte counters.
#[derive(Debug, Clone)]
pub struct TrafficEntry {
    pub name: String,
    pub received: u64,
    pub transmitted: u64,
}

/// One reconciled network adapter. The optional fields are part of the
/// model but never populated by the current sources.
#[derive(Debug, Clone)]
pub struct Interface {
    pub name: String,
    pub ipv4_addresses: Vec<String>,
    pub ipv6_addresses: Vec<String>,
    pub mac_address: Option<String>,
    pub status: bool,
    pub speed: Option<u64>,
    pub mtu: Option<u32>,
    pub received_bytes: u64,
    pub transmitted_bytes: u64,
    pub usage: NetworkUsage,
}

/// Diagnostic collections attached to the snapshot for display only: the
/// raw names each source reported, the reconciled interfaces whose
/// counters stayed zero, and the raw output of the diagnostic command, if
/// it ran.
#[derive(Debug, Clone)]
pub struct DebugInfo {
    pub addr_source_names: Vec<String>,
    pub traffic_source_names: Vec<String>,
    pub no_stats_names: Vec<String>,
    pub diag_output: Option<String>,
}

/// The full dashboard state for one tick.
#[derive(Debug, Clone)]
pub struct NetworkInfo {
    pub interfaces: Vec<Interface>,
    pub hostname: String,
    pub public_ip: Option<String>,
    pub debug_info: DebugInfo,
    pub update_count: u64,
}

impl NetworkInfo {
    /// Every interface's rate tracker is well formed.
    pub open spec fn wf(self) -> bool {
        forall|i: int|
            0 <= i < self.interfaces@.len() ==> (#[trigger] self.interfaces@[i]).usage.wf()
    }

    /// The public IP as display text: the resolved address, or the
    /// explicit marker for the unresolved state.
    pub fn public_ip_text(&self) -> (r: String)
        ensures
            match self.public_ip {
                Some(ip) => r@ == ip@,
                None => r@ == "Unknown"@,
            },
    {
        match &self.public_ip {
            Some(ip) => ip.clone(),
            None => String::from_str("Unknown"),
        }
    }

    /// Does some reconciled interface still report zero counters in both
    /// directions?
    pub fn has_zero_stat_interface(&self) -> (r: bool)
        ensures
            r == exists|i: int|
                0 <= i < self.interfaces@.len() && (#[trigger] self.interfaces@[i]).received_bytes
                    == 0 && self.interfaces@[i].transmitted_bytes == 0,
    {
        let mut i: usize = 0;
        while i < self.interfaces.len()
            invariant
                i <= self.interfaces@.len(),
                forall|j: int|
                    0 <= j < i ==> !((#[trigger] self.interfaces@[j]).received_bytes == 0
                        && self.interfaces@[j].transmitted_bytes == 0),
            decreases self.interfaces@.len() - i,
        {
            if self.interfaces[i].received_bytes == 0 && self.interfaces[i].transmitted_bytes == 0 {
                return true;
            }
            i = i + 1;
        }
        false
    }
}

} // verus!
