//! Verified core of a local-network host and service discovery engine.
//!
//! The library expands CIDR ranges into host addresses, resolves link-layer
//! (MAC) addresses from OS neighbor-table text, coordinates a worker-sweep
//! over a host set, assembles port-scan results, and models the raw
//! link-layer transport's receive-slot lifecycle.

use vstd::prelude::*;

pub mod enrich;
pub mod expand;
pub mod iface;
pub mod ipv4;
pub mod mac;
pub mod neighbors;
pub mod oui;
pub mod ports;
pub mod portscan;
pub mod rawsock;
pub mod records;
pub mod strutil;

verus! {

/// A 6-byte link-layer (MAC) address as a fixed array.
pub type MacAddr = [u8; 6];

} // verus!
