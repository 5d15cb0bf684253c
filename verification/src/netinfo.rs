//! The NIC descriptor: what the engine needs to know about the default
//! network interface. Enumerating interfaces is the platform's business;
//! this type only carries the result, immutable for the lifetime of one
//! session.

use vstd::prelude::*;
use crate::{ethernet, ipv4};

verus! {

/// The default interface: a stable identifier, the local and gateway IPv4
/// addresses, and the local MAC address.
#[derive(Debug, Clone)]
pub struct NIC {
    pub guid: String,
    pub gateway: ipv4::Addr,
    pub address: ipv4::Addr,
    pub phy_address: ethernet::Addr,
}

} // verus!
