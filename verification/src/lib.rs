//! A minimal verified network stack: byte-precise codecs for Ethernet, ARP,
//! IPv4 and ICMP over a raw link layer, the Internet checksum, and the
//! predicate registry that correlates inbound IPv4 packets with outstanding
//! requests. Contracts state the wire layout of every header and exactly
//! which inputs parse, which are rejected, and what serialization emits.

pub mod parse;
pub mod serialize;
pub mod blob;
pub mod ethernet;
pub mod arp;
pub mod ipv4;
pub mod netinfo;
pub mod interface;
pub mod icmp;
