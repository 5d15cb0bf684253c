//! The resolution-and-dispatch decisions: the registry of outstanding
//! queries against inbound IPv4 traffic, the query the ping engine uses,
//! and the Init-phase test that resolves the gateway's physical address.
//! The session that owns the capture handle runs these from its receive
//! loop; the registry is shared under a lock held only across one scan or
//! one insertion, never across blocking work.

use vstd::prelude::*;
use crate::{arp, ethernet, icmp, ipv4};

verus! {

/// A caller-supplied match over decoded IPv4 packets. The match is a pure
/// predicate of the packet's value; delivering a completion value to
/// whoever waits is the implementer's business and happens inside `eval`.
pub trait Ipv4Query: Sized {
    /// What the query matches. The default matches nothing; an
    /// implementation refines it together with `eval`.
    open spec fn matches_packet(&self, m: ipv4::PacketModel) -> bool {
        false
    }

    /// Evaluate the query against one decoded packet.
    fn eval(&self, p: &ipv4::Packet) -> (r: bool)
        ensures
            r == self.matches_packet(p@),
    ;
}

/// The queries outstanding against inbound IPv4 traffic, in registration
/// order.
pub struct PendingQueries<Q> {
    pub ipv4: Vec<Q>,
}

impl<Q: Ipv4Query> PendingQueries<Q> {
    pub fn new() -> (r: PendingQueries<Q>)
        ensures
            r.ipv4@ =~= Seq::<Q>::empty(),
    {
        PendingQueries { ipv4: Vec::new() }
    }

    /// Register a query; it lives until matched.
    pub fn register(&mut self, q: Q)
        ensures
            final(self).ipv4@ =~= old(self).ipv4@.push(q),
    {
        self.ipv4.push(q);
    }

    /// Hand one decoded packet to the registry. The first query in
    /// registration order that matches is removed and its index returned;
    /// every query before it does not match and every query but the
    /// removed one stays registered. On no match the registry is
    /// unchanged. A caller that holds the registry's lock across this call
    /// gets match-and-remove atomic with respect to concurrent
    /// registration.
    pub fn dispatch(&mut self, p: &ipv4::Packet) -> (r: Option<usize>)
        ensures
            match r {
                Some(i) => {
                    &&& 0 <= i < old(self).ipv4@.len()
                    &&& old(self).ipv4@[i as int].matches_packet(p@)
                    &&& forall|k: int|
                        0 <= k < i ==> !old(self).ipv4@[k].matches_packet(p@)
                    &&& final(self).ipv4@ =~= old(self).ipv4@.remove(i as int)
                },
                None => {
                    &&& forall|k: int|
                        0 <= k < old(self).ipv4@.len() ==> !old(
                            self,
                        ).ipv4@[k].matches_packet(p@)
                    &&& final(self).ipv4@ =~= old(self).ipv4@
                },
            },
    {
        let n = self.ipv4.len();
        let mut i: usize = 0;
        while i < n
            invariant
                i <= n,
                n == self.ipv4@.len(),
                self.ipv4@ == old(self).ipv4@,
                forall|k: int| 0 <= k < i ==> !self.ipv4@[k].matches_packet(p@),
            decreases n - i,
        {
            let hit = self.ipv4[i].eval(p);
            if hit {
                self.ipv4.remove(i);
                return Some(i);
            }
            i = i + 1;
        }
        None
    }
}

/// The match the ping engine registers: an ICMP echo reply carrying the
/// given identifier and sequence number.
#[derive(Clone, Copy, PartialEq, Eq, Structural, Debug)]
pub struct EchoReplyQuery {
    pub identifier: u16,
    pub sequence_number: u16,
}

impl Ipv4Query for EchoReplyQuery {
    open spec fn matches_packet(&self, m: ipv4::PacketModel) -> bool {
        match m.payload {
            ipv4::PayloadModel::ICMP(q) => match q.header {
                icmp::Header::EchoReply(e) => {
                    &&& e.identifier == self.identifier
                    &&& e.sequence_number == self.sequence_number
                },
                _ => false,
            },
            _ => false,
        }
    }

    fn eval(&self, p: &ipv4::Packet) -> (r: bool) {
        match &p.payload {
            ipv4::Payload::ICMP(q) => match &q.header {
                icmp::Header::EchoReply(e) => e.identifier == self.identifier
                    && e.sequence_number == self.sequence_number,
                _ => false,
            },
            _ => false,
        }
    }
}

/// What an inbound frame says about the gateway, if anything: the sender's
/// physical address of an ARP reply whose sender IP is the gateway's.
pub open spec fn arp_reply_for(m: ethernet::FrameModel, gw: Seq<u8>) -> Option<Seq<u8>> {
    match m.payload {
        ethernet::PayloadModel::ARP(a) => if a.operation == arp::Operation::Reply
            && a.sender_ip_addr == gw {
            Some(a.sender_hw_addr)
        } else {
            None
        },
        _ => None,
    }
}

/// The Init-phase decision: whether this inbound frame resolves the
/// gateway's physical address, and to what.
pub fn gateway_mac_from_frame(frame: &ethernet::Frame, gateway: &ipv4::Addr) -> (r: Option<
    ethernet::Addr,
>)
    ensures
        match r {
            Some(mac) => arp_reply_for(frame@, gateway@) == Some(mac@),
            None => arp_reply_for(frame@, gateway@) is None,
        },
{
    match &frame.payload {
        ethernet::Payload::ARP(a) => {
            let is_reply = match a.operation {
                arp::Operation::Reply => true,
                arp::Operation::Request => false,
            };
            if is_reply && ip_eq(&a.sender_ip_addr, gateway) {
                Some(a.sender_hw_addr)
            } else {
                None
            }
        },
        _ => None,
    }
}

/// Octet-wise equality of two IPv4 addresses.
fn ip_eq(x: &ipv4::Addr, y: &ipv4::Addr) -> (r: bool)
    ensures
        r == (x@ == y@),
{
    let r = x.0[0] == y.0[0] && x.0[1] == y.0[1] && x.0[2] == y.0[2] && x.0[3] == y.0[3];
    proof {
        if r {
            assert(x@ =~= y@);
        }
    }
    r
}

} // verus!
