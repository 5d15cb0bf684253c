//! The dispatch registry and the gateway-resolution decision.

use oppa::arp;
use oppa::ethernet;
use oppa::icmp;
use oppa::interface::{gateway_mac_from_frame, EchoReplyQuery, PendingQueries};
use oppa::ipv4;

fn echo_reply_packet(identifier: u16, sequence_number: u16) -> ipv4::Packet {
    let reply = icmp::Packet {
        typ: icmp::Type::EchoReply,
        checksum: 0,
        header: icmp::Header::EchoReply(icmp::Echo { identifier, sequence_number }),
        payload: oppa::blob::Blob::new(b""),
    };
    ipv4::Packet::new(
        ipv4::Addr([10, 0, 0, 254]),
        ipv4::Addr([10, 0, 0, 1]),
        ipv4::Payload::ICMP(reply),
    )
}

#[test]
fn dispatch_resolves_only_the_matching_query() {
    // Two queries outstanding concurrently; a frame matching only the
    // second resolves the second and leaves the first registered.
    let mut reg: PendingQueries<EchoReplyQuery> = PendingQueries::new();
    reg.register(EchoReplyQuery { identifier: 0xAAAA, sequence_number: 1 });
    reg.register(EchoReplyQuery { identifier: 0xBBBB, sequence_number: 2 });

    let packet_b = echo_reply_packet(0xBBBB, 2);
    assert_eq!(reg.dispatch(&packet_b), Some(1));

    // The non-matching query is still registered and unresolved.
    assert_eq!(reg.ipv4.len(), 1);
    assert_eq!(reg.ipv4[0].identifier, 0xAAAA);

    // The same frame again matches nothing and changes nothing.
    assert_eq!(reg.dispatch(&packet_b), None);
    assert_eq!(reg.ipv4.len(), 1);
}

#[test]
fn dispatch_prefers_the_first_match_in_registration_order() {
    let mut reg: PendingQueries<EchoReplyQuery> = PendingQueries::new();
    reg.register(EchoReplyQuery { identifier: 0xC0DE, sequence_number: 3 });
    reg.register(EchoReplyQuery { identifier: 0xC0DE, sequence_number: 3 });

    let p = echo_reply_packet(0xC0DE, 3);
    assert_eq!(reg.dispatch(&p), Some(0));
    assert_eq!(reg.ipv4.len(), 1);
    assert_eq!(reg.dispatch(&p), Some(0));
    assert_eq!(reg.ipv4.len(), 0);
    assert_eq!(reg.dispatch(&p), None);
}

#[test]
fn query_ignores_echo_requests_and_other_ids() {
    let q = EchoReplyQuery { identifier: 1, sequence_number: 1 };
    let mut reg: PendingQueries<EchoReplyQuery> = PendingQueries::new();
    reg.register(q);
    let wrong_id = echo_reply_packet(2, 1);
    let wrong_seq = echo_reply_packet(1, 2);
    assert_eq!(reg.dispatch(&wrong_id), None);
    assert_eq!(reg.dispatch(&wrong_seq), None);
    assert_eq!(reg.ipv4.len(), 1);
}

fn arp_frame(operation: arp::Operation, sender_ip: [u8; 4]) -> ethernet::Frame {
    ethernet::Frame {
        dst: ethernet::Addr([0x0A; 6]),
        src: ethernet::Addr([0x0B; 6]),
        ether_type: Some(ethernet::EtherType::ARP),
        payload: ethernet::Payload::ARP(arp::Packet {
            operation,
            sender_hw_addr: ethernet::Addr([0xDE, 0xAD, 0xBE, 0xEF, 0x00, 0x01]),
            sender_ip_addr: ipv4::Addr(sender_ip),
            target_hw_addr: ethernet::Addr([0x0A; 6]),
            target_ip_addr: ipv4::Addr([10, 0, 0, 1]),
        }),
    }
}

#[test]
fn gateway_mac_comes_from_a_reply_by_the_gateway() {
    let gw = ipv4::Addr([10, 0, 0, 254]);
    let frame = arp_frame(arp::Operation::Reply, [10, 0, 0, 254]);
    let mac = gateway_mac_from_frame(&frame, &gw).expect("the reply resolves the gateway");
    assert_eq!(mac.0, [0xDE, 0xAD, 0xBE, 0xEF, 0x00, 0x01]);
}

#[test]
fn gateway_mac_ignores_requests_and_other_senders() {
    let gw = ipv4::Addr([10, 0, 0, 254]);
    assert!(gateway_mac_from_frame(&arp_frame(arp::Operation::Request, [10, 0, 0, 254]), &gw)
        .is_none());
    assert!(gateway_mac_from_frame(&arp_frame(arp::Operation::Reply, [10, 0, 0, 9]), &gw)
        .is_none());

    let not_arp = ethernet::Frame {
        dst: ethernet::Addr::zero(),
        src: ethernet::Addr::zero(),
        ether_type: None,
        payload: ethernet::Payload::Unknown,
    };
    assert!(gateway_mac_from_frame(&not_arp, &gw).is_none());
}

#[test]
fn echo_request_builder_sets_the_header() {
    let q = icmp::Packet::echo_request(
        icmp::Echo { identifier: 0x1111, sequence_number: 0x2222 },
        b"payload",
    );
    assert!(matches!(q.typ, icmp::Type::EchoRequest));
    assert_eq!(q.checksum, 0);
    assert_eq!(
        q.header,
        icmp::Header::EchoRequest(icmp::Echo { identifier: 0x1111, sequence_number: 0x2222 })
    );
    assert_eq!(q.payload.0, b"payload");
}

#[test]
fn packet_new_takes_the_protocol_from_the_payload() {
    let p = echo_reply_packet(1, 1);
    assert_eq!(p.version, 4);
    assert_eq!(p.ihl, 5);
    assert_eq!(p.ttl, 128);
    assert_eq!(p.protocol, Some(ipv4::Protocol::ICMP));
    assert_eq!(p.checksum, 0);
    assert_eq!(p.length, 0);
}

#[test]
fn blob_copies_its_bytes() {
    let b = oppa::blob::Blob::new(&[1, 2, 3]);
    assert_eq!(b.0, vec![1, 2, 3]);
    let mut out = vec![9];
    b.serialize(&mut out);
    assert_eq!(out, vec![9, 1, 2, 3]);
}
