//! Wire codecs: parse and serialize scenarios for Ethernet, ARP, IPv4 and
//! ICMP.

use oppa::arp;
use oppa::ethernet;
use oppa::icmp;
use oppa::ipv4;
use oppa::parse::{Cursor, ErrorKind, UnsupportedValue};

fn cursor(b: &[u8]) -> Cursor<'_> {
    Cursor::new(b)
}

// A valid ARP request on the wire, with deliberately nonstandard length
// fields (0xAA, 0xBB): they are parsed but not retained.
fn arp_request_bytes() -> Vec<u8> {
    let mut b = vec![
        0x00, 0x01, // hardware type: Ethernet
        0x08, 0x00, // protocol type: IPv4
        0xAA, 0xBB, // hardware/protocol lengths, nonstandard on purpose
        0x00, 0x01, // operation: request
    ];
    b.extend_from_slice(&[0x10, 0x11, 0x12, 0x13, 0x14, 0x15]); // sender MAC
    b.extend_from_slice(&[10, 0, 0, 1]); // sender IP
    b.extend_from_slice(&[0, 0, 0, 0, 0, 0]); // target MAC
    b.extend_from_slice(&[10, 0, 0, 254]); // target IP
    b
}

#[test]
fn ipv4_version_six_is_rejected_not_parsed() {
    // 0x60: version nibble 6. Everything after it is a plausible header.
    let mut b = vec![0x60u8];
    b.extend_from_slice(&[0; 19]);
    let r = ipv4::Packet::parse(cursor(&b));
    let e = r.err().expect("version 6 must not parse");
    assert_eq!(e.unsupported_value(), Some(UnsupportedValue::Ipv4Version));
}

#[test]
fn ipv4_version_rejection_needs_only_one_byte() {
    let b = [0x61u8];
    let e = ipv4::Packet::parse(cursor(&b)).err().unwrap();
    assert_eq!(e.unsupported_value(), Some(UnsupportedValue::Ipv4Version));
}

#[test]
fn ipv4_short_header_is_a_decode_error() {
    let b = [0x45u8, 0x00, 0x00];
    let e = ipv4::Packet::parse(cursor(&b)).err().unwrap();
    assert_eq!(e.unsupported_value(), None);
    assert!(matches!(e.errors[0].1, ErrorKind::Decode));
}

#[test]
fn ipv4_bit_fields_unpack_msb_first() {
    let b = [
        0x45, 0xAE, // version 4, IHL 5; DSCP 0b101011, ECN 0b10
        0x00, 0x1F, // total length
        0x12, 0x34, // identification
        0xA1, 0x23, // flags 0b101, fragment offset 0x123
        0x40, 0xFE, // TTL 64, protocol 0xFE (unknown)
        0xB1, 0xE6, // checksum
        10, 0, 0, 1, // src
        10, 0, 0, 2, // dst
    ];
    let (c, p) = ipv4::Packet::parse(cursor(&b)).unwrap();
    assert_eq!(c.pos, 20);
    assert_eq!(p.version, 4);
    assert_eq!(p.ihl, 5);
    assert_eq!(p.dscp, 0b101011);
    assert_eq!(p.ecn, 0b10);
    assert_eq!(p.length, 0x001F);
    assert_eq!(p.identification, 0x1234);
    assert_eq!(p.flags, 0b101);
    assert_eq!(p.fragment_offset, 0x0123);
    assert_eq!(p.ttl, 64);
    assert_eq!(p.protocol, None);
    assert_eq!(p.checksum, 0xB1E6);
    assert_eq!(p.src.0, [10, 0, 0, 1]);
    assert_eq!(p.dst.0, [10, 0, 0, 2]);
    assert!(matches!(p.payload, ipv4::Payload::Unknown));
}

#[test]
fn ipv4_serialize_then_parse_reproduces_every_field() {
    let echo = icmp::Echo { identifier: 0xBEEF, sequence_number: 7 };
    let mut p0 = ipv4::Packet::new(
        ipv4::Addr([10, 0, 0, 1]),
        ipv4::Addr([10, 0, 0, 99]),
        ipv4::Payload::ICMP(icmp::Packet::echo_request(echo, b"abc")),
    );
    // Nonzero sub-byte fields must survive the round trip too.
    p0.dscp = 0b101011;
    p0.ecn = 0b10;
    p0.flags = 0b101;
    p0.fragment_offset = 0x123;

    let mut bytes = Vec::new();
    p0.serialize(&mut bytes);
    assert_eq!(bytes.len(), 20 + 8 + 3);
    // The packed bytes: DSCP above ECN, flags above the fragment offset.
    assert_eq!(bytes[1], 0xAE);
    assert_eq!(bytes[6], 0xA1);
    assert_eq!(bytes[7], 0x23);

    let (c, p1) = ipv4::Packet::parse(cursor(&bytes)).unwrap();
    assert_eq!(c.pos, 28);
    assert_eq!(p1.version, 4);
    assert_eq!(p1.ihl, 5);
    assert_eq!(p1.dscp, 0b101011);
    assert_eq!(p1.ecn, 0b10);
    assert_eq!(p1.length, 31);
    assert_eq!(p1.identification, p0.identification);
    assert_eq!(p1.flags, 0b101);
    assert_eq!(p1.fragment_offset, 0x123);
    assert_eq!(p1.ttl, 128);
    assert_eq!(p1.protocol, Some(ipv4::Protocol::ICMP));
    assert_eq!(p1.src.0, [10, 0, 0, 1]);
    assert_eq!(p1.dst.0, [10, 0, 0, 99]);

    // The parsed packet carries the computed length and checksum, so a
    // second rendering and parse reproduce every field exactly.
    let mut bytes2 = Vec::new();
    p1.serialize(&mut bytes2);
    assert_eq!(bytes2, bytes);
    let (_, p2) = ipv4::Packet::parse(cursor(&bytes2)).unwrap();
    assert_eq!(p2.length, p1.length);
    assert_eq!(p2.checksum, p1.checksum);
    assert_eq!(p2.identification, p1.identification);

    // The checksum field re-validates: checksumming the rendered header,
    // checksum included, yields zero.
    assert_eq!(ipv4::checksum(&bytes[0..20]), 0);

    // The nested ICMP message round-tripped too, and its own checksum
    // re-validates over the whole message.
    match (&p1.payload, &p2.payload) {
        (ipv4::Payload::ICMP(q1), ipv4::Payload::ICMP(q2)) => {
            assert!(matches!(q1.typ, icmp::Type::EchoRequest));
            assert_eq!(q1.header, icmp::Header::EchoRequest(echo));
            assert_eq!(q1.payload.0, b"abc");
            assert_eq!(q1.checksum, q2.checksum);
            assert_eq!(ipv4::checksum(&bytes[20..]), 0);
        },
        _ => panic!("expected an ICMP payload"),
    }
}

#[test]
fn arp_hardware_type_6_is_rejected() {
    let mut b = arp_request_bytes();
    b[1] = 0x06; // hardware type 0x0006
    let e = arp::Packet::parse(cursor(&b)).err().unwrap();
    assert_eq!(e.unsupported_value(), Some(UnsupportedValue::ArpHardwareType));
}

#[test]
fn arp_protocol_type_other_than_ipv4_is_rejected() {
    let mut b = arp_request_bytes();
    b[2] = 0x86;
    b[3] = 0xDD;
    let e = arp::Packet::parse(cursor(&b)).err().unwrap();
    assert_eq!(e.unsupported_value(), Some(UnsupportedValue::ArpProtocolType));
}

#[test]
fn arp_operation_other_than_request_or_reply_is_rejected() {
    let mut b = arp_request_bytes();
    b[7] = 0x03;
    let e = arp::Packet::parse(cursor(&b)).err().unwrap();
    assert_eq!(e.unsupported_value(), Some(UnsupportedValue::ArpOperation));
}

#[test]
fn arp_reserialization_always_emits_the_fixed_constants() {
    // The wire bytes carry nonstandard length fields; the parsed packet
    // does not retain them, and re-encoding emits the constants.
    let b = arp_request_bytes();
    let (c, p) = arp::Packet::parse(cursor(&b)).unwrap();
    assert_eq!(c.pos, 28);
    assert!(matches!(p.operation, arp::Operation::Request));

    let mut out = Vec::new();
    p.serialize(&mut out);
    assert_eq!(&out[0..6], &[0x00, 0x01, 0x08, 0x00, 6, 4]);
    assert_eq!(&out[6..8], &[0x00, 0x01]);
    assert_eq!(&out[8..], &b[8..]);
}

#[test]
fn ethernet_unknown_ether_type_keeps_the_rest_uninterpreted() {
    let mut b = vec![
        0x00, 0x01, 0x02, 0x03, 0x04, 0x05, // dst
        0x06, 0x07, 0x08, 0x09, 0x0A, 0x0B, // src
        0x12, 0x34, // EtherType 0x1234: unknown
    ];
    // Trailing garbage that must not be interpreted.
    b.extend_from_slice(&[0x60, 0xFF, 0x00]);
    let (c, f) = ethernet::Frame::parse(cursor(&b)).unwrap();
    assert_eq!(c.pos, 14);
    assert_eq!(f.dst.0, [0x00, 0x01, 0x02, 0x03, 0x04, 0x05]);
    assert_eq!(f.src.0, [0x06, 0x07, 0x08, 0x09, 0x0A, 0x0B]);
    assert_eq!(f.ether_type, None);
    assert!(matches!(f.payload, ethernet::Payload::Unknown));
}

#[test]
fn ethernet_frame_carrying_arp_round_trips() {
    let f = ethernet::Frame {
        dst: ethernet::Addr::broadcast(),
        src: ethernet::Addr([0x10, 0x11, 0x12, 0x13, 0x14, 0x15]),
        ether_type: Some(ethernet::EtherType::ARP),
        payload: ethernet::Payload::ARP(arp::Packet {
            operation: arp::Operation::Request,
            sender_hw_addr: ethernet::Addr([0x10, 0x11, 0x12, 0x13, 0x14, 0x15]),
            sender_ip_addr: ipv4::Addr([10, 0, 0, 1]),
            target_hw_addr: ethernet::Addr::zero(),
            target_ip_addr: ipv4::Addr([10, 0, 0, 254]),
        }),
    };
    let mut out = Vec::new();
    f.serialize(&mut out);
    assert_eq!(out.len(), 14 + 28);
    assert_eq!(&out[12..14], &[0x08, 0x06]);

    let (c, f2) = ethernet::Frame::parse(cursor(&out)).unwrap();
    assert_eq!(c.pos, 42);
    assert_eq!(f2.dst.0, [0xFF; 6]);
    assert_eq!(f2.ether_type, Some(ethernet::EtherType::ARP));
    match f2.payload {
        ethernet::Payload::ARP(a) => {
            assert!(matches!(a.operation, arp::Operation::Request));
            assert_eq!(a.sender_hw_addr.0, [0x10, 0x11, 0x12, 0x13, 0x14, 0x15]);
            assert_eq!(a.sender_ip_addr.0, [10, 0, 0, 1]);
            assert_eq!(a.target_hw_addr.0, [0; 6]);
            assert_eq!(a.target_ip_addr.0, [10, 0, 0, 254]);
        },
        _ => panic!("expected an ARP payload"),
    }
}

#[test]
fn ethernet_short_frame_carries_the_frame_context() {
    // Five bytes: the first MAC address runs out of input.
    let b = [0u8; 5];
    let e = ethernet::Frame::parse(cursor(&b)).err().unwrap();
    assert_eq!(e.errors.len(), 3);
    assert!(matches!(e.errors[0].1, ErrorKind::Decode));
    assert!(matches!(e.errors[1].1, ErrorKind::Context(oppa::parse::Label::MacAddress)));
    assert!(matches!(
        e.errors.last().unwrap().1,
        ErrorKind::Context(oppa::parse::Label::EthernetFrame)
    ));

    // Thirteen bytes: both addresses decode, the tag word runs out.
    let b2 = [0u8; 13];
    let e2 = ethernet::Frame::parse(cursor(&b2)).err().unwrap();
    assert_eq!(e2.errors.len(), 3);
    assert_eq!(e2.errors[0], (12, ErrorKind::Decode));
    assert!(matches!(e2.errors[1].1, ErrorKind::Context(oppa::parse::Label::EtherType)));
    assert!(matches!(
        e2.errors.last().unwrap().1,
        ErrorKind::Context(oppa::parse::Label::EthernetFrame)
    ));
}

#[test]
fn end_to_end_frame_with_icmp_echo_reply() {
    let mut b: Vec<u8> = Vec::new();
    b.extend_from_slice(&[0x00, 0x01, 0x02, 0x03, 0x04, 0x05]); // dst
    b.extend_from_slice(&[0x06, 0x07, 0x08, 0x09, 0x0A, 0x0B]); // src
    b.extend_from_slice(&[0x08, 0x00]); // EtherType: IPv4
    b.extend_from_slice(&[
        0x45, 0x00, 0x00, 0x1F, // version/IHL, DSCP/ECN, total length 31
        0x12, 0x34, 0x00, 0x00, // identification, flags/fragment offset
        0x40, 0x01, 0xAA, 0xBB, // TTL, protocol ICMP, checksum (unchecked)
        0xC0, 0xA8, 0x00, 0x01, // src 192.168.0.1
        0xC0, 0xA8, 0x00, 0x02, // dst 192.168.0.2
    ]);
    b.extend_from_slice(&[
        0x00, 0x00, // type 0 (echo reply), code 0
        0xCC, 0xDD, // checksum (unchecked on decode)
        0xBE, 0xEF, 0x00, 0x00, // identifier 0xBEEF, sequence number 0
        0x61, 0x62, 0x63, // payload "abc"
    ]);

    let (_, f) = ethernet::Frame::parse(cursor(&b)).unwrap();
    assert_eq!(f.ether_type, Some(ethernet::EtherType::IPv4));
    let p = match f.payload {
        ethernet::Payload::IPv4(p) => p,
        _ => panic!("expected an IPv4 payload"),
    };
    assert_eq!(p.protocol, Some(ipv4::Protocol::ICMP));
    assert_eq!(p.src.0, [192, 168, 0, 1]);
    assert_eq!(p.dst.0, [192, 168, 0, 2]);
    let q = match p.payload {
        ipv4::Payload::ICMP(q) => q,
        _ => panic!("expected an ICMP payload"),
    };
    assert!(matches!(q.typ, icmp::Type::EchoReply));
    assert_eq!(
        q.header,
        icmp::Header::EchoReply(icmp::Echo { identifier: 0xBEEF, sequence_number: 0 })
    );
    assert_eq!(q.payload.0, b"abc");
}

#[test]
fn icmp_destination_unreachable_sub_codes_collapse() {
    let b = [
        0x03, 0x01, // destination unreachable, host unreachable
        0x00, 0x00, 0x00, 0x00, 0x00, 0x00,
    ];
    let (_, q) = icmp::Packet::parse(cursor(&b)).unwrap();
    assert!(matches!(
        q.typ,
        icmp::Type::DestinationUnreachable(icmp::DestinationUnreachable::HostUnreachable)
    ));

    let b2 = [0x03, 0x09, 0, 0, 0, 0, 0, 0];
    let (_, q2) = icmp::Packet::parse(cursor(&b2)).unwrap();
    assert!(matches!(
        q2.typ,
        icmp::Type::DestinationUnreachable(icmp::DestinationUnreachable::Other(9))
    ));

    let b3 = [0x0B, 0x00, 0, 0, 0, 0, 0, 0];
    let (_, q3) = icmp::Packet::parse(cursor(&b3)).unwrap();
    assert!(matches!(q3.typ, icmp::Type::TimeExceeded(icmp::TimeExceeded::TTLExpired)));

    let b4 = [0x2A, 0x07, 0, 0, 0, 0, 0, 0];
    let (_, q4) = icmp::Packet::parse(cursor(&b4)).unwrap();
    assert!(matches!(q4.typ, icmp::Type::Other(0x2A, 0x07)));
}

#[test]
fn icmp_serialized_message_checksum_re_validates() {
    let q = icmp::Packet::echo_request(
        icmp::Echo { identifier: 0x1234, sequence_number: 0x0101 },
        b"Lorem ipsum dolor sit amet",
    );
    let mut out = Vec::new();
    q.serialize(&mut out);
    assert_eq!(out[0], 8);
    assert_eq!(out[1], 0);
    // The checksum covers the whole message and re-validates to zero.
    assert_eq!(ipv4::checksum(&out), 0);
}

#[test]
fn icmp_short_message_is_a_decode_error() {
    let b = [0x08, 0x00, 0x12];
    let e = icmp::Packet::parse(cursor(&b)).err().unwrap();
    assert!(matches!(e.errors[0].1, ErrorKind::Decode));
}
