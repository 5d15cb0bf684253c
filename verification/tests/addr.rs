//! Dotted-decimal address parsing.

use std::str::FromStr;
use oppa::ipv4::{Addr, ParseAddrError};

#[test]
fn parse_addr_with_insufficient_octets_fails() {
    assert!(matches!(Addr::from_str("8"), Err(ParseAddrError::InsufficientOctets)));
    assert!(matches!(Addr::from_str("8.8"), Err(ParseAddrError::InsufficientOctets)));
    assert!(matches!(Addr::from_str("8.8.8"), Err(ParseAddrError::InsufficientOctets)));
}

#[test]
fn parse_addr_with_too_many_octets_fails() {
    assert!(matches!(Addr::from_str("8.8.8.8.8"), Err(ParseAddrError::TooManyOctets)));
}

#[test]
fn parse_addr_with_invalid_octet_fails() {
    assert!(matches!(Addr::from_str(""), Err(ParseAddrError::InvalidOctet)));
    assert!(matches!(Addr::from_str("8."), Err(ParseAddrError::InvalidOctet)));
    assert!(matches!(Addr::from_str("8.x.8.8"), Err(ParseAddrError::InvalidOctet)));
    assert!(matches!(Addr::from_str("8.256.8.8"), Err(ParseAddrError::InvalidOctet)));
}

#[test]
fn parse_addr_with_correct_addres_is_ok() {
    assert!(matches!(Addr::from_str("8.8.8.8"), Ok(_)));
}

#[test]
fn parse_addr_yields_the_octet_values() {
    let a = Addr::from_str("192.168.0.254").unwrap();
    assert_eq!(a.0, [192, 168, 0, 254]);
}

#[test]
fn parse_addr_accepts_leading_zeros() {
    let a = Addr::from_str("010.0.00.255").unwrap();
    assert_eq!(a.0, [10, 0, 0, 255]);
}

#[test]
fn addr_serializes_its_octets() {
    let a = Addr([1, 2, 3, 4]);
    let mut out = Vec::new();
    a.serialize(&mut out);
    assert_eq!(out, vec![1, 2, 3, 4]);
}
