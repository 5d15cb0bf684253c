//! The Internet checksum against a known-good capture and its
//! self-verification property.

use oppa::ipv4::checksum;

// A real IPv4 header whose published checksum is 0xB1E6.
const HEADER: [u8; 20] = [
    0x45, 0x00, 0x00, 0x3c, 0x1c, 0x46, 0x40, 0x00, 0x40, 0x06, 0xb1, 0xe6, 0xac, 0x10, 0x0a,
    0x63, 0xac, 0x10, 0x0a, 0x0c,
];

#[test]
fn checksum_matches_known_good_capture() {
    let mut zeroed = HEADER;
    zeroed[10] = 0;
    zeroed[11] = 0;
    assert_eq!(checksum(&zeroed), 0xB1E6);
}

#[test]
fn checksum_of_patched_buffer_is_zero() {
    assert_eq!(checksum(&HEADER), 0);
}

#[test]
fn checksum_of_empty_buffer() {
    assert_eq!(checksum(&[]), 0xFFFF);
}

#[test]
fn checksum_pads_an_odd_trailing_byte_on_the_right() {
    // One byte 0xAB counts as the word 0xAB00.
    assert_eq!(checksum(&[0xAB]), !0xAB00u16);
    // Three bytes: 0x0102 + 0x0300 = 0x0402.
    assert_eq!(checksum(&[0x01, 0x02, 0x03]), !0x0402u16);
}

#[test]
fn checksum_folds_the_end_around_carry() {
    // 0xFFFF + 0x0001 wraps to 0x0001 with the carry folded back in.
    assert_eq!(checksum(&[0xFF, 0xFF, 0x00, 0x01]), !0x0001u16);
}
