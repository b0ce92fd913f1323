use ftl_kernel::net::packet::checksum::Checksum;
use ftl_kernel::net::packet::Ipv4Addr;

#[test]
fn checksum_of_nothing_is_all_ones() {
    assert_eq!(Checksum::new().finish(), 0xffff);
}

#[test]
fn checksum_rfc1071_example() {
    // RFC 1071: the words 0001 f203 f4f5 f6f7 sum to 0xddf2 after folding.
    let mut c = Checksum::new();
    c.add_bytes(&[0x00, 0x01, 0xf2, 0x03, 0xf4, 0xf5, 0xf6, 0xf7]);
    assert_eq!(c.finish(), !0xddf2u16);
}

#[test]
fn checksum_odd_byte_is_padded_with_zero() {
    let mut odd = Checksum::new();
    odd.add_bytes(&[0x12, 0x34, 0x56]);
    let mut padded = Checksum::new();
    padded.add_u16(0x1234);
    padded.add_u16(0x5600);
    assert_eq!(odd.finish(), padded.finish());
    let mut c = Checksum::new();
    c.add_bytes(&[0x12, 0x34, 0x56]);
    assert_eq!(c.finish(), !(0x1234u16 + 0x5600));
}

#[test]
fn checksum_folds_carries() {
    let mut c = Checksum::new();
    c.add_u16(0xffff);
    c.add_u16(0x0002);
    // 0x10001 folds to 0x0002.
    assert_eq!(c.finish(), !0x0002u16);
}

#[test]
fn checksum_adds_both_halves_of_an_address() {
    let mut c = Checksum::new();
    c.add_ipv4(Ipv4Addr::new(0xc0a8_0001));
    let mut d = Checksum::new();
    d.add_u16(0xc0a8);
    d.add_u16(0x0001);
    assert_eq!(c.finish(), d.finish());
    let mut e = Checksum::new();
    e.add_ipv4(Ipv4Addr::new(0xc0a8_0001));
    assert_eq!(e.finish(), !0xc0a9u16);
}
