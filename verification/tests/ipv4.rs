use ftl_kernel::net::packet::ipv4::Error;
use ftl_kernel::net::packet::ipv4::Ipv4Inspector;
use ftl_kernel::net::packet::ipv4::Ipv4Rewriter;
use ftl_kernel::net::packet::Ipv4Addr;
use ftl_kernel::net::packet::NetMask;

/// A well-known UDP packet header: 192.168.0.1 -> 192.168.0.199, 115 bytes,
/// checksum 0xb861.
fn known_packet() -> Vec<u8> {
    let mut p = vec![
        0x45, 0x00, 0x00, 0x73, 0x00, 0x00, 0x40, 0x00, 0x40, 0x11, 0xb8, 0x61, 0xc0, 0xa8, 0x00,
        0x01, 0xc0, 0xa8, 0x00, 0xc7,
    ];
    p.resize(0x73, 0);
    p
}

#[test]
fn ipv4_known_header_fields() {
    let p = known_packet();
    let ip = Ipv4Inspector::new(&p).unwrap();
    assert_eq!(ip.validate(), Ok(()));
    assert_eq!(ip.total_len(), 115);
    assert_eq!(ip.header_len(), 20);
    assert_eq!(ip.payload_len(), 95);
    assert_eq!(ip.payload().len(), 95);
    assert_eq!(ip.ip_proto(), 0x11);
    assert_eq!(ip.checksum(), 0xb861);
    assert_eq!(ip.fragment_offset(), 0x4000);
    assert_eq!(ip.src_ip(), Ipv4Addr::new(0xc0a8_0001));
    assert_eq!(ip.dst_ip().as_u32(), 0xc0a8_00c7);
}

#[test]
fn ipv4_rewriter_computes_known_checksum() {
    let mut buf = [0u8; 20];
    {
        let mut w = Ipv4Rewriter::new(&mut buf).unwrap();
        w.set_version_and_header_len();
        w.set_total_len(0x73);
        w.set_identification(0);
        w.set_flags_and_fragment_offset(0x4000);
        w.set_ttl(0x40);
        w.set_ip_proto(0x11);
        w.set_src_ip(Ipv4Addr::new(0xc0a8_0001));
        w.set_dst_ip(Ipv4Addr::new(0xc0a8_00c7));
        w.update_checksum();
    }
    assert_eq!(&buf[..], &known_packet()[..20]);
}

#[test]
fn ipv4_update_checksum_replaces_a_wrong_one() {
    let mut p = known_packet();
    p[10] = 0x12;
    p[11] = 0x34;
    assert_eq!(Ipv4Inspector::new(&p).unwrap().validate(), Err(Error::InvalidChecksum));
    Ipv4Rewriter::new(&mut p).unwrap().update_checksum();
    assert_eq!((p[10], p[11]), (0xb8, 0x61));
    assert_eq!(Ipv4Inspector::new(&p).unwrap().validate(), Ok(()));
}

#[test]
fn ipv4_header_errors() {
    let p = known_packet();
    assert!(matches!(Ipv4Inspector::new(&p[..19]), Err(Error::TooShort)));
    let mut v6 = p.clone();
    v6[0] = 0x65;
    assert!(matches!(Ipv4Inspector::new(&v6), Err(Error::NotIpv4)));
    let mut short_ihl = p.clone();
    short_ihl[0] = 0x44;
    assert!(matches!(Ipv4Inspector::new(&short_ihl), Err(Error::InvalidHeaderLength)));
    let mut long_ihl = p[..20].to_vec();
    long_ihl[0] = 0x46;
    assert!(matches!(Ipv4Inspector::new(&long_ihl), Err(Error::InvalidHeaderLength)));
    let mut tiny_total = p.clone();
    tiny_total[2] = 0;
    tiny_total[3] = 19;
    assert!(matches!(Ipv4Inspector::new(&tiny_total), Err(Error::InvalidPacketLength)));
}

#[test]
fn ipv4_validation_errors() {
    let p = known_packet();
    let truncated = &p[..100];
    assert_eq!(Ipv4Inspector::new(truncated).unwrap().validate(), Err(Error::InvalidPacketLength));
    let mut fragment = p.clone();
    fragment[6] = 0x20;
    Ipv4Rewriter::new(&mut fragment).unwrap().update_checksum();
    assert_eq!(Ipv4Inspector::new(&fragment).unwrap().validate(), Err(Error::Fragmented));
    let mut offset = p.clone();
    offset[7] = 0x01;
    Ipv4Rewriter::new(&mut offset).unwrap().update_checksum();
    assert_eq!(Ipv4Inspector::new(&offset).unwrap().validate(), Err(Error::Fragmented));
}

#[test]
fn ipv4_rewriter_too_short() {
    let mut buf = [0u8; 19];
    assert!(matches!(Ipv4Rewriter::new(&mut buf), Err(Error::TooShort)));
}

#[test]
fn netmask_contains_checks_the_mask_bits() {
    let mask = NetMask::new(0xffff_ff00);
    assert!(mask.contains(Ipv4Addr::new(0xffff_ff01)));
    assert!(!mask.contains(Ipv4Addr::new(0xc0a8_0001)));
    assert!(NetMask::new(0).contains(Ipv4Addr::new(0x0a00_020f)));
}
