use ftl_kernel::net::packet::ArpInspector;
use ftl_kernel::net::packet::ArpRewriter;
use ftl_kernel::net::packet::Error;
use ftl_kernel::net::packet::Ipv4Addr;
use ftl_kernel::net::packet::Ipv4Inspector;
use ftl_kernel::net::packet::Ipv4Rewriter;
use ftl_kernel::net::packet::TcpInspector;
use ftl_kernel::net::packet::TcpRewriter;

const SRC: u32 = 0x0a00_0202;
const DST: u32 = 0x0a00_020f;

/// A TCP header from port 80 to port 12345, seq 1, ack 2, PSH|ACK, window
/// 0xffff, with a zero checksum field.
fn tcp_header() -> [u8; 20] {
    [0, 80, 0x30, 0x39, 0, 0, 0, 1, 0, 0, 0, 2, 0x50, 0x18, 0xff, 0xff, 0, 0, 0, 0]
}

/// The IPv4 packet carrying `tcp_header()` and the payload "hi".
fn flat_tcp_packet() -> Vec<u8> {
    let mut header = [0u8; 20];
    {
        let mut w = Ipv4Rewriter::new(&mut header).unwrap();
        w.set_version(4);
        w.set_header_len(20).unwrap();
        w.set_dscp_ecn(0);
        w.set_total_len(42).unwrap();
        w.set_identification(0);
        w.set_flags_fragment_offset(0x4000);
        w.set_ttl(64);
        w.set_ip_proto(6);
        w.set_src_ip(Ipv4Addr::new(SRC));
        w.set_dst_ip(Ipv4Addr::new(DST));
        w.recompute_checksum().unwrap();
    }
    let mut tcp = tcp_header();
    TcpRewriter::new(&mut tcp)
        .unwrap()
        .recompute_checksum(Ipv4Addr::new(SRC), Ipv4Addr::new(DST), b"hi")
        .unwrap();
    let mut p = header.to_vec();
    p.extend_from_slice(&tcp);
    p.extend_from_slice(b"hi");
    p
}

#[test]
fn flat_ipv4_checksum_exact_value() {
    let p = flat_tcp_packet();
    assert_eq!((p[10], p[11]), (0x22, 0xbe));
    assert_eq!(p[0], 0x45);
}

#[test]
fn flat_tcp_checksum_exact_value() {
    let p = flat_tcp_packet();
    assert_eq!((p[36], p[37]), (0xfe, 0xc4));
}

#[test]
fn flat_ipv4_inspects_and_validates() {
    let p = flat_tcp_packet();
    let ip = Ipv4Inspector::new(&p).unwrap();
    assert_eq!(ip.validate(), Ok(()));
    assert_eq!(ip.packet_len(), 42);
    assert_eq!(ip.header_len(), 20);
    assert_eq!(ip.payload_len(), 22);
    assert_eq!(ip.ip_proto(), 6);
    assert_eq!(ip.flags_fragment_offset(), 0x4000);
    assert_eq!(ip.src_ip().as_u32(), SRC);
    assert_eq!(ip.dst_ip().as_u32(), DST);
    assert_eq!(ip.payload().unwrap().len(), 22);
}

#[test]
fn flat_tcp_inspects_and_validates() {
    let p = flat_tcp_packet();
    let ip = Ipv4Inspector::new(&p).unwrap();
    let tcp = TcpInspector::new(ip.payload().unwrap()).unwrap();
    assert_eq!(tcp.validate(&ip), Ok(()));
    assert_eq!(tcp.src_port(), 80);
    assert_eq!(tcp.dst_port(), 12345);
    assert_eq!(tcp.seq(), 1);
    assert_eq!(tcp.ack(), 2);
    assert_eq!(tcp.flags(), 0x18);
    assert_eq!(tcp.window_size(), 0xffff);
    assert_eq!(tcp.header_len(), 20);
    assert_eq!(tcp.payload_len(), 2);
}

#[test]
fn flat_tcp_bad_checksum_and_not_tcp() {
    let mut p = flat_tcp_packet();
    p[41] ^= 1;
    let ip = Ipv4Inspector::new(&p).unwrap();
    let tcp = TcpInspector::new(ip.payload().unwrap()).unwrap();
    assert_eq!(tcp.validate(&ip), Err(Error::InvalidTcpChecksum));

    let mut udp = flat_tcp_packet();
    udp[9] = 17;
    let ip = Ipv4Inspector::new(&udp).unwrap();
    let tcp = TcpInspector::new(ip.payload().unwrap()).unwrap();
    assert_eq!(tcp.validate(&ip), Err(Error::NotTcp));
}

#[test]
fn flat_header_errors() {
    let p = flat_tcp_packet();
    assert!(matches!(Ipv4Inspector::new(&p[..10]), Err(Error::Ipv4HeaderTooShort)));
    let mut bad = p.clone();
    bad[0] = 0x60;
    assert!(matches!(Ipv4Inspector::new(&bad), Err(Error::NotIpv4)));
    bad[0] = 0x43;
    assert!(matches!(Ipv4Inspector::new(&bad), Err(Error::InvalidIpv4HeaderLength)));
    let mut short_total = p.clone();
    short_total[3] = 10;
    assert!(matches!(Ipv4Inspector::new(&short_total), Err(Error::InvalidPacketLength)));
    let truncated = &p[..30];
    let ip = Ipv4Inspector::new(truncated).unwrap();
    assert_eq!(ip.validate(), Err(Error::InvalidPacketLength));
    assert!(matches!(ip.payload(), Err(Error::InvalidPacketLength)));
    let mut fragment = p.clone();
    fragment[6] = 0x20;
    Ipv4Rewriter::new(&mut fragment).unwrap().recompute_checksum().unwrap();
    assert_eq!(Ipv4Inspector::new(&fragment).unwrap().validate(), Err(Error::FragmentedPacket));
    let mut bad_sum = p.clone();
    bad_sum[11] ^= 0xff;
    assert_eq!(Ipv4Inspector::new(&bad_sum).unwrap().validate(), Err(Error::InvalidIpv4Checksum));
    assert!(matches!(TcpInspector::new(&p[20..30]), Err(Error::TcpHeaderTooShort)));
    let mut bad_offset = tcp_header();
    bad_offset[12] = 0x40;
    assert!(matches!(TcpInspector::new(&bad_offset), Err(Error::InvalidTcpHeaderLength)));
}

#[test]
fn flat_rewriter_errors() {
    let mut short = [0u8; 10];
    assert!(matches!(Ipv4Rewriter::new(&mut short), Err(Error::Ipv4HeaderTooShort)));
    assert!(matches!(TcpRewriter::new(&mut short), Err(Error::TcpHeaderTooShort)));
    let mut header = [0u8; 20];
    let mut w = Ipv4Rewriter::new(&mut header).unwrap();
    assert_eq!(w.set_header_len(22), Err(Error::InvalidIpv4HeaderLength));
    assert_eq!(w.set_header_len(24), Err(Error::InvalidIpv4HeaderLength));
    assert_eq!(w.set_total_len(0x1_0000), Err(Error::InvalidPacketLength));
    assert_eq!(w.recompute_checksum(), Err(Error::InvalidIpv4HeaderLength));
    let mut tcp = [0u8; 20];
    let mut t = TcpRewriter::new(&mut tcp).unwrap();
    assert_eq!(t.set_header_len(18), Err(Error::InvalidTcpHeaderLength));
    assert_eq!(
        t.recompute_checksum(Ipv4Addr::new(SRC), Ipv4Addr::new(DST), b""),
        Err(Error::InvalidTcpHeaderLength)
    );
    t.set_header_len(20).unwrap();
    let big = vec![0u8; 0x1_0000];
    assert_eq!(
        t.recompute_checksum(Ipv4Addr::new(SRC), Ipv4Addr::new(DST), &big),
        Err(Error::InvalidPacketLength)
    );
}

#[test]
fn flat_tcp_rewriter_fields() {
    let mut tcp = [0u8; 24];
    {
        let mut t = TcpRewriter::new(&mut tcp).unwrap();
        t.set_src_port(1);
        t.set_dst_port(2);
        t.set_seq(0x0102_0304);
        t.set_ack(0x0506_0708);
        t.set_header_len(24).unwrap();
        t.set_flags(0x02);
        t.set_window_size(0x1234);
        t.set_checksum(0xabcd);
        t.set_urgent_pointer(0x0009);
    }
    assert_eq!(
        tcp,
        [0, 1, 0, 2, 1, 2, 3, 4, 5, 6, 7, 8, 0x60, 0x02, 0x12, 0x34, 0xab, 0xcd, 0, 9, 0, 0, 0, 0]
    );
    assert_eq!(TcpInspector::new(&tcp).unwrap().header_len(), 24);
}

#[test]
fn flat_ipv4_version_and_ihl_nibbles() {
    let mut header = [0xffu8; 20];
    let mut w = Ipv4Rewriter::new(&mut header).unwrap();
    w.set_version(4);
    assert_eq!(w.buf[0], 0x4f);
    w.set_header_len(20).unwrap();
    assert_eq!(w.buf[0], 0x45);
    w.set_checksum(0x1234);
    assert_eq!((w.buf[10], w.buf[11]), (0x12, 0x34));
}

#[test]
fn flat_arp_round_trip() {
    let mut p = [0u8; 28];
    {
        let mut w = ArpRewriter::new(&mut p).unwrap();
        w.set_hardware_type(1);
        w.set_protocol_type(0x0800);
        w.set_hardware_addr_len(6);
        w.set_protocol_addr_len(4);
        w.set_operation(1);
        w.set_src_mac([1, 2, 3, 4, 5, 6]);
        w.set_src_ip(Ipv4Addr::new(SRC));
        w.set_dst_mac([0; 6]);
        w.set_dst_ip(Ipv4Addr::new(DST));
    }
    let a = ArpInspector::new(&p).unwrap();
    assert_eq!(a.hardware_type(), 1);
    assert_eq!(a.protocol_type(), 0x0800);
    assert_eq!(a.hardware_addr_len(), 6);
    assert_eq!(a.protocol_addr_len(), 4);
    assert_eq!(a.operation(), 1);
    assert_eq!(a.src_mac(), [1, 2, 3, 4, 5, 6]);
    assert_eq!(a.src_ip().as_u32(), SRC);
    assert_eq!(a.dst_mac(), [0; 6]);
    assert_eq!(a.dst_ip().as_u32(), DST);
}

#[test]
fn flat_arp_errors() {
    let p = [0u8; 27];
    assert!(matches!(ArpInspector::new(&p), Err(Error::ArpPacketTooShort)));
    let q = [0u8; 28];
    assert!(matches!(ArpInspector::new(&q), Err(Error::UnsupportedArpPacket)));
    let mut r = [0u8; 27];
    assert!(matches!(ArpRewriter::new(&mut r), Err(Error::ArpPacketTooShort)));
}
