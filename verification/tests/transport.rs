use ftl_kernel::net::packet::arp;
use ftl_kernel::net::packet::ipv4::Ipv4Inspector;
use ftl_kernel::net::packet::ipv4::Ipv4Rewriter;
use ftl_kernel::net::packet::tcp;
use ftl_kernel::net::packet::udp;
use ftl_kernel::net::packet::Ipv4Addr;

const SRC: u32 = 0x0a00_0202;
const DST: u32 = 0x0a00_020f;

fn ipv4_header(proto: u8, total_len: u16) -> [u8; 20] {
    let mut h = [0u8; 20];
    {
        let mut w = Ipv4Rewriter::new(&mut h).unwrap();
        w.set_version_and_header_len();
        w.set_total_len(total_len);
        w.set_identification(0);
        w.set_flags_and_fragment_offset(0x4000);
        w.set_ttl(64);
        w.set_ip_proto(proto);
        w.set_src_ip(Ipv4Addr::new(SRC));
        w.set_dst_ip(Ipv4Addr::new(DST));
        w.update_checksum();
    }
    h
}

fn tcp_module_packet() -> Vec<u8> {
    let mut seg = vec![0, 80, 0x30, 0x39, 0, 0, 0, 1, 0, 0, 0, 2, 0x50, 0x18, 0xff, 0xff, 0, 0, 0, 0];
    tcp::TcpRewriter::new(&mut seg[..])
        .unwrap()
        .update_checksum(Ipv4Addr::new(SRC), Ipv4Addr::new(DST), Some(b"hi"));
    let mut p = ipv4_header(6, 42).to_vec();
    p.extend_from_slice(&seg);
    p.extend_from_slice(b"hi");
    p
}

fn udp_packet(payload: &[u8]) -> Vec<u8> {
    let mut d = vec![0u8; 8];
    d.extend_from_slice(payload);
    {
        let mut w = udp::UdpRewriter::new(&mut d[..]).unwrap();
        w.set_src_port(67);
        w.set_dst_port(68);
        w.set_len();
        w.update_checksum(Ipv4Addr::new(SRC), Ipv4Addr::new(DST));
    }
    let mut p = ipv4_header(udp::IPPROTO_UDP, (20 + d.len()) as u16).to_vec();
    p.extend_from_slice(&d);
    p
}

#[test]
fn tcp_checksum_exact_value_and_fields() {
    let p = tcp_module_packet();
    assert_eq!((p[36], p[37]), (0xfe, 0xc4));
    let ip = Ipv4Inspector::new(&p).unwrap();
    let t = tcp::TcpInspector::new(ip.payload()).unwrap();
    assert_eq!(t.validate(&ip), Ok(()));
    assert_eq!(t.checksum(), 0xfec4);
    assert_eq!(t.src_port(), 80);
    assert_eq!(t.dst_port(), 12345);
    assert_eq!(t.seq(), 1);
    assert_eq!(t.ack(), 2);
    assert_eq!(t.flags(), 0x18);
    assert_eq!(t.window_size(), 0xffff);
    assert_eq!(t.header_len(), 20);
    assert_eq!(t.payload_len(), 2);
}

#[test]
fn tcp_checksum_without_separate_payload() {
    let mut seg = vec![0, 80, 0x30, 0x39, 0, 0, 0, 1, 0, 0, 0, 2, 0x50, 0x18, 0xff, 0xff, 0, 0, 0, 0];
    seg.extend_from_slice(b"hi");
    tcp::TcpRewriter::new(&mut seg[..])
        .unwrap()
        .update_checksum(Ipv4Addr::new(SRC), Ipv4Addr::new(DST), None);
    assert_eq!((seg[16], seg[17]), (0xfe, 0xc4));
}

#[test]
fn tcp_errors() {
    let mut p = tcp_module_packet();
    p[40] ^= 0x55;
    let ip = Ipv4Inspector::new(&p).unwrap();
    let t = tcp::TcpInspector::new(ip.payload()).unwrap();
    assert_eq!(t.validate(&ip), Err(tcp::Error::InvalidTcpChecksum));
    let u = udp_packet(b"abc");
    let ip = Ipv4Inspector::new(&u).unwrap();
    let mut seg = [0u8; 20];
    seg[12] = 0x50;
    let t = tcp::TcpInspector::new(&seg).unwrap();
    assert_eq!(t.validate(&ip), Err(tcp::Error::NotTcp));
    assert!(matches!(tcp::TcpInspector::new(&seg[..19]), Err(tcp::Error::TcpHeaderTooShort)));
    seg[12] = 0x60;
    assert!(matches!(tcp::TcpInspector::new(&seg), Err(tcp::Error::InvalidTcpHeaderLength)));
    let mut short = [0u8; 19];
    assert!(matches!(tcp::TcpRewriter::new(&mut short), Err(tcp::Error::TcpHeaderTooShort)));
}

#[test]
fn udp_checksum_exact_value_and_fields() {
    let p = udp_packet(b"abc");
    assert_eq!((p[26], p[27]), (0x22, 0xde));
    assert_eq!((p[24], p[25]), (0, 11));
    let ip = Ipv4Inspector::new(&p).unwrap();
    let u = udp::UdpInspector::new(ip.payload()).unwrap();
    assert_eq!(u.validate(&ip), Ok(()));
    assert_eq!(u.src_port(), 67);
    assert_eq!(u.dst_port(), 68);
    assert_eq!(u.checksum(), 0x22de);
    assert_eq!(u.payload(), b"abc");
}

#[test]
fn udp_zero_checksum_is_not_checked() {
    let mut p = udp_packet(b"abc");
    p[26] = 0;
    p[27] = 0;
    let ip = Ipv4Inspector::new(&p).unwrap();
    let u = udp::UdpInspector::new(ip.payload()).unwrap();
    assert_eq!(u.validate(&ip), Ok(()));
}

#[test]
fn udp_errors() {
    let mut p = udp_packet(b"abc");
    p[30] ^= 1;
    let ip = Ipv4Inspector::new(&p).unwrap();
    let u = udp::UdpInspector::new(ip.payload()).unwrap();
    assert_eq!(u.validate(&ip), Err(udp::Error::InvalidChecksum));
    let t = tcp_module_packet();
    let ip = Ipv4Inspector::new(&t).unwrap();
    let d = [0, 1, 0, 2, 0, 8, 0, 0];
    let u = udp::UdpInspector::new(&d).unwrap();
    assert_eq!(u.validate(&ip), Err(udp::Error::NotUdp));
    assert!(matches!(udp::UdpInspector::new(&d[..7]), Err(udp::Error::TooShort)));
    let too_long = [0, 1, 0, 2, 0, 9, 0, 0];
    assert!(matches!(udp::UdpInspector::new(&too_long), Err(udp::Error::InvalidLength)));
    let too_short_len = [0, 1, 0, 2, 0, 7, 0, 0];
    assert!(matches!(udp::UdpInspector::new(&too_short_len), Err(udp::Error::InvalidLength)));
    let mut small = [0u8; 7];
    assert!(matches!(udp::UdpRewriter::new(&mut small), Err(udp::Error::TooShort)));
    let mut huge = vec![0u8; 0x1_0000];
    assert!(matches!(udp::UdpRewriter::new(&mut huge[..]), Err(udp::Error::InvalidLength)));
}

#[test]
fn udp_payload_stops_at_stated_length() {
    let d = [0, 1, 0, 2, 0, 9, 0, 0, b'x', b'y', b'z'];
    let u = udp::UdpInspector::new(&d).unwrap();
    assert_eq!(u.payload(), b"x");
}

#[test]
fn arp_module_round_trip_and_errors() {
    let mut p = [0u8; 28];
    {
        let mut w = arp::ArpRewriter::new(&mut p).unwrap();
        w.set_hardware_type(arp::ARP_HW_ETHERNET);
        w.set_protocol_type(0x0800);
        w.set_hardware_addr_len(arp::ARP_HWADDR_LEN);
        w.set_protocol_addr_len(arp::ARP_IPADDR_LEN);
        w.set_operation(arp::ARP_OP_REPLY);
        w.set_src_mac([1, 2, 3, 4, 5, 6]);
        w.set_src_ip(Ipv4Addr::new(SRC));
        w.set_dst_mac([6, 5, 4, 3, 2, 1]);
        w.set_dst_ip(Ipv4Addr::new(DST));
    }
    let a = arp::ArpInspector::new(&p).unwrap();
    assert_eq!(a.hw_type(), 1);
    assert_eq!(a.protocol_type(), 0x0800);
    assert_eq!(a.hwaddr_len(), 6);
    assert_eq!(a.ipaddr_len(), 4);
    assert_eq!(a.op(), 2);
    assert_eq!(a.src_mac(), [1, 2, 3, 4, 5, 6]);
    assert_eq!(a.src_ip().as_u32(), SRC);
    assert_eq!(a.dst_mac(), [6, 5, 4, 3, 2, 1]);
    assert_eq!(a.dst_ip().as_u32(), DST);
    assert!(matches!(arp::ArpInspector::new(&p[..27]), Err(arp::Error::ArpPacketTooShort)));
    let mut q = p;
    q[5] = 16;
    assert!(matches!(arp::ArpInspector::new(&q), Err(arp::Error::UnsupportedArpPacket)));
}
