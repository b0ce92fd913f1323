use ftl_kernel::net::dhcp::Client;
use ftl_kernel::net::dhcp::RxOutcome;
use ftl_kernel::net::dhcp::TX_ID;
use ftl_kernel::net::packet::dhcp::DhcpRewriter;
use ftl_kernel::net::packet::ipv4::Ipv4Rewriter;
use ftl_kernel::net::packet::tcp::TcpRewriter;
use ftl_kernel::net::packet::udp::UdpRewriter;
use ftl_kernel::net::packet::ArpRewriter;
use ftl_kernel::net::packet::Ipv4Addr;
use ftl_kernel::net::router::handle_arp;
use ftl_kernel::net::router::handle_eth_frame;
use ftl_kernel::net::router::Delivery;
use ftl_kernel::net::router::FiveTuple;
use ftl_kernel::net::router::FrameAction;

const THEIR_MAC: [u8; 6] = [2, 0, 0, 0, 0, 1];
const OUR_MAC: [u8; 6] = [2, 0, 0, 0, 0, 2];
const THEIRS: u32 = 0x0a00_0202;
const OURS: u32 = 0x0a00_020f;

fn ethernet(eth_type: u16, payload: &[u8]) -> Vec<u8> {
    let mut f = OUR_MAC.to_vec();
    f.extend_from_slice(&THEIR_MAC);
    f.extend_from_slice(&eth_type.to_be_bytes());
    f.extend_from_slice(payload);
    f
}

fn arp(op: u16, target: u32) -> Vec<u8> {
    let mut p = vec![0u8; 28];
    {
        let mut w = ArpRewriter::new(&mut p[..]).unwrap();
        w.set_hardware_type(1);
        w.set_protocol_type(0x0800);
        w.set_hardware_addr_len(6);
        w.set_protocol_addr_len(4);
        w.set_operation(op);
        w.set_src_mac(THEIR_MAC);
        w.set_src_ip(Ipv4Addr::new(THEIRS));
        w.set_dst_mac([0; 6]);
        w.set_dst_ip(Ipv4Addr::new(target));
    }
    p
}

fn ipv4(proto: u8, src: u32, dst: u32, body: &[u8]) -> Vec<u8> {
    let mut p = vec![0u8; 20];
    {
        let mut w = Ipv4Rewriter::new(&mut p[..]).unwrap();
        w.set_version_and_header_len();
        w.set_total_len((20 + body.len()) as u16);
        w.set_flags_and_fragment_offset(0x4000);
        w.set_ttl(64);
        w.set_ip_proto(proto);
        w.set_src_ip(Ipv4Addr::new(src));
        w.set_dst_ip(Ipv4Addr::new(dst));
        w.update_checksum();
    }
    p.extend_from_slice(body);
    p
}

fn tcp_segment(src: u32, dst: u32) -> Vec<u8> {
    let mut seg = vec![0x1f, 0x90, 0x30, 0x39, 0, 0, 0, 1, 0, 0, 0, 0, 0x50, 0x02, 0x10, 0, 0, 0, 0, 0];
    seg.extend_from_slice(b"data");
    TcpRewriter::new(&mut seg[..])
        .unwrap()
        .update_checksum(Ipv4Addr::new(src), Ipv4Addr::new(dst), None);
    seg
}

fn udp_datagram(src_port: u16, dst_port: u16, src: u32, dst: u32, body: &[u8]) -> Vec<u8> {
    let mut d = vec![0u8; 8];
    d.extend_from_slice(body);
    {
        let mut w = UdpRewriter::new(&mut d[..]).unwrap();
        w.set_src_port(src_port);
        w.set_dst_port(dst_port);
        w.set_len();
        w.update_checksum(Ipv4Addr::new(src), Ipv4Addr::new(dst));
    }
    d
}

fn dhcp_offer() -> Vec<u8> {
    let mut b = vec![0u8; 300];
    {
        let mut w = DhcpRewriter::new(&mut b[..]).unwrap();
        w.set_op(2);
        w.set_hw_type(1);
        w.set_hwaddr_len(6);
        w.set_tx_id(TX_ID);
        w.set_client_hwaddr(OUR_MAC);
        w.write_option(53, &[2]).unwrap();
        w.finish().unwrap();
    }
    b[16..20].copy_from_slice(&OURS.to_be_bytes());
    b
}

#[test]
fn router_arp_request_is_learned_and_answered() {
    let mut client = None;
    let frame = ethernet(0x0806, &arp(1, OURS));
    match handle_eth_frame(&mut client, &frame) {
        FrameAction::Arp { ip, mac, request_target } => {
            assert_eq!(ip, Ipv4Addr::new(THEIRS));
            assert_eq!(mac, THEIR_MAC);
            assert_eq!(request_target, Some(Ipv4Addr::new(OURS)));
        }
        _ => panic!("an ARP packet"),
    }
}

#[test]
fn router_arp_reply_is_only_learned() {
    match handle_arp(&arp(2, OURS)) {
        FrameAction::Arp { ip, request_target, .. } => {
            assert_eq!(ip.as_u32(), THEIRS);
            assert_eq!(request_target, None);
        }
        _ => panic!("an ARP packet"),
    }
    let mut bad = arp(1, OURS);
    bad[1] = 6;
    assert!(matches!(handle_arp(&bad), FrameAction::Ignore));
    assert!(matches!(handle_arp(&bad[..20]), FrameAction::Ignore));
}

#[test]
fn router_tcp_is_routed_by_five_tuple() {
    let mut client = None;
    let packet = ipv4(6, THEIRS, OURS, &tcp_segment(THEIRS, OURS));
    let frame = ethernet(0x0800, &packet);
    match handle_eth_frame(&mut client, &frame) {
        FrameAction::Ipv4 { ip, mac, delivery } => {
            assert_eq!(ip.as_u32(), THEIRS);
            assert_eq!(mac, THEIR_MAC);
            match delivery {
                Delivery::Tcp { five_tuple, total_len, transport_offset, header_len } => {
                    assert_eq!(
                        five_tuple,
                        FiveTuple {
                            eth_type: 0x0800,
                            ip_proto: 6,
                            local_ip: OURS,
                            local_port: 12345,
                            remote_ip: THEIRS,
                            remote_port: 8080,
                        }
                    );
                    assert_eq!(total_len, 44);
                    assert_eq!(transport_offset, 20);
                    assert_eq!(header_len, 40);
                }
                _ => panic!("routed by 5-tuple"),
            }
        }
        _ => panic!("an IPv4 packet"),
    }
}

#[test]
fn router_bad_tcp_checksum_is_discarded_but_sender_learned() {
    let mut client = None;
    let mut seg = tcp_segment(THEIRS, OURS);
    seg[22] ^= 1;
    let frame = ethernet(0x0800, &ipv4(6, THEIRS, OURS, &seg));
    match handle_eth_frame(&mut client, &frame) {
        FrameAction::Ipv4 { ip, delivery, .. } => {
            assert_eq!(ip.as_u32(), THEIRS);
            assert!(matches!(delivery, Delivery::Discard));
        }
        _ => panic!("an IPv4 packet"),
    }
}

#[test]
fn router_invalid_ipv4_is_ignored() {
    let mut client = None;
    let mut packet = ipv4(6, THEIRS, OURS, &tcp_segment(THEIRS, OURS));
    packet[11] ^= 1;
    assert!(matches!(
        handle_eth_frame(&mut client, &ethernet(0x0800, &packet)),
        FrameAction::Ignore
    ));
    assert!(matches!(
        handle_eth_frame(&mut client, &ethernet(0x0800, &[0x45, 0])),
        FrameAction::Ignore
    ));
}

#[test]
fn router_other_frames_are_ignored() {
    let mut client = None;
    assert!(matches!(handle_eth_frame(&mut client, &[0u8; 13]), FrameAction::Ignore));
    assert!(matches!(
        handle_eth_frame(&mut client, &ethernet(0x86dd, &[0u8; 40])),
        FrameAction::Ignore
    ));
    let packet = ipv4(1, THEIRS, OURS, &[8, 0, 0, 0]);
    match handle_eth_frame(&mut client, &ethernet(0x0800, &packet)) {
        FrameAction::Ipv4 { delivery, .. } => assert!(matches!(delivery, Delivery::Discard)),
        _ => panic!("an IPv4 packet"),
    }
}

#[test]
fn router_dhcp_goes_to_the_client() {
    let mut client = Some(Client::new(OUR_MAC));
    let body = udp_datagram(67, 68, THEIRS, 0xffff_ffff, &dhcp_offer());
    let frame = ethernet(0x0800, &ipv4(17, THEIRS, 0xffff_ffff, &body));
    match handle_eth_frame(&mut client, &frame) {
        FrameAction::Ipv4 { delivery: Delivery::Dhcp(RxOutcome::SendRequest(bytes)), .. } => {
            assert_eq!(&bytes[240..243], &[53, 1, 3]);
        }
        _ => panic!("the offer reaches the client"),
    }
}

#[test]
fn router_udp_without_client_or_to_other_ports_is_discarded() {
    let mut none = None;
    let body = udp_datagram(67, 68, THEIRS, 0xffff_ffff, &dhcp_offer());
    let frame = ethernet(0x0800, &ipv4(17, THEIRS, 0xffff_ffff, &body));
    match handle_eth_frame(&mut none, &frame) {
        FrameAction::Ipv4 { delivery, .. } => assert!(matches!(delivery, Delivery::Discard)),
        _ => panic!("an IPv4 packet"),
    }
    let mut client = Some(Client::new(OUR_MAC));
    let other = udp_datagram(53, 68, THEIRS, OURS, b"x");
    let frame = ethernet(0x0800, &ipv4(17, THEIRS, OURS, &other));
    match handle_eth_frame(&mut client, &frame) {
        FrameAction::Ipv4 { delivery, .. } => assert!(matches!(delivery, Delivery::Discard)),
        _ => panic!("an IPv4 packet"),
    }
    let mut corrupt = udp_datagram(67, 68, THEIRS, OURS, b"x");
    corrupt[8] ^= 1;
    let frame = ethernet(0x0800, &ipv4(17, THEIRS, OURS, &corrupt));
    match handle_eth_frame(&mut client, &frame) {
        FrameAction::Ipv4 { delivery, .. } => assert!(matches!(delivery, Delivery::Discard)),
        _ => panic!("an IPv4 packet"),
    }
}
