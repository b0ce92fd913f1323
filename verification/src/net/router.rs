//! The receive path: what to do with an Ethernet frame that arrived.
//!
//! The functions here parse and validate; they return what the caller is to
//! do (learn an address, answer ARP, forward a TCP segment to the network
//! that matches its 5-tuple, hand the outcome of DHCP on).
use vstd::prelude::*;

use super::dhcp::Client;
use super::dhcp::RxOutcome;
use super::dhcp::rx_step;
use super::packet::ETHTYPE_ARP;
use super::packet::ETHTYPE_IPV4;
use super::packet::IPPROTO_TCP;
use super::packet::Ipv4Addr;
use super::packet::arp::ARP_OP_REQUEST;
use super::packet::arp::ArpInspector;
use super::packet::arp_supported;
use super::packet::dhcp::DHCP_CLIENT_PORT;
use super::packet::dhcp::DHCP_SERVER_PORT;
use super::packet::ethernet::EthernetInspector;
use super::packet::ipv4;
use super::packet::ipv4::Ipv4Inspector;
use super::packet::ipv4_ihl_len;
use super::packet::tcp;
use super::packet::tcp::TcpInspector;
use super::packet::tcp_data_offset_len;
use super::packet::udp;
use super::packet::udp::IPPROTO_UDP;
use super::packet::udp::UdpInspector;
use super::packet::wire::be16;
use super::packet::wire::be32;
use super::packet::wire::checksum_ok;
use super::packet::wire::word_sum;

verus! {

/// The key by which a received packet is routed to a network.
#[derive(Debug, Clone, Copy, PartialEq, Eq, Structural)]
pub struct FiveTuple {
    pub eth_type: u16,
    pub ip_proto: u8,
    pub local_ip: u32,
    pub local_port: u16,
    pub remote_ip: u32,
    pub remote_port: u16,
}

/// Where the payload of a received IPv4 packet goes.
pub enum Delivery {
    /// Nowhere: the payload is dropped.
    Discard,
    /// To the network matching `five_tuple`; the packet is `total_len`
    /// bytes, of which `header_len` are IPv4 and TCP headers; the TCP
    /// header starts at `transport_offset`.
    Tcp { five_tuple: FiveTuple, total_len: usize, transport_offset: usize, header_len: usize },
    /// It was a message from a DHCP server, which the DHCP client handled.
    Dhcp(RxOutcome),
}

/// What to do with a received frame.
pub enum FrameAction {
    /// Drop it.
    Ignore,
    /// An ARP packet from `ip` at `mac`: learn the pair; if it asks for
    /// `request_target`, answer when that is one of our addresses.
    Arp { ip: Ipv4Addr, mac: [u8; 6], request_target: Option<Ipv4Addr> },
    /// A valid IPv4 packet from `ip` at `mac`: learn the pair, then deliver.
    Ipv4 { ip: Ipv4Addr, mac: [u8; 6], delivery: Delivery },
}

/// The route of a TCP segment carried in the validated IPv4 packet `ip`, if
/// the segment is well formed and its checksum is correct: its 5-tuple
/// (local is the destination), and the length of its header.
pub open spec fn tcp_route(ip: Seq<u8>) -> Option<(FiveTuple, usize)> {
    let seg = ip.subrange(ipv4_ihl_len(ip), be16(ip, 2));
    if ip[9] != IPPROTO_TCP || tcp::header_error(seg) is Some || !checksum_ok(
        (tcp::segment_pseudo_sum(be32(ip, 12), be32(ip, 16), seg.len() as int) + word_sum(
            seg,
        )) as nat,
    ) {
        None
    } else {
        Some(
            (
                FiveTuple {
                    eth_type: ETHTYPE_IPV4,
                    ip_proto: IPPROTO_TCP,
                    local_ip: be32(ip, 16) as u32,
                    local_port: be16(seg, 2) as u16,
                    remote_ip: be32(ip, 12) as u32,
                    remote_port: be16(seg, 0) as u16,
                },
                tcp_data_offset_len(seg) as usize,
            ),
        )
    }
}

/// The UDP datagram carried in the validated IPv4 packet `ip`, if it comes
/// from the DHCP server port to the DHCP client port and checks.
pub open spec fn dhcp_datagram(ip: Seq<u8>) -> Option<Seq<u8>> {
    let seg = ip.subrange(ipv4_ihl_len(ip), be16(ip, 2));
    if udp::header_error(seg) is Some {
        None
    } else if be16(seg, 6) != 0 && !checksum_ok(
        udp::datagram_sum(be32(ip, 12), be32(ip, 16), seg, be16(seg, 4)),
    ) {
        None
    } else if be16(seg, 0) != DHCP_SERVER_PORT || be16(seg, 2) != DHCP_CLIENT_PORT {
        None
    } else {
        Some(seg)
    }
}

/// How the UDP part of the receive path, with DHCP client `client` (none
/// before DHCP started) turning into `next`, delivers the UDP packet `ip`.
pub open spec fn udp_step(client: Option<Client>, next: Option<Client>, ip: Seq<u8>, d: Delivery) -> bool {
    match (dhcp_datagram(ip), client) {
        (Some(seg), Some(c)) => d matches Delivery::Dhcp(out) && (next matches Some(n) && n.mac()
            == c.mac() && rx_step(
            c.mac(),
            c.state(),
            seg.subrange(8, be16(seg, 4)),
            be32(ip, 12) as u32,
            n.state(),
            out,
        )),
        _ => d is Discard && next == client,
    }
}

/// How the receive path acts on the ARP packet `p`.
pub open spec fn arp_action(p: Seq<u8>, r: FrameAction) -> bool {
    if p.len() < 28 || !arp_supported(p) {
        r is Ignore
    } else {
        r matches FrameAction::Arp { ip, mac, request_target } && ip@ == be32(p, 14) && mac@
            == p.subrange(8, 14) && (if be16(p, 6) == ARP_OP_REQUEST {
            request_target matches Some(target) && target@ == be32(p, 24)
        } else {
            request_target is None
        })
    }
}

/// How the receive path, with DHCP client `client` turning into `next`,
/// acts on the IPv4 packet `p` from `src_mac`.
pub open spec fn ipv4_action(
    client: Option<Client>,
    next: Option<Client>,
    src_mac: Seq<u8>,
    p: Seq<u8>,
    r: FrameAction,
) -> bool {
    if ipv4::header_error(p) is Some || ipv4::validation_error(p) is Some {
        r is Ignore && next == client
    } else {
        r matches FrameAction::Ipv4 { ip, mac, delivery } && ip@ == be32(p, 12) && mac@ == src_mac
            && (if p[9] == IPPROTO_TCP {
            next == client && delivery == match tcp_route(p) {
                None => Delivery::Discard,
                Some((five_tuple, tcp_header_len)) => Delivery::Tcp {
                    five_tuple,
                    total_len: be16(p, 2) as usize,
                    transport_offset: ipv4_ihl_len(p) as usize,
                    header_len: (ipv4_ihl_len(p) + tcp_header_len) as usize,
                },
            }
        } else if p[9] == IPPROTO_UDP {
            udp_step(client, next, p, delivery)
        } else {
            delivery is Discard && next == client
        })
    }
}

/// The 5-tuple and TCP header length of the segment in `ipv4`, if it is a
/// well-formed TCP segment with a correct checksum.
pub fn handle_tcp(ipv4: &Ipv4Inspector<'_>) -> (r: Option<(FiveTuple, usize)>)
    requires
        ipv4::validation_error(ipv4.bytes()) is None,
    ensures
        r == tcp_route(ipv4.bytes()),
{
    let payload = ipv4.payload();
    let tcp = match TcpInspector::new(payload) {
        Ok(tcp) => tcp,
        Err(_) => return None,
    };
    proof {
        let ip = ipv4.bytes();
        super::packet::wire::lemma_word_sum_bound(payload@);
        super::packet::wire::lemma_addr_sum_bound(be32(ip, 12));
        super::packet::wire::lemma_addr_sum_bound(be32(ip, 16));
        vstd::arithmetic::div_mod::lemma_mod_bound(payload@.len() as int, 0x1_0000);
    }
    match tcp.validate(ipv4) {
        Ok(()) => {},
        Err(_) => return None,
    }
    let local_ip = ipv4.dst_ip();
    let local_port = tcp.dst_port();
    let remote_ip = ipv4.src_ip();
    let remote_port = tcp.src_port();
    let five_tuple = FiveTuple {
        eth_type: ETHTYPE_IPV4,
        ip_proto: IPPROTO_TCP,
        local_ip: local_ip.as_u32(),
        local_port,
        remote_ip: remote_ip.as_u32(),
        remote_port,
    };
    Some((five_tuple, tcp.header_len()))
}

/// Hands a datagram from the DHCP server port to the client port to the
/// DHCP client, if there is one.
pub fn handle_udp(client: &mut Option<Client>, ipv4: &Ipv4Inspector<'_>) -> (r: Delivery)
    requires
        ipv4::validation_error(ipv4.bytes()) is None,
        ipv4.bytes()[9] == IPPROTO_UDP,
    ensures
        udp_step(*old(client), *final(client), ipv4.bytes(), r),
{
    let udp = match UdpInspector::new(ipv4.payload()) {
        Ok(udp) => udp,
        Err(_) => return Delivery::Discard,
    };
    match udp.validate(ipv4) {
        Ok(()) => {},
        Err(_) => return Delivery::Discard,
    }
    if udp.src_port() == DHCP_SERVER_PORT && udp.dst_port() == DHCP_CLIENT_PORT {
        return match client {
            Some(c) => Delivery::Dhcp(c.handle_rx(ipv4, &udp)),
            None => Delivery::Discard,
        };
    }
    Delivery::Discard
}

/// Handles an ARP packet: the sender is to be learned, and a request
/// answered.
pub fn handle_arp(packet: &[u8]) -> (r: FrameAction)
    ensures
        arp_action(packet@, r),
{
    let arp = match ArpInspector::new(packet) {
        Ok(arp) => arp,
        Err(_) => return FrameAction::Ignore,
    };
    let request_target = if arp.op() == ARP_OP_REQUEST {
        Some(arp.dst_ip())
    } else {
        None
    };
    FrameAction::Arp { ip: arp.src_ip(), mac: arp.src_mac(), request_target }
}

/// Handles an IPv4 packet from `src_mac`: a valid packet's sender is to be
/// learned; TCP is routed by 5-tuple, UDP from a DHCP server goes to the
/// DHCP client.
pub fn handle_ipv4(client: &mut Option<Client>, src_mac: [u8; 6], packet: &[u8]) -> (r: FrameAction)
    ensures
        ipv4_action(*old(client), *final(client), src_mac@, packet@, r),
{
    let ipv4 = match Ipv4Inspector::new(packet) {
        Ok(ipv4) => ipv4,
        Err(_) => return FrameAction::Ignore,
    };
    match ipv4.validate() {
        Ok(()) => {},
        Err(_) => return FrameAction::Ignore,
    }
    let proto = ipv4.ip_proto();
    let delivery = if proto == IPPROTO_TCP {
        match handle_tcp(&ipv4) {
            Some((five_tuple, tcp_header_len)) => Delivery::Tcp {
                five_tuple,
                total_len: ipv4.total_len(),
                transport_offset: ipv4.header_len(),
                header_len: ipv4.header_len() + tcp_header_len,
            },
            None => Delivery::Discard,
        }
    } else if proto == IPPROTO_UDP {
        handle_udp(client, &ipv4)
    } else {
        Delivery::Discard
    };
    FrameAction::Ipv4 { ip: ipv4.src_ip(), mac: src_mac, delivery }
}

/// Handles a received Ethernet frame.
pub fn handle_eth_frame(client: &mut Option<Client>, frame: &[u8]) -> (r: FrameAction)
    ensures
        frame@.len() < 14 ==> r is Ignore && *final(client) == *old(client),
        frame@.len() >= 14 && be16(frame@, 12) == ETHTYPE_ARP ==> arp_action(frame@.skip(14), r)
            && *final(client) == *old(client),
        frame@.len() >= 14 && be16(frame@, 12) == ETHTYPE_IPV4 ==> ipv4_action(
            *old(client),
            *final(client),
            frame@.subrange(6, 12),
            frame@.skip(14),
            r,
        ),
        frame@.len() >= 14 && be16(frame@, 12) != ETHTYPE_ARP && be16(frame@, 12)
            != ETHTYPE_IPV4 ==> r is Ignore && *final(client) == *old(client),
{
    let eth = match EthernetInspector::new(frame) {
        Ok(eth) => eth,
        Err(_) => return FrameAction::Ignore,
    };
    let eth_type = eth.eth_type();
    if eth_type == ETHTYPE_ARP {
        handle_arp(eth.payload())
    } else if eth_type == ETHTYPE_IPV4 {
        handle_ipv4(client, eth.src_mac(), eth.payload())
    } else {
        FrameAction::Ignore
    }
}

} // verus!
