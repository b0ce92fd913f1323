//! What a network device writes in front of the packets it sends: the
//! Ethernet header, and whole ARP replies.
use vstd::prelude::*;

use super::packet::arp::ARP_HWADDR_LEN;
use super::packet::arp::ARP_HW_ETHERNET;
use super::packet::arp::ARP_IPADDR_LEN;
use super::packet::arp::ARP_OP_REPLY;
use super::packet::arp::ArpRewriter;
use super::packet::ethernet::EthernetRewriter;
use super::packet::laws::arp_packet;
use super::packet::wire::be16;
use super::packet::wire::lemma_u16_bytes;
use super::packet::wire::put16;
use super::packet::wire::splice;
use super::packet::Ipv4Addr;
use super::packet::ETHTYPE_IPV4;

verus! {

/// The room the driver keeps in front of a frame it sends.
pub const DRIVER_HEADROOM: usize = 20;

/// The room for the Ethernet header.
pub const ETHERNET_HEADROOM: usize = 14;

/// The room in front of the IPv4 header of a packet to send.
pub const HEADROOM_TOTAL: usize = 34;

/// The Ethernet header with these fields, over the bytes `s`.
pub open spec fn ethernet_header(s: Seq<u8>, dst_mac: Seq<u8>, src_mac: Seq<u8>, eth_type: u16) -> Seq<u8> {
    put16(splice(splice(s, 0, dst_mac), 6, src_mac), 12, eth_type as int)
}

/// Writes an Ethernet header from `src_mac` to `dst_mac` carrying
/// `eth_type` into the header room `header`.
pub fn write_ethernet_header(header: &mut [u8], dst_mac: [u8; 6], src_mac: [u8; 6], eth_type: u16)
    requires
        old(header)@.len() >= ETHERNET_HEADROOM,
    ensures
        final(header)@ == ethernet_header(old(header)@, dst_mac@, src_mac@, eth_type),
{
    let mut ethernet = match EthernetRewriter::new(header) {
        Ok(ethernet) => ethernet,
        Err(_) => return,
    };
    ethernet.set_dst_mac(dst_mac);
    ethernet.set_src_mac(src_mac);
    ethernet.set_eth_type(eth_type);
}

/// Writes into `packet` the ARP reply from `src_ip` at `src_mac` to
/// `dst_ip` at `dst_mac`.
pub fn write_arp_reply(
    packet: &mut [u8],
    src_mac: [u8; 6],
    src_ip: Ipv4Addr,
    dst_mac: [u8; 6],
    dst_ip: Ipv4Addr,
)
    requires
        old(packet)@.len() >= ArpRewriter::PACKET_LEN,
    ensures
        final(packet)@ == arp_packet(old(packet)@, ARP_OP_REPLY, src_mac@, src_ip@, dst_mac@, dst_ip@),
{
    let mut arp = match ArpRewriter::new(packet) {
        Ok(arp) => arp,
        Err(_) => return,
    };
    arp.set_hardware_type(ARP_HW_ETHERNET);
    arp.set_protocol_type(ETHTYPE_IPV4);
    arp.set_hardware_addr_len(ARP_HWADDR_LEN);
    arp.set_protocol_addr_len(ARP_IPADDR_LEN);
    arp.set_operation(ARP_OP_REPLY);
    arp.set_src_mac(src_mac);
    arp.set_src_ip(src_ip);
    arp.set_dst_mac(dst_mac);
    arp.set_dst_ip(dst_ip);
}

/// An Ethernet header written by the device reads back as written: the
/// destination, the source, and the type.
pub proof fn law_ethernet_header_reads_back(s: Seq<u8>, dst_mac: Seq<u8>, src_mac: Seq<u8>, eth_type: u16)
    requires
        s.len() >= ETHERNET_HEADROOM,
        dst_mac.len() == 6,
        src_mac.len() == 6,
    ensures
        ({
            let h = ethernet_header(s, dst_mac, src_mac, eth_type);
            &&& h.len() == s.len()
            &&& h.subrange(0, 6) == dst_mac
            &&& h.subrange(6, 12) == src_mac
            &&& be16(h, 12) == eth_type
        }),
{
    let h = ethernet_header(s, dst_mac, src_mac, eth_type);
    lemma_u16_bytes(eth_type as int);
    assert(h.subrange(0, 6) =~= dst_mac);
    assert(h.subrange(6, 12) =~= src_mac);
}

} // verus!
