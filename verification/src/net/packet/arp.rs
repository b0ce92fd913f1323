//! ARP packets for IPv4 over Ethernet.
//!
//! Layout: hardware type 0..2, protocol type 2..4, hardware address length
//! 4, protocol address length 5, operation 6..8, sender MAC 8..14, sender IP
//! 14..18, target MAC 18..24, target IP 24..28.
use vstd::prelude::*;

pub use super::ARP_HWADDR_LEN;
pub use super::ARP_HW_ETHERNET;
pub use super::ARP_IPADDR_LEN;
pub use super::ARP_OP_REPLY;
pub use super::ARP_OP_REQUEST;

use super::ETHTYPE_IPV4;
use super::arp_supported;
use super::ipv4::Ipv4Addr;
use super::read_array;
use super::read_u16;
use super::read_u32;
use super::wire::be16;
use super::wire::be32;
use super::wire::put16;
use super::wire::put32;
use super::wire::splice;
use super::write_array;
use super::write_u16;
use super::write_u32;

verus! {

#[derive(Debug, PartialEq, Eq, Structural)]
pub enum Error {
    ArpPacketTooShort,
    UnsupportedArpPacket,
}

pub struct ArpInspector<'a> {
    buf: &'a [u8],
}

impl<'a> ArpInspector<'a> {
    pub const PACKET_LEN: usize = 28;

    #[verifier::type_invariant]
    spec fn holds_packet(self) -> bool {
        self.buf@.len() >= 28
    }

    /// The bytes of the packet under inspection.
    pub closed spec fn bytes(self) -> Seq<u8> {
        self.buf@
    }

    pub fn new(buf: &'a [u8]) -> (r: Result<Self, Error>)
        ensures
            buf@.len() < 28 ==> r == Err::<Self, Error>(Error::ArpPacketTooShort),
            buf@.len() >= 28 && !arp_supported(buf@) ==> r == Err::<Self, Error>(
                Error::UnsupportedArpPacket,
            ),
            buf@.len() >= 28 && arp_supported(buf@) ==> (r matches Ok(arp) && arp.bytes()
                == buf@),
    {
        if buf.len() < Self::PACKET_LEN {
            return Err(Error::ArpPacketTooShort);
        }
        let inspector = Self { buf };
        if inspector.hw_type() != ARP_HW_ETHERNET || inspector.protocol_type()
            != ETHTYPE_IPV4 || inspector.hwaddr_len() != ARP_HWADDR_LEN
            || inspector.ipaddr_len() != ARP_IPADDR_LEN {
            return Err(Error::UnsupportedArpPacket);
        }
        Ok(inspector)
    }

    pub fn hw_type(&self) -> (r: u16)
        ensures
            r == be16(self.bytes(), 0),
    {
        proof {
            use_type_invariant(self);
        }
        read_u16(self.buf, 0)
    }

    pub fn protocol_type(&self) -> (r: u16)
        ensures
            r == be16(self.bytes(), 2),
    {
        proof {
            use_type_invariant(self);
        }
        read_u16(self.buf, 2)
    }

    pub fn hwaddr_len(&self) -> (r: u8)
        ensures
            r == self.bytes()[4],
    {
        proof {
            use_type_invariant(self);
        }
        self.buf[4]
    }

    pub fn ipaddr_len(&self) -> (r: u8)
        ensures
            r == self.bytes()[5],
    {
        proof {
            use_type_invariant(self);
        }
        self.buf[5]
    }

    pub fn op(&self) -> (r: u16)
        ensures
            r == be16(self.bytes(), 6),
    {
        proof {
            use_type_invariant(self);
        }
        read_u16(self.buf, 6)
    }

    pub fn src_mac(&self) -> (r: [u8; 6])
        ensures
            r@ == self.bytes().subrange(8, 14),
    {
        proof {
            use_type_invariant(self);
        }
        read_array(self.buf, 8)
    }

    pub fn src_ip(&self) -> (r: Ipv4Addr)
        ensures
            r@ == be32(self.bytes(), 14),
    {
        proof {
            use_type_invariant(self);
        }
        Ipv4Addr::new(read_u32(self.buf, 14))
    }

    pub fn dst_mac(&self) -> (r: [u8; 6])
        ensures
            r@ == self.bytes().subrange(18, 24),
    {
        proof {
            use_type_invariant(self);
        }
        read_array(self.buf, 18)
    }

    pub fn dst_ip(&self) -> (r: Ipv4Addr)
        ensures
            r@ == be32(self.bytes(), 24),
    {
        proof {
            use_type_invariant(self);
        }
        Ipv4Addr::new(read_u32(self.buf, 24))
    }
}

pub struct ArpRewriter<'a> {
    pub buf: &'a mut [u8],
}

impl<'a> ArpRewriter<'a> {
    pub const PACKET_LEN: usize = 28;

    pub fn new(buf: &'a mut [u8]) -> (r: Result<Self, Error>)
        ensures
            old(buf)@.len() < 28 ==> r == Err::<Self, Error>(Error::ArpPacketTooShort)
                && final(buf)@ == old(buf)@,
            old(buf)@.len() >= 28 ==> (r matches Ok(w) && w.buf@ == old(buf)@ && final(buf)@
                == final(w.buf)@),
    {
        if buf.len() < Self::PACKET_LEN {
            return Err(Error::ArpPacketTooShort);
        }
        Ok(Self { buf })
    }

    pub fn set_hardware_type(&mut self, hardware_type: u16)
        requires
            old(self).buf@.len() >= 28,
        ensures
            final(self).buf@ == put16(old(self).buf@, 0, hardware_type as int),
            final(final(self).buf)@ == final(old(self).buf)@,
    {
        write_u16(self.buf, 0, hardware_type);
    }

    pub fn set_protocol_type(&mut self, protocol_type: u16)
        requires
            old(self).buf@.len() >= 28,
        ensures
            final(self).buf@ == put16(old(self).buf@, 2, protocol_type as int),
            final(final(self).buf)@ == final(old(self).buf)@,
    {
        write_u16(self.buf, 2, protocol_type);
    }

    pub fn set_hardware_addr_len(&mut self, len: u8)
        requires
            old(self).buf@.len() >= 28,
        ensures
            final(self).buf@ == old(self).buf@.update(4, len),
            final(final(self).buf)@ == final(old(self).buf)@,
    {
        self.buf[4] = len;
    }

    pub fn set_protocol_addr_len(&mut self, len: u8)
        requires
            old(self).buf@.len() >= 28,
        ensures
            final(self).buf@ == old(self).buf@.update(5, len),
            final(final(self).buf)@ == final(old(self).buf)@,
    {
        self.buf[5] = len;
    }

    pub fn set_operation(&mut self, operation: u16)
        requires
            old(self).buf@.len() >= 28,
        ensures
            final(self).buf@ == put16(old(self).buf@, 6, operation as int),
            final(final(self).buf)@ == final(old(self).buf)@,
    {
        write_u16(self.buf, 6, operation);
    }

    pub fn set_src_mac(&mut self, mac: [u8; 6])
        requires
            old(self).buf@.len() >= 28,
        ensures
            final(self).buf@ == splice(old(self).buf@, 8, mac@),
            final(final(self).buf)@ == final(old(self).buf)@,
    {
        write_array(self.buf, 8, mac);
    }

    pub fn set_src_ip(&mut self, ip: Ipv4Addr)
        requires
            old(self).buf@.len() >= 28,
        ensures
            final(self).buf@ == put32(old(self).buf@, 14, ip@ as int),
            final(final(self).buf)@ == final(old(self).buf)@,
    {
        write_u32(self.buf, 14, ip.as_u32());
    }

    pub fn set_dst_mac(&mut self, mac: [u8; 6])
        requires
            old(self).buf@.len() >= 28,
        ensures
            final(self).buf@ == splice(old(self).buf@, 18, mac@),
            final(final(self).buf)@ == final(old(self).buf)@,
    {
        write_array(self.buf, 18, mac);
    }

    pub fn set_dst_ip(&mut self, ip: Ipv4Addr)
        requires
            old(self).buf@.len() >= 28,
        ensures
            final(self).buf@ == put32(old(self).buf@, 24, ip@ as int),
            final(final(self).buf)@ == final(old(self).buf)@,
    {
        write_u32(self.buf, 24, ip.as_u32());
    }
}

} // verus!
