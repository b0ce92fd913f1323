//! Inspectors and rewriters of Ethernet, ARP, IPv4 and TCP headers in place
//! in a byte buffer, and the Internet checksum over such bytes.
//!
//! Each inspector checks on construction that the buffer holds the fixed
//! part of its header; its getters then read fields at fixed offsets. Each
//! rewriter writes fields in place and leaves every other byte unchanged.
pub mod arp;
pub mod checksum;
pub mod dhcp;
pub mod ethernet;
pub mod ipv4;
pub mod laws;
pub mod tcp;
pub mod udp;
pub mod wire;

pub use ethernet::EthernetInspector;
pub use ethernet::EthernetRewriter;
pub use ipv4::Ipv4Addr;
pub use ipv4::NetMask;

use vstd::prelude::*;

use self::wire::be16;
use self::wire::be32;
use self::wire::checksum_of;
use self::wire::checksum_ok;
use self::wire::fold16;
use self::wire::pseudo_sum;
use self::wire::put16;
use self::wire::put32;
use self::wire::splice;
use self::wire::u16_bytes;
use self::wire::u32_bytes;
use self::wire::word_sum;

verus! {

pub const ETHTYPE_IPV4: u16 = 0x0800;
pub const ETHTYPE_ARP: u16 = 0x0806;
pub const IPPROTO_TCP: u8 = 6;

pub const ARP_HW_ETHERNET: u16 = 1;
pub const ARP_HWADDR_LEN: u8 = 6;
pub const ARP_IPADDR_LEN: u8 = 4;
pub const ARP_OP_REQUEST: u16 = 1;
pub const ARP_OP_REPLY: u16 = 2;

#[derive(Debug, PartialEq, Eq, Structural)]
pub enum Error {
    EthernetHeaderTooShort,
    ArpPacketTooShort,
    UnsupportedArpPacket,
    Ipv4HeaderTooShort,
    InvalidIpv4HeaderLength,
    NotIpv4,
    NotTcp,
    TcpHeaderTooShort,
    InvalidTcpHeaderLength,
    InvalidPacketLength,
    FragmentedPacket,
    InvalidIpv4Checksum,
    InvalidTcpChecksum,
}

/// Reads the six bytes at `offset` (a MAC address).
pub(crate) fn read_array(buf: &[u8], offset: usize) -> (r: [u8; 6])
    requires
        offset + 6 <= buf@.len(),
    ensures
        r@ == buf@.subrange(offset as int, offset + 6),
{
    let r = [
        buf[offset],
        buf[offset + 1],
        buf[offset + 2],
        buf[offset + 3],
        buf[offset + 4],
        buf[offset + 5],
    ];
    assert(r@ =~= buf@.subrange(offset as int, offset + 6));
    r
}

/// Reads the big-endian 16-bit value at `offset`.
pub(crate) fn read_u16(buf: &[u8], offset: usize) -> (r: u16)
    requires
        offset + 2 <= buf@.len(),
    ensures
        r == be16(buf@, offset as int),
{
    (buf[offset] as u16) * 256 + (buf[offset + 1] as u16)
}

/// Reads the big-endian 32-bit value at `offset`.
pub(crate) fn read_u32(buf: &[u8], offset: usize) -> (r: u32)
    requires
        offset + 4 <= buf@.len(),
    ensures
        r == be32(buf@, offset as int),
{
    (buf[offset] as u32) * 0x100_0000 + (buf[offset + 1] as u32) * 0x1_0000 + (buf[offset + 2]
        as u32) * 256 + (buf[offset + 3] as u32)
}

/// Copies `value` into the buffer at `offset`.
pub(crate) fn write_array<const N: usize>(buf: &mut [u8], offset: usize, value: [u8; N])
    requires
        offset + N <= old(buf)@.len(),
    ensures
        final(buf)@ == splice(old(buf)@, offset as int, value@),
{
    let ghost start = buf@;
    let mut i: usize = 0;
    while i < N
        invariant
            i <= N,
            offset + N <= start.len(),
            offset + N <= buf.len(),
            value@.len() == N,
            buf@ == splice(start, offset as int, value@.take(i as int)),
        decreases N - i,
    {
        buf[offset + i] = value[i];
        i += 1;
        assert(buf@ =~= splice(start, offset as int, value@.take(i as int)));
    }
    assert(value@.take(N as int) =~= value@);
}

/// Writes `value` in big-endian order at `offset`.
pub(crate) fn write_u16(buf: &mut [u8], offset: usize, value: u16)
    requires
        offset + 2 <= old(buf)@.len(),
    ensures
        final(buf)@ == put16(old(buf)@, offset as int, value as int),
{
    write_array(buf, offset, [(value / 256) as u8, (value % 256) as u8]);
    assert(u16_bytes(value as int) =~= seq![(value / 256) as u8, (value % 256) as u8]);
}

/// Writes `value` in big-endian order at `offset`.
pub(crate) fn write_u32(buf: &mut [u8], offset: usize, value: u32)
    requires
        offset + 4 <= old(buf)@.len(),
    ensures
        final(buf)@ == put32(old(buf)@, offset as int, value as int),
{
    let bytes = [
        (value / 0x100_0000) as u8,
        ((value / 0x1_0000) % 256) as u8,
        ((value / 256) % 256) as u8,
        (value % 256) as u8,
    ];
    write_array(buf, offset, bytes);
    assert(u32_bytes(value as int) =~= bytes@);
}

/// Whether `bytes`, added to the partial sum `initial`, carry a correct
/// Internet checksum.
fn checksum_valid(bytes: &[u8], initial: u32) -> (r: bool)
    requires
        initial + word_sum(bytes@) <= u32::MAX,
    ensures
        r == checksum_ok((initial + word_sum(bytes@)) as nat),
        r == (checksum_of((initial + word_sum(bytes@)) as nat) == 0),
{
    checksum_fold(checksum_add(initial, bytes)) == 0xffff
}

/// The checksum field value for `bytes` added to the partial sum `initial`.
fn checksum_value(bytes: &[u8], initial: u32) -> (r: u16)
    requires
        initial + word_sum(bytes@) <= u32::MAX,
    ensures
        r == checksum_of((initial + word_sum(bytes@)) as nat),
{
    let folded = checksum_fold(checksum_add(initial, bytes));
    assert(!folded == 0xffff - folded) by (bit_vector);
    !folded
}

/// Folds the carries of a 32-bit sum back into 16 bits.
fn checksum_fold(sum: u32) -> (r: u16)
    ensures
        r == fold16(sum as nat),
{
    let ghost start = sum as nat;
    let mut sum = sum;
    while sum / 0x1_0000 != 0
        invariant
            fold16(sum as nat) == fold16(start),
        decreases sum,
    {
        proof {
            vstd::arithmetic::div_mod::lemma_fundamental_div_mod(sum as int, 0x1_0000);
        }
        sum = (sum % 0x1_0000) + (sum / 0x1_0000);
    }
    sum as u16
}

/// Adds the 16-bit big-endian words of `bytes` to `sum`.
fn checksum_add(sum: u32, bytes: &[u8]) -> (r: u32)
    requires
        sum + word_sum(bytes@) <= u32::MAX,
    ensures
        r == sum + word_sum(bytes@),
{
    let ghost total = sum + word_sum(bytes@);
    let mut sum = sum;
    let mut i: usize = 0;
    assert(bytes@.skip(0) =~= bytes@);
    while bytes.len() - i >= 2
        invariant
            i <= bytes@.len(),
            total <= u32::MAX,
            sum + word_sum(bytes@.skip(i as int)) == total,
        decreases bytes.len() - i,
    {
        assert(bytes@.skip(i as int).skip(2) =~= bytes@.skip(i + 2));
        sum = sum + (bytes[i] as u32) * 256 + (bytes[i + 1] as u32);
        i += 2;
    }
    if i < bytes.len() {
        sum = sum + (bytes[i] as u32) * 256;
    }
    sum
}

} // verus!

verus! {

/// An ARP packet for IPv4 over Ethernet.
///
/// Layout: hardware type 0..2, protocol type 2..4, hardware address length
/// 4, protocol address length 5, operation 6..8, sender MAC 8..14, sender IP
/// 14..18, target MAC 18..24, target IP 24..28.
pub open spec fn arp_supported(s: Seq<u8>) -> bool {
    &&& be16(s, 0) == ARP_HW_ETHERNET
    &&& be16(s, 2) == ETHTYPE_IPV4
    &&& s[4] == ARP_HWADDR_LEN
    &&& s[5] == ARP_IPADDR_LEN
}

pub struct ArpInspector<'a> {
    buf: &'a [u8],
}

impl<'a> ArpInspector<'a> {
    pub const PACKET_LEN: usize = 28;

    #[verifier::type_invariant]
    spec fn holds_packet(self) -> bool {
        self.buf@.len() >= 28
    }

    /// The bytes of the packet under inspection.
    pub closed spec fn bytes(self) -> Seq<u8> {
        self.buf@
    }

    pub fn new(buf: &'a [u8]) -> (r: Result<Self, Error>)
        ensures
            buf@.len() < 28 ==> r == Err::<Self, Error>(Error::ArpPacketTooShort),
            buf@.len() >= 28 && !arp_supported(buf@) ==> r == Err::<Self, Error>(
                Error::UnsupportedArpPacket,
            ),
            buf@.len() >= 28 && arp_supported(buf@) ==> (r matches Ok(arp) && arp.bytes()
                == buf@),
    {
        if buf.len() < Self::PACKET_LEN {
            return Err(Error::ArpPacketTooShort);
        }
        let inspector = Self { buf };
        if inspector.hardware_type() != ARP_HW_ETHERNET || inspector.protocol_type()
            != ETHTYPE_IPV4 || inspector.hardware_addr_len() != ARP_HWADDR_LEN
            || inspector.protocol_addr_len() != ARP_IPADDR_LEN {
            return Err(Error::UnsupportedArpPacket);
        }
        Ok(inspector)
    }

    pub fn hardware_type(&self) -> (r: u16)
        ensures
            r == be16(self.bytes(), 0),
    {
        proof {
            use_type_invariant(self);
        }
        read_u16(self.buf, 0)
    }

    pub fn protocol_type(&self) -> (r: u16)
        ensures
            r == be16(self.bytes(), 2),
    {
        proof {
            use_type_invariant(self);
        }
        read_u16(self.buf, 2)
    }

    pub fn hardware_addr_len(&self) -> (r: u8)
        ensures
            r == self.bytes()[4],
    {
        proof {
            use_type_invariant(self);
        }
        self.buf[4]
    }

    pub fn protocol_addr_len(&self) -> (r: u8)
        ensures
            r == self.bytes()[5],
    {
        proof {
            use_type_invariant(self);
        }
        self.buf[5]
    }

    pub fn operation(&self) -> (r: u16)
        ensures
            r == be16(self.bytes(), 6),
    {
        proof {
            use_type_invariant(self);
        }
        read_u16(self.buf, 6)
    }

    pub fn src_mac(&self) -> (r: [u8; 6])
        ensures
            r@ == self.bytes().subrange(8, 14),
    {
        proof {
            use_type_invariant(self);
        }
        read_array(self.buf, 8)
    }

    pub fn src_ip(&self) -> (r: Ipv4Addr)
        ensures
            r@ == be32(self.bytes(), 14),
    {
        proof {
            use_type_invariant(self);
        }
        Ipv4Addr::new(read_u32(self.buf, 14))
    }

    pub fn dst_mac(&self) -> (r: [u8; 6])
        ensures
            r@ == self.bytes().subrange(18, 24),
    {
        proof {
            use_type_invariant(self);
        }
        read_array(self.buf, 18)
    }

    pub fn dst_ip(&self) -> (r: Ipv4Addr)
        ensures
            r@ == be32(self.bytes(), 24),
    {
        proof {
            use_type_invariant(self);
        }
        Ipv4Addr::new(read_u32(self.buf, 24))
    }
}

pub struct ArpRewriter<'a> {
    pub buf: &'a mut [u8],
}

impl<'a> ArpRewriter<'a> {
    pub const PACKET_LEN: usize = 28;

    pub fn new(buf: &'a mut [u8]) -> (r: Result<Self, Error>)
        ensures
            old(buf)@.len() < 28 ==> r == Err::<Self, Error>(Error::ArpPacketTooShort)
                && final(buf)@ == old(buf)@,
            old(buf)@.len() >= 28 ==> (r matches Ok(w) && w.buf@ == old(buf)@ && final(buf)@
                == final(w.buf)@),
    {
        if buf.len() < Self::PACKET_LEN {
            return Err(Error::ArpPacketTooShort);
        }
        Ok(Self { buf })
    }

    pub fn set_hardware_type(&mut self, hardware_type: u16)
        requires
            old(self).buf@.len() >= 28,
        ensures
            final(self).buf@ == put16(old(self).buf@, 0, hardware_type as int),
            final(final(self).buf)@ == final(old(self).buf)@,
    {
        write_u16(self.buf, 0, hardware_type);
    }

    pub fn set_protocol_type(&mut self, protocol_type: u16)
        requires
            old(self).buf@.len() >= 28,
        ensures
            final(self).buf@ == put16(old(self).buf@, 2, protocol_type as int),
            final(final(self).buf)@ == final(old(self).buf)@,
    {
        write_u16(self.buf, 2, protocol_type);
    }

    pub fn set_hardware_addr_len(&mut self, len: u8)
        requires
            old(self).buf@.len() >= 28,
        ensures
            final(self).buf@ == old(self).buf@.update(4, len),
            final(final(self).buf)@ == final(old(self).buf)@,
    {
        self.buf[4] = len;
    }

    pub fn set_protocol_addr_len(&mut self, len: u8)
        requires
            old(self).buf@.len() >= 28,
        ensures
            final(self).buf@ == old(self).buf@.update(5, len),
            final(final(self).buf)@ == final(old(self).buf)@,
    {
        self.buf[5] = len;
    }

    pub fn set_operation(&mut self, operation: u16)
        requires
            old(self).buf@.len() >= 28,
        ensures
            final(self).buf@ == put16(old(self).buf@, 6, operation as int),
            final(final(self).buf)@ == final(old(self).buf)@,
    {
        write_u16(self.buf, 6, operation);
    }

    pub fn set_src_mac(&mut self, mac: [u8; 6])
        requires
            old(self).buf@.len() >= 28,
        ensures
            final(self).buf@ == splice(old(self).buf@, 8, mac@),
            final(final(self).buf)@ == final(old(self).buf)@,
    {
        write_array(self.buf, 8, mac);
    }

    pub fn set_src_ip(&mut self, ip: Ipv4Addr)
        requires
            old(self).buf@.len() >= 28,
        ensures
            final(self).buf@ == put32(old(self).buf@, 14, ip@ as int),
            final(final(self).buf)@ == final(old(self).buf)@,
    {
        write_u32(self.buf, 14, ip.as_u32());
    }

    pub fn set_dst_mac(&mut self, mac: [u8; 6])
        requires
            old(self).buf@.len() >= 28,
        ensures
            final(self).buf@ == splice(old(self).buf@, 18, mac@),
            final(final(self).buf)@ == final(old(self).buf)@,
    {
        write_array(self.buf, 18, mac);
    }

    pub fn set_dst_ip(&mut self, ip: Ipv4Addr)
        requires
            old(self).buf@.len() >= 28,
        ensures
            final(self).buf@ == put32(old(self).buf@, 24, ip@ as int),
            final(final(self).buf)@ == final(old(self).buf)@,
    {
        write_u32(self.buf, 24, ip.as_u32());
    }
}

} // verus!

verus! {

/// The header length that the IHL field (low nibble of byte 0) announces.
pub open spec fn ipv4_ihl_len(s: Seq<u8>) -> int {
    (s[0] % 16) as int * 4
}

/// Why an IPv4 header cannot be inspected, if it cannot.
///
/// Layout: version and IHL 0, DSCP and ECN 1, total length 2..4,
/// identification 4..6, flags and fragment offset 6..8, TTL 8, protocol 9,
/// checksum 10..12, source 12..16, destination 16..20.
pub open spec fn ipv4_header_error(s: Seq<u8>) -> Option<Error> {
    if s.len() < 20 {
        Some(Error::Ipv4HeaderTooShort)
    } else if s[0] / 16 != 4 {
        Some(Error::NotIpv4)
    } else if ipv4_ihl_len(s) < 20 || s.len() < ipv4_ihl_len(s) {
        Some(Error::InvalidIpv4HeaderLength)
    } else if be16(s, 2) < ipv4_ihl_len(s) {
        Some(Error::InvalidPacketLength)
    } else {
        None
    }
}

/// Why a well-formed IPv4 header fails validation, if it does: the packet
/// runs past the buffer, it is a fragment (more-fragments flag or a
/// fragment offset), or its header checksum is wrong.
pub open spec fn ipv4_validation_error(s: Seq<u8>) -> Option<Error> {
    if be16(s, 2) > s.len() {
        Some(Error::InvalidPacketLength)
    } else if be16(s, 6) % 0x4000 != 0 {
        Some(Error::FragmentedPacket)
    } else if !checksum_ok(word_sum(s.take(ipv4_ihl_len(s)))) {
        Some(Error::InvalidIpv4Checksum)
    } else {
        None
    }
}

pub struct Ipv4Inspector<'a> {
    buf: &'a [u8],
    header_len: usize,
    total_len: usize,
}

impl<'a> Ipv4Inspector<'a> {
    pub const MIN_HEADER_LEN: usize = 20;

    #[verifier::type_invariant]
    spec fn well_formed(self) -> bool {
        &&& ipv4_header_error(self.buf@) is None
        &&& self.header_len == ipv4_ihl_len(self.buf@)
        &&& self.total_len == be16(self.buf@, 2)
    }

    /// The bytes under inspection, from the start of the IPv4 header.
    pub closed spec fn bytes(self) -> Seq<u8> {
        self.buf@
    }

    pub fn new(buf: &'a [u8]) -> (r: Result<Self, Error>)
        ensures
            match ipv4_header_error(buf@) {
                Some(e) => r == Err::<Self, Error>(e),
                None => r matches Ok(ipv4) && ipv4.bytes() == buf@,
            },
    {
        if buf.len() < Self::MIN_HEADER_LEN {
            return Err(Error::Ipv4HeaderTooShort);
        }
        let version_ihl = buf[0];
        if version_ihl / 16 != 4 {
            return Err(Error::NotIpv4);
        }
        let header_len = (version_ihl % 16) as usize * 4;
        if header_len < Self::MIN_HEADER_LEN || buf.len() < header_len {
            return Err(Error::InvalidIpv4HeaderLength);
        }
        let total_len = read_u16(buf, 2) as usize;
        if total_len < header_len {
            return Err(Error::InvalidPacketLength);
        }
        Ok(Self { buf, header_len, total_len })
    }

    pub fn validate(&self) -> (r: Result<(), Error>)
        ensures
            match ipv4_validation_error(self.bytes()) {
                Some(e) => r == Err::<(), Error>(e),
                None => r is Ok,
            },
    {
        proof {
            use_type_invariant(self);
        }
        if self.total_len > self.buf.len() {
            return Err(Error::InvalidPacketLength);
        }
        let flags = self.flags_fragment_offset();
        assert(flags & 0x3fff == flags % 0x4000) by (bit_vector);
        if flags & 0x3fff != 0 {
            return Err(Error::FragmentedPacket);
        }
        let header = &self.buf[0..self.header_len];
        proof {
            wire::lemma_word_sum_bound(header@);
            assert(header@ == self.buf@.take(self.header_len as int));
        }
        if !checksum_valid(header, 0) {
            return Err(Error::InvalidIpv4Checksum);
        }
        Ok(())
    }

    /// The total length of the packet, as its header states it.
    pub fn packet_len(&self) -> (r: usize)
        ensures
            r == be16(self.bytes(), 2),
            r >= ipv4_ihl_len(self.bytes()),
    {
        proof {
            use_type_invariant(self);
        }
        self.total_len
    }

    pub fn ip_proto(&self) -> (r: u8)
        ensures
            r == self.bytes()[9],
    {
        proof {
            use_type_invariant(self);
        }
        self.buf[9]
    }

    pub fn dst_ip(&self) -> (r: Ipv4Addr)
        ensures
            r@ == be32(self.bytes(), 16),
    {
        proof {
            use_type_invariant(self);
        }
        Ipv4Addr::new(read_u32(self.buf, 16))
    }

    pub fn src_ip(&self) -> (r: Ipv4Addr)
        ensures
            r@ == be32(self.bytes(), 12),
    {
        proof {
            use_type_invariant(self);
        }
        Ipv4Addr::new(read_u32(self.buf, 12))
    }

    pub fn flags_fragment_offset(&self) -> (r: u16)
        ensures
            r == be16(self.bytes(), 6),
    {
        proof {
            use_type_invariant(self);
        }
        read_u16(self.buf, 6)
    }

    pub fn header_len(&self) -> (r: usize)
        ensures
            r == ipv4_ihl_len(self.bytes()),
            20 <= r <= self.bytes().len(),
    {
        proof {
            use_type_invariant(self);
        }
        self.header_len
    }

    pub fn payload_len(&self) -> (r: usize)
        ensures
            r == be16(self.bytes(), 2) - ipv4_ihl_len(self.bytes()),
    {
        proof {
            use_type_invariant(self);
        }
        self.total_len - self.header_len
    }

    /// The bytes between the header and the end of the packet.
    pub fn payload(&self) -> (r: Result<&'a [u8], Error>)
        ensures
            be16(self.bytes(), 2) > self.bytes().len() ==> r == Err::<&'a [u8], Error>(
                Error::InvalidPacketLength,
            ),
            be16(self.bytes(), 2) <= self.bytes().len() ==> (r matches Ok(p) && p@
                == self.bytes().subrange(ipv4_ihl_len(self.bytes()), be16(self.bytes(), 2))),
    {
        proof {
            use_type_invariant(self);
        }
        if self.total_len > self.buf.len() {
            return Err(Error::InvalidPacketLength);
        }
        Ok(&self.buf[self.header_len..self.total_len])
    }
}

pub struct Ipv4Rewriter<'a> {
    pub buf: &'a mut [u8],
}

/// The IPv4 header `s` with its checksum field recomputed over its first
/// `header_len` bytes.
pub open spec fn ipv4_with_checksum(s: Seq<u8>, header_len: int) -> Seq<u8> {
    let zeroed = put16(s, 10, 0);
    put16(zeroed, 10, checksum_of(word_sum(zeroed.take(header_len))))
}

impl<'a> Ipv4Rewriter<'a> {
    pub const MIN_HEADER_LEN: usize = 20;

    pub fn new(buf: &'a mut [u8]) -> (r: Result<Self, Error>)
        ensures
            old(buf)@.len() < 20 ==> r == Err::<Self, Error>(Error::Ipv4HeaderTooShort)
                && final(buf)@ == old(buf)@,
            old(buf)@.len() >= 20 ==> (r matches Ok(w) && w.buf@ == old(buf)@ && final(buf)@
                == final(w.buf)@),
    {
        if buf.len() < Self::MIN_HEADER_LEN {
            return Err(Error::Ipv4HeaderTooShort);
        }
        Ok(Self { buf })
    }

    /// Sets the version nibble; the low four bits of `version` are kept.
    pub fn set_version(&mut self, version: u8)
        requires
            old(self).buf@.len() >= 20,
        ensures
            final(self).buf@ == old(self).buf@.update(
                0,
                ((version % 16) * 16 + old(self).buf@[0] % 16) as u8,
            ),
            final(final(self).buf)@ == final(old(self).buf)@,
    {
        let old_byte = self.buf[0];
        let byte = (version << 4) | (old_byte & 0x0f);
        assert(byte == ((version % 16) * 16 + old_byte % 16) as u8) by (bit_vector)
            requires
                byte == (version << 4) | (old_byte & 0x0f),
        ;
        self.buf[0] = byte;
    }

    /// Sets the IHL nibble for a header of `header_len` bytes.
    pub fn set_header_len(&mut self, header_len: usize) -> (r: Result<(), Error>)
        requires
            old(self).buf@.len() >= 20,
        ensures
            (header_len < 20 || header_len > 60 || header_len % 4 != 0 || header_len
                > old(self).buf@.len()) ==> r == Err::<(), Error>(Error::InvalidIpv4HeaderLength)
                && final(self).buf@ == old(self).buf@,
            !(header_len < 20 || header_len > 60 || header_len % 4 != 0 || header_len
                > old(self).buf@.len()) ==> r is Ok && final(self).buf@ == old(self).buf@.update(
                0,
                ((old(self).buf@[0] / 16) * 16 + header_len / 4) as u8,
            ),
            final(final(self).buf)@ == final(old(self).buf)@,
    {
        if header_len < Self::MIN_HEADER_LEN || header_len > 60 || header_len % 4 != 0
            || header_len > self.buf.len() {
            return Err(Error::InvalidIpv4HeaderLength);
        }
        let old_byte = self.buf[0];
        let ihl = (header_len / 4) as u8;
        let byte = (old_byte & 0xf0) | ihl;
        assert(byte == ((old_byte / 16) * 16 + ihl) as u8) by (bit_vector)
            requires
                byte == (old_byte & 0xf0) | ihl,
                ihl < 16,
        ;
        self.buf[0] = byte;
        Ok(())
    }

    pub fn set_dscp_ecn(&mut self, dscp_ecn: u8)
        requires
            old(self).buf@.len() >= 20,
        ensures
            final(self).buf@ == old(self).buf@.update(1, dscp_ecn),
            final(final(self).buf)@ == final(old(self).buf)@,
    {
        self.buf[1] = dscp_ecn;
    }

    /// Sets the total length field, which holds at most 16 bits.
    pub fn set_total_len(&mut self, total_len: usize) -> (r: Result<(), Error>)
        requires
            old(self).buf@.len() >= 20,
        ensures
            total_len > u16::MAX ==> r == Err::<(), Error>(Error::InvalidPacketLength)
                && final(self).buf@ == old(self).buf@,
            total_len <= u16::MAX ==> r is Ok && final(self).buf@ == put16(
                old(self).buf@,
                2,
                total_len as int,
            ),
            final(final(self).buf)@ == final(old(self).buf)@,
    {
        if total_len > 0xffff {
            return Err(Error::InvalidPacketLength);
        }
        write_u16(self.buf, 2, total_len as u16);
        Ok(())
    }

    pub fn set_identification(&mut self, identification: u16)
        requires
            old(self).buf@.len() >= 20,
        ensures
            final(self).buf@ == put16(old(self).buf@, 4, identification as int),
            final(final(self).buf)@ == final(old(self).buf)@,
    {
        write_u16(self.buf, 4, identification);
    }

    pub fn set_flags_fragment_offset(&mut self, value: u16)
        requires
            old(self).buf@.len() >= 20,
        ensures
            final(self).buf@ == put16(old(self).buf@, 6, value as int),
            final(final(self).buf)@ == final(old(self).buf)@,
    {
        write_u16(self.buf, 6, value);
    }

    pub fn set_ttl(&mut self, ttl: u8)
        requires
            old(self).buf@.len() >= 20,
        ensures
            final(self).buf@ == old(self).buf@.update(8, ttl),
            final(final(self).buf)@ == final(old(self).buf)@,
    {
        self.buf[8] = ttl;
    }

    pub fn set_ip_proto(&mut self, protocol: u8)
        requires
            old(self).buf@.len() >= 20,
        ensures
            final(self).buf@ == old(self).buf@.update(9, protocol),
            final(final(self).buf)@ == final(old(self).buf)@,
    {
        self.buf[9] = protocol;
    }

    pub fn set_checksum(&mut self, checksum: u16)
        requires
            old(self).buf@.len() >= 20,
        ensures
            final(self).buf@ == put16(old(self).buf@, 10, checksum as int),
            final(final(self).buf)@ == final(old(self).buf)@,
    {
        write_u16(self.buf, 10, checksum);
    }

    pub fn set_src_ip(&mut self, ip: Ipv4Addr)
        requires
            old(self).buf@.len() >= 20,
        ensures
            final(self).buf@ == put32(old(self).buf@, 12, ip@ as int),
            final(final(self).buf)@ == final(old(self).buf)@,
    {
        write_u32(self.buf, 12, ip.as_u32());
    }

    pub fn set_dst_ip(&mut self, ip: Ipv4Addr)
        requires
            old(self).buf@.len() >= 20,
        ensures
            final(self).buf@ == put32(old(self).buf@, 16, ip@ as int),
            final(final(self).buf)@ == final(old(self).buf)@,
    {
        write_u32(self.buf, 16, ip.as_u32());
    }

    /// Recomputes the header checksum over the header length that the IHL
    /// field states; the header then carries a correct checksum.
    pub fn recompute_checksum(&mut self) -> (r: Result<(), Error>)
        requires
            old(self).buf@.len() >= 20,
        ensures
            (ipv4_ihl_len(old(self).buf@) < 20 || ipv4_ihl_len(old(self).buf@) > old(
                self,
            ).buf@.len()) ==> r == Err::<(), Error>(Error::InvalidIpv4HeaderLength)
                && final(self).buf@ == old(self).buf@,
            !(ipv4_ihl_len(old(self).buf@) < 20 || ipv4_ihl_len(old(self).buf@) > old(
                self,
            ).buf@.len()) ==> r is Ok && final(self).buf@ == ipv4_with_checksum(
                old(self).buf@,
                ipv4_ihl_len(old(self).buf@),
            ) && checksum_ok(word_sum(final(self).buf@.take(ipv4_ihl_len(old(self).buf@)))),
            final(final(self).buf)@ == final(old(self).buf)@,
    {
        let header_len = (self.buf[0] % 16) as usize * 4;
        if header_len < Self::MIN_HEADER_LEN || header_len > self.buf.len() {
            return Err(Error::InvalidIpv4HeaderLength);
        }
        self.set_checksum(0);
        let ghost zeroed = self.buf@;
        let checksum = {
            let header = &self.buf[0..header_len];
            proof {
                wire::lemma_word_sum_bound(header@);
            }
            checksum_value(header, 0)
        };
        self.set_checksum(checksum);
        proof {
            let hl = header_len as int;
            wire::lemma_checksum_of_checks(word_sum(zeroed.take(hl)));
            assert(self.buf@.take(hl) =~= put16(zeroed.take(hl), 10, checksum as int));
            wire::lemma_word_sum_put16(zeroed.take(hl), 10, checksum as int);
            wire::lemma_u16_bytes(0);
        }
        Ok(())
    }
}

} // verus!

verus! {

/// The four bytes of an address in network order.
fn addr_bytes(ip: Ipv4Addr) -> (r: [u8; 4])
    ensures
        r@ == u32_bytes(ip@ as int),
{
    let value = ip.as_u32();
    let r = [
        (value / 0x100_0000) as u8,
        ((value / 0x1_0000) % 256) as u8,
        ((value / 256) % 256) as u8,
        (value % 256) as u8,
    ];
    assert(r@ =~= u32_bytes(ip@ as int));
    r
}

/// Adds the pseudo header of a TCP segment of `len` bytes to a sum.
fn pseudo_header_add(src_ip: Ipv4Addr, dst_ip: Ipv4Addr, len: u32) -> (r: u32)
    requires
        pseudo_sum(src_ip@ as int, dst_ip@ as int, IPPROTO_TCP as int, len as int) <= u32::MAX,
    ensures
        r == pseudo_sum(src_ip@ as int, dst_ip@ as int, IPPROTO_TCP as int, len as int),
{
    let src = addr_bytes(src_ip);
    let dst = addr_bytes(dst_ip);
    proof {
        wire::lemma_word_sum_u32_bytes(src_ip@ as int);
        wire::lemma_word_sum_u32_bytes(dst_ip@ as int);
    }
    let mut sum: u32 = 0;
    sum = checksum_add(sum, &src);
    sum = checksum_add(sum, &dst);
    sum += IPPROTO_TCP as u32;
    sum += len;
    sum
}

/// The header length that the data offset field (high nibble of byte 12)
/// of a TCP header announces.
pub open spec fn tcp_data_offset_len(s: Seq<u8>) -> int {
    (s[12] / 16) as int * 4
}

/// Why a TCP header cannot be inspected, if it cannot.
///
/// Layout: source port 0..2, destination port 2..4, sequence number 4..8,
/// acknowledgment number 8..12, data offset 12, flags 13, window 14..16,
/// checksum 16..18, urgent pointer 18..20.
pub open spec fn tcp_header_error(s: Seq<u8>) -> Option<Error> {
    if s.len() < 20 {
        Some(Error::TcpHeaderTooShort)
    } else if tcp_data_offset_len(s) < 20 || s.len() < tcp_data_offset_len(s) {
        Some(Error::InvalidTcpHeaderLength)
    } else {
        None
    }
}

/// The pseudo-header sum for a segment `seg` carried in the IPv4 packet
/// whose header is `ip`; the length enters as a 32-bit value.
pub open spec fn tcp_pseudo_sum(ip: Seq<u8>, seg: Seq<u8>) -> nat {
    pseudo_sum(be32(ip, 12), be32(ip, 16), IPPROTO_TCP as int, (seg.len() % 0x1_0000_0000) as int)
}

pub struct TcpInspector<'a> {
    buf: &'a [u8],
    header_len: usize,
}

impl<'a> TcpInspector<'a> {
    pub const MIN_HEADER_LEN: usize = 20;

    #[verifier::type_invariant]
    spec fn well_formed(self) -> bool {
        &&& tcp_header_error(self.buf@) is None
        &&& self.header_len == tcp_data_offset_len(self.buf@)
    }

    /// The bytes of the segment, from the start of the TCP header.
    pub closed spec fn bytes(self) -> Seq<u8> {
        self.buf@
    }

    pub fn new(buf: &'a [u8]) -> (r: Result<Self, Error>)
        ensures
            match tcp_header_error(buf@) {
                Some(e) => r == Err::<Self, Error>(e),
                None => r matches Ok(tcp) && tcp.bytes() == buf@,
            },
    {
        if buf.len() < Self::MIN_HEADER_LEN {
            return Err(Error::TcpHeaderTooShort);
        }
        let header_len = (buf[12] / 16) as usize * 4;
        if header_len < Self::MIN_HEADER_LEN || buf.len() < header_len {
            return Err(Error::InvalidTcpHeaderLength);
        }
        Ok(Self { buf, header_len })
    }

    /// Checks that the IPv4 packet carries TCP and that the segment's
    /// checksum, over the pseudo header and the whole segment, is correct.
    pub fn validate(&self, ipv4: &Ipv4Inspector<'_>) -> (r: Result<(), Error>)
        requires
            ipv4.bytes()[9] == IPPROTO_TCP ==> tcp_pseudo_sum(ipv4.bytes(), self.bytes())
                + word_sum(self.bytes()) <= u32::MAX,
        ensures
            ipv4.bytes()[9] != IPPROTO_TCP ==> r == Err::<(), Error>(Error::NotTcp),
            ipv4.bytes()[9] == IPPROTO_TCP ==> r == (if checksum_ok(
                (tcp_pseudo_sum(ipv4.bytes(), self.bytes()) + word_sum(self.bytes())) as nat,
            ) {
                Ok::<(), Error>(())
            } else {
                Err(Error::InvalidTcpChecksum)
            }),
    {
        if ipv4.ip_proto() != IPPROTO_TCP {
            return Err(Error::NotTcp);
        }
        let buf_len = self.buf.len();
        let len = buf_len as u32;
        assert(len == (buf_len as u64) % 0x1_0000_0000) by (bit_vector)
            requires
                len == buf_len as u32,
        ;
        proof {
            vstd::arithmetic::div_mod::lemma_mod_bound(buf_len as int, 0x1_0000_0000);
        }
        let sum = pseudo_header_add(ipv4.src_ip(), ipv4.dst_ip(), len);
        if !checksum_valid(self.buf, sum) {
            return Err(Error::InvalidTcpChecksum);
        }
        Ok(())
    }

    pub fn dst_port(&self) -> (r: u16)
        ensures
            r == be16(self.bytes(), 2),
    {
        proof {
            use_type_invariant(self);
        }
        read_u16(self.buf, 2)
    }

    pub fn src_port(&self) -> (r: u16)
        ensures
            r == be16(self.bytes(), 0),
    {
        proof {
            use_type_invariant(self);
        }
        read_u16(self.buf, 0)
    }

    pub fn seq(&self) -> (r: u32)
        ensures
            r == be32(self.bytes(), 4),
    {
        proof {
            use_type_invariant(self);
        }
        read_u32(self.buf, 4)
    }

    pub fn ack(&self) -> (r: u32)
        ensures
            r == be32(self.bytes(), 8),
    {
        proof {
            use_type_invariant(self);
        }
        read_u32(self.buf, 8)
    }

    pub fn flags(&self) -> (r: u8)
        ensures
            r == self.bytes()[13],
    {
        proof {
            use_type_invariant(self);
        }
        self.buf[13]
    }

    pub fn window_size(&self) -> (r: u16)
        ensures
            r == be16(self.bytes(), 14),
    {
        proof {
            use_type_invariant(self);
        }
        read_u16(self.buf, 14)
    }

    pub fn header_len(&self) -> (r: usize)
        ensures
            r == tcp_data_offset_len(self.bytes()),
            20 <= r <= self.bytes().len(),
    {
        proof {
            use_type_invariant(self);
        }
        self.header_len
    }

    pub fn payload_len(&self) -> (r: usize)
        ensures
            r == self.bytes().len() - tcp_data_offset_len(self.bytes()),
    {
        proof {
            use_type_invariant(self);
        }
        self.buf.len() - self.header_len
    }
}

pub struct TcpRewriter<'a> {
    pub buf: &'a mut [u8],
}

/// The TCP header `s`, with `header_len` bytes of header, with its checksum
/// field recomputed over the pseudo header whose sum is `pseudo`, the
/// header, and `payload`.
pub open spec fn tcp_with_checksum(s: Seq<u8>, header_len: int, pseudo: nat, payload: Seq<u8>) -> Seq<u8> {
    let zeroed = put16(s, 16, 0);
    put16(zeroed, 16, checksum_of(pseudo + word_sum(zeroed.take(header_len)) + word_sum(payload)))
}

impl<'a> TcpRewriter<'a> {
    pub const MIN_HEADER_LEN: usize = 20;

    pub fn new(buf: &'a mut [u8]) -> (r: Result<Self, Error>)
        ensures
            old(buf)@.len() < 20 ==> r == Err::<Self, Error>(Error::TcpHeaderTooShort)
                && final(buf)@ == old(buf)@,
            old(buf)@.len() >= 20 ==> (r matches Ok(w) && w.buf@ == old(buf)@ && final(buf)@
                == final(w.buf)@),
    {
        if buf.len() < Self::MIN_HEADER_LEN {
            return Err(Error::TcpHeaderTooShort);
        }
        Ok(Self { buf })
    }

    pub fn set_src_port(&mut self, port: u16)
        requires
            old(self).buf@.len() >= 20,
        ensures
            final(self).buf@ == put16(old(self).buf@, 0, port as int),
            final(final(self).buf)@ == final(old(self).buf)@,
    {
        write_u16(self.buf, 0, port);
    }

    pub fn set_dst_port(&mut self, port: u16)
        requires
            old(self).buf@.len() >= 20,
        ensures
            final(self).buf@ == put16(old(self).buf@, 2, port as int),
            final(final(self).buf)@ == final(old(self).buf)@,
    {
        write_u16(self.buf, 2, port);
    }

    pub fn set_seq(&mut self, seq: u32)
        requires
            old(self).buf@.len() >= 20,
        ensures
            final(self).buf@ == put32(old(self).buf@, 4, seq as int),
            final(final(self).buf)@ == final(old(self).buf)@,
    {
        write_u32(self.buf, 4, seq);
    }

    pub fn set_ack(&mut self, ack: u32)
        requires
            old(self).buf@.len() >= 20,
        ensures
            final(self).buf@ == put32(old(self).buf@, 8, ack as int),
            final(final(self).buf)@ == final(old(self).buf)@,
    {
        write_u32(self.buf, 8, ack);
    }

    /// Sets the data offset nibble for a header of `header_len` bytes.
    pub fn set_header_len(&mut self, header_len: usize) -> (r: Result<(), Error>)
        requires
            old(self).buf@.len() >= 20,
        ensures
            (header_len < 20 || header_len > 60 || header_len % 4 != 0 || header_len
                > old(self).buf@.len()) ==> r == Err::<(), Error>(Error::InvalidTcpHeaderLength)
                && final(self).buf@ == old(self).buf@,
            !(header_len < 20 || header_len > 60 || header_len % 4 != 0 || header_len
                > old(self).buf@.len()) ==> r is Ok && final(self).buf@ == old(self).buf@.update(
                12,
                ((header_len / 4) * 16 + old(self).buf@[12] % 16) as u8,
            ),
            final(final(self).buf)@ == final(old(self).buf)@,
    {
        if header_len < Self::MIN_HEADER_LEN || header_len > 60 || header_len % 4 != 0
            || header_len > self.buf.len() {
            return Err(Error::InvalidTcpHeaderLength);
        }
        let old_byte = self.buf[12];
        let offset = (header_len / 4) as u8;
        let byte = offset << 4 | (old_byte & 0x0f);
        assert(byte == (offset * 16 + old_byte % 16) as u8) by (bit_vector)
            requires
                byte == offset << 4 | (old_byte & 0x0f),
                offset < 16,
        ;
        self.buf[12] = byte;
        Ok(())
    }

    pub fn set_flags(&mut self, flags: u8)
        requires
            old(self).buf@.len() >= 20,
        ensures
            final(self).buf@ == old(self).buf@.update(13, flags),
            final(final(self).buf)@ == final(old(self).buf)@,
    {
        self.buf[13] = flags;
    }

    pub fn set_window_size(&mut self, window_size: u16)
        requires
            old(self).buf@.len() >= 20,
        ensures
            final(self).buf@ == put16(old(self).buf@, 14, window_size as int),
            final(final(self).buf)@ == final(old(self).buf)@,
    {
        write_u16(self.buf, 14, window_size);
    }

    pub fn set_checksum(&mut self, checksum: u16)
        requires
            old(self).buf@.len() >= 20,
        ensures
            final(self).buf@ == put16(old(self).buf@, 16, checksum as int),
            final(final(self).buf)@ == final(old(self).buf)@,
    {
        write_u16(self.buf, 16, checksum);
    }

    pub fn set_urgent_pointer(&mut self, urgent_pointer: u16)
        requires
            old(self).buf@.len() >= 20,
        ensures
            final(self).buf@ == put16(old(self).buf@, 18, urgent_pointer as int),
            final(final(self).buf)@ == final(old(self).buf)@,
    {
        write_u16(self.buf, 18, urgent_pointer);
    }

    /// Recomputes the checksum of a segment made of this header (of the
    /// length its data offset states) and `payload`, sent from `src_ip` to
    /// `dst_ip`; the segment then carries a correct checksum.
    pub fn recompute_checksum(&mut self, src_ip: Ipv4Addr, dst_ip: Ipv4Addr, payload: &[u8]) -> (r:
        Result<(), Error>)
        requires
            old(self).buf@.len() >= 20,
        ensures
            ({
                let s = old(self).buf@;
                let hl = tcp_data_offset_len(s);
                let seg_len = hl + payload@.len();
                let pseudo = pseudo_sum(src_ip@ as int, dst_ip@ as int, IPPROTO_TCP as int, seg_len);
                &&& (hl < 20 || hl > s.len()) ==> r == Err::<(), Error>(
                    Error::InvalidTcpHeaderLength,
                ) && final(self).buf@ == s
                &&& !(hl < 20 || hl > s.len()) && seg_len > u16::MAX ==> r == Err::<(), Error>(
                    Error::InvalidPacketLength,
                ) && final(self).buf@ == s
                &&& !(hl < 20 || hl > s.len()) && seg_len <= u16::MAX ==> r is Ok
                    && final(self).buf@ == tcp_with_checksum(s, hl, pseudo, payload@) && checksum_ok(
                    (pseudo + word_sum(final(self).buf@.take(hl) + payload@)) as nat,
                )
            }),
            final(final(self).buf)@ == final(old(self).buf)@,
    {
        let header_len = (self.buf[12] / 16) as usize * 4;
        if header_len < Self::MIN_HEADER_LEN || header_len > self.buf.len() {
            return Err(Error::InvalidTcpHeaderLength);
        }
        if payload.len() > 0xffff - header_len {
            return Err(Error::InvalidPacketLength);
        }
        let tcp_len = (header_len + payload.len()) as u32;
        self.set_checksum(0);
        let ghost zeroed = self.buf@;
        let ghost hl = header_len as int;
        let mut sum = pseudo_header_add(src_ip, dst_ip, tcp_len);
        let checksum = {
            let header = &self.buf[0..header_len];
            proof {
                wire::lemma_word_sum_bound(header@);
                wire::lemma_word_sum_bound(payload@);
                assert(header@ == zeroed.take(hl));
            }
            sum = checksum_add(sum, header);
            checksum_value(payload, sum)
        };
        self.set_checksum(checksum);
        proof {
            let pseudo = pseudo_sum(src_ip@ as int, dst_ip@ as int, IPPROTO_TCP as int, hl
                + payload@.len());
            let total = pseudo + word_sum(zeroed.take(hl)) + word_sum(payload@);
            wire::lemma_checksum_of_checks(total as nat);
            assert(self.buf@.take(hl) =~= put16(zeroed.take(hl), 16, checksum as int));
            wire::lemma_word_sum_put16(zeroed.take(hl), 16, checksum as int);
            wire::lemma_u16_bytes(0);
            wire::lemma_word_sum_concat(self.buf@.take(hl), payload@);
        }
        Ok(())
    }
}

} // verus!
