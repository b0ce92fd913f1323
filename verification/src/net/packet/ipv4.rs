//! IPv4 addresses, network masks, and IPv4 headers.
use vstd::prelude::*;

use super::checksum::Checksum;
use super::ipv4_ihl_len;
use super::ipv4_with_checksum;
use super::read_u16;
use super::read_u32;
use super::wire::be16;
use super::wire::be32;
use super::wire::checksum_ok;
use super::wire::put16;
use super::wire::put32;
use super::wire::word_sum;
use super::write_u16;
use super::write_u32;

verus! {

#[derive(Debug, Clone, Copy, PartialEq, Eq, Hash, Structural)]
pub struct Ipv4Addr(u32);

impl View for Ipv4Addr {
    type V = u32;

    closed spec fn view(&self) -> u32 {
        self.0
    }
}

impl Ipv4Addr {
    pub fn new(value: u32) -> (r: Self)
        ensures
            r@ == value,
    {
        Self(value)
    }

    pub fn as_u32(self) -> (r: u32)
        ensures
            r == self@,
    {
        self.0
    }

    /// Two addresses are equal exactly when their values are.
    pub proof fn lemma_view_eq(self, other: Self)
        ensures
            (self == other) <==> (self@ == other@),
    {
    }
}

#[derive(Debug, Clone, Copy, PartialEq, Eq, Hash, Structural)]
pub struct NetMask(u32);

impl View for NetMask {
    type V = u32;

    closed spec fn view(&self) -> u32 {
        self.0
    }
}

impl NetMask {
    pub fn new(value: u32) -> (r: Self)
        ensures
            r@ == value,
    {
        Self(value)
    }

    /// Whether every bit set in the mask is also set in `ip`.
    pub fn contains(&self, ip: Ipv4Addr) -> (r: bool)
        ensures
            r == (ip@ & self@ == self@),
    {
        (ip.0 & self.0) == self.0
    }
}

#[derive(Debug, PartialEq, Eq, Structural)]
pub enum Error {
    TooShort,
    InvalidHeaderLength,
    NotIpv4,
    InvalidPacketLength,
    Fragmented,
    InvalidChecksum,
}

const MIN_HEADER_LEN: usize = 20;

/// Why an IPv4 header cannot be inspected, if it cannot.
///
/// Layout: version and IHL 0, DSCP and ECN 1, total length 2..4,
/// identification 4..6, flags and fragment offset 6..8, TTL 8, protocol 9,
/// checksum 10..12, source 12..16, destination 16..20.
pub open spec fn header_error(s: Seq<u8>) -> Option<Error> {
    if s.len() < 20 {
        Some(Error::TooShort)
    } else if s[0] / 16 != 4 {
        Some(Error::NotIpv4)
    } else if ipv4_ihl_len(s) < 20 || s.len() < ipv4_ihl_len(s) {
        Some(Error::InvalidHeaderLength)
    } else if be16(s, 2) < ipv4_ihl_len(s) {
        Some(Error::InvalidPacketLength)
    } else {
        None
    }
}

/// Why a well-formed IPv4 header fails validation, if it does.
pub open spec fn validation_error(s: Seq<u8>) -> Option<Error> {
    if be16(s, 2) > s.len() {
        Some(Error::InvalidPacketLength)
    } else if be16(s, 6) % 0x4000 != 0 {
        Some(Error::Fragmented)
    } else if !checksum_ok(word_sum(s.take(ipv4_ihl_len(s)))) {
        Some(Error::InvalidChecksum)
    } else {
        None
    }
}

pub struct Ipv4Inspector<'a> {
    buf: &'a [u8],
    header_len: usize,
    total_len: usize,
}

impl<'a> Ipv4Inspector<'a> {
    #[verifier::type_invariant]
    spec fn well_formed(self) -> bool {
        &&& header_error(self.buf@) is None
        &&& self.header_len == ipv4_ihl_len(self.buf@)
        &&& self.total_len == be16(self.buf@, 2)
    }

    /// The bytes under inspection, from the start of the IPv4 header.
    pub closed spec fn bytes(self) -> Seq<u8> {
        self.buf@
    }

    pub fn new(buf: &'a [u8]) -> (r: Result<Self, Error>)
        ensures
            match header_error(buf@) {
                Some(e) => r == Err::<Self, Error>(e),
                None => r matches Ok(ipv4) && ipv4.bytes() == buf@,
            },
    {
        if buf.len() < MIN_HEADER_LEN {
            return Err(Error::TooShort);
        }
        let version_ihl = buf[0];
        if version_ihl / 16 != 4 {
            return Err(Error::NotIpv4);
        }
        let header_len = (version_ihl % 16) as usize * 4;
        if header_len < MIN_HEADER_LEN || buf.len() < header_len {
            return Err(Error::InvalidHeaderLength);
        }
        let total_len = read_u16(buf, 2) as usize;
        if total_len < header_len {
            return Err(Error::InvalidPacketLength);
        }
        Ok(Self { buf, header_len, total_len })
    }

    pub fn validate(&self) -> (r: Result<(), Error>)
        ensures
            match validation_error(self.bytes()) {
                Some(e) => r == Err::<(), Error>(e),
                None => r is Ok,
            },
    {
        proof {
            use_type_invariant(self);
        }
        if self.total_len > self.buf.len() {
            return Err(Error::InvalidPacketLength);
        }
        let flags = self.fragment_offset();
        assert(flags & 0x3fff == flags % 0x4000) by (bit_vector);
        if flags & 0x3fff != 0 {
            return Err(Error::Fragmented);
        }
        // The sum covers the checksum field itself.
        let mut checksum = Checksum::new();
        let header = &self.buf[0..self.header_len];
        proof {
            super::wire::lemma_word_sum_bound(header@);
            assert(header@ == self.buf@.take(self.header_len as int));
        }
        checksum.add_bytes(header);
        let value = checksum.finish();
        proof {
            super::wire::lemma_fold16_props(word_sum(header@));
        }
        if value != 0 {
            return Err(Error::InvalidChecksum);
        }
        Ok(())
    }

    /// The total length of the packet, as its header states it.
    pub fn total_len(&self) -> (r: usize)
        ensures
            r == be16(self.bytes(), 2),
            r >= ipv4_ihl_len(self.bytes()),
    {
        proof {
            use_type_invariant(self);
        }
        self.total_len
    }

    pub fn ip_proto(&self) -> (r: u8)
        ensures
            r == self.bytes()[9],
    {
        proof {
            use_type_invariant(self);
        }
        self.buf[9]
    }

    pub fn checksum(&self) -> (r: u16)
        ensures
            r == be16(self.bytes(), 10),
    {
        proof {
            use_type_invariant(self);
        }
        read_u16(self.buf, 10)
    }

    pub fn dst_ip(&self) -> (r: Ipv4Addr)
        ensures
            r@ == be32(self.bytes(), 16),
    {
        proof {
            use_type_invariant(self);
        }
        Ipv4Addr(read_u32(self.buf, 16))
    }

    pub fn src_ip(&self) -> (r: Ipv4Addr)
        ensures
            r@ == be32(self.bytes(), 12),
    {
        proof {
            use_type_invariant(self);
        }
        Ipv4Addr(read_u32(self.buf, 12))
    }

    /// The flags and fragment offset field.
    pub fn fragment_offset(&self) -> (r: u16)
        ensures
            r == be16(self.bytes(), 6),
    {
        proof {
            use_type_invariant(self);
        }
        read_u16(self.buf, 6)
    }

    pub fn header_len(&self) -> (r: usize)
        ensures
            r == ipv4_ihl_len(self.bytes()),
            20 <= r <= self.bytes().len(),
    {
        proof {
            use_type_invariant(self);
        }
        self.header_len
    }

    pub fn payload_len(&self) -> (r: usize)
        ensures
            r == be16(self.bytes(), 2) - ipv4_ihl_len(self.bytes()),
    {
        proof {
            use_type_invariant(self);
        }
        self.total_len - self.header_len
    }

    /// The bytes between the header and the end of the packet; the packet
    /// must lie within the buffer.
    pub fn payload(&self) -> (r: &'a [u8])
        requires
            be16(self.bytes(), 2) <= self.bytes().len(),
        ensures
            r@ == self.bytes().subrange(ipv4_ihl_len(self.bytes()), be16(self.bytes(), 2)),
            header_error(self.bytes()) is None,
    {
        proof {
            use_type_invariant(self);
        }
        &self.buf[self.header_len..self.total_len]
    }
}

pub struct Ipv4Rewriter<'a> {
    pub buf: &'a mut [u8],
}

impl<'a> Ipv4Rewriter<'a> {
    pub const HEADER_LEN: usize = 20;

    pub fn new(buf: &'a mut [u8]) -> (r: Result<Self, Error>)
        ensures
            old(buf)@.len() < 20 ==> r == Err::<Self, Error>(Error::TooShort) && final(buf)@
                == old(buf)@,
            old(buf)@.len() >= 20 ==> (r matches Ok(w) && w.buf@ == old(buf)@ && final(buf)@
                == final(w.buf)@),
    {
        if buf.len() < Self::HEADER_LEN {
            return Err(Error::TooShort);
        }
        Ok(Self { buf })
    }

    /// Sets version 4 and a header of 20 bytes (no options).
    pub fn set_version_and_header_len(&mut self)
        requires
            old(self).buf@.len() >= 20,
        ensures
            final(self).buf@ == old(self).buf@.update(0, 0x45),
            final(final(self).buf)@ == final(old(self).buf)@,
    {
        self.buf[0] = 0x45;
    }

    pub fn set_total_len(&mut self, total_len: u16)
        requires
            old(self).buf@.len() >= 20,
        ensures
            final(self).buf@ == put16(old(self).buf@, 2, total_len as int),
            final(final(self).buf)@ == final(old(self).buf)@,
    {
        write_u16(self.buf, 2, total_len);
    }

    pub fn set_identification(&mut self, identification: u16)
        requires
            old(self).buf@.len() >= 20,
        ensures
            final(self).buf@ == put16(old(self).buf@, 4, identification as int),
            final(final(self).buf)@ == final(old(self).buf)@,
    {
        write_u16(self.buf, 4, identification);
    }

    pub fn set_flags_and_fragment_offset(&mut self, value: u16)
        requires
            old(self).buf@.len() >= 20,
        ensures
            final(self).buf@ == put16(old(self).buf@, 6, value as int),
            final(final(self).buf)@ == final(old(self).buf)@,
    {
        write_u16(self.buf, 6, value);
    }

    pub fn set_ttl(&mut self, ttl: u8)
        requires
            old(self).buf@.len() >= 20,
        ensures
            final(self).buf@ == old(self).buf@.update(8, ttl),
            final(final(self).buf)@ == final(old(self).buf)@,
    {
        self.buf[8] = ttl;
    }

    pub fn set_ip_proto(&mut self, protocol: u8)
        requires
            old(self).buf@.len() >= 20,
        ensures
            final(self).buf@ == old(self).buf@.update(9, protocol),
            final(final(self).buf)@ == final(old(self).buf)@,
    {
        self.buf[9] = protocol;
    }

    pub fn set_src_ip(&mut self, ip: Ipv4Addr)
        requires
            old(self).buf@.len() >= 20,
        ensures
            final(self).buf@ == put32(old(self).buf@, 12, ip@ as int),
            final(final(self).buf)@ == final(old(self).buf)@,
    {
        write_u32(self.buf, 12, ip.as_u32());
    }

    pub fn set_dst_ip(&mut self, ip: Ipv4Addr)
        requires
            old(self).buf@.len() >= 20,
        ensures
            final(self).buf@ == put32(old(self).buf@, 16, ip@ as int),
            final(final(self).buf)@ == final(old(self).buf)@,
    {
        write_u32(self.buf, 16, ip.as_u32());
    }

    /// Recomputes the checksum of the 20-byte header, which then checks.
    pub fn update_checksum(&mut self)
        requires
            old(self).buf@.len() >= 20,
        ensures
            final(self).buf@ == ipv4_with_checksum(old(self).buf@, 20),
            checksum_ok(word_sum(final(self).buf@.take(20))),
            final(final(self).buf)@ == final(old(self).buf)@,
    {
        write_u16(self.buf, 10, 0);
        let ghost zeroed = self.buf@;
        let mut checksum = Checksum::new();
        {
            let header = &self.buf[0..Self::HEADER_LEN];
            proof {
                super::wire::lemma_word_sum_bound(header@);
            }
            checksum.add_bytes(header);
        }
        let value = checksum.finish();
        write_u16(self.buf, 10, value);
        proof {
            super::wire::lemma_checksum_of_checks(word_sum(zeroed.take(20)));
            assert(self.buf@.take(20) =~= put16(zeroed.take(20), 10, value as int));
            super::wire::lemma_word_sum_put16(zeroed.take(20), 10, value as int);
            super::wire::lemma_u16_bytes(0);
        }
    }
}

} // verus!
