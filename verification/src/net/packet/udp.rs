//! UDP datagram headers.
//!
//! Layout: source port 0..2, destination port 2..4, length 4..6,
//! checksum 6..8.
use vstd::prelude::*;

use super::checksum::Checksum;
use super::ipv4::Ipv4Addr;
use super::ipv4::Ipv4Inspector;
use super::read_u16;
use super::wire::be16;
use super::wire::be32;
use super::wire::checksum_of;
use super::wire::checksum_ok;
use super::wire::pseudo_sum;
use super::wire::put16;
use super::wire::word_sum;
use super::write_u16;

verus! {

pub const IPPROTO_UDP: u8 = 17;
pub const UDP_HEADER_LEN: usize = 8;

#[derive(Debug, PartialEq, Eq, Structural)]
pub enum Error {
    NotUdp,
    TooShort,
    InvalidLength,
    InvalidChecksum,
}

/// Why a UDP header cannot be inspected, if it cannot.
pub open spec fn header_error(s: Seq<u8>) -> Option<Error> {
    if s.len() < 8 {
        Some(Error::TooShort)
    } else if be16(s, 4) < 8 || be16(s, 4) > s.len() {
        Some(Error::InvalidLength)
    } else {
        None
    }
}

/// The sum of the words of the pseudo header and the datagram of `len`
/// bytes at the start of `s`, sent from `src` to `dst`.
pub open spec fn datagram_sum(src: int, dst: int, s: Seq<u8>, len: int) -> nat {
    (pseudo_sum(src, dst, IPPROTO_UDP as int, len) + word_sum(s.take(len))) as nat
}

pub struct UdpInspector<'a> {
    buf: &'a [u8],
    len: usize,
}

impl<'a> UdpInspector<'a> {
    #[verifier::type_invariant]
    spec fn well_formed(self) -> bool {
        &&& header_error(self.buf@) is None
        &&& self.len == be16(self.buf@, 4)
    }

    /// The bytes under inspection, from the start of the UDP header.
    pub closed spec fn bytes(self) -> Seq<u8> {
        self.buf@
    }

    pub fn new(buf: &'a [u8]) -> (r: Result<Self, Error>)
        ensures
            match header_error(buf@) {
                Some(e) => r == Err::<Self, Error>(e),
                None => r matches Ok(udp) && udp.bytes() == buf@,
            },
    {
        if buf.len() < UDP_HEADER_LEN {
            return Err(Error::TooShort);
        }
        let len = read_u16(buf, 4) as usize;
        if len < UDP_HEADER_LEN || len > buf.len() {
            return Err(Error::InvalidLength);
        }
        Ok(Self { buf, len })
    }

    /// Checks that the IPv4 packet carries UDP and that the checksum, if
    /// the sender computed one (a nonzero field), is correct.
    pub fn validate(&self, ipv4: &Ipv4Inspector<'_>) -> (r: Result<(), Error>)
        ensures
            ipv4.bytes()[9] != IPPROTO_UDP ==> r == Err::<(), Error>(Error::NotUdp),
            ipv4.bytes()[9] == IPPROTO_UDP ==> r == (if be16(self.bytes(), 6) == 0
                || checksum_ok(
                datagram_sum(
                    be32(ipv4.bytes(), 12),
                    be32(ipv4.bytes(), 16),
                    self.bytes(),
                    be16(self.bytes(), 4),
                ),
            ) {
                Ok::<(), Error>(())
            } else {
                Err(Error::InvalidChecksum)
            }),
    {
        proof {
            use_type_invariant(self);
        }
        if ipv4.ip_proto() != IPPROTO_UDP {
            return Err(Error::NotUdp);
        }
        let expected = self.checksum();
        if expected == 0 {
            return Ok(());
        }
        let datagram = &self.buf[0..self.len];
        proof {
            super::wire::lemma_word_sum_bound(datagram@);
            assert(datagram@ == self.buf@.take(self.len as int));
        }
        let mut checksum = Checksum::new();
        checksum.add_ipv4(ipv4.src_ip());
        checksum.add_ipv4(ipv4.dst_ip());
        checksum.add_u16(IPPROTO_UDP as u16);
        checksum.add_u16(self.len as u16);
        checksum.add_bytes(datagram);
        let value = checksum.finish();
        proof {
            super::wire::lemma_fold16_props(checksum.sum());
        }
        if value != 0 {
            return Err(Error::InvalidChecksum);
        }
        Ok(())
    }

    pub fn src_port(&self) -> (r: u16)
        ensures
            r == be16(self.bytes(), 0),
    {
        proof {
            use_type_invariant(self);
        }
        read_u16(self.buf, 0)
    }

    pub fn dst_port(&self) -> (r: u16)
        ensures
            r == be16(self.bytes(), 2),
    {
        proof {
            use_type_invariant(self);
        }
        read_u16(self.buf, 2)
    }

    pub fn checksum(&self) -> (r: u16)
        ensures
            r == be16(self.bytes(), 6),
    {
        proof {
            use_type_invariant(self);
        }
        read_u16(self.buf, 6)
    }

    /// The bytes after the header, up to the length the header states.
    pub fn payload(&self) -> (r: &'a [u8])
        ensures
            r@ == self.bytes().subrange(8, be16(self.bytes(), 4)),
    {
        proof {
            use_type_invariant(self);
        }
        &self.buf[UDP_HEADER_LEN..self.len]
    }
}

pub struct UdpRewriter<'a> {
    pub buf: &'a mut [u8],
}

/// The datagram `s` with its checksum field recomputed for the pseudo
/// header from `src` to `dst`; a computed zero is sent as 0xffff.
pub open spec fn udp_with_checksum(s: Seq<u8>, src: int, dst: int) -> Seq<u8> {
    let zeroed = put16(s, 6, 0);
    let value = checksum_of(datagram_sum(src, dst, zeroed, s.len() as int));
    put16(zeroed, 6, if value == 0 { 0xffff } else { value })
}

impl<'a> UdpRewriter<'a> {
    pub fn new(buf: &'a mut [u8]) -> (r: Result<Self, Error>)
        ensures
            old(buf)@.len() < 8 ==> r == Err::<Self, Error>(Error::TooShort) && final(buf)@
                == old(buf)@,
            old(buf)@.len() > u16::MAX ==> r == Err::<Self, Error>(Error::InvalidLength)
                && final(buf)@ == old(buf)@,
            8 <= old(buf)@.len() <= u16::MAX ==> (r matches Ok(w) && w.buf@ == old(buf)@
                && final(buf)@ == final(w.buf)@),
    {
        if buf.len() < UDP_HEADER_LEN {
            return Err(Error::TooShort);
        }
        if buf.len() > 0xffff {
            return Err(Error::InvalidLength);
        }
        Ok(Self { buf })
    }

    pub fn set_src_port(&mut self, port: u16)
        requires
            8 <= old(self).buf@.len() <= u16::MAX,
        ensures
            final(self).buf@ == put16(old(self).buf@, 0, port as int),
            final(final(self).buf)@ == final(old(self).buf)@,
    {
        write_u16(self.buf, 0, port);
    }

    pub fn set_dst_port(&mut self, port: u16)
        requires
            8 <= old(self).buf@.len() <= u16::MAX,
        ensures
            final(self).buf@ == put16(old(self).buf@, 2, port as int),
            final(final(self).buf)@ == final(old(self).buf)@,
    {
        write_u16(self.buf, 2, port);
    }

    /// Sets the length field to the length of the whole buffer.
    pub fn set_len(&mut self)
        requires
            8 <= old(self).buf@.len() <= u16::MAX,
        ensures
            final(self).buf@ == put16(old(self).buf@, 4, old(self).buf@.len() as int),
            final(final(self).buf)@ == final(old(self).buf)@,
    {
        let len = self.buf.len() as u16;
        write_u16(self.buf, 4, len);
    }

    /// Recomputes the checksum over the pseudo header and the whole buffer;
    /// the datagram then checks.
    pub fn update_checksum(&mut self, src_ip: Ipv4Addr, dst_ip: Ipv4Addr)
        requires
            8 <= old(self).buf@.len() <= u16::MAX,
        ensures
            final(self).buf@ == udp_with_checksum(old(self).buf@, src_ip@ as int, dst_ip@ as int),
            be16(final(self).buf@, 6) != 0,
            checksum_ok(
                datagram_sum(
                    src_ip@ as int,
                    dst_ip@ as int,
                    final(self).buf@,
                    final(self).buf@.len() as int,
                ),
            ),
            final(final(self).buf)@ == final(old(self).buf)@,
    {
        write_u16(self.buf, 6, 0);
        let ghost zeroed = self.buf@;
        let len = self.buf.len() as u16;
        proof {
            super::wire::lemma_word_sum_bound(zeroed);
            assert(zeroed.take(zeroed.len() as int) =~= zeroed);
        }
        let mut checksum = Checksum::new();
        checksum.add_ipv4(src_ip);
        checksum.add_ipv4(dst_ip);
        checksum.add_u16(IPPROTO_UDP as u16);
        checksum.add_u16(len);
        checksum.add_bytes(self.buf);
        let value = checksum.finish();
        let stored = if value == 0 {
            0xffff
        } else {
            value
        };
        write_u16(self.buf, 6, stored);
        proof {
            let sum = checksum.sum();
            super::wire::lemma_checksum_of_checks(sum);
            super::wire::lemma_word_sum_put16(zeroed, 6, stored as int);
            super::wire::lemma_u16_bytes(0);
            super::wire::lemma_u16_bytes(stored as int);
            assert(self.buf@.take(self.buf@.len() as int) =~= self.buf@);
            if value == 0 {
                super::wire::lemma_checksum_ok_add_ffff(sum);
            }
        }
    }
}

} // verus!
