//! TCP segment headers.
//!
//! Layout: source port 0..2, destination port 2..4, sequence number 4..8,
//! acknowledgment number 8..12, data offset 12, flags 13, window 14..16,
//! checksum 16..18, urgent pointer 18..20.
use vstd::prelude::*;

use super::IPPROTO_TCP;
use super::checksum::Checksum;
use super::ipv4::Ipv4Addr;
use super::ipv4::Ipv4Inspector;
use super::read_u16;
use super::read_u32;
use super::tcp_data_offset_len;
use super::wire::be16;
use super::wire::be32;
use super::wire::checksum_of;
use super::wire::checksum_ok;
use super::wire::pseudo_sum;
use super::wire::put16;
use super::wire::word_sum;
use super::write_u16;

verus! {

#[derive(Debug, PartialEq, Eq, Structural)]
pub enum Error {
    NotTcp,
    TcpHeaderTooShort,
    InvalidTcpHeaderLength,
    InvalidTcpChecksum,
}

const MIN_HEADER_LEN: usize = 20;

/// Why a TCP header cannot be inspected, if it cannot.
pub open spec fn header_error(s: Seq<u8>) -> Option<Error> {
    if s.len() < 20 {
        Some(Error::TcpHeaderTooShort)
    } else if tcp_data_offset_len(s) < 20 || s.len() < tcp_data_offset_len(s) {
        Some(Error::InvalidTcpHeaderLength)
    } else {
        None
    }
}

/// The pseudo-header sum of a segment of `len` bytes sent from `src` to
/// `dst`; the length enters as a 16-bit value.
pub open spec fn segment_pseudo_sum(src: int, dst: int, len: int) -> nat {
    pseudo_sum(src, dst, IPPROTO_TCP as int, len % 0x1_0000)
}

/// The bytes of an optional payload.
pub open spec fn opt_bytes(payload: Option<&[u8]>) -> Seq<u8> {
    match payload {
        Some(p) => p@,
        None => Seq::empty(),
    }
}

pub struct TcpInspector<'a> {
    buf: &'a [u8],
    header_len: usize,
}

impl<'a> TcpInspector<'a> {
    #[verifier::type_invariant]
    spec fn well_formed(self) -> bool {
        &&& header_error(self.buf@) is None
        &&& self.header_len == tcp_data_offset_len(self.buf@)
    }

    /// The bytes of the segment, from the start of the TCP header.
    pub closed spec fn bytes(self) -> Seq<u8> {
        self.buf@
    }

    pub fn new(buf: &'a [u8]) -> (r: Result<Self, Error>)
        ensures
            match header_error(buf@) {
                Some(e) => r == Err::<Self, Error>(e),
                None => r matches Ok(tcp) && tcp.bytes() == buf@,
            },
    {
        if buf.len() < MIN_HEADER_LEN {
            return Err(Error::TcpHeaderTooShort);
        }
        let data_offset = buf[12];
        let header_len = (data_offset / 16) as usize * 4;
        if header_len < MIN_HEADER_LEN || buf.len() < header_len {
            return Err(Error::InvalidTcpHeaderLength);
        }
        Ok(Self { buf, header_len })
    }

    /// Checks that the IPv4 packet carries TCP and that the checksum over
    /// the pseudo header and the whole segment is correct.
    pub fn validate(&self, ipv4: &Ipv4Inspector<'_>) -> (r: Result<(), Error>)
        requires
            ipv4.bytes()[9] == IPPROTO_TCP ==> segment_pseudo_sum(
                be32(ipv4.bytes(), 12),
                be32(ipv4.bytes(), 16),
                self.bytes().len() as int,
            ) + word_sum(self.bytes()) <= u32::MAX,
        ensures
            ipv4.bytes()[9] != IPPROTO_TCP ==> r == Err::<(), Error>(Error::NotTcp),
            ipv4.bytes()[9] == IPPROTO_TCP ==> r == (if checksum_ok(
                (segment_pseudo_sum(
                    be32(ipv4.bytes(), 12),
                    be32(ipv4.bytes(), 16),
                    self.bytes().len() as int,
                ) + word_sum(self.bytes())) as nat,
            ) {
                Ok::<(), Error>(())
            } else {
                Err(Error::InvalidTcpChecksum)
            }),
    {
        if ipv4.ip_proto() != IPPROTO_TCP {
            return Err(Error::NotTcp);
        }
        let src = ipv4.src_ip();
        let dst = ipv4.dst_ip();
        let buf_len = self.buf.len();
        let len = buf_len as u16;
        assert(len == (buf_len as u64) % 0x1_0000) by (bit_vector)
            requires
                len == buf_len as u16,
        ;
        let mut checksum = Checksum::new();
        checksum.add_ipv4(src);
        checksum.add_ipv4(dst);
        checksum.add_u16(IPPROTO_TCP as u16);
        checksum.add_u16(len);
        checksum.add_bytes(self.buf);
        let value = checksum.finish();
        proof {
            super::wire::lemma_fold16_props(checksum.sum());
        }
        if value != 0 {
            return Err(Error::InvalidTcpChecksum);
        }
        Ok(())
    }

    pub fn dst_port(&self) -> (r: u16)
        ensures
            r == be16(self.bytes(), 2),
    {
        proof {
            use_type_invariant(self);
        }
        read_u16(self.buf, 2)
    }

    pub fn src_port(&self) -> (r: u16)
        ensures
            r == be16(self.bytes(), 0),
    {
        proof {
            use_type_invariant(self);
        }
        read_u16(self.buf, 0)
    }

    pub fn seq(&self) -> (r: u32)
        ensures
            r == be32(self.bytes(), 4),
    {
        proof {
            use_type_invariant(self);
        }
        read_u32(self.buf, 4)
    }

    pub fn ack(&self) -> (r: u32)
        ensures
            r == be32(self.bytes(), 8),
    {
        proof {
            use_type_invariant(self);
        }
        read_u32(self.buf, 8)
    }

    pub fn flags(&self) -> (r: u8)
        ensures
            r == self.bytes()[13],
    {
        proof {
            use_type_invariant(self);
        }
        self.buf[13]
    }

    pub fn window_size(&self) -> (r: u16)
        ensures
            r == be16(self.bytes(), 14),
    {
        proof {
            use_type_invariant(self);
        }
        read_u16(self.buf, 14)
    }

    pub fn checksum(&self) -> (r: u16)
        ensures
            r == be16(self.bytes(), 16),
    {
        proof {
            use_type_invariant(self);
        }
        read_u16(self.buf, 16)
    }

    pub fn header_len(&self) -> (r: usize)
        ensures
            r == tcp_data_offset_len(self.bytes()),
            20 <= r <= self.bytes().len(),
    {
        proof {
            use_type_invariant(self);
        }
        self.header_len
    }

    pub fn payload_len(&self) -> (r: usize)
        ensures
            r == self.bytes().len() - tcp_data_offset_len(self.bytes()),
    {
        proof {
            use_type_invariant(self);
        }
        self.buf.len() - self.header_len
    }
}

pub struct TcpRewriter<'a> {
    pub buf: &'a mut [u8],
}

impl<'a> TcpRewriter<'a> {
    pub fn new(buf: &'a mut [u8]) -> (r: Result<Self, Error>)
        ensures
            old(buf)@.len() < 20 ==> r == Err::<Self, Error>(Error::TcpHeaderTooShort)
                && final(buf)@ == old(buf)@,
            old(buf)@.len() >= 20 ==> (r matches Ok(w) && w.buf@ == old(buf)@ && final(buf)@
                == final(w.buf)@),
    {
        if buf.len() < MIN_HEADER_LEN {
            return Err(Error::TcpHeaderTooShort);
        }
        Ok(Self { buf })
    }

    /// Recomputes the checksum over the pseudo header, the whole buffer, and
    /// the payload if there is one; the sum of these then checks.
    pub fn update_checksum(&mut self, src_ip: Ipv4Addr, dst_ip: Ipv4Addr, payload: Option<&[u8]>)
        requires
            old(self).buf@.len() >= 20,
            old(self).buf@.len() + opt_bytes(payload).len() <= usize::MAX,
            segment_pseudo_sum(
                src_ip@ as int,
                dst_ip@ as int,
                (old(self).buf@.len() + opt_bytes(payload).len()) as int,
            ) + word_sum(put16(old(self).buf@, 16, 0)) + word_sum(opt_bytes(payload))
                <= u32::MAX,
        ensures
            ({
                let zeroed = put16(old(self).buf@, 16, 0);
                let pseudo = segment_pseudo_sum(
                    src_ip@ as int,
                    dst_ip@ as int,
                    (old(self).buf@.len() + opt_bytes(payload).len()) as int,
                );
                &&& final(self).buf@ == put16(
                    zeroed,
                    16,
                    checksum_of((pseudo + word_sum(zeroed) + word_sum(opt_bytes(payload))) as nat),
                )
                &&& checksum_ok(
                    (pseudo + word_sum(final(self).buf@) + word_sum(opt_bytes(payload))) as nat,
                )
            }),
            final(final(self).buf)@ == final(old(self).buf)@,
    {
        write_u16(self.buf, 16, 0);
        let ghost zeroed = self.buf@;
        let payload_len = match payload {
            Some(p) => p.len(),
            None => 0,
        };
        let total = self.buf.len() + payload_len;
        let len = total as u16;
        assert(len == (total as u64) % 0x1_0000) by (bit_vector)
            requires
                len == total as u16,
        ;
        let mut checksum = Checksum::new();
        checksum.add_ipv4(src_ip);
        checksum.add_ipv4(dst_ip);
        checksum.add_u16(IPPROTO_TCP as u16);
        checksum.add_u16(len);
        checksum.add_bytes(self.buf);
        match payload {
            Some(p) => checksum.add_bytes(p),
            None => {},
        }
        let value = checksum.finish();
        write_u16(self.buf, 16, value);
        proof {
            super::wire::lemma_checksum_of_checks(checksum.sum());
            super::wire::lemma_word_sum_put16(zeroed, 16, value as int);
            super::wire::lemma_u16_bytes(0);
            assert(put16(zeroed, 16, value as int) =~= self.buf@);
        }
    }
}

} // verus!
