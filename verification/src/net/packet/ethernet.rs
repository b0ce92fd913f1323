//! Ethernet II frame headers.
//!
//! Layout: destination MAC at 0..6, source MAC at 6..12, EtherType at 12..14.
use vstd::prelude::*;

use super::Error;
use super::read_array;
use super::read_u16;
use super::wire::be16;
use super::wire::put16;
use super::wire::splice;
use super::write_array;
use super::write_u16;

verus! {

pub const ETHERNET_HEADER_LEN: usize = 14;

pub struct EthernetInspector<'a> {
    buf: &'a [u8],
}

impl<'a> EthernetInspector<'a> {
    pub const HEADER_LEN: usize = 14;

    #[verifier::type_invariant]
    spec fn holds_header(self) -> bool {
        self.buf@.len() >= 14
    }

    /// The bytes of the frame under inspection.
    pub closed spec fn bytes(self) -> Seq<u8> {
        self.buf@
    }

    pub fn new(buf: &'a [u8]) -> (r: Result<Self, Error>)
        ensures
            buf@.len() < 14 ==> r == Err::<Self, Error>(Error::EthernetHeaderTooShort),
            buf@.len() >= 14 ==> (r matches Ok(frame) && frame.bytes() == buf@),
    {
        if buf.len() < Self::HEADER_LEN {
            return Err(Error::EthernetHeaderTooShort);
        }
        Ok(Self { buf })
    }

    pub fn dst_mac(&self) -> (r: [u8; 6])
        ensures
            r@ == self.bytes().subrange(0, 6),
    {
        proof {
            use_type_invariant(self);
        }
        read_array(self.buf, 0)
    }

    pub fn src_mac(&self) -> (r: [u8; 6])
        ensures
            r@ == self.bytes().subrange(6, 12),
    {
        proof {
            use_type_invariant(self);
        }
        read_array(self.buf, 6)
    }

    pub fn eth_type(&self) -> (r: u16)
        ensures
            r == be16(self.bytes(), 12),
    {
        proof {
            use_type_invariant(self);
        }
        read_u16(self.buf, 12)
    }

    /// The bytes after the header.
    pub fn payload(&self) -> (r: &'a [u8])
        ensures
            r@ == self.bytes().skip(14),
    {
        proof {
            use_type_invariant(self);
        }
        &self.buf[Self::HEADER_LEN..self.buf.len()]
    }
}

pub struct EthernetRewriter<'a> {
    pub buf: &'a mut [u8],
}

impl<'a> EthernetRewriter<'a> {
    pub const HEADER_LEN: usize = 14;

    pub fn new(buf: &'a mut [u8]) -> (r: Result<Self, Error>)
        ensures
            old(buf)@.len() < 14 ==> r == Err::<Self, Error>(Error::EthernetHeaderTooShort)
                && final(buf)@ == old(buf)@,
            old(buf)@.len() >= 14 ==> (r matches Ok(w) && w.buf@ == old(buf)@ && final(buf)@
                == final(w.buf)@),
    {
        if buf.len() < Self::HEADER_LEN {
            return Err(Error::EthernetHeaderTooShort);
        }
        Ok(Self { buf })
    }

    pub fn set_dst_mac(&mut self, mac: [u8; 6])
        requires
            old(self).buf@.len() >= 14,
        ensures
            final(self).buf@ == splice(old(self).buf@, 0, mac@),
            final(final(self).buf)@ == final(old(self).buf)@,
    {
        write_array(self.buf, 0, mac);
    }

    pub fn set_src_mac(&mut self, mac: [u8; 6])
        requires
            old(self).buf@.len() >= 14,
        ensures
            final(self).buf@ == splice(old(self).buf@, 6, mac@),
            final(final(self).buf)@ == final(old(self).buf)@,
    {
        write_array(self.buf, 6, mac);
    }

    pub fn set_eth_type(&mut self, eth_type: u16)
        requires
            old(self).buf@.len() >= 14,
        ensures
            final(self).buf@ == put16(old(self).buf@, 12, eth_type as int),
            final(final(self).buf)@ == final(old(self).buf)@,
    {
        write_u16(self.buf, 12, eth_type);
    }
}

} // verus!
