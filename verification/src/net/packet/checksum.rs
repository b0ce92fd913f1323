//! An incremental Internet checksum (RFC 1071).
use vstd::prelude::*;

use super::ipv4::Ipv4Addr;
use super::wire::addr_sum;
use super::wire::checksum_of;
use super::wire::fold16;
use super::wire::word_sum;

verus! {

/// A running sum of 16-bit words.
pub struct Checksum {
    sum: u32,
}

impl Checksum {
    /// The words added so far.
    pub closed spec fn sum(self) -> nat {
        self.sum as nat
    }

    pub fn new() -> (r: Self)
        ensures
            r.sum() == 0,
    {
        Self { sum: 0 }
    }

    pub fn add_u16(&mut self, value: u16)
        requires
            old(self).sum() + value <= u32::MAX,
        ensures
            final(self).sum() == old(self).sum() + value,
    {
        self.sum += value as u32;
    }

    /// Adds the two 16-bit words of an address.
    pub fn add_ipv4(&mut self, ip: Ipv4Addr)
        requires
            old(self).sum() + addr_sum(ip@ as int) <= u32::MAX,
        ensures
            final(self).sum() == old(self).sum() + addr_sum(ip@ as int),
    {
        let value = ip.as_u32();
        self.add_u16((value / 0x1_0000) as u16);
        self.add_u16((value % 0x1_0000) as u16);
    }

    /// Adds the big-endian 16-bit words of `bytes`; an odd last byte is the
    /// high byte of a word whose low byte is zero.
    pub fn add_bytes(&mut self, bytes: &[u8])
        requires
            old(self).sum() + word_sum(bytes@) <= u32::MAX,
        ensures
            final(self).sum() == old(self).sum() + word_sum(bytes@),
    {
        let ghost total = self.sum() + word_sum(bytes@);
        let mut i: usize = 0;
        assert(bytes@.skip(0) =~= bytes@);
        while bytes.len() - i >= 2
            invariant
                i <= bytes@.len(),
                i % 2 == 0,
                total <= u32::MAX,
                self.sum() + word_sum(bytes@.skip(i as int)) == total,
            decreases bytes.len() - i,
        {
            assert(bytes@.skip(i as int).skip(2) =~= bytes@.skip(i + 2));
            self.sum += (bytes[i] as u32) * 256 + (bytes[i + 1] as u32);
            i += 2;
        }
        if bytes.len() % 2 != 0 {
            self.sum += (bytes[bytes.len() - 1] as u32) * 256;
        }
    }

    /// Folds the carries back into 16 bits and returns the one's
    /// complement: the value of the checksum field.
    pub fn finish(self) -> (r: u16)
        ensures
            r == checksum_of(self.sum()),
    {
        let mut sum = self.sum;
        while sum / 0x1_0000 != 0
            invariant
                fold16(sum as nat) == fold16(self.sum()),
            decreases sum,
        {
            proof {
                vstd::arithmetic::div_mod::lemma_fundamental_div_mod(sum as int, 0x1_0000);
            }
            sum = (sum % 0x1_0000) + (sum / 0x1_0000);
        }
        let folded = sum as u16;
        assert(!folded == 0xffff - folded) by (bit_vector);
        !folded
    }
}

} // verus!
