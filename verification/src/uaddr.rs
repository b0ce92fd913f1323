//! User-space addresses.
use vstd::prelude::*;

verus! {

/// A user-space address.
#[derive(Debug, Copy, Clone, Eq, PartialEq, Hash, Structural)]
pub struct UAddr(usize);

impl View for UAddr {
    type V = usize;

    closed spec fn view(&self) -> usize {
        self.0
    }
}

impl UAddr {
    pub fn new(addr: usize) -> (r: UAddr)
        ensures
            r@ == addr,
    {
        UAddr(addr)
    }

    pub fn as_usize(self) -> (r: usize)
        ensures
            r == self@,
    {
        self.0
    }

    /// Whether the address is a multiple of `align`.
    pub fn is_aligned_to(self, align: usize) -> (r: bool)
        requires
            align > 0,
        ensures
            r == (self@ % align == 0),
    {
        self.0 % align == 0
    }

    /// The address `len` bytes further, unless that overflows.
    pub fn add(self, len: usize) -> (r: Option<UAddr>)
        ensures
            self@ + len > usize::MAX ==> r is None,
            self@ + len <= usize::MAX ==> (r matches Some(a) && a@ == self@ + len),
    {
        match self.0.checked_add(len) {
            Some(addr) => Some(UAddr(addr)),
            None => None,
        }
    }
}

} // verus!
