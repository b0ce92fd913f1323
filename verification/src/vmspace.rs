//! The mappings of a virtual memory space: which range of user addresses
//! is backed by which memory object, kept sorted by start address and
//! without overlaps.
use vstd::prelude::*;

use crate::error::ErrorCode;
use crate::uaddr::UAddr;

verus! {

pub const MIN_PAGE_SIZE: usize = 4096;

/// Access rights of a mapping, as bits.
#[derive(Debug, Clone, Copy, PartialEq, Eq, Structural)]
pub struct PageAttrs(usize);

pub const PAGE_ATTR_READ: usize = 1;
pub const PAGE_ATTR_WRITE: usize = 2;
pub const PAGE_ATTR_EXEC: usize = 4;

impl PageAttrs {
    pub closed spec fn bits(self) -> usize {
        self.0
    }

    pub fn from_raw(raw: usize) -> (r: PageAttrs)
        ensures
            r.bits() == raw,
    {
        PageAttrs(raw)
    }

    pub fn as_raw(self) -> (r: usize)
        ensures
            r == self.bits(),
    {
        self.0
    }

    /// Whether every right in `other` is also in `self`.
    pub fn contains(self, other: PageAttrs) -> (r: bool)
        ensures
            r == (self.bits() & other.bits() == other.bits()),
    {
        (self.0 & other.0) == other.0
    }
}

/// The rights a mapping may have: read, write and execute.
pub open spec fn allowed_attrs(attrs: usize) -> bool {
    7usize & attrs == attrs
}

/// Checks the page attributes a system call asks a mapping for: read,
/// write and execute, and nothing else.
pub fn check_page_attrs(attrs: PageAttrs) -> (r: Result<(), ErrorCode>)
    ensures
        r == (if allowed_attrs(attrs.bits()) {
            Ok::<(), ErrorCode>(())
        } else {
            Err(ErrorCode::InvalidPageAttrs)
        }),
{
    let allowed = PageAttrs::from_raw(PAGE_ATTR_READ | PAGE_ATTR_WRITE | PAGE_ATTR_EXEC);
    assert(1usize | 2usize | 4usize == 7usize) by (bit_vector);
    if allowed.contains(attrs) {
        Ok(())
    } else {
        Err(ErrorCode::InvalidPageAttrs)
    }
}

struct Mapping<V> {
    start: UAddr,
    end: UAddr,
    vmo: V,
    attrs: PageAttrs,
}

impl<V> Mapping<V> {
    /// Whether the mapping overlaps the range from `start` to `end`.
    fn overlaps_with(&self, start: UAddr, end: UAddr) -> (r: bool)
        ensures
            r == (start@ < self.end@ && self.start@ < end@),
    {
        start.as_usize() < self.end.as_usize() && self.start.as_usize() < end.as_usize()
    }

    /// Whether the mapping covers `uaddr`.
    fn contains(&self, uaddr: UAddr) -> (r: bool)
        ensures
            r == (self.start@ <= uaddr@ && uaddr@ < self.end@),
    {
        self.start.as_usize() <= uaddr.as_usize() && uaddr.as_usize() < self.end.as_usize()
    }
}

/// A mapped range: its start and end address and its rights.
pub struct Region {
    pub start: usize,
    pub end: usize,
    pub attrs: usize,
}

/// Whether the ranges `a` and `b` overlap.
pub open spec fn overlap(a: Region, b: Region) -> bool {
    a.start < b.end && b.start < a.end
}

/// The regions are sorted by start address and pairwise disjoint.
pub open spec fn sorted_disjoint(rs: Seq<Region>) -> bool {
    &&& forall|i: int, j: int| 0 <= i < j < rs.len() ==> rs[i].start <= rs[j].start
    &&& forall|i: int, j: int| 0 <= i < rs.len() && 0 <= j < rs.len() && i != j ==> !overlap(rs[i], rs[j])
}

/// The number of regions that start below `addr`.
pub open spec fn insert_position(rs: Seq<Region>, addr: usize) -> int
    decreases rs.len(),
{
    if rs.len() == 0 {
        0
    } else if rs[0].start < addr {
        1 + insert_position(rs.skip(1), addr)
    } else {
        0
    }
}

/// What a page fault at a mapped address is resolved with: the page
/// `page_index` of the object of mapping `mapping` is to be mapped at
/// `uaddr` with rights `attrs`.
pub struct PageFault {
    pub mapping: usize,
    pub page_index: usize,
    pub uaddr: UAddr,
    pub attrs: PageAttrs,
}

/// The mappings of a virtual memory space; no mapping ends after
/// `user_addr_end`.
pub struct VmSpace<V> {
    mappings: Vec<Mapping<V>>,
    user_addr_end: usize,
}

impl<V> VmSpace<V> {
    /// The mapped regions, in order.
    pub closed spec fn regions(&self) -> Seq<Region> {
        self.mappings@.map_values(
            |m: Mapping<V>| Region { start: m.start@, end: m.end@, attrs: m.attrs.bits() },
        )
    }

    /// The memory objects of the mappings, in the same order.
    pub closed spec fn objects(&self) -> Seq<V> {
        self.mappings@.map_values(|m: Mapping<V>| m.vmo)
    }

    pub closed spec fn user_addr_end(&self) -> usize {
        self.user_addr_end
    }

    /// The mappings are sorted and disjoint, and none ends after
    /// `user_addr_end`.
    pub closed spec fn wf(&self) -> bool {
        &&& sorted_disjoint(self.regions())
        &&& forall|i: int|
            0 <= i < self.mappings@.len() ==> #[trigger] self.mappings@[i].end@
                <= self.user_addr_end
    }

    pub fn new(user_addr_end: usize) -> (r: Self)
        ensures
            r.wf(),
            r.regions().len() == 0,
            r.user_addr_end() == user_addr_end,
    {
        let r = Self { mappings: Vec::new(), user_addr_end };
        assert(r.regions() =~= Seq::<Region>::empty());
        r
    }

    pub fn len(&self) -> (r: usize)
        ensures
            r == self.regions().len(),
    {
        self.mappings.len()
    }

    /// The memory object of mapping `index`.
    pub fn object(&self, index: usize) -> (r: &V)
        requires
            index < self.regions().len(),
        ensures
            *r == self.objects()[index as int],
    {
        &self.mappings[index].vmo
    }

    /// Maps the object `vmo` of `vmo_len` bytes at `uaddr` with rights
    /// `attrs`; the mappings stay sorted and disjoint.
    #[verifier::loop_isolation(false)]
    pub fn map(&mut self, vmo: V, vmo_len: usize, uaddr: UAddr, attrs: PageAttrs) -> (r: Result<
        (),
        ErrorCode,
    >)
        requires
            old(self).wf(),
        ensures
            final(self).wf(),
            final(self).user_addr_end() == old(self).user_addr_end(),
            sorted_disjoint(final(self).regions()),
            ({
                let rs = old(self).regions();
                let u = uaddr@ as int;
                let end = u + vmo_len;
                let new_region = Region { start: uaddr@, end: end as usize, attrs: attrs.bits() };
                if !allowed_attrs(attrs.bits()) || uaddr@ % MIN_PAGE_SIZE != 0 {
                    r == Err::<(), ErrorCode>(ErrorCode::InvalidArg) && final(self).regions() == rs
                        && final(self).objects() == old(self).objects()
                } else if end > usize::MAX {
                    r == Err::<(), ErrorCode>(ErrorCode::OutOfBounds) && final(self).regions()
                        == rs && final(self).objects() == old(self).objects()
                } else if end > old(self).user_addr_end() {
                    r == Err::<(), ErrorCode>(ErrorCode::NotAllowed) && final(self).regions() == rs
                        && final(self).objects() == old(self).objects()
                } else if exists|i: int| 0 <= i < rs.len() && overlap(#[trigger] rs[i], new_region) {
                    r == Err::<(), ErrorCode>(ErrorCode::AlreadyMapped) && final(self).regions()
                        == rs && final(self).objects() == old(self).objects()
                } else {
                    ||| r == Err::<(), ErrorCode>(ErrorCode::OutOfMemory) && final(self).regions()
                        == rs && final(self).objects() == old(self).objects()
                    ||| r is Ok && final(self).regions() == rs.insert(
                        insert_position(rs, uaddr@),
                        new_region,
                    ) && final(self).objects() == old(self).objects().insert(
                        insert_position(rs, uaddr@),
                        vmo,
                    )
                }
            }),
    {
        let allowed = PageAttrs::from_raw(PAGE_ATTR_READ | PAGE_ATTR_WRITE | PAGE_ATTR_EXEC);
        assert(1usize | 2usize | 4usize == 7usize) by (bit_vector);
        if !allowed.contains(attrs) {
            return Err(ErrorCode::InvalidArg);
        }
        if !uaddr.is_aligned_to(MIN_PAGE_SIZE) {
            return Err(ErrorCode::InvalidArg);
        }
        let end = match uaddr.add(vmo_len) {
            Some(end) => end,
            None => return Err(ErrorCode::OutOfBounds),
        };
        if end.as_usize() > self.user_addr_end {
            return Err(ErrorCode::NotAllowed);
        }
        let ghost rs = self.regions();
        let ghost new_region = Region { start: uaddr@, end: end@, attrs: attrs.bits() };
        let mut i: usize = 0;
        while i < self.mappings.len()
            invariant
                i <= self.mappings@.len(),
                *self == *old(self),
                old(self).wf(),
                rs == self.regions(),
                new_region == (Region { start: uaddr@, end: end@, attrs: attrs.bits() }),
                forall|j: int| 0 <= j < i ==> !overlap(#[trigger] rs[j], new_region),
            decreases self.mappings.len() - i,
        {
            if self.mappings[i].overlaps_with(uaddr, end) {
                assert(overlap(rs[i as int], new_region));
                return Err(ErrorCode::AlreadyMapped);
            }
            i += 1;
        }
        let reserved = self.mappings.try_reserve(1).is_ok();
        self.map_reserved(reserved, vmo, vmo_len, uaddr, attrs)
    }

    /// Maps the object `vmo` of `vmo_len` bytes at `uaddr` with rights
    /// `attrs`, where the checks of `map` passed, once room for one more
    /// mapping was asked for: when the room was granted (`reserved`), the
    /// mapping goes in before the first one that starts at or after `uaddr`,
    /// wherever that is among the mappings; when it was not, this fails with
    /// `OutOfMemory` and nothing changes.
    pub fn map_reserved(
        &mut self,
        reserved: bool,
        vmo: V,
        vmo_len: usize,
        uaddr: UAddr,
        attrs: PageAttrs,
    ) -> (r: Result<(), ErrorCode>)
        requires
            old(self).wf(),
            allowed_attrs(attrs.bits()),
            uaddr@ % MIN_PAGE_SIZE == 0,
            uaddr@ + vmo_len <= old(self).user_addr_end(),
            forall|i: int|
                0 <= i < old(self).regions().len() ==> !overlap(
                    #[trigger] old(self).regions()[i],
                    Region { start: uaddr@, end: (uaddr@ + vmo_len) as usize, attrs: attrs.bits() },
                ),
        ensures
            final(self).wf(),
            final(self).user_addr_end() == old(self).user_addr_end(),
            !reserved ==> r == Err::<(), ErrorCode>(ErrorCode::OutOfMemory) && *final(self)
                == *old(self),
            reserved ==> {
                let rs = old(self).regions();
                let new_region = Region {
                    start: uaddr@,
                    end: (uaddr@ + vmo_len) as usize,
                    attrs: attrs.bits(),
                };
                &&& r is Ok
                &&& final(self).regions() == rs.insert(insert_position(rs, uaddr@), new_region)
                &&& final(self).objects() == old(self).objects().insert(
                    insert_position(rs, uaddr@),
                    vmo,
                )
            },
    {
        if !reserved {
            return Err(ErrorCode::OutOfMemory);
        }
        let end = UAddr::new(uaddr.as_usize() + vmo_len);
        let ghost rs = self.regions();
        let ghost new_region = Region { start: uaddr@, end: end@, attrs: attrs.bits() };
        let mut insert_at: usize = 0;
        while insert_at < self.mappings.len() && self.mappings[insert_at].start.as_usize()
            < uaddr.as_usize()
            invariant
                insert_at <= self.mappings@.len(),
                rs == self.regions(),
                sorted_disjoint(rs),
                forall|j: int| 0 <= j < insert_at ==> (#[trigger] rs[j]).start < uaddr@,
            decreases self.mappings.len() - insert_at,
        {
            insert_at += 1;
        }
        proof {
            lemma_insert_position(rs, uaddr@, insert_at as int);
        }
        let ghost objs = self.objects();
        self.mappings.insert(insert_at, Mapping { start: uaddr, end, vmo, attrs });
        proof {
            assert(self.regions() =~= rs.insert(insert_at as int, new_region));
            assert(self.objects() =~= objs.insert(insert_at as int, vmo));
            let ns = self.regions();
            assert forall|a: int, b: int| 0 <= a < b < ns.len() implies ns[a].start <= ns[b].start by {
                if b < insert_at {
                } else if a < insert_at && b == insert_at {
                } else if a < insert_at {
                    assert(ns[b] == rs[b - 1]);
                } else if a == insert_at {
                    assert(ns[b] == rs[b - 1]);
                    if b - 1 < rs.len() && rs[b - 1].start < uaddr@ {
                        assert(rs[insert_at as int].start <= rs[b - 1].start);
                    }
                } else {
                    assert(ns[a] == rs[a - 1]);
                    assert(ns[b] == rs[b - 1]);
                }
            }
            assert forall|k: int| 0 <= k < ns.len() implies #[trigger] self.mappings@[k].end@
                <= self.user_addr_end by {
                if k > insert_at {
                    assert(self.mappings@[k] == old(self).mappings@[k - 1]);
                } else if k < insert_at {
                    assert(self.mappings@[k] == old(self).mappings@[k]);
                }
            }
        }
        Ok(())
    }

    /// A copy of this space: the same regions, each mapping a clone of its
    /// object. Fails, changing nothing, when memory runs out.
    pub fn clone(&self) -> (r: Result<Self, ErrorCode>) where V: Clone
        requires
            self.wf(),
        ensures
            match r {
                Ok(copy) => {
                    &&& copy.wf()
                    &&& copy.regions() == self.regions()
                    &&& copy.user_addr_end() == self.user_addr_end()
                    &&& copy.objects().len() == self.objects().len()
                    &&& forall|i: int|
                        0 <= i < self.objects().len() ==> cloned(
                            #[trigger] self.objects()[i],
                            copy.objects()[i],
                        )
                },
                Err(e) => e == ErrorCode::OutOfMemory,
            },
    {
        let mut mappings: Vec<Mapping<V>> = Vec::new();
        if mappings.try_reserve(self.mappings.len()).is_err() {
            return Err(ErrorCode::OutOfMemory);
        }
        let mut i: usize = 0;
        while i < self.mappings.len()
            invariant
                i <= self.mappings@.len(),
                mappings@.len() == i,
                forall|j: int|
                    0 <= j < i ==> {
                        &&& (#[trigger] mappings@[j]).start == self.mappings@[j].start
                        &&& mappings@[j].end == self.mappings@[j].end
                        &&& mappings@[j].attrs == self.mappings@[j].attrs
                        &&& cloned(self.mappings@[j].vmo, mappings@[j].vmo)
                    },
            decreases self.mappings@.len() - i,
        {
            let m = &self.mappings[i];
            let vmo = m.vmo.clone();
            mappings.push(Mapping { start: m.start, end: m.end, vmo, attrs: m.attrs });
            i += 1;
        }
        let copy = Self { mappings, user_addr_end: self.user_addr_end };
        proof {
            assert(copy.regions() =~= self.regions());
        }
        Ok(copy)
    }

    /// Finds the mapping that covers the page of `fault_addr`, and which of
    /// its object's pages backs that page.
    #[verifier::loop_isolation(false)]
    pub fn handle_page_fault(&self, fault_addr: UAddr) -> (r: Result<PageFault, ErrorCode>)
        ensures
            ({
                let page = (fault_addr@ - fault_addr@ % MIN_PAGE_SIZE) as usize;
                let rs = self.regions();
                match r {
                    Ok(f) => f.mapping < rs.len() && rs[f.mapping as int].start <= page
                        < rs[f.mapping as int].end && f.uaddr@ == page && f.page_index == (page
                        - rs[f.mapping as int].start) / MIN_PAGE_SIZE as int && f.attrs.bits()
                        == rs[f.mapping as int].attrs,
                    Err(e) => e == ErrorCode::OutOfBounds && forall|i: int|
                        0 <= i < rs.len() ==> !(#[trigger] rs[i].start <= page < rs[i].end),
                }
            }),
    {
        let addr = fault_addr.as_usize();
        assert(addr % MIN_PAGE_SIZE <= addr);
        let aligned = UAddr::new(addr - addr % MIN_PAGE_SIZE);
        let ghost rs = self.regions();
        let mut i: usize = 0;
        while i < self.mappings.len()
            invariant
                i <= self.mappings@.len(),
                rs == self.regions(),
                forall|j: int| 0 <= j < i ==> !(#[trigger] rs[j].start <= aligned@ < rs[j].end),
            decreases self.mappings.len() - i,
        {
            let mapping = &self.mappings[i];
            assert(rs[i as int] == Region {
                start: mapping.start@,
                end: mapping.end@,
                attrs: mapping.attrs.bits(),
            });
            if mapping.contains(aligned) {
                let index = (aligned.as_usize() - mapping.start.as_usize()) / MIN_PAGE_SIZE;
                assert(aligned@ == (fault_addr@ - fault_addr@ % MIN_PAGE_SIZE) as usize);
                assert(rs[i as int].start <= aligned@ < rs[i as int].end);
                assert(index == (aligned@ - rs[i as int].start) / MIN_PAGE_SIZE as int);
                return Ok(PageFault { mapping: i, page_index: index, uaddr: aligned, attrs: mapping.attrs });
            }
            i += 1;
        }
        Err(ErrorCode::OutOfBounds)
    }

    /// Resolves a page fault at `fault_addr`: the page of the memory object
    /// behind the faulting page is made present (`ensure_page` gets the
    /// object and the page's index in it, and gives its physical address),
    /// then mapped at the faulting page with the mapping's rights (`map`).
    /// Fails with `OutOfBounds` where nothing is mapped, else with what a
    /// step failed with.
    pub fn resolve_page_fault<F, G>(&self, fault_addr: UAddr, ensure_page: F, map: G) -> (r: Result<
        (),
        ErrorCode,
    >) where
        F: FnOnce(&V, usize) -> Result<usize, ErrorCode>,
        G: FnOnce(UAddr, usize, PageAttrs) -> Result<(), ErrorCode>,

        requires
            self.wf(),
            forall|v: &V, index: usize| #[trigger] call_requires(ensure_page, (v, index)),
            forall|uaddr: UAddr, paddr: usize, attrs: PageAttrs|
                #[trigger] call_requires(map, (uaddr, paddr, attrs)),
        ensures
            ({
                let page = (fault_addr@ - fault_addr@ % MIN_PAGE_SIZE) as usize;
                let rs = self.regions();
                &&& (forall|i: int| 0 <= i < rs.len() ==> !(#[trigger] rs[i].start <= page < rs[i].end))
                    ==> r == Err::<(), ErrorCode>(ErrorCode::OutOfBounds)
                &&& forall|m: int|
                    0 <= m < rs.len() && #[trigger] rs[m].start <= page < rs[m].end ==> exists|
                        e: Result<usize, ErrorCode>,
                    |
                        #[trigger] call_ensures(
                            ensure_page,
                            (&self.objects()[m], ((page - rs[m].start) / MIN_PAGE_SIZE as int) as usize),
                            e,
                        ) && match e {
                            Err(x) => r == Err::<(), ErrorCode>(x),
                            Ok(paddr) => exists|uaddr: UAddr, attrs: PageAttrs|
                                #[trigger] call_ensures(map, (uaddr, paddr, attrs), r) && uaddr@ == page
                                    && attrs.bits() == rs[m].attrs,
                        }
            }),
    {
        let fault = match self.handle_page_fault(fault_addr) {
            Ok(fault) => fault,
            Err(e) => return Err(e),
        };
        let ghost rs = self.regions();
        let ghost m = fault.mapping as int;
        let vmo = &self.mappings[fault.mapping].vmo;
        proof {
            assert(self.objects()[m] == *vmo);
            assert(rs[m].start <= fault.uaddr@ < rs[m].end);
            law_page_in_one_mapping(rs, m, fault.uaddr@);
        }
        let paddr = match ensure_page(vmo, fault.page_index) {
            Ok(paddr) => paddr,
            Err(e) => return Err(e),
        };
        map(fault.uaddr, paddr, fault.attrs)
    }
}

/// In sorted, disjoint mappings, a page that one mapping covers is covered
/// by no other: a page fault there resolves to that mapping.
pub proof fn law_page_in_one_mapping(rs: Seq<Region>, k: int, page: usize)
    requires
        sorted_disjoint(rs),
        0 <= k < rs.len(),
        rs[k].start <= page < rs[k].end,
    ensures
        forall|i: int| 0 <= i < rs.len() && #[trigger] rs[i].start <= page < rs[i].end ==> i == k,
{
    assert forall|i: int| 0 <= i < rs.len() && #[trigger] rs[i].start <= page < rs[i].end implies i
        == k by {
        if i != k {
            assert(!overlap(rs[i], rs[k]));
        }
    }
}

/// The count of regions starting below `addr` is the index of the first
/// region that does not, in a sorted sequence.
proof fn lemma_insert_position(rs: Seq<Region>, addr: usize, k: int)
    requires
        0 <= k <= rs.len(),
        forall|i: int, j: int| 0 <= i < j < rs.len() ==> rs[i].start <= rs[j].start,
        forall|j: int| 0 <= j < k ==> (#[trigger] rs[j]).start < addr,
        k < rs.len() ==> rs[k].start >= addr,
    ensures
        insert_position(rs, addr) == k,
    decreases rs.len(),
{
    if rs.len() > 0 && k > 0 {
        assert forall|j: int| 0 <= j < k - 1 implies (#[trigger] rs.skip(1)[j]).start < addr by {
            assert(rs.skip(1)[j] == rs[j + 1]);
        }
        lemma_insert_position(rs.skip(1), addr, k - 1);
    }
}

/// Where a region goes among `rs` lies within them or at their end.
proof fn lemma_insert_position_bounds(rs: Seq<Region>, addr: usize)
    ensures
        0 <= insert_position(rs, addr) <= rs.len(),
    decreases rs.len(),
{
    if rs.len() > 0 && rs[0].start < addr {
        lemma_insert_position_bounds(rs.skip(1), addr);
    }
}

/// Once `map` has added `new_region` to the regions `rs`, a page fault on
/// any page of it resolves to the new region, with its rights, and to no
/// other.
pub proof fn law_fault_after_map(rs: Seq<Region>, new_region: Region, page: usize)
    requires
        sorted_disjoint(rs.insert(insert_position(rs, new_region.start), new_region)),
        new_region.start <= page < new_region.end,
    ensures
        ({
            let k = insert_position(rs, new_region.start);
            let after = rs.insert(k, new_region);
            &&& 0 <= k < after.len()
            &&& after[k] == new_region
            &&& forall|i: int|
                0 <= i < after.len() && #[trigger] after[i].start <= page < after[i].end ==> i == k
        }),
{
    let k = insert_position(rs, new_region.start);
    lemma_insert_position_bounds(rs, new_region.start);
    let after = rs.insert(k, new_region);
    assert(after[k] == new_region);
    law_page_in_one_mapping(after, k, page);
}

} // verus!
