//! Memory areas whose pages are allocated when first touched, and how a
//! byte range of one splits into per-page pieces.
use vstd::prelude::*;

use crate::error::ErrorCode;
use crate::vmspace::MIN_PAGE_SIZE;

verus! {

/// A physical memory page.
pub struct Page {
    paddr: usize,
}

impl Page {
    pub fn new(paddr: usize) -> (r: Self)
        ensures
            r.paddr() == paddr,
    {
        Self { paddr }
    }

    pub closed spec fn paddr(&self) -> usize {
        self.paddr
    }

    /// The physical address of the page.
    pub fn paddr_value(&self) -> (r: usize)
        ensures
            r == self.paddr(),
    {
        self.paddr
    }
}

/// The part of a byte range that lies within one page: `len` bytes at
/// `page_offset` in page `page_index`, which are the bytes at `buf_offset`
/// in the caller's buffer.
pub struct PageChunk {
    pub len: usize,
    pub page_index: usize,
    pub buf_offset: usize,
    pub page_offset: usize,
}

/// The pieces of the byte range from `offset` on, `len` bytes long, that
/// lie in one page each, in order.
pub struct PageChunksIter {
    offset: usize,
    buf_offset: usize,
    remaining: usize,
}

impl PageChunksIter {
    /// Where the next piece starts in the area.
    pub closed spec fn offset(&self) -> usize {
        self.offset
    }

    /// Where the next piece starts in the caller's buffer.
    pub closed spec fn buf_offset(&self) -> usize {
        self.buf_offset
    }

    /// How many bytes are left.
    pub closed spec fn remaining(&self) -> usize {
        self.remaining
    }

    /// The range ends within the address space.
    pub closed spec fn wf(&self) -> bool {
        &&& self.offset + self.remaining <= usize::MAX
        &&& self.buf_offset + self.remaining <= usize::MAX
    }

    pub fn new(offset: usize, len: usize) -> (r: Self)
        requires
            offset + len <= usize::MAX,
        ensures
            r.wf(),
            r.offset() == offset,
            r.buf_offset() == 0,
            r.remaining() == len,
    {
        Self { offset, buf_offset: 0, remaining: len }
    }

    /// The next piece: from the current offset to the end of its page or of
    /// the range, whichever comes first.
    pub fn next(&mut self) -> (r: Option<PageChunk>)
        requires
            old(self).wf(),
        ensures
            final(self).wf(),
            old(self).remaining() == 0 ==> r is None && *final(self) == *old(self),
            old(self).remaining() > 0 ==> (r matches Some(c) && c.page_index == old(self).offset()
                / MIN_PAGE_SIZE && c.page_offset == old(self).offset() % MIN_PAGE_SIZE && c.len
                == (if MIN_PAGE_SIZE - c.page_offset < old(self).remaining() {
                MIN_PAGE_SIZE - c.page_offset
            } else {
                old(self).remaining() as int
            }) && c.buf_offset == old(self).buf_offset() && final(self).offset() == old(
                self,
            ).offset() + c.len && final(self).buf_offset() == old(self).buf_offset() + c.len
                && final(self).remaining() == old(self).remaining() - c.len),
    {
        if self.remaining == 0 {
            return None;
        }
        let buf_offset = self.buf_offset;
        let page_index = self.offset / MIN_PAGE_SIZE;
        let page_offset = self.offset % MIN_PAGE_SIZE;
        let len = if MIN_PAGE_SIZE - page_offset < self.remaining {
            MIN_PAGE_SIZE - page_offset
        } else {
            self.remaining
        };
        self.offset += len;
        self.buf_offset += len;
        self.remaining -= len;
        Some(PageChunk { len, page_index, buf_offset, page_offset })
    }
}

/// Every piece is nonempty, lies within one page, and starts where the
/// range continues: at byte `page_index * MIN_PAGE_SIZE + page_offset`.
pub proof fn law_chunk_within_page(offset: usize, remaining: usize, c: PageChunk)
    requires
        remaining > 0,
        c.page_index == offset / MIN_PAGE_SIZE,
        c.page_offset == offset % MIN_PAGE_SIZE,
        c.len == (if MIN_PAGE_SIZE - c.page_offset < remaining {
            MIN_PAGE_SIZE - c.page_offset
        } else {
            remaining as int
        }),
    ensures
        0 < c.len <= remaining,
        c.page_offset + c.len <= MIN_PAGE_SIZE,
        c.page_index * MIN_PAGE_SIZE + c.page_offset == offset,
{
    vstd::arithmetic::div_mod::lemma_fundamental_div_mod(offset as int, MIN_PAGE_SIZE as int);
}

/// A memory area of `len` bytes; each page gets its physical page the
/// first time it is touched.
pub struct VmArea {
    len: usize,
    pages: Vec<Option<Page>>,
}

impl VmArea {
    /// The length of the area in bytes.
    pub closed spec fn spec_len(&self) -> usize {
        self.len
    }

    /// The physical address of each page, where it has one.
    pub closed spec fn pages(&self) -> Seq<Option<usize>> {
        self.pages@.map_values(
            |p: Option<Page>| match p {
                Some(page) => Some(page.paddr()),
                None => None,
            },
        )
    }

    /// The area is made of whole pages, one slot for each.
    pub open spec fn wf(&self) -> bool {
        &&& self.spec_len() % MIN_PAGE_SIZE == 0
        &&& self.pages().len() == self.spec_len() / MIN_PAGE_SIZE
    }

    /// An area of `len` bytes with no page allocated yet; `len` must be a
    /// nonzero multiple of the page size.
    pub fn create_any(len: usize) -> (r: Result<Self, ErrorCode>)
        ensures
            len == 0 || len % MIN_PAGE_SIZE != 0 ==> r == Err::<Self, ErrorCode>(
                ErrorCode::InvalidArg,
            ),
            len > 0 && len % MIN_PAGE_SIZE == 0 ==> (r matches Ok(area) && area.wf()
                && area.spec_len() == len && area.pages() == Seq::new(
                (len / MIN_PAGE_SIZE) as nat,
                |i: int| None::<usize>,
            )),
    {
        if len == 0 || len % MIN_PAGE_SIZE != 0 {
            return Err(ErrorCode::InvalidArg);
        }
        let n = len / MIN_PAGE_SIZE;
        let mut pages: Vec<Option<Page>> = Vec::with_capacity(n);
        let mut i: usize = 0;
        while i < n
            invariant
                i <= n,
                pages@.len() == i,
                forall|j: int| 0 <= j < i ==> (#[trigger] pages@[j]) is None,
            decreases n - i,
        {
            pages.push(None);
            i += 1;
        }
        let area = Self { len, pages };
        assert(area.pages() =~= Seq::new(n as nat, |i: int| None::<usize>));
        Ok(area)
    }

    pub fn len(&self) -> (r: usize)
        ensures
            r == self.spec_len(),
    {
        self.len
    }

    /// The physical address of page `index`, allocated through `alloc` if
    /// the page has none yet; when `alloc` finds no memory nothing changes.
    pub fn fill_page<F: FnOnce() -> Option<usize>>(&mut self, index: usize, alloc: F) -> (r: Result<
        usize,
        ErrorCode,
    >)
        requires
            old(self).wf(),
            index < old(self).pages().len(),
            call_requires(alloc, ()),
        ensures
            final(self).wf(),
            final(self).spec_len() == old(self).spec_len(),
            match old(self).pages()[index as int] {
                Some(paddr) => r == Ok::<usize, ErrorCode>(paddr) && final(self).pages() == old(
                    self,
                ).pages(),
                None => exists|a: Option<usize>|
                    #[trigger] call_ensures(alloc, (), a) && match a {
                        None => r == Err::<usize, ErrorCode>(ErrorCode::OutOfMemory) && final(self).pages() == old(self).pages(),
                        Some(paddr) => r == Ok::<usize, ErrorCode>(paddr) && final(self).pages()
                            == old(self).pages().update(index as int, Some(paddr)),
                    },
            },
    {
        if let Some(page) = &self.pages[index] {
            return Ok(page.paddr_value());
        }
        let allocated = alloc();
        match allocated {
            None => Err(ErrorCode::OutOfMemory),
            Some(paddr) => {
                self.pages.set(index, Some(Page::new(paddr)));
                assert(self.pages() =~= old(self).pages().update(index as int, Some(paddr)));
                Ok(paddr)
            },
        }
    }

    /// The physical address of the page at `offset`, allocated through
    /// `alloc` if it has none yet.
    pub fn fill<F: FnOnce() -> Option<usize>>(&mut self, offset: usize, alloc: F) -> (r: Result<
        usize,
        ErrorCode,
    >)
        requires
            old(self).wf(),
            call_requires(alloc, ()),
        ensures
            final(self).wf(),
            final(self).spec_len() == old(self).spec_len(),
            offset % MIN_PAGE_SIZE != 0 ==> r == Err::<usize, ErrorCode>(ErrorCode::InvalidArg)
                && final(self).pages() == old(self).pages(),
            offset % MIN_PAGE_SIZE == 0 && offset >= old(self).spec_len() ==> r == Err::<
                usize,
                ErrorCode,
            >(ErrorCode::OutOfBounds) && final(self).pages() == old(self).pages(),
            offset % MIN_PAGE_SIZE == 0 && offset < old(self).spec_len() ==> {
                let index = (offset / MIN_PAGE_SIZE) as int;
                match old(self).pages()[index] {
                    Some(paddr) => r == Ok::<usize, ErrorCode>(paddr) && final(self).pages()
                        == old(self).pages(),
                    None => exists|a: Option<usize>|
                        #[trigger] call_ensures(alloc, (), a) && match a {
                            None => r == Err::<usize, ErrorCode>(ErrorCode::OutOfMemory) && final(self).pages() == old(self).pages(),
                            Some(paddr) => r == Ok::<usize, ErrorCode>(paddr) && final(self).pages() == old(self).pages().update(index, Some(paddr)),
                        },
                }
            },
    {
        if offset % MIN_PAGE_SIZE != 0 {
            return Err(ErrorCode::InvalidArg);
        }
        if offset >= self.len {
            return Err(ErrorCode::OutOfBounds);
        }
        let index = offset / MIN_PAGE_SIZE;
        proof {
            lemma_page_index_in_area(self.spec_len(), offset);
        }
        self.fill_page(index, alloc)
    }

    /// The per-page pieces of the `len` bytes at `offset`, which must lie
    /// within the area: what a read or a write of the area goes through.
    pub fn chunks(&self, offset: usize, len: usize) -> (r: Result<PageChunksIter, ErrorCode>)
        ensures
            offset + len > self.spec_len() ==> r == Err::<PageChunksIter, ErrorCode>(
                ErrorCode::OutOfBounds,
            ),
            offset + len <= self.spec_len() ==> (r matches Ok(it) && it.wf() && it.offset()
                == offset && it.buf_offset() == 0 && it.remaining() == len),
    {
        let end = match offset.checked_add(len) {
            Some(end) => end,
            None => return Err(ErrorCode::OutOfBounds),
        };
        if end > self.len {
            return Err(ErrorCode::OutOfBounds);
        }
        Ok(PageChunksIter::new(offset, len))
    }
}

/// A byte below the end of an area made of whole pages lies in one of its
/// pages.
proof fn lemma_page_index_in_area(area_len: usize, offset: usize)
    requires
        area_len % MIN_PAGE_SIZE == 0,
        offset < area_len,
    ensures
        offset / MIN_PAGE_SIZE < area_len / MIN_PAGE_SIZE,
{
    vstd::arithmetic::div_mod::lemma_fundamental_div_mod(offset as int, MIN_PAGE_SIZE as int);
    vstd::arithmetic::div_mod::lemma_fundamental_div_mod(area_len as int, MIN_PAGE_SIZE as int);
}

/// Each piece of a range that lies within an area is in one of the area's
/// pages, and lies within that page.
pub proof fn law_chunk_in_area(area_len: usize, offset: usize, remaining: usize, c: PageChunk)
    requires
        area_len % MIN_PAGE_SIZE == 0,
        offset + remaining <= area_len,
        remaining > 0,
        c.page_index == offset / MIN_PAGE_SIZE,
        c.page_offset == offset % MIN_PAGE_SIZE,
        c.len == (if MIN_PAGE_SIZE - c.page_offset < remaining {
            MIN_PAGE_SIZE - c.page_offset
        } else {
            remaining as int
        }),
    ensures
        c.page_index < area_len / MIN_PAGE_SIZE,
        c.page_offset + c.len <= MIN_PAGE_SIZE,
{
    lemma_page_index_in_area(area_len, offset);
    law_chunk_within_page(offset, remaining, c);
}

} // verus!
