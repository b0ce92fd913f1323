//! Anonymous memory objects: zero-filled pages that get physical memory the
//! first time they are touched.
use vstd::prelude::*;

use crate::error::ErrorCode;
use crate::vmarea::Page;
use crate::vmarea::PageChunk;
use crate::vmarea::PageChunksIter;
use crate::vmspace::MIN_PAGE_SIZE;

verus! {

/// `Vec::try_reserve_exact`: asks the allocator for room for exactly
/// `additional` more items. Whether it succeeds depends on the allocator;
/// the items stay as they were either way.
#[verifier::external_body]
fn vec_try_reserve_exact<T>(v: &mut Vec<T>, additional: usize) -> (r: Result<
    (),
    std::collections::TryReserveError,
>)
    ensures
        final(v)@ == old(v)@,
{
    v.try_reserve_exact(additional)
}

/// The number of page slots an object of `len` bytes has, one per whole
/// page: what is reserved for them.
pub fn page_count(len: usize) -> (r: usize)
    ensures
        r == len / MIN_PAGE_SIZE,
{
    len / MIN_PAGE_SIZE
}

/// A virtually contiguous memory object of `len` bytes.
pub struct VmObject {
    len: usize,
    pages: Vec<Option<Page>>,
}

impl VmObject {
    /// The length of the object in bytes.
    pub closed spec fn spec_len(&self) -> usize {
        self.len
    }

    /// The physical address of each page, where it has one.
    pub closed spec fn pages(&self) -> Seq<Option<usize>> {
        self.pages@.map_values(
            |p: Option<Page>| match p {
                Some(page) => Some(page.paddr()),
                None => None,
            },
        )
    }

    /// The object is made of whole pages, one slot for each.
    pub open spec fn wf(&self) -> bool {
        &&& self.spec_len() % MIN_PAGE_SIZE == 0
        &&& self.pages().len() == self.spec_len() / MIN_PAGE_SIZE
    }

    /// An object of `len` bytes with no page allocated yet; `len` must be a
    /// nonzero multiple of the page size. Fails when there is no memory for
    /// the page slots.
    pub fn new_anonymous(len: usize) -> (r: Result<Self, ErrorCode>)
        ensures
            len == 0 || len % MIN_PAGE_SIZE != 0 ==> r == Err::<Self, ErrorCode>(
                ErrorCode::InvalidArg,
            ),
            len > 0 && len % MIN_PAGE_SIZE == 0 ==> match r {
                Ok(vmo) => vmo.wf() && vmo.spec_len() == len && vmo.pages() == Seq::new(
                    (len / MIN_PAGE_SIZE) as nat,
                    |i: int| None::<usize>,
                ),
                Err(e) => e == ErrorCode::OutOfMemory,
            },
    {
        if len == 0 || len % MIN_PAGE_SIZE != 0 {
            return Err(ErrorCode::InvalidArg);
        }
        let mut pages: Vec<Option<Page>> = Vec::new();
        let n = page_count(len);
        if vec_try_reserve_exact(&mut pages, n).is_err() {
            return Err(ErrorCode::OutOfMemory);
        }
        let mut i: usize = 0;
        while i < n
            invariant
                i <= n,
                pages@.len() == i,
                forall|j: int| 0 <= j < i ==> (#[trigger] pages@[j]) is None,
            decreases n - i,
        {
            pages.push(None);
            i += 1;
        }
        let vmo = Self { len, pages };
        assert(vmo.pages() =~= Seq::new(n as nat, |i: int| None::<usize>));
        Ok(vmo)
    }

    pub fn len(&self) -> (r: usize)
        ensures
            r == self.spec_len(),
    {
        self.len
    }

    /// The physical address of page `index`, allocated through `alloc` if
    /// the page has none yet; when `alloc` finds no memory nothing changes.
    fn get_or_fill<F: FnOnce() -> Option<usize>>(&mut self, index: usize, alloc: F) -> (r: Result<
        usize,
        ErrorCode,
    >)
        requires
            old(self).wf(),
            index < old(self).pages().len(),
            call_requires(alloc, ()),
        ensures
            final(self).wf(),
            final(self).spec_len() == old(self).spec_len(),
            match old(self).pages()[index as int] {
                Some(paddr) => r == Ok::<usize, ErrorCode>(paddr) && final(self).pages() == old(
                    self,
                ).pages(),
                None => exists|a: Option<usize>|
                    #[trigger] call_ensures(alloc, (), a) && match a {
                        None => r == Err::<usize, ErrorCode>(ErrorCode::OutOfMemory) && final(self).pages() == old(self).pages(),
                        Some(paddr) => r == Ok::<usize, ErrorCode>(paddr) && final(self).pages()
                            == old(self).pages().update(index as int, Some(paddr)),
                    },
            },
    {
        if let Some(page) = &self.pages[index] {
            return Ok(page.paddr_value());
        }
        let allocated = alloc();
        match allocated {
            None => Err(ErrorCode::OutOfMemory),
            Some(paddr) => {
                self.pages.set(index, Some(Page::new(paddr)));
                assert(self.pages() =~= old(self).pages().update(index as int, Some(paddr)));
                Ok(paddr)
            },
        }
    }

    /// The physical address of page `index`, allocated through `alloc` (a
    /// zeroed page) if it has none yet.
    pub fn ensure_page<F: FnOnce() -> Option<usize>>(&mut self, index: usize, alloc: F) -> (r:
        Result<usize, ErrorCode>)
        requires
            old(self).wf(),
            call_requires(alloc, ()),
        ensures
            final(self).wf(),
            final(self).spec_len() == old(self).spec_len(),
            index >= old(self).pages().len() ==> r == Err::<usize, ErrorCode>(
                ErrorCode::OutOfBounds,
            ) && final(self).pages() == old(self).pages(),
            index < old(self).pages().len() ==> match old(self).pages()[index as int] {
                Some(paddr) => r == Ok::<usize, ErrorCode>(paddr) && final(self).pages() == old(
                    self,
                ).pages(),
                None => exists|a: Option<usize>|
                    #[trigger] call_ensures(alloc, (), a) && match a {
                        None => r == Err::<usize, ErrorCode>(ErrorCode::OutOfMemory) && final(self).pages() == old(self).pages(),
                        Some(paddr) => r == Ok::<usize, ErrorCode>(paddr) && final(self).pages()
                            == old(self).pages().update(index as int, Some(paddr)),
                    },
            },
    {
        if index >= self.pages.len() {
            return Err(ErrorCode::OutOfBounds);
        }
        self.get_or_fill(index, alloc)
    }

    /// The per-page pieces of the `copy_len` bytes at `vmo_offset`, which
    /// must lie within the object: what a read or a write visits, page by
    /// page.
    pub fn chunks(&self, vmo_offset: usize, copy_len: usize) -> (r: Result<PageChunksIter, ErrorCode>)
        ensures
            vmo_offset + copy_len > self.spec_len() ==> r == Err::<PageChunksIter, ErrorCode>(
                ErrorCode::OutOfBounds,
            ),
            vmo_offset + copy_len <= self.spec_len() ==> (r matches Ok(it) && it.wf()
                && it.offset() == vmo_offset && it.buf_offset() == 0 && it.remaining()
                == copy_len),
    {
        let end = match vmo_offset.checked_add(copy_len) {
            Some(end) => end,
            None => return Err(ErrorCode::OutOfBounds),
        };
        if end > self.len {
            return Err(ErrorCode::OutOfBounds);
        }
        Ok(PageChunksIter::new(vmo_offset, copy_len))
    }
}

/// A piece of a read or a write of a memory object: `chunk`, which lies in
/// the page at physical address `paddr`.
pub struct PagePiece {
    pub chunk: PageChunk,
    pub paddr: usize,
}

/// Piece `c` is the one a walk over `copy_len` bytes from `vmo_offset`
/// takes at its own offset in the caller's buffer: it runs to the end of
/// its page or of the range, whichever comes first.
pub open spec fn piece_at(vmo_offset: usize, copy_len: usize, c: PageChunk) -> bool {
    let at = vmo_offset + c.buf_offset;
    &&& c.buf_offset < copy_len
    &&& c.page_index == at / MIN_PAGE_SIZE as int
    &&& c.page_offset == at % MIN_PAGE_SIZE as int
    &&& c.len == (if MIN_PAGE_SIZE - c.page_offset < copy_len - c.buf_offset {
        MIN_PAGE_SIZE - c.page_offset
    } else {
        copy_len - c.buf_offset
    })
}

/// `pieces` cover `copy_len` bytes from `vmo_offset` in order, page by page,
/// up to `done` bytes.
pub open spec fn walked(vmo_offset: usize, copy_len: usize, pieces: Seq<PagePiece>, done: int) -> bool {
    &&& pieces.len() == 0 ==> done == 0
    &&& pieces.len() > 0 ==> pieces[0].chunk.buf_offset == 0 && pieces.last().chunk.buf_offset
        + pieces.last().chunk.len == done
    &&& forall|i: int|
        0 <= i < pieces.len() ==> #[trigger] piece_at(vmo_offset, copy_len, pieces[i].chunk)
    &&& forall|i: int|
        0 <= i < pieces.len() - 1 ==> #[trigger] pieces[i + 1].chunk.buf_offset == pieces[i].chunk.buf_offset
            + pieces[i].chunk.len
}

/// Every byte of the `copy_len` bytes at `vmo_offset` lies in a page that
/// is present in `pages`.
pub open spec fn all_present(pages: Seq<Option<usize>>, vmo_offset: usize, copy_len: usize) -> bool {
    forall|x: int|
        vmo_offset <= x < vmo_offset + copy_len ==> (#[trigger] pages[x / MIN_PAGE_SIZE as int]) is Some
}

/// A finished walk over `copy_len` bytes from `vmo_offset`: `pieces` cover
/// them all, page by page, and each piece's page is present in `pages` at
/// the address the piece carries.
pub open spec fn walk_done(
    vmo_offset: usize,
    copy_len: usize,
    pages: Seq<Option<usize>>,
    pieces: Seq<PagePiece>,
) -> bool {
    &&& walked(vmo_offset, copy_len, pieces, copy_len as int)
    &&& forall|i: int|
        0 <= i < pieces.len() ==> pages[#[trigger] pieces[i].chunk.page_index as int] == Some(
            pieces[i].paddr,
        )
}

/// The pages of `after` are those of `before`, with some that had none
/// given one.
pub open spec fn only_filled(before: Seq<Option<usize>>, after: Seq<Option<usize>>) -> bool {
    &&& after.len() == before.len()
    &&& forall|i: int| 0 <= i < before.len() && #[trigger] before[i] is Some ==> after[i] == before[i]
}

impl VmObject {
    /// Walks the `copy_len` bytes at `vmo_offset` page by page, as a read or
    /// a write does: each page is made present (`alloc` gives a page where
    /// there is none yet), and the pieces come back in order with the page
    /// each lies in, for the caller to copy. Fails with `OutOfBounds` when
    /// the range goes past the object, and with `OutOfMemory` when a page
    /// cannot be had; the pages given until then stay.
    pub fn read_write<F: Fn() -> Option<usize>>(
        &mut self,
        vmo_offset: usize,
        copy_len: usize,
        alloc: F,
    ) -> (r: Result<Vec<PagePiece>, ErrorCode>)
        requires
            old(self).wf(),
            call_requires(alloc, ()),
        ensures
            final(self).wf(),
            final(self).spec_len() == old(self).spec_len(),
            only_filled(old(self).pages(), final(self).pages()),
            vmo_offset + copy_len > old(self).spec_len() ==> r == Err::<Vec<PagePiece>, ErrorCode>(
                ErrorCode::OutOfBounds,
            ) && final(self).pages() == old(self).pages(),
            vmo_offset + copy_len <= old(self).spec_len() ==> match r {
                Ok(pieces) => walk_done(vmo_offset, copy_len, final(self).pages(), pieces@),
                Err(e) => e == ErrorCode::OutOfMemory && call_ensures(alloc, (), None::<usize>)
                    && !all_present(old(self).pages(), vmo_offset, copy_len),
            },
    {
        let mut it = match self.chunks(vmo_offset, copy_len) {
            Ok(it) => it,
            Err(e) => return Err(e),
        };
        let mut pieces: Vec<PagePiece> = Vec::new();
        let ghost start = self.pages();
        loop
            invariant
                self.wf(),
                self.spec_len() == old(self).spec_len(),
                vmo_offset + copy_len <= self.spec_len(),
                call_requires(alloc, ()),
                start == old(self).pages(),
                only_filled(start, self.pages()),
                it.wf(),
                it.offset() == vmo_offset + it.buf_offset(),
                it.buf_offset() + it.remaining() == copy_len,
                walked(vmo_offset, copy_len, pieces@, it.buf_offset() as int),
                forall|i: int|
                    0 <= i < pieces@.len() ==> self.pages()[#[trigger] pieces@[i].chunk.page_index as int]
                        == Some(pieces@[i].paddr),
                forall|i: int|
                    0 <= i < pieces@.len() ==> #[trigger] pieces@[i].chunk.page_index < self.pages().len(),
            ensures
                it.remaining() == 0,
            decreases it.remaining(),
        {
            let ghost before = self.pages();
            let chunk = match it.next() {
                Some(chunk) => chunk,
                None => break,
            };
            proof {
                let x = vmo_offset + chunk.buf_offset;
                let n = self.spec_len() as int;
                assert(x < n);
                assert(chunk.page_index < n / MIN_PAGE_SIZE as int) by (nonlinear_arith)
                    requires
                        chunk.page_index == x / 4096,
                        0 <= x < n,
                        n % 4096 == 0,
                ;
                assert(chunk.page_index < before.len());
                assert(piece_at(vmo_offset, copy_len, chunk));
            }
            let f = &alloc;
            let paddr = match self.get_or_fill(chunk.page_index, || -> (a: Option<usize>)
                requires
                    call_requires(*f, ()),
                ensures
                    call_ensures(*f, (), a),
            { f() }) {
                Ok(paddr) => paddr,
                Err(e) => {
                    proof {
                        let at = vmo_offset + chunk.buf_offset;
                        assert(vmo_offset <= at < vmo_offset + copy_len);
                        assert(before[chunk.page_index as int] is None);
                        assert(start[at / MIN_PAGE_SIZE as int] is None);
                    }
                    return Err(e);
                },
            };
            proof {
                let idx = chunk.page_index as int;
                assert(self.pages()[idx] == Some(paddr));
                assert forall|j: int| 0 <= j < before.len() && #[trigger] before[j] is Some implies self.pages()[j]
                    == before[j] by {
                    if j != idx {
                        assert(self.pages()[j] == before[j]);
                    }
                }
            }
            let ghost prev = pieces@;
            pieces.push(PagePiece { chunk, paddr });
            proof {
                assert(piece_at(vmo_offset, copy_len, chunk));
                assert forall|i: int| 0 <= i < pieces@.len() implies self.pages()[#[trigger] pieces@[i].chunk.page_index as int]
                    == Some(pieces@[i].paddr) by {
                    if i < prev.len() {
                        assert(pieces@[i] == prev[i]);
                        assert(before[prev[i].chunk.page_index as int] == Some(prev[i].paddr));
                    }
                }
                assert(pieces@ == prev.push(PagePiece { chunk, paddr }));
                assert(self.pages().len() == before.len());
                assert forall|i: int| 0 <= i < pieces@.len() implies #[trigger] pieces@[i].chunk.page_index < self.pages().len() by {
                    if i < prev.len() {
                        assert(pieces@[i] == prev[i]);
                        assert(prev[i].chunk.page_index < before.len());
                    } else {
                        assert(pieces@[i] == PagePiece { chunk, paddr });
                    }
                }
                assert forall|i: int| 0 <= i < pieces@.len() implies #[trigger] piece_at(vmo_offset, copy_len, pieces@[i].chunk) by {
                    if i < prev.len() {
                        assert(pieces@[i] == prev[i]);
                        assert(piece_at(vmo_offset, copy_len, prev[i].chunk));
                    } else {
                        assert(pieces@[i] == PagePiece { chunk, paddr });
                    }
                }
                assert forall|i: int| 0 <= i < pieces@.len() - 1 implies #[trigger] pieces@[i + 1].chunk.buf_offset
                    == pieces@[i].chunk.buf_offset + pieces@[i].chunk.len by {
                    if i + 1 < prev.len() {
                        assert(pieces@[i + 1] == prev[i + 1]);
                        assert(prev[i + 1].chunk.buf_offset == prev[i].chunk.buf_offset + prev[i].chunk.len);
                    }
                }
            }
        }
        proof {
            assert(it.buf_offset() == copy_len);
            assert(walked(vmo_offset, copy_len, pieces@, copy_len as int));
            assert(walk_done(vmo_offset, copy_len, self.pages(), pieces@));
        }
        Ok(pieces)
    }
}

/// Checks that `len` bytes at `offset` lie within one page, as a slice of a
/// page must.
pub fn check_page_range(offset: usize, len: usize) -> (r: Result<(), ErrorCode>)
    ensures
        r == (if offset + len <= MIN_PAGE_SIZE {
            Ok::<(), ErrorCode>(())
        } else {
            Err(ErrorCode::OutOfBounds)
        }),
{
    let end = match offset.checked_add(len) {
        Some(end) => end,
        None => return Err(ErrorCode::OutOfBounds),
    };
    if end > MIN_PAGE_SIZE {
        return Err(ErrorCode::OutOfBounds);
    }
    Ok(())
}

} // verus!
