//! Loading a position-independent ELF image: how much memory its loadable
//! segments span, copying them into place, and finding a section by name.
use vstd::prelude::*;

use crate::net::packet::wire::splice;
use crate::vmspace::MIN_PAGE_SIZE;

verus! {

/// The ELF file type of a position-independent executable.
pub const ET_DYN: u16 = 3;

/// What loading uses of a program header.
#[derive(Clone, Copy)]
pub struct ProgramHeader {
    /// Whether the segment is loadable.
    pub loadable: bool,
    pub vaddr: u64,
    pub offset: u64,
    pub filesz: u64,
    pub memsz: u64,
}

#[derive(Debug, PartialEq, Eq, Structural)]
pub enum Error {
    /// No loadable segment.
    NoPhdrs,
    /// Not a position-independent executable.
    NotPie,
    /// No `.rela.dyn` section.
    NoRelaDyn,
}

/// The lowest start of a loadable segment among `phdrs`, if any.
pub open spec fn lowest_vaddr(phdrs: Seq<ProgramHeader>) -> Option<int>
    decreases phdrs.len(),
{
    if phdrs.len() == 0 {
        None
    } else {
        let rest = lowest_vaddr(phdrs.drop_last());
        let p = phdrs.last();
        if !p.loadable {
            rest
        } else {
            match rest {
                Some(v) => Some(if p.vaddr < v { p.vaddr as int } else { v }),
                None => Some(p.vaddr as int),
            }
        }
    }
}

/// The highest end of a loadable segment among `phdrs`, if any.
pub open spec fn highest_end(phdrs: Seq<ProgramHeader>) -> Option<int>
    decreases phdrs.len(),
{
    if phdrs.len() == 0 {
        None
    } else {
        let rest = highest_end(phdrs.drop_last());
        let p = phdrs.last();
        if !p.loadable {
            rest
        } else {
            match rest {
                Some(v) => Some(if p.vaddr + p.memsz > v { p.vaddr + p.memsz } else { v }),
                None => Some(p.vaddr + p.memsz),
            }
        }
    }
}

/// `value` rounded up to a multiple of `align`.
pub open spec fn spec_align_up(value: int, align: int) -> int {
    (value + align - 1) / align * align
}

/// Rounds `value` up to a multiple of the page size.
pub fn align_up(value: usize) -> (r: usize)
    requires
        value + MIN_PAGE_SIZE - 1 <= usize::MAX,
    ensures
        r == spec_align_up(value as int, MIN_PAGE_SIZE as int),
        r % MIN_PAGE_SIZE == 0,
        value <= r < value + MIN_PAGE_SIZE,
{
    let r = (value + (MIN_PAGE_SIZE - 1)) / MIN_PAGE_SIZE * MIN_PAGE_SIZE;
    proof {
        let q = (value + 4095) / 4096;
        vstd::arithmetic::div_mod::lemma_fundamental_div_mod(value + 4095, 4096);
        vstd::arithmetic::div_mod::lemma_mod_multiples_basic(q, 4096);
    }
    r
}

/// How many bytes of memory the loadable segments of an image of type
/// `e_type` span, from the lowest start to the highest end, rounded up to
/// whole pages.
pub fn load_len(e_type: u16, phdrs: &[ProgramHeader]) -> (r: Result<usize, Error>)
    requires
        forall|i: int|
            0 <= i < phdrs@.len() && (#[trigger] phdrs@[i]).loadable ==> phdrs@[i].vaddr
                + phdrs@[i].memsz <= u64::MAX,
        lowest_vaddr(phdrs@) is Some ==> highest_end(phdrs@)->0 - lowest_vaddr(phdrs@)->0
            + MIN_PAGE_SIZE - 1 <= usize::MAX,
    ensures
        e_type != ET_DYN ==> r == Err::<usize, Error>(Error::NotPie),
        e_type == ET_DYN && lowest_vaddr(phdrs@) is None ==> r == Err::<usize, Error>(
            Error::NoPhdrs,
        ),
        e_type == ET_DYN && lowest_vaddr(phdrs@) is Some ==> r == Ok::<usize, Error>(
            spec_align_up(highest_end(phdrs@)->0 - lowest_vaddr(phdrs@)->0, MIN_PAGE_SIZE as int)
                as usize,
        ),
{
    if e_type != ET_DYN {
        return Err(Error::NotPie);
    }
    let mut lowest: Option<u64> = None;
    let mut highest: Option<u64> = None;
    let mut i: usize = 0;
    while i < phdrs.len()
        invariant
            i <= phdrs@.len(),
            forall|j: int|
                0 <= j < phdrs@.len() && (#[trigger] phdrs@[j]).loadable ==> phdrs@[j].vaddr
                    + phdrs@[j].memsz <= u64::MAX,
            match lowest {
                Some(v) => lowest_vaddr(phdrs@.take(i as int)) == Some(v as int),
                None => lowest_vaddr(phdrs@.take(i as int)) is None,
            },
            match highest {
                Some(v) => highest_end(phdrs@.take(i as int)) == Some(v as int),
                None => highest_end(phdrs@.take(i as int)) is None,
            },
            lowest is Some <==> highest is Some,
        decreases phdrs@.len() - i,
    {
        let p = phdrs[i];
        proof {
            assert(phdrs@.take(i + 1).drop_last() =~= phdrs@.take(i as int));
            assert(phdrs@.take(i + 1).last() == p);
        }
        if p.loadable {
            let end = p.vaddr + p.memsz;
            lowest = match lowest {
                Some(v) => Some(if p.vaddr < v { p.vaddr } else { v }),
                None => Some(p.vaddr),
            };
            highest = match highest {
                Some(v) => Some(if end > v { end } else { v }),
                None => Some(end),
            };
        }
        i += 1;
    }
    proof {
        assert(phdrs@.take(phdrs@.len() as int) =~= phdrs@);
    }
    match (lowest, highest) {
        (Some(low), Some(high)) => {
            proof {
                lemma_highest_above_lowest(phdrs@);
            }
            let span = high - low;
            assert(span <= high);
            Ok(align_up(span as usize))
        },
        _ => Err(Error::NoPhdrs),
    }
}

/// The highest end of the loadable segments is at least their lowest
/// start, and is the end of one of them.
proof fn lemma_highest_above_lowest(phdrs: Seq<ProgramHeader>)
    requires
        lowest_vaddr(phdrs) is Some,
    ensures
        highest_end(phdrs) is Some,
        lowest_vaddr(phdrs)->0 <= highest_end(phdrs)->0,
        exists|i: int|
            0 <= i < phdrs.len() && (#[trigger] phdrs[i]).loadable && highest_end(phdrs)->0
                == phdrs[i].vaddr + phdrs[i].memsz,
    decreases phdrs.len(),
{
    let rest = phdrs.drop_last();
    let p = phdrs.last();
    if lowest_vaddr(rest) is Some {
        lemma_highest_above_lowest(rest);
        let i = choose|i: int|
            0 <= i < rest.len() && (#[trigger] rest[i]).loadable && highest_end(rest)->0
                == rest[i].vaddr + rest[i].memsz;
        assert(phdrs[i] == rest[i]);
        if p.loadable && p.vaddr + p.memsz > highest_end(rest)->0 {
            assert(phdrs[phdrs.len() - 1] == p);
        }
    } else {
        lemma_no_loadable(rest);
        assert(phdrs[phdrs.len() - 1] == p);
    }
}

/// Without a lowest start there is no highest end either.
proof fn lemma_no_loadable(phdrs: Seq<ProgramHeader>)
    requires
        lowest_vaddr(phdrs) is None,
    ensures
        highest_end(phdrs) is None,
    decreases phdrs.len(),
{
    if phdrs.len() > 0 {
        lemma_no_loadable(phdrs.drop_last());
    }
}

/// `m` with segment `p` of `file` copied in: its file bytes at its address,
/// then zeros up to its memory size.
pub open spec fn load_one(m: Seq<u8>, file: Seq<u8>, p: ProgramHeader) -> Seq<u8> {
    Seq::new(
        m.len(),
        |i: int|
            if p.vaddr <= i < p.vaddr + p.filesz {
                file[p.offset + (i - p.vaddr)]
            } else if p.vaddr + p.filesz <= i < p.vaddr + p.memsz {
                0u8
            } else {
                m[i]
            },
    )
}

/// `memory` with the loadable segments of `phdrs` copied in, in order.
pub open spec fn loaded(memory: Seq<u8>, file: Seq<u8>, phdrs: Seq<ProgramHeader>) -> Seq<u8>
    decreases phdrs.len(),
{
    if phdrs.len() == 0 {
        memory
    } else {
        let before = loaded(memory, file, phdrs.drop_last());
        if phdrs.last().loadable {
            load_one(before, file, phdrs.last())
        } else {
            before
        }
    }
}

/// A loadable segment lies within the file and within memory, and holds no
/// more file bytes than memory bytes.
pub open spec fn segment_fits(p: ProgramHeader, memory_len: int, file_len: int) -> bool {
    p.loadable ==> p.offset + p.filesz <= file_len && p.vaddr + p.memsz <= memory_len && p.filesz
        <= p.memsz
}

/// Copies the loadable segments of the image `elf_file` into `memory`, at
/// their addresses, and zero-fills the rest of each segment.
pub fn load_segments(memory: &mut [u8], elf_file: &[u8], phdrs: &[ProgramHeader])
    requires
        forall|i: int|
            0 <= i < phdrs@.len() ==> segment_fits(
                #[trigger] phdrs@[i],
                old(memory)@.len() as int,
                elf_file@.len() as int,
            ),
    ensures
        final(memory)@ == loaded(old(memory)@, elf_file@, phdrs@),
{
    let mut i: usize = 0;
    while i < phdrs.len()
        invariant
            i <= phdrs@.len(),
            memory@.len() == old(memory)@.len(),
            memory@ == loaded(old(memory)@, elf_file@, phdrs@.take(i as int)),
            forall|j: int|
                0 <= j < phdrs@.len() ==> segment_fits(
                    #[trigger] phdrs@[j],
                    old(memory)@.len() as int,
                    elf_file@.len() as int,
                ),
        decreases phdrs@.len() - i,
    {
        let p = phdrs[i];
        proof {
            assert(phdrs@.take(i + 1).drop_last() =~= phdrs@.take(i as int));
            assert(phdrs@.take(i + 1).last() == p);
            assert(segment_fits(phdrs@[i as int], old(memory)@.len() as int, elf_file@.len() as int));
        }
        if p.loadable {
            let ghost before = memory@;
            let mem_len = memory.len();
            let file_len = elf_file.len();
            assert(p.vaddr + p.memsz <= mem_len && p.offset + p.filesz <= file_len);
            let mem_offset = p.vaddr as usize;
            let file_offset = p.offset as usize;
            let file_copy_len = p.filesz as usize;
            let zeroed_len = p.memsz as usize - p.filesz as usize;
            let mut k: usize = 0;
            while k < file_copy_len
                invariant
                    k <= file_copy_len,
                    mem_offset == p.vaddr,
                    file_offset == p.offset,
                    file_copy_len == p.filesz,
                    p.offset + p.filesz <= elf_file@.len(),
                    p.vaddr + p.memsz <= memory@.len(),
                    p.filesz <= p.memsz,
                    memory@.len() == before.len(),
                    memory@.len() == mem_len,
                    elf_file@.len() == file_len,
                    forall|j: int|
                        0 <= j < memory@.len() ==> #[trigger] memory@[j] == if p.vaddr <= j
                            < p.vaddr + k {
                            elf_file@[p.offset + (j - p.vaddr)]
                        } else {
                            before[j]
                        },
                decreases file_copy_len - k,
            {
                memory[mem_offset + k] = elf_file[file_offset + k];
                k += 1;
            }
            let mut z: usize = 0;
            while z < zeroed_len
                invariant
                    z <= zeroed_len,
                    mem_offset == p.vaddr,
                    file_copy_len == p.filesz,
                    zeroed_len == p.memsz - p.filesz,
                    p.offset + p.filesz <= elf_file@.len(),
                    p.vaddr + p.memsz <= memory@.len(),
                    memory@.len() == before.len(),
                    memory@.len() == mem_len,
                    forall|j: int|
                        0 <= j < memory@.len() ==> #[trigger] memory@[j] == if p.vaddr <= j
                            < p.vaddr + p.filesz {
                            elf_file@[p.offset + (j - p.vaddr)]
                        } else if p.vaddr + p.filesz <= j < p.vaddr + p.filesz + z {
                            0u8
                        } else {
                            before[j]
                        },
                decreases zeroed_len - z,
            {
                memory[mem_offset + file_copy_len + z] = 0;
                z += 1;
            }
            proof {
                assert(memory@ =~= load_one(before, elf_file@, p));
            }
        }
        i += 1;
    }
    proof {
        assert(phdrs@.take(phdrs@.len() as int) =~= phdrs@);
    }
}

/// The string that starts at `offset` in `strtab` ends at `end`: the first
/// zero byte from `offset` on.
pub open spec fn nul_at(strtab: Seq<u8>, offset: int, end: int) -> bool {
    &&& offset <= end < strtab.len()
    &&& strtab[end] == 0
    &&& forall|k: int| offset <= k < end ==> strtab[k] != 0
}

/// The zero-terminated string at `offset` in `strtab` is `name`.
pub open spec fn named(strtab: Seq<u8>, offset: int, name: Seq<u8>) -> bool {
    exists|end: int| nul_at(strtab, offset, end) && strtab.subrange(offset, end) == name
}

/// Whether the zero-terminated string at `offset` in the string table
/// `strtab` is `name` (the bytes of a string, so valid UTF-8); a string with
/// no terminating zero names nothing.
pub fn name_matches(strtab: &[u8], offset: usize, name: &[u8]) -> (r: bool)
    ensures
        r == named(strtab@, offset as int, name@),
{
    let mut len: usize = 0;
    while offset < strtab.len() && len < strtab.len() - offset
        invariant
            forall|k: int| offset <= k < offset + len ==> strtab@[k] != 0,
            offset < strtab@.len() ==> offset + len <= strtab@.len(),
        decreases strtab@.len() - offset - len,
    {
        if strtab[offset + len] == 0 {
            let end = offset + len;
            let same = bytes_equal(strtab, offset, end, name);
            proof {
                assert(nul_at(strtab@, offset as int, end as int));
                if named(strtab@, offset as int, name@) {
                    let e = choose|e: int| nul_at(strtab@, offset as int, e) && strtab@.subrange(offset as int, e) == name@;
                    lemma_nul_unique(strtab@, offset as int, e, end as int);
                }
            }
            return same;
        }
        len += 1;
    }
    proof {
        if named(strtab@, offset as int, name@) {
            let e = choose|e: int| nul_at(strtab@, offset as int, e) && strtab@.subrange(offset as int, e) == name@;
            assert(strtab@[e] == 0);
        }
    }
    false
}

/// The first zero byte from an offset on is the only one that ends the
/// string there.
proof fn lemma_nul_unique(strtab: Seq<u8>, offset: int, a: int, b: int)
    requires
        nul_at(strtab, offset, a),
        nul_at(strtab, offset, b),
    ensures
        a == b,
{
    if a < b {
        assert(strtab[a] != 0);
    }
    if b < a {
        assert(strtab[b] != 0);
    }
}

/// Whether the bytes of `buf` from `start` to `end` are `name`.
fn bytes_equal(buf: &[u8], start: usize, end: usize, name: &[u8]) -> (r: bool)
    requires
        start <= end <= buf@.len(),
    ensures
        r == (buf@.subrange(start as int, end as int) == name@),
{
    if end - start != name.len() {
        return false;
    }
    let mut i: usize = 0;
    while i < name.len()
        invariant
            i <= name@.len(),
            end - start == name@.len(),
            start <= end <= buf@.len(),
            forall|k: int| 0 <= k < i ==> buf@[start + k] == name@[k],
        decreases name@.len() - i,
    {
        if buf[start + i] != name[i] {
            proof {
                assert(buf@.subrange(start as int, end as int)[i as int] != name@[i as int]);
            }
            return false;
        }
        i += 1;
    }
    proof {
        assert(buf@.subrange(start as int, end as int) =~= name@);
    }
    true
}

/// The index of the first section whose name (an offset into the section
/// name table `strtab`) is `name`.
pub fn find_section(name_offsets: &[u32], strtab: &[u8], name: &[u8]) -> (r: Option<usize>)
    ensures
        match r {
            Some(i) => i < name_offsets@.len() && named(
                strtab@,
                name_offsets@[i as int] as int,
                name@,
            ) && forall|k: int|
                0 <= k < i ==> !named(strtab@, #[trigger] name_offsets@[k] as int, name@),
            None => forall|k: int|
                0 <= k < name_offsets@.len() ==> !named(
                    strtab@,
                    #[trigger] name_offsets@[k] as int,
                    name@,
                ),
        },
{
    let mut i: usize = 0;
    while i < name_offsets.len()
        invariant
            i <= name_offsets@.len(),
            forall|k: int|
                0 <= k < i ==> !named(strtab@, #[trigger] name_offsets@[k] as int, name@),
        decreases name_offsets@.len() - i,
    {
        if name_matches(strtab, name_offsets[i] as usize, name) {
            return Some(i);
        }
        i += 1;
    }
    None
}

/// The type number of a relative relocation on RISC-V.
pub const R_RISCV_RELATIVE: u64 = 3;

/// The type number of a relative relocation on AArch64.
pub const R_AARCH64_RELATIVE: u64 = 1027;

/// An entry of the `.rela.dyn` section: the place to patch, the
/// relocation's type and its addend.
#[derive(Clone, Copy)]
pub struct Rela {
    pub offset: u64,
    pub info: u64,
    pub addend: i64,
}

/// The little-endian 64-bit word at `off` in `s`.
pub open spec fn word_at(s: Seq<u8>, off: int) -> u64 {
    (s[off] as u64)
        | ((s[off + 1] as u64) << 8u64)
        | ((s[off + 2] as u64) << 16u64)
        | ((s[off + 3] as u64) << 24u64)
        | ((s[off + 4] as u64) << 32u64)
        | ((s[off + 5] as u64) << 40u64)
        | ((s[off + 6] as u64) << 48u64)
        | ((s[off + 7] as u64) << 56u64)
}

/// The little-endian bytes of `v`.
pub open spec fn le_bytes(v: u64) -> Seq<u8> {
    seq![
        v as u8,
        (v >> 8u64) as u8,
        (v >> 16u64) as u8,
        (v >> 24u64) as u8,
        (v >> 32u64) as u8,
        (v >> 40u64) as u8,
        (v >> 48u64) as u8,
        (v >> 56u64) as u8,
    ]
}

/// `memory` with the relative relocation `r` applied for an image loaded at
/// `base`: the word at the relocation's offset gets the base and the addend
/// added, wrapping around.
pub open spec fn relocate_one(memory: Seq<u8>, base: u64, r: Rela) -> Seq<u8> {
    let word = word_at(memory, r.offset as int);
    let delta = vstd::wrapping::u64_specs::wrapping_add_signed(base, r.addend);
    splice(memory, r.offset as int, le_bytes(vstd::wrapping::u64_specs::wrapping_add(word, delta)))
}

/// `memory` with the relocations `relas` applied in order.
pub open spec fn relocated(memory: Seq<u8>, base: u64, relas: Seq<Rela>) -> Seq<u8>
    decreases relas.len(),
{
    if relas.len() == 0 {
        memory
    } else {
        relocate_one(relocated(memory, base, relas.drop_last()), base, relas.last())
    }
}

/// Applies the relative relocations `relas`, in order, to the image in
/// `memory` loaded at address `base`. Every entry must be of the target's
/// relative type, `relative`, and patch a word within the image.
pub fn relocate_rela_dyn(memory: &mut [u8], base: u64, relas: &[Rela], relative: u64)
    requires
        forall|i: int|
            0 <= i < relas@.len() ==> (#[trigger] relas@[i]).info == relative && relas@[i].offset
                + 8 <= old(memory)@.len(),
    ensures
        final(memory)@ == relocated(old(memory)@, base, relas@),
{
    let mut i: usize = 0;
    while i < relas.len()
        invariant
            i <= relas@.len(),
            memory@.len() == old(memory)@.len(),
            memory@ == relocated(old(memory)@, base, relas@.take(i as int)),
            forall|j: int|
                0 <= j < relas@.len() ==> (#[trigger] relas@[j]).info == relative && relas@[j].offset
                    + 8 <= old(memory)@.len(),
        decreases relas.len() - i,
    {
        let r = relas[i];
        let ghost before = memory@;
        assert(r.offset + 8 <= memory@.len());
        let off = r.offset as usize;
        let word = (memory[off] as u64)
            | ((memory[off + 1] as u64) << 8u64)
            | ((memory[off + 2] as u64) << 16u64)
            | ((memory[off + 3] as u64) << 24u64)
            | ((memory[off + 4] as u64) << 32u64)
            | ((memory[off + 5] as u64) << 40u64)
            | ((memory[off + 6] as u64) << 48u64)
            | ((memory[off + 7] as u64) << 56u64);
        let new = word.wrapping_add(base.wrapping_add_signed(r.addend));
        memory[off] = new as u8;
        memory[off + 1] = (new >> 8u64) as u8;
        memory[off + 2] = (new >> 16u64) as u8;
        memory[off + 3] = (new >> 24u64) as u8;
        memory[off + 4] = (new >> 32u64) as u8;
        memory[off + 5] = (new >> 40u64) as u8;
        memory[off + 6] = (new >> 48u64) as u8;
        memory[off + 7] = (new >> 56u64) as u8;
        proof {
            assert(word == word_at(before, off as int));
            assert(memory@ =~= splice(before, off as int, le_bytes(new)));
            assert(relas@.take(i + 1).drop_last() =~= relas@.take(i as int));
        }
        i += 1;
    }
    assert(relas@.take(relas@.len() as int) =~= relas@);
}

/// After a relative relocation, the word it patched reads as the word
/// before with the base and the addend added, wrapping around.
pub proof fn law_relocated_word(memory: Seq<u8>, base: u64, r: Rela)
    requires
        r.offset + 8 <= memory.len(),
    ensures
        relocate_one(memory, base, r).len() == memory.len(),
        word_at(relocate_one(memory, base, r), r.offset as int) == vstd::wrapping::u64_specs::wrapping_add(
            word_at(memory, r.offset as int),
            vstd::wrapping::u64_specs::wrapping_add_signed(base, r.addend),
        ),
{
    let off = r.offset as int;
    let v = vstd::wrapping::u64_specs::wrapping_add(
        word_at(memory, off),
        vstd::wrapping::u64_specs::wrapping_add_signed(base, r.addend),
    );
    let t = relocate_one(memory, base, r);
    let b = le_bytes(v);
    assert(t.subrange(off, off + 8) =~= b);
    assert(t[off] == b[0] && t[off + 1] == b[1] && t[off + 2] == b[2] && t[off + 3] == b[3]);
    assert(t[off + 4] == b[4] && t[off + 5] == b[5] && t[off + 6] == b[6] && t[off + 7] == b[7]);
    assert(((v as u8) as u64) | (((v >> 8u64) as u8 as u64) << 8u64) | (((v >> 16u64) as u8 as u64)
        << 16u64) | (((v >> 24u64) as u8 as u64) << 24u64) | (((v >> 32u64) as u8 as u64) << 32u64)
        | (((v >> 40u64) as u8 as u64) << 40u64) | (((v >> 48u64) as u8 as u64) << 48u64) | (((v
        >> 56u64) as u8 as u64) << 56u64) == v) by (bit_vector);
}

} // verus!
