use ftl_kernel::elf::align_up;
use ftl_kernel::elf::find_section;
use ftl_kernel::elf::load_len;
use ftl_kernel::elf::load_segments;
use ftl_kernel::elf::name_matches;
use ftl_kernel::elf::relocate_rela_dyn;
use ftl_kernel::elf::Rela;
use ftl_kernel::elf::R_RISCV_RELATIVE;
use ftl_kernel::elf::Error;
use ftl_kernel::elf::ProgramHeader;
use ftl_kernel::elf::ET_DYN;

fn load(vaddr: u64, offset: u64, filesz: u64, memsz: u64) -> ProgramHeader {
    ProgramHeader { loadable: true, vaddr, offset, filesz, memsz }
}

fn other(vaddr: u64, memsz: u64) -> ProgramHeader {
    ProgramHeader { loadable: false, vaddr, offset: 0, filesz: 0, memsz }
}

#[test]
fn elf_align_up_to_pages() {
    assert_eq!(align_up(0), 0);
    assert_eq!(align_up(1), 4096);
    assert_eq!(align_up(4096), 4096);
    assert_eq!(align_up(4097), 8192);
}

#[test]
fn elf_load_len_spans_loadable_segments() {
    let phdrs = [load(0x1000, 0, 0x10, 0x800), other(0, 0x10_0000), load(0, 0, 0x100, 0x100), load(0x3000, 0, 0, 0x10)];
    assert_eq!(load_len(ET_DYN, &phdrs), Ok(0x4000));
    assert_eq!(load_len(ET_DYN, &[load(0x2000, 0, 0, 0x1001)]), Ok(0x2000));
}

#[test]
fn elf_load_len_errors() {
    assert_eq!(load_len(2, &[load(0, 0, 0, 1)]), Err(Error::NotPie));
    assert_eq!(load_len(ET_DYN, &[]), Err(Error::NoPhdrs));
    assert_eq!(load_len(ET_DYN, &[other(0, 10)]), Err(Error::NoPhdrs));
}

#[test]
fn elf_load_segments_copies_and_zero_fills() {
    let file: Vec<u8> = (1..=16).collect();
    let mut memory = [0xeeu8; 16];
    let phdrs = [load(2, 4, 3, 5), other(0, 16), load(10, 0, 2, 2)];
    load_segments(&mut memory, &file, &phdrs);
    assert_eq!(
        memory,
        [0xee, 0xee, 5, 6, 7, 0, 0, 0xee, 0xee, 0xee, 1, 2, 0xee, 0xee, 0xee, 0xee]
    );
}

#[test]
fn elf_later_segments_overwrite_earlier_ones() {
    let file = [9u8, 8, 7, 6];
    let mut memory = [0u8; 6];
    load_segments(&mut memory, &file, &[load(0, 0, 4, 4), load(2, 3, 1, 3)]);
    assert_eq!(memory, [9, 8, 6, 0, 0, 0]);
}

#[test]
fn elf_section_names() {
    let strtab = b"\0.text\0.rela.dyn\0.data";
    assert!(name_matches(strtab, 1, b".text"));
    assert!(name_matches(strtab, 7, b".rela.dyn"));
    assert!(!name_matches(strtab, 7, b".rela"));
    assert!(name_matches(strtab, 0, b""));
    // The last name has no terminating zero.
    assert!(!name_matches(strtab, 17, b".data"));
    assert!(!name_matches(strtab, 100, b""));
    assert_eq!(find_section(&[0, 1, 7, 17], strtab, b".rela.dyn"), Some(2));
    assert_eq!(find_section(&[0, 1, 7, 17], strtab, b".data"), None);
    assert_eq!(find_section(&[1, 1], strtab, b".text"), Some(0));
}

#[test]
fn relative_relocations_add_the_base_and_addend() {
    let mut memory = vec![0u8; 24];
    memory[8..16].copy_from_slice(&0x10u64.to_le_bytes());
    let relas = [
        Rela { offset: 8, info: R_RISCV_RELATIVE, addend: 0x20 },
        Rela { offset: 0, info: R_RISCV_RELATIVE, addend: -0x100 },
        // A second relocation of the same word adds again.
        Rela { offset: 8, info: R_RISCV_RELATIVE, addend: 1 },
    ];
    relocate_rela_dyn(&mut memory, 0x4000_0000, &relas, R_RISCV_RELATIVE);
    assert_eq!(u64::from_le_bytes(memory[8..16].try_into().unwrap()), 0x10 + 0x4000_0020 + 0x4000_0001);
    assert_eq!(u64::from_le_bytes(memory[0..8].try_into().unwrap()), 0x3fff_ff00);
    assert_eq!(&memory[16..], &[0u8; 8]);
}

#[test]
fn relative_relocation_wraps_around() {
    let mut memory = u64::MAX.to_le_bytes().to_vec();
    relocate_rela_dyn(&mut memory, 2, &[Rela { offset: 0, info: R_RISCV_RELATIVE, addend: 0 }], R_RISCV_RELATIVE);
    assert_eq!(u64::from_le_bytes(memory[..].try_into().unwrap()), 1);
    relocate_rela_dyn(&mut memory, 0, &[Rela { offset: 0, info: R_RISCV_RELATIVE, addend: -2 }], R_RISCV_RELATIVE);
    assert_eq!(u64::from_le_bytes(memory[..].try_into().unwrap()), u64::MAX);
}
