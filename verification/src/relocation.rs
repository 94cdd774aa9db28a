use vstd::prelude::*;
use crate::elf64::{Elf64Phdr, Elf64Shdr, PT_LOAD};

verus! {

pub const SHF_ALLOC: u64 = 0b10;
pub const R_X86_64_NONE: u32 = 0;
pub const R_X86_64_64: u32 = 1;
pub const R_X86_64_RELATIVE: u32 = 8;
/// The section type of relocations with addends.
pub const SHT_RELA: u32 = 4;
/// The high bits that a relative relocation adds: the kernel's virtual
/// base `0xffff8 << 44`.
pub const RELOC_HIGH_BITS: u64 = 0xffff800000000000;

/// A relocation with an addend.
#[derive(Clone, Copy)]
pub struct Elf64Rela {
    pub r_offset: u64,
    pub r_type: u32,
    pub r_sym: u32,
    pub r_addend: u64,
}

/// The amount a relative relocation adds to the word it patches: its
/// addend with the kernel's high address bits set.
pub open spec fn spec_relative_addend(addend: u64) -> u64 {
    addend | RELOC_HIGH_BITS
}

/// The amount a relative relocation adds to the word it patches.
pub fn relative_addend(addend: u64) -> (r: u64)
    ensures
        r == spec_relative_addend(addend),
{
    addend | RELOC_HIGH_BITS
}

/// The word at a relative relocation after it is applied to `old`; the sum
/// must not overflow.
pub fn rx86_64_relative_relocate(old: u64, addend: u64) -> (r: u64)
    requires
        old + spec_relative_addend(addend) <= u64::MAX,
    ensures
        r == old + spec_relative_addend(addend),
{
    old + relative_addend(addend)
}

/// The patches that the relocations of a section make: for each, the
/// address it patches and the amount added there. Every relocation must be
/// a relative one (this kernel knows no other).
pub fn system_relocate64(relas: &[Elf64Rela]) -> (r: Vec<(u64, u64)>)
    requires
        forall|i: int| 0 <= i < relas@.len() ==> #[trigger] relas@[i].r_type == R_X86_64_RELATIVE,
    ensures
        r@.len() == relas@.len(),
        forall|i: int| 0 <= i < relas@.len() ==> #[trigger] r@[i] == (relas@[i].r_offset, spec_relative_addend(relas@[i].r_addend)),
{
    let mut r: Vec<(u64, u64)> = Vec::new();
    let mut var: usize = 0;
    while var < relas.len()
        invariant
            var <= relas@.len(),
            r@.len() == var,
            forall|i: int| 0 <= i < var ==> #[trigger] r@[i] == (relas@[i].r_offset, spec_relative_addend(relas@[i].r_addend)),
        decreases relas@.len() - var,
    {
        r.push((relas[var].r_offset, relative_addend(relas[var].r_addend)));
        var += 1;
    }
    r
}

/// The sections whose relocations are applied: those of the relocation
/// type, by position.
pub fn process_relocation(shdrs: &[Elf64Shdr]) -> (r: Vec<usize>)
    ensures
        forall|k: int| 0 <= k < r@.len() ==> #[trigger] r@[k] < shdrs@.len() && shdrs@[r@[k] as int].sh_type == SHT_RELA,
        forall|i: int| 0 <= i < shdrs@.len() && shdrs@[i].sh_type == SHT_RELA ==> r@.contains(i as usize),
        forall|a: int, b: int| 0 <= a < b < r@.len() ==> r@[a] < r@[b],
{
    let mut r: Vec<usize> = Vec::new();
    let mut var: usize = 0;
    while var < shdrs.len()
        invariant
            var <= shdrs@.len(),
            forall|k: int| 0 <= k < r@.len() ==> #[trigger] r@[k] < var && shdrs@[r@[k] as int].sh_type == SHT_RELA,
            forall|i: int| 0 <= i < var && shdrs@[i].sh_type == SHT_RELA ==> r@.contains(i as usize),
            forall|a: int, b: int| 0 <= a < b < r@.len() ==> r@[a] < r@[b],
        decreases shdrs@.len() - var,
    {
        if shdrs[var].sh_type == SHT_RELA {
            let ghost before = r@;
            r.push(var);
            proof {
                assert forall|i: int| 0 <= i < var + 1 && shdrs@[i].sh_type == SHT_RELA implies r@.contains(i as usize) by {
                    if i < var {
                        assert(before.contains(i as usize));
                        let k = choose|k: int| 0 <= k < before.len() && before[k] == i as usize;
                        assert(r@[k] == i as usize);
                    } else {
                        assert(r@[r@.len() - 1] == var);
                    }
                }
            }
        }
        var += 1;
    }
    r
}

/// How a loadable section of the kernel image is brought in at boot: its
/// bytes zeroed (it has none in the file), or read from the disk in runs
/// of sectors (first sector, count, where to).
pub enum SectionLoad {
    Bss { addr: u64, size: u64 },
    Reads(Vec<(u32, u8, u64)>),
}

/// The runs of sectors for a section of `blocks` sectors from sector
/// `first` into `paddr`, as the boot loader reads them: runs of 256
/// sectors (count 0 means 256) while more than 255 are left, then one run
/// of the rest, plus one more sector when the file size is not a whole
/// number of sectors, into the start of its sector.
pub open spec fn section_reads(first: u64, blocks: u64, paddr: u64, filesz: u64) -> Seq<(u32, u8, u64)> {
    let full = if blocks > 255 { (blocks - 256) / 256 + 1 } else { 0 };
    let rest = blocks - 256 * full;
    Seq::new(full as nat, |k: int| ((first + k * 256) as u32, 0u8, (paddr + 256 * 512 * k) as u64))
        .push(((first + full * 256) as u32, (rest + if filesz % 512 != 0 { 1int } else { 0int }) as u8,
            (paddr + 256 * 512 * full - paddr % 512) as u64))
}

/// Plans loading one section of the kernel image (`phdr`, a program
/// header of the image, whose file lies from sector 10 of the disk on).
/// Sections without file bytes are zeroed. `kernel_size` becomes the end
/// of the section in memory when its end in the file lies past
/// `known_size` (the kernel size known so far).
pub fn load_system_section(phdr: &Elf64Phdr, known_size: usize, kernel_size: &mut usize) -> (l: SectionLoad)
    requires
        phdr.p_filesz + 511 <= u64::MAX,
        phdr.p_offset / 512 + 10 + (phdr.p_filesz + 511) / 512 + 256 <= u64::MAX,
        phdr.p_paddr + 256 * 512 * ((phdr.p_filesz + 511) / 512 / 256 + 1) <= u64::MAX,
        phdr.p_paddr + phdr.p_filesz <= usize::MAX,
        phdr.p_paddr + phdr.p_memsz <= usize::MAX,
    ensures
        ({
            let blocks = (phdr.p_filesz + 511) / 512;
            &&& blocks == 0 ==> l == (SectionLoad::Bss { addr: phdr.p_paddr, size: phdr.p_memsz })
            &&& blocks != 0 ==> (l matches SectionLoad::Reads(v) && v@ == section_reads((phdr.p_offset / 512 + 10) as u64,
                    blocks as u64, phdr.p_paddr, phdr.p_filesz))
            &&& phdr.p_paddr + phdr.p_filesz > known_size ==> *final(kernel_size) == phdr.p_paddr + phdr.p_memsz
            &&& phdr.p_paddr + phdr.p_filesz <= known_size ==> *final(kernel_size) == *old(kernel_size)
        }),
{
    let blocks0: u64 = (phdr.p_filesz + 511) / 512;
    let first: u64 = phdr.p_offset / 512 + 10;
    let load;
    if blocks0 == 0 {
        load = SectionLoad::Bss { addr: phdr.p_paddr, size: phdr.p_memsz };
    } else {
        let mut reads: Vec<(u32, u8, u64)> = Vec::new();
        let mut blocks: u64 = blocks0;
        let mut block_num: u64 = 0;
        while blocks > 255
            invariant
                blocks0 == (phdr.p_filesz + 511) / 512,
                first == phdr.p_offset / 512 + 10,
                first + blocks0 + 256 <= u64::MAX,
                phdr.p_paddr + 256 * 512 * (blocks0 / 256 + 1) <= u64::MAX,
                blocks + 256 * block_num == blocks0,
                blocks0 > 255 ==> block_num <= (blocks0 - 256) / 256 + 1,
                blocks0 <= 255 ==> block_num == 0,
                reads@ =~= Seq::new(block_num as nat, |k: int| ((first + k * 256) as u32, 0u8, (phdr.p_paddr + 256 * 512 * k) as u64)),
            decreases blocks,
        {
            proof {
                assert(block_num * 256 <= blocks0) by (nonlinear_arith) requires blocks + 256 * block_num == blocks0;
                assert(256 * 512 * block_num <= 256 * 512 * (blocks0 / 256 + 1)) by (nonlinear_arith)
                    requires block_num * 256 <= blocks0;
            }
            reads.push(((first + block_num * 256) as u32, 0, phdr.p_paddr + 256 * 512 * block_num));
            block_num += 1;
            blocks -= 256;
        }
        proof {
            let full = if blocks0 > 255 { (blocks0 - 256) / 256 + 1 } else { 0 };
            assert(block_num == full) by (nonlinear_arith)
                requires blocks + 256 * block_num == blocks0, blocks <= 255,
                    full == (if blocks0 > 255 { (blocks0 - 256) / 256 + 1 } else { 0 });
            assert(256 * 512 * block_num <= 256 * 512 * (blocks0 / 256 + 1)) by (nonlinear_arith)
                requires block_num * 256 <= blocks0, blocks + 256 * block_num == blocks0;
        }
        let extra: u64 = if phdr.p_filesz % 512 != 0 { 1 } else { 0 };
        reads.push(((first + block_num * 256) as u32, (blocks + extra) as u8,
            phdr.p_paddr + 256 * 512 * block_num - phdr.p_paddr % 512));
        load = SectionLoad::Reads(reads);
    }
    if (phdr.p_paddr + phdr.p_filesz) as usize > known_size {
        *kernel_size = (phdr.p_paddr + phdr.p_memsz) as usize;
    }
    load
}

/// The program headers of the kernel image that are loaded at boot: the
/// loadable ones after the first, by position.
pub fn kernel_load_sections(phdrs: &[Elf64Phdr]) -> (r: Vec<usize>)
    ensures
        forall|k: int| 0 <= k < r@.len() ==> 1 <= #[trigger] r@[k] < phdrs@.len() && phdrs@[r@[k] as int].p_type == PT_LOAD,
        forall|i: int| 1 <= i < phdrs@.len() && phdrs@[i].p_type == PT_LOAD ==> r@.contains(i as usize),
        forall|a: int, b: int| 0 <= a < b < r@.len() ==> r@[a] < r@[b],
{
    let mut r: Vec<usize> = Vec::new();
    let mut var: usize = 1;
    while var < phdrs.len()
        invariant
            1 <= var,
            var <= phdrs@.len() || phdrs@.len() == 0,
            forall|k: int| 0 <= k < r@.len() ==> 1 <= #[trigger] r@[k] < var && r@[k] < phdrs@.len() && phdrs@[r@[k] as int].p_type == PT_LOAD,
            forall|i: int| 1 <= i < var && i < phdrs@.len() && phdrs@[i].p_type == PT_LOAD ==> r@.contains(i as usize),
            forall|a: int, b: int| 0 <= a < b < r@.len() ==> r@[a] < r@[b],
        decreases phdrs@.len() - var,
    {
        if phdrs[var].p_type == PT_LOAD {
            let ghost before = r@;
            r.push(var);
            proof {
                assert forall|i: int| 1 <= i < var + 1 && i < phdrs@.len() && phdrs@[i].p_type == PT_LOAD implies r@.contains(i as usize) by {
                    if i < var {
                        let k = choose|k: int| 0 <= k < before.len() && before[k] == i as usize;
                        assert(r@[k] == i as usize);
                    } else {
                        assert(r@[r@.len() - 1] == var);
                    }
                }
            }
        }
        var += 1;
    }
    r
}


/// Where the kernel's section headers are read from, for section headers
/// at byte `e_shoff` of the image, `e_shnum` of them (64 bytes each): the
/// first sector (the image starts 10 sectors into the disk), the number of
/// sectors (kept to its low byte, as the read takes a byte), and the
/// offset of the first header in what is read.
pub fn kernel_shdr_read(e_shoff: u64, e_shnum: u16) -> (r: (u32, u8, u64))
    requires
        e_shoff + e_shnum * 64 + 511 <= u64::MAX,
    ensures
        r.0 == (e_shoff / 512 + 10) as u32,
        r.1 == ((e_shoff % 512 + e_shnum * 64 + 511) / 512) as u8,
        r.2 == e_shoff % 512,
{
    let start_pos = e_shoff - e_shoff % 512;
    let sector = ((start_pos / 512) + 10) as u32;
    let len = e_shoff + (e_shnum as u64) * 64 - start_pos;
    let count = ((len + 511) / 512) as u8;
    proof {
        assert(start_pos / 512 == e_shoff / 512) by (nonlinear_arith)
            requires start_pos == e_shoff - e_shoff % 512;
    }
    (sector, count, e_shoff % 512)
}

} // verus!
