use vstd::prelude::*;
use crate::mm_type::{MAP_ANONYMOUS, MAP_PRIVATE, PROT_EXEC, PROT_READ, PROT_WRITE};

verus! {

pub const EI_NIDENT: usize = 0x10;
pub const EM_386: u16 = 3;
pub const EM_X86_64: u16 = 62;

pub const PF_X: u32 = 0x1;
pub const PF_W: u32 = 0x2;
pub const PF_R: u32 = 0x4;

pub const PT_NULL: u32 = 0;
pub const PT_LOAD: u32 = 1;
pub const PT_DYNAMIC: u32 = 2;
pub const PT_INTERP: u32 = 3;
pub const PT_NOTE: u32 = 4;
pub const PT_SHLIB: u32 = 5;
pub const PT_PHDR: u32 = 6;
pub const PT_LOPROC: u32 = 0x70000000;
pub const PT_HIPROC: u32 = 0x7fffffff;

pub const ET_NONE: u16 = 0;
pub const ET_REL: u16 = 1;
pub const ET_EXEC: u16 = 2;
pub const ET_DYN: u16 = 3;
pub const ET_CORE: u16 = 4;
pub const EV_NONE: u32 = 0;
pub const EV_CURRENT: u32 = 1;
/// The size of a 64-bit program header.
pub const ELF64_PHDR_SIZE: u16 = 56;
/// The answer of a load that did not happen.
pub const EOF: i64 = -1;

/// The header of a 64-bit ELF file.
#[derive(Clone, Copy)]
pub struct Elf64Ehdr {
    pub e_ident: [u8; 16],
    pub e_type: u16,
    pub e_machine: u16,
    pub e_version: u32,
    pub e_entry: u64,
    pub e_phoff: u64,
    pub e_shoff: u64,
    pub e_flags: u32,
    pub e_ehsize: u16,
    pub e_phentsize: u16,
    pub e_phnum: u16,
    pub e_shentsize: u16,
    pub e_shnum: u16,
    pub e_shstrndx: u16,
}

/// A 64-bit ELF program header.
#[derive(Clone, Copy)]
pub struct Elf64Phdr {
    pub p_type: u32,
    pub p_flags: u32,
    pub p_offset: u64,
    pub p_vaddr: u64,
    pub p_paddr: u64,
    pub p_filesz: u64,
    pub p_memsz: u64,
    pub p_align: u64,
}

/// A 64-bit ELF section header.
#[derive(Clone, Copy)]
pub struct Elf64Shdr {
    pub sh_name: u32,
    pub sh_type: u32,
    pub sh_flags: u64,
    pub sh_addr: u64,
    pub sh_offset: u64,
    pub sh_size: u64,
    pub sh_link: u32,
    pub sh_info: u32,
    pub sh_addralign: u64,
    pub sh_entsize: u64,
}

/// The first seven identification bytes this kernel accepts: the ELF
/// magic, 64-bit class, little-endian data, version 1.
pub open spec fn elf_ident_prefix() -> Seq<u8> {
    seq![0x7fu8, 0x45, 0x4c, 0x46, 0x02, 0x01, 0x01]
}

/// The header passes this kernel's checks: the identification prefix, an
/// executable or shared object, for the 386 machine, of the current
/// version, with 64-bit program headers.
pub open spec fn spec_elf64_valid(ehdr: Elf64Ehdr) -> bool {
    &&& ehdr.e_ident@.subrange(0, 7) == elf_ident_prefix()
    &&& (ehdr.e_type == ET_EXEC || ehdr.e_type == ET_DYN)
    &&& ehdr.e_machine == EM_386
    &&& ehdr.e_version == EV_CURRENT
    &&& ehdr.e_phentsize == ELF64_PHDR_SIZE
}

/// Whether the header passes this kernel's checks.
pub fn elf64_validate(ehdr: &Elf64Ehdr) -> (b: bool)
    ensures
        b == spec_elf64_valid(*ehdr),
{
    let magic: [u8; 7] = [0x7f, 0x45, 0x4c, 0x46, 0x02, 0x01, 0x01];
    let mut i: usize = 0;
    while i < 7
        invariant
            i <= 7,
            magic@ == elf_ident_prefix(),
            forall|k: int| 0 <= k < i ==> ehdr.e_ident@[k] == magic@[k],
        decreases 7 - i,
    {
        if ehdr.e_ident[i] != magic[i] {
            return false;
        }
        i += 1;
    }
    assert(ehdr.e_ident@.subrange(0, 7) =~= elf_ident_prefix());
    if !(ehdr.e_type == ET_EXEC || ehdr.e_type == ET_DYN) {
        return false;
    }
    if ehdr.e_machine != EM_386 {
        return false;
    }
    if ehdr.e_version != EV_CURRENT {
        return false;
    }
    if ehdr.e_phentsize != ELF64_PHDR_SIZE {
        return false;
    }
    true
}

/// How a loadable segment is brought in: a segment at address 0 is only
/// read from the file; any other is mapped at the page that holds its
/// address, over whole pages, with its protection and flags, from the
/// file (or anonymously when it has no file bytes) at the matching offset.
#[derive(PartialEq, Eq, Structural)]
pub enum SegmentLoad {
    ReadOnly { size: u64, offset: u64 },
    Mapped { addr: u64, size: u64, prot: u64, flags: u64, from_file: bool, offset: u64 },
}

/// The mapping protection for the segment flags `p_flags`.
pub open spec fn segment_prot(p_flags: u32) -> u64 {
    let w: u64 = if p_flags & PF_W != 0 { 0 | PROT_WRITE } else { 0 };
    let wx: u64 = if p_flags & PF_X != 0 { w | PROT_EXEC } else { w };
    if p_flags & PF_R != 0 { wx | PROT_READ } else { wx }
}

proof fn lemma_prot_bits(f: u32)
    by (bit_vector)
    ensures
        (0u64 | MAP_PRIVATE) == MAP_PRIVATE,
        (segment_prot(f) & PROT_READ != 0) == (f & PF_R != 0),
        (segment_prot(f) & PROT_WRITE != 0) == (f & PF_W != 0),
        (segment_prot(f) & PROT_EXEC != 0) == (f & PF_X != 0),
        segment_prot(f) & 0xffff_ffff_ffff_fff8u64 == 0,
        (MAP_PRIVATE | MAP_ANONYMOUS) & MAP_ANONYMOUS != 0,
        (MAP_PRIVATE | MAP_ANONYMOUS) & MAP_PRIVATE != 0,
        MAP_PRIVATE & MAP_ANONYMOUS == 0,
        MAP_PRIVATE & MAP_PRIVATE != 0,
{
}

/// A loaded segment is mapped readable exactly when its flags say `PF_R`,
/// writable exactly when they say `PF_W` and executable exactly when they
/// say `PF_X`, with no other protection bit. The mapping starts at the page
/// of the segment's address and spans whole pages from there to the end of
/// its memory size and no further; it is private, from the file (at the
/// matching page-aligned offset) when the segment has file bytes, and
/// anonymous when it has none.
pub proof fn lemma_segment_protection(phdr: Elf64Phdr)
    requires
        phdr.p_vaddr != 0,
        segment_in_range(phdr),
    ensures
        spec_load_segment(phdr) matches SegmentLoad::Mapped { addr, size, prot, flags, from_file, offset } && {
            &&& (prot & PROT_READ != 0) == (phdr.p_flags & PF_R != 0)
            &&& (prot & PROT_WRITE != 0) == (phdr.p_flags & PF_W != 0)
            &&& (prot & PROT_EXEC != 0) == (phdr.p_flags & PF_X != 0)
            &&& prot & 0xffff_ffff_ffff_fff8u64 == 0
            &&& addr % 4096 == 0 && addr <= phdr.p_vaddr < addr + 4096
            &&& size % 4096 == 0
            &&& addr + size >= phdr.p_vaddr + phdr.p_memsz
            &&& addr + size < phdr.p_vaddr + phdr.p_memsz + 4096
            &&& flags & MAP_PRIVATE != 0
            &&& (flags & MAP_ANONYMOUS != 0) == (phdr.p_filesz == 0)
            &&& from_file == (phdr.p_filesz != 0)
            &&& offset + (phdr.p_vaddr - addr) == phdr.p_offset
        },
{
    lemma_prot_bits(phdr.p_flags);
    let l = phdr.p_vaddr % 4096;
    let n = phdr.p_memsz + l + 4095;
    assert(segment_map_size(phdr.p_vaddr, phdr.p_memsz) == (n / 4096) * 4096);
    assert((n / 4096) * 4096 <= n && (n / 4096) * 4096 > n - 4096 && ((n / 4096) * 4096) % 4096 == 0) by (nonlinear_arith)
        requires n >= 0;
}

/// The bytes of memory that a segment at `vaddr` of `memsz` bytes spans,
/// from the start of its first page to the end of its last.
pub open spec fn segment_map_size(vaddr: u64, memsz: u64) -> int {
    let loffset = vaddr % 4096;
    ((memsz + loffset + 4095) / 4096) * 4096
}

/// How the segment of `phdr` is brought in.
pub open spec fn spec_load_segment(phdr: Elf64Phdr) -> SegmentLoad {
    if phdr.p_vaddr == 0 {
        SegmentLoad::ReadOnly { size: phdr.p_filesz, offset: phdr.p_offset }
    } else {
        SegmentLoad::Mapped {
            addr: (phdr.p_vaddr - phdr.p_vaddr % 4096) as u64,
            size: segment_map_size(phdr.p_vaddr, phdr.p_memsz) as u64,
            prot: segment_prot(phdr.p_flags),
            flags: if phdr.p_filesz == 0 { MAP_PRIVATE | MAP_ANONYMOUS } else { MAP_PRIVATE },
            from_file: phdr.p_filesz != 0,
            offset: (phdr.p_offset - phdr.p_vaddr % 4096) as u64,
        }
    }
}

/// The segment can be planned without overflow.
pub open spec fn segment_in_range(phdr: Elf64Phdr) -> bool {
    phdr.p_vaddr != 0 ==> segment_map_size(phdr.p_vaddr, phdr.p_memsz) <= u64::MAX && phdr.p_offset >= phdr.p_vaddr % 4096
}

/// How the segment of `phdr` is brought in (see `SegmentLoad`).
pub fn load_segment64(phdr: &Elf64Phdr) -> (l: SegmentLoad)
    requires
        segment_in_range(*phdr),
    ensures
        l == spec_load_segment(*phdr),
{
    let mut prot: u64 = 0;
    let mut flags: u64 = 0;
    let loffset: u64 = phdr.p_vaddr % 4096;
    flags = flags | MAP_PRIVATE;
    if phdr.p_flags & PF_W != 0 {
        prot = prot | PROT_WRITE;
    }
    if phdr.p_flags & PF_X != 0 {
        prot = prot | PROT_EXEC;
    }
    if phdr.p_flags & PF_R != 0 {
        prot = prot | PROT_READ;
    }
    proof {
        lemma_prot_bits(phdr.p_flags);
    }
    if phdr.p_vaddr == 0 {
        return SegmentLoad::ReadOnly { size: phdr.p_filesz, offset: phdr.p_offset };
    }
    proof {
        assert(phdr.p_memsz + loffset + 4095 <= segment_map_size(phdr.p_vaddr, phdr.p_memsz) + 4095);
        assert(segment_map_size(phdr.p_vaddr, phdr.p_memsz) >= phdr.p_memsz + loffset) by (nonlinear_arith)
            requires segment_map_size(phdr.p_vaddr, phdr.p_memsz) == ((phdr.p_memsz + loffset + 4095) / 4096) * 4096;
    }
    let pages: u64 = (phdr.p_memsz + loffset + 4095) / 4096;
    proof {
        assert(pages * 4096 == segment_map_size(phdr.p_vaddr, phdr.p_memsz));
    }
    let map_size: u64 = pages * 4096;
    if phdr.p_filesz == 0 {
        flags = flags | MAP_ANONYMOUS;
        SegmentLoad::Mapped { addr: phdr.p_vaddr - loffset, size: map_size, prot, flags, from_file: false, offset: phdr.p_offset - loffset }
    } else {
        SegmentLoad::Mapped { addr: phdr.p_vaddr - loffset, size: map_size, prot, flags, from_file: true, offset: phdr.p_offset - loffset }
    }
}

/// Plans loading a program from its header and program headers: `None`
/// (answered with `EOF`) when the header passes the checks, as this kernel
/// tests it; otherwise the loads of the `PT_LOAD` segments in order (the
/// loading stops with `EOF` at the first that fails) and the entry point.
pub fn load_elf64(ehdr: &Elf64Ehdr, phdrs: &[Elf64Phdr]) -> (r: Option<(Vec<SegmentLoad>, i64)>)
    requires
        forall|i: int| 0 <= i < phdrs@.len() && phdrs@[i].p_type == PT_LOAD ==> segment_in_range(#[trigger] phdrs@[i]),
    ensures
        spec_elf64_valid(*ehdr) ==> r.is_none(),
        !spec_elf64_valid(*ehdr) ==> (r matches Some((loads, entry)) && entry == ehdr.e_entry as i64
            && loads@ == planned_loads(phdrs@, phdrs@.len() as int)),
{
    if elf64_validate(ehdr) {
        return None;
    }
    let mut loads: Vec<SegmentLoad> = Vec::new();
    let mut var: usize = 0;
    while var < phdrs.len()
        invariant
            var <= phdrs@.len(),
            loads@ == planned_loads(phdrs@, var as int),
            forall|i: int| 0 <= i < phdrs@.len() && phdrs@[i].p_type == PT_LOAD ==> segment_in_range(#[trigger] phdrs@[i]),
        decreases phdrs@.len() - var,
    {
        if phdrs[var].p_type == PT_LOAD {
            let l = load_segment64(&phdrs[var]);
            loads.push(l);
        }
        var += 1;
    }
    Some((loads, ehdr.e_entry as i64))
}

/// The loads of the `PT_LOAD` headers among the first `n`, in order.
pub open spec fn planned_loads(phdrs: Seq<Elf64Phdr>, n: int) -> Seq<SegmentLoad>
    decreases n,
{
    if n <= 0 {
        Seq::empty()
    } else if phdrs[n - 1].p_type == PT_LOAD {
        planned_loads(phdrs, n - 1).push(spec_load_segment(phdrs[n - 1]))
    } else {
        planned_loads(phdrs, n - 1)
    }
}

} // verus!
