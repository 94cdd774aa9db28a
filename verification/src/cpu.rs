use vstd::prelude::*;

verus! {

pub const SUPPORT_1GB_PAGE: u32 = 0x4000000;
pub const FPU_ENABLE: u32 = 0x1;
pub const GET_CPU_VENDOR_ID: u32 = 0;
pub const GET_CPU_VERSION: u32 = 1;
pub const EXTENDED_PROCESSOR_SIGNATURE_AND_FEATURE: u32 = 0x80000001;

pub const ECX_SSE3: u32 = 0x1;
pub const ECX_PCLMULQDQ: u32 = 0x2;
pub const ECX_DTES64: u32 = 0x4;
pub const ECX_MONITOR: u32 = 0x8;
pub const ECX_DS_CPL: u32 = 0x10;
pub const ECX_VMX: u32 = 0x20;
pub const ECX_SMX: u32 = 0x40;
pub const ECX_EIST: u32 = 0x80;
pub const ECX_TM2: u32 = 0x100;
pub const ECX_SSS3: u32 = 0x200;
pub const ECX_CNXT_ID: u32 = 0x400;
pub const ECX_SDBG: u32 = 0x800;
pub const ECX_FMA: u32 = 0x1000;
pub const ECX_CMPXCHG16B: u32 = 0x2000;
pub const ECX_XTPR: u32 = 0x4000;
pub const ECX_PDCM: u32 = 0x8000;
pub const ECX_PCID: u32 = 0x20000;
pub const ECX_DCA: u32 = 0x40000;
pub const ECX_SSE4_1: u32 = 0x80000;
pub const ECX_SSE4_2: u32 = 0x100000;
pub const ECX_X2APIC: u32 = 0x200000;
pub const ECX_MOVBE: u32 = 0x400000;
pub const ECX_POPCNT: u32 = 0x800000;
pub const ECX_TSCD: u32 = 0x1000000;
pub const ECX_AESNI: u32 = 0x2000000;
pub const ECX_XSAVE: u32 = 0x4000000;
pub const ECX_OSXSAVE: u32 = 0x8000000;
pub const ECX_AVX: u32 = 0x10000000;
pub const ECX_F16C: u32 = 0x20000000;
pub const ECX_RDRAND: u32 = 0x40000000;
pub const EDX_FPU: u32 = 0x1;
pub const EDX_VME: u32 = 0x2;
pub const EDX_DE: u32 = 0x4;
pub const EDX_PSE: u32 = 0x8;
pub const EDX_TSC: u32 = 0x10;
pub const EDX_MSR: u32 = 0x20;
pub const EDX_PAE: u32 = 0x40;
pub const EDX_MCE: u32 = 0x80;
pub const EDX_CX8: u32 = 0x100;
pub const EDX_APIC: u32 = 0x200;
pub const EDX_SEP: u32 = 0x800;
pub const EDX_MTRR: u32 = 0x1000;
pub const EDX_PGE: u32 = 0x2000;
pub const EDX_MCA: u32 = 0x4000;
pub const EDX_CMOV: u32 = 0x8000;
pub const EDX_PAT: u32 = 0x10000;
pub const EDX_PSE36: u32 = 0x20000;
pub const EDX_PSN: u32 = 0x40000;
pub const EDX_CLFSH: u32 = 0x80000;
pub const EDX_DS: u32 = 0x200000;
pub const EDX_ACPI: u32 = 0x400000;
pub const EDX_MMX: u32 = 0x800000;
pub const EDX_FXSR: u32 = 0x1000000;
pub const EDX_SSE: u32 = 0x2000000;
pub const EDX_SSE2: u32 = 0x4000000;
pub const EDX_SS: u32 = 0x8000000;
pub const EDX_HTT: u32 = 0x10000000;
pub const EDX_TM: u32 = 0x20000000;
pub const EDX_PBE: u32 = 0x80000000;

pub const CR0_PE: u64 = 0x1;
pub const CR0_MP: u64 = 0x2;
pub const CR0_EM: u64 = 0x4;
pub const CR0_TS: u64 = 0x8;
pub const CR0_ET: u64 = 0x8;
pub const CR0_NE: u64 = 0x20;
pub const CR0_WP: u64 = 0x10000;
pub const CR0_AM: u64 = 0x40000;
pub const CR0_NW: u64 = 0x20000000;
pub const CR0_CD: u64 = 0x40000000;
pub const CR0_PG: u64 = 0x80000000;

/// The four registers a `cpuid` instruction answers with.
#[derive(Clone, Copy, Default)]
pub struct CpuidResult {
    pub eax: u32,
    pub ebx: u32,
    pub ecx: u32,
    pub edx: u32,
}

/// The number of processors this kernel runs on.
pub fn get_cpu_number() -> (n: usize)
    ensures
        n == 1,
{
    1
}

/// Whether the CRC instructions of SSE4.2 may be used, from the feature
/// word `ecx` of `cpuid` leaf 1. (Every bit of the word is a feature this
/// kernel names, so any word is accepted.)
pub fn init_crc32(ecx: u32) -> (sse4_2: bool)
    ensures
        sse4_2 == (ecx & ECX_SSE4_2 == ECX_SSE4_2),
{
    ecx & ECX_SSE4_2 == ECX_SSE4_2
}

/// Whether the processor maps 1 GiB pages, from the feature word `edx` of
/// `cpuid` leaf 0x80000001.
pub fn supports_1gb_page(edx: u32) -> (b: bool)
    ensures
        b == (edx & SUPPORT_1GB_PAGE != 0),
{
    edx & SUPPORT_1GB_PAGE != 0
}

} // verus!
