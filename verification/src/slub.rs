use vstd::prelude::*;
use crate::bitops::{fls64, is_fls32};
use crate::list::ListHead;
use crate::semaphore::UnreenterabkeSpinLock;

verus! {

pub const MAX_NUMNODES: usize = 1;
/// The largest allocation that the slab caches serve.
pub const KMALLOC_THREASHHOLD: usize = 0x800;
/// The number of general-purpose slab caches.
pub const KMALLOC_CACHES_NUM: usize = 12;

/// The name and object size of a general-purpose slab cache.
#[derive(Clone, Copy)]
pub struct KMallocInfoStruct {
    pub name: &'static str,
    pub size: u32,
}

impl KMallocInfoStruct {
    /// The entry for a cache of `size`-byte objects called `name`.
    pub fn new(name: &'static str, size: u32) -> (k: KMallocInfoStruct)
        ensures
            k.name == name,
            k.size == size,
    {
        KMallocInfoStruct { name, size }
    }
}

/// The object size of the general-purpose cache at each index.
pub open spec fn kmalloc_size(i: int) -> u32 {
    seq![0u32, 96, 192, 8, 16, 32, 64, 128, 256, 512, 1024, 2048][i]
}

/// The general-purpose slab caches, by index: the index of a size class
/// is the position of its highest bit (1-based) for the powers of two from
/// 8 on, with the 96- and 192-byte caches at 1 and 2.
pub fn kmalloc_info() -> (t: [KMallocInfoStruct; 12])
    ensures
        forall|i: int| 0 <= i < 12 ==> #[trigger] t@[i].size == kmalloc_size(i),
        t@[0].name@ == "kmalloc-rcl-0"@,
        t@[1].name@ == "kmalloc-rcl-96"@,
        t@[2].name@ == "kmalloc-rcl-192"@,
        t@[3].name@ == "kmalloc-rcl-8"@,
        t@[4].name@ == "kmalloc-rcl-16"@,
        t@[5].name@ == "kmalloc-rcl-32"@,
        t@[6].name@ == "kmalloc-rcl-64"@,
        t@[7].name@ == "kmalloc-rcl-128"@,
        t@[8].name@ == "kmalloc-rcl-256"@,
        t@[9].name@ == "kmalloc-rcl-512"@,
        t@[10].name@ == "kmalloc-rcl-1k"@,
        t@[11].name@ == "kmalloc-rcl-2k"@,
{
    let t = [
        KMallocInfoStruct::new("kmalloc-rcl-0", 0),
        KMallocInfoStruct::new("kmalloc-rcl-96", 96),
        KMallocInfoStruct::new("kmalloc-rcl-192", 192),
        KMallocInfoStruct::new("kmalloc-rcl-8", 8),
        KMallocInfoStruct::new("kmalloc-rcl-16", 16),
        KMallocInfoStruct::new("kmalloc-rcl-32", 32),
        KMallocInfoStruct::new("kmalloc-rcl-64", 64),
        KMallocInfoStruct::new("kmalloc-rcl-128", 128),
        KMallocInfoStruct::new("kmalloc-rcl-256", 256),
        KMallocInfoStruct::new("kmalloc-rcl-512", 512),
        KMallocInfoStruct::new("kmalloc-rcl-1k", 1024),
        KMallocInfoStruct::new("kmalloc-rcl-2k", 2048),
    ];
    assert(forall|i: int| 0 <= i < 12 ==> #[trigger] t@[i].size == kmalloc_size(i));
    t
}

/// The cache index for requests of `8 * i + 1 ..= 8 * i + 8` bytes, for
/// the sizes up to 192.
pub open spec fn spec_size_index(i: int) -> u8 {
    seq![3u8, 4, 5, 5, 6, 6, 6, 6, 1, 1, 1, 1, 7, 7, 7, 7, 2, 2, 2, 2, 2, 2, 2, 2][i]
}

/// The entry of the small-size table for a request of `bytes` bytes.
pub fn size_index_elem(bytes: usize) -> (i: usize)
    requires
        bytes >= 1,
    ensures
        i == (bytes - 1) / 8,
{
    (bytes - 1) / 8
}

fn size_index(i: usize) -> (r: u8)
    requires
        i < 24,
    ensures
        r == spec_size_index(i as int),
{
    let t: [u8; 24] = [3, 4, 5, 5, 6, 6, 6, 6, 1, 1, 1, 1, 7, 7, 7, 7, 2, 2, 2, 2, 2, 2, 2, 2];
    assert(t@ =~= seq![3u8, 4, 5, 5, 6, 6, 6, 6, 1, 1, 1, 1, 7, 7, 7, 7, 2, 2, 2, 2, 2, 2, 2, 2]);
    t[i]
}

/// The general-purpose cache at index `i` is the one for requests of
/// `size` bytes: by the small-size table up to 192 bytes, by the highest
/// set bit (1-based) of the low 32 bits of `size` above.
pub open spec fn serves(size: usize, i: usize) -> bool {
    if size <= 192 {
        size >= 1 && i == spec_size_index((size - 1) / 8) as usize
    } else {
        i <= 32 && is_fls32(((size as u64) & 0xffff_ffffu64) as u32, i as u32)
    }
}

/// The index of the general-purpose cache that serves a request of `size`
/// bytes, `None` (no cache) for 0. Up to 192 bytes a table picks it; above,
/// the highest set bit of the low 32 bits of `size` does, and that index
/// must name a cache.
pub fn kmalloc_slab(size: usize) -> (r: Option<usize>)
    requires
        size <= 192 || (size as u64) & 0xffff_ffffu64 < 2048,
    ensures
        size == 0 ==> r.is_none(),
        1 <= size <= 192 ==> r == Some(spec_size_index((size - 1) / 8) as usize),
        size > 192 ==> exists|i: u64| #[trigger] is_fls32(((size as u64) & 0xffff_ffffu64) as u32, i as u32) && r == Some(i as usize),
        r matches Some(i) ==> i < KMALLOC_CACHES_NUM && serves(size, i),
        size > 0 ==> r.is_some(),
{
    if size <= 192 {
        if size == 0 {
            return None;
        }
        let idx = size_index(size_index_elem(size));
        proof {
            assert(forall|i: int| 0 <= i < 24 ==> #[trigger] spec_size_index(i) < 12);
        }
        Some(idx as usize)
    } else {
        let i = fls64(size as u64);
        let low: u32 = ((size as u64) & 0xffff_ffffu64) as u32;
        proof {
            assert(low < 2048u32);
            assert(low == 0 || (low >> ((i - 1) as u32)) == 1u32);
            if low != 0 {
                assert(1 <= i <= 32);
                assert(i < 12) by (bit_vector)
                    requires low < 2048u32, 1 <= i <= 32, (low >> ((i - 1) as u32)) == 1u32;
            }
        }
        Some(i as usize)
    }
}

/// The cache that `kmalloc_slab` picks for a request holds objects at
/// least as large as the request.
pub proof fn lemma_kmalloc_slab_fits(size: usize, i: usize)
    requires
        0 < size < 2048,
        serves(size, i),
    ensures
        i < KMALLOC_CACHES_NUM,
        kmalloc_size(i as int) >= size,
{
    if size <= 192 {
        let j = (size - 1) / 8;
        assert(size <= 8 * (j + 1)) by (nonlinear_arith) requires j == (size - 1) / 8, size >= 1;
        assert(0 <= j < 24);
        assert(forall|k: int| 0 <= k < 24 ==> #[trigger] kmalloc_size(spec_size_index(k) as int) >= 8 * (k + 1)
            && spec_size_index(k) < 12);
    } else {
        let x = size as u32;
        assert(((size as u64) & 0xffff_ffffu64) as u32 == x) by (bit_vector) requires size < 2048usize, x == size as u32;
        lemma_fls_bucket(x, i as u32);
    }
}

proof fn lemma_fls_bucket(x: u32, i: u32)
    by (bit_vector)
    requires
        192 < x < 2048,
        1 <= i <= 32,
        x >> ((i - 1) as u32) == 1u32,
    ensures
        (i == 8 && x < 256) || (i == 9 && x < 512) || (i == 10 && x < 1024) || (i == 11 && x < 2048),
{
}

/// The packed order and object count of a slab cache.
pub struct KmemCacheOrderObjects {
    pub x: u32,
}

impl KmemCacheOrderObjects {
    /// Order and object count zero.
    pub fn new() -> (k: KmemCacheOrderObjects)
        ensures
            k.x == 0,
    {
        KmemCacheOrderObjects { x: 0 }
    }
}

/// A slab cache's per-node state: its lock, the count of free objects in
/// partially used slabs, and the list of those slabs.
pub struct KmemCacheNode {
    pub lock: UnreenterabkeSpinLock,
    pub nr_partial: u64,
    pub partial: ListHead,
}

impl KmemCacheNode {
    /// A node with a free lock (one unit), no partial slab and an empty
    /// list.
    pub fn new() -> (n: KmemCacheNode)
        ensures
            n.lock.count() == 1,
            n.nr_partial == 0,
            n.partial.next == 0,
            n.partial.prev == 0,
    {
        KmemCacheNode { lock: UnreenterabkeSpinLock::new(1), nr_partial: 0, partial: ListHead::empty() }
    }
}

} // verus!
