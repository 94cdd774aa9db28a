use vstd::prelude::*;

verus! {

/// `r` is the 1-based position of the most significant set bit of `x`
/// (0 when `x` is zero).
pub open spec fn is_fls32(x: u32, r: u32) -> bool {
    if x == 0 {
        r == 0
    } else {
        1 <= r <= 32 && (x >> ((r - 1) as u32)) == 1u32
    }
}

/// The mask of the top `k` bits of a 32-bit word, for the widths that the
/// search for the last set bit tries.
pub open spec fn top_mask32(k: u32) -> u32 {
    if k == 16 { 0xffff0000u32 } else if k == 8 { 0xff000000u32 } else if k == 4 { 0xf0000000u32 }
    else if k == 2 { 0xc0000000u32 } else { 0x80000000u32 }
}

/// The same masks as 64-bit words.
pub open spec fn top_mask64(k: u64) -> u64 {
    if k == 16 { 0xffff0000u64 } else if k == 8 { 0xff000000u64 } else if k == 4 { 0xf0000000u64 }
    else if k == 2 { 0xc0000000u64 } else { 0x80000000u64 }
}

/// One halving step of the search for the last set bit: `x` is `x0`
/// shifted up by `32 - r` with nothing of `x0` at bit `r` or above, and
/// the top `2k` bits of `x` are not all clear. When its top `k` bits are
/// clear, shifting `x` up by `k` keeps that form for `r - k` and leaves its
/// top `k` bits not all clear.
proof fn lemma_fls_stage(x0: u32, x: u32, r: u32, k: u32)
    by (bit_vector)
    requires
        k == 16 || k == 8 || k == 4 || k == 2 || k == 1,
        1 <= r <= 32,
        (r == 32 && x == x0) || (r < 32 && x == x0 << ((32 - r) as u32) && x0 >> r == 0u32),
        (k == 16 && x != 0u32) || (k < 16 && x & top_mask32((2 * k) as u32) != 0u32),
    ensures
        x & top_mask32(k) == 0u32 ==> {
            &&& k < r
            &&& (x << k) == x0 << ((32 - (r - k)) as u32)
            &&& x0 >> ((r - k) as u32) == 0u32
            &&& (x << k) & top_mask32(k) != 0u32
        },
{
}

proof fn lemma_fls_done(x0: u32, x: u32, r: u32)
    by (bit_vector)
    requires
        1 <= r <= 32,
        (r == 32 && x == x0) || (r < 32 && x == x0 << ((32 - r) as u32) && x0 >> r == 0u32),
        x & 0x80000000u32 != 0u32,
    ensures
        x0 >> ((r - 1) as u32) == 1u32,
{
}

/// Find last set bit: the 1-based index of the most significant set bit of
/// `x`, or 0 when `x` is zero.
pub fn fls(x: u32) -> (r: u32)
    ensures
        is_fls32(x, r),
{
    let ghost x0 = x;
    let mut x = x;
    let mut r: u32 = 32;
    if x == 0 {
        return 0;
    }
    proof { lemma_fls_stage(x0, x, r, 16); }
    if x & 0xffff0000 == 0 {
        x = x << 16;
        r = r - 16;
    }
    proof { lemma_fls_stage(x0, x, r, 8); }
    if x & 0xff000000 == 0 {
        x = x << 8;
        r = r - 8;
    }
    proof { lemma_fls_stage(x0, x, r, 4); }
    if x & 0xf0000000 == 0 {
        x = x << 4;
        r = r - 4;
    }
    proof { lemma_fls_stage(x0, x, r, 2); }
    if x & 0xc0000000 == 0 {
        x = x << 2;
        r = r - 2;
    }
    proof { lemma_fls_stage(x0, x, r, 1); }
    if x & 0x80000000 == 0 {
        x = x << 1;
        r = r - 1;
    }
    proof { lemma_fls_done(x0, x, r); }
    r
}

proof fn lemma_fls64_start(x: u64, x0: u32)
    by (bit_vector)
    requires
        x0 == (x & 0xffffffffu64) as u32,
    ensures
        x & 0xffffffffu64 == 0u64 ==> x << 32u64 == 0u64 && x0 == 0u32,
        x & 0xffffffffu64 != 0u64 ==> x0 != 0u32 && (x as u32) == x0 && x != 0u64,
{
}

/// One halving step of the search for the last set bit in the low word of
/// a 64-bit value (see `lemma_fls_stage`).
proof fn lemma_fls64_stage(x0: u32, x: u64, r: u64, k: u64)
    by (bit_vector)
    requires
        k == 16 || k == 8 || k == 4 || k == 2 || k == 1,
        1 <= r <= 32,
        (r == 32 && (x as u32) == x0) || (r < 32 && (x as u32) == x0 << ((32 - r) as u32) && x0 >> (r as u32) == 0u32),
        (k == 16 && x & 0xffffffffu64 != 0u64) || (k < 16 && x & top_mask64((2 * k) as u64) != 0u64),
    ensures
        x & top_mask64(k) == 0u64 ==> {
            &&& k < r
            &&& ((x << k) as u32) == x0 << ((32 - (r - k)) as u32)
            &&& x0 >> ((r - k) as u32) == 0u32
            &&& (x << k) & top_mask64(k) != 0u64
        },
{
}

proof fn lemma_fls64_done(x0: u32, x: u64, r: u64)
    by (bit_vector)
    requires
        1 <= r <= 32,
        (r == 32 && (x as u32) == x0) || (r < 32 && (x as u32) == x0 << ((32 - r) as u32) && x0 >> (r as u32) == 0u32),
        x & 0x80000000u64 != 0u64,
    ensures
        x0 >> ((r - 1) as u32) == 1u32,
{
}

/// Find last set bit of a 64-bit word as this kernel computes it: only the
/// low 32 bits take part, so the result is that of `fls` on the low word
/// (0 when the low word is zero).
pub fn fls64(x: u64) -> (r: u64)
    ensures
        r <= 32,
        is_fls32((x & 0xffffffff) as u32, r as u32),
{
    let ghost x0: u32 = (x & 0xffffffff) as u32;
    proof { lemma_fls64_start(x, x0); }
    let mut x = x;
    let mut r: u64 = 32;
    if (x & 0xffffffff) == 0 {
        r = 0;
        x = x << 32;
    }
    if x == 0 {
        return 0;
    }
    proof { lemma_fls64_stage(x0, x, r, 16); }
    if x & 0xffff0000 == 0 {
        x = x << 16;
        r = r - 16;
    }
    proof { lemma_fls64_stage(x0, x, r, 8); }
    if x & 0xff000000 == 0 {
        x = x << 8;
        r = r - 8;
    }
    proof { lemma_fls64_stage(x0, x, r, 4); }
    if x & 0xf0000000 == 0 {
        x = x << 4;
        r = r - 4;
    }
    proof { lemma_fls64_stage(x0, x, r, 2); }
    if x & 0xc0000000 == 0 {
        x = x << 2;
        r = r - 2;
    }
    proof { lemma_fls64_stage(x0, x, r, 1); }
    if x & 0x80000000 == 0 {
        x = x << 1;
        r = r - 1;
    }
    proof { lemma_fls64_done(x0, x, r); }
    r
}

/// `r` is the 1-based position of the least significant set bit of the
/// word `x` (0 when `x` is zero).
pub open spec fn is_ffs64(x: u64, r: u64) -> bool {
    if x == 0 {
        r == 0
    } else {
        &&& 1 <= r <= 64
        &&& (x >> ((r - 1) as u64)) & 1u64 == 1u64
        &&& (x >> ((r - 1) as u64)) << ((r - 1) as u64) == x
    }
}

/// The mask of the low `k` bits, for the widths that the search for the
/// first set bit tries.
pub open spec fn low_mask32(k: u32) -> i32 {
    if k == 16 { 0xffffi32 } else if k == 8 { 0xffi32 } else if k == 4 { 0xfi32 } else if k == 2 { 3i32 } else { 1i32 }
}

/// The same masks as 64-bit words.
pub open spec fn low_mask64(k: u64) -> i64 {
    if k == 16 { 0xffffi64 } else if k == 8 { 0xffi64 } else if k == 4 { 0xfi64 } else if k == 2 { 3i64 } else { 1i64 }
}

/// One halving step of the search for the first set bit: `x` is `x0`
/// shifted down by `r - 1`, with nothing of `x0` below bit `r - 1`, and the
/// low `2k` bits of `x` are not all clear. When its low `k` bits are clear,
/// shifting `x` down by `k` keeps that form for `r + k` and leaves its low
/// `k` bits not all clear.
proof fn lemma_ffs_stage(x0: i32, x: i32, r: u32, k: u32)
    by (bit_vector)
    requires
        k == 16 || k == 8 || k == 4 || k == 2 || k == 1,
        1 <= r <= 32,
        (r == 1 && x == x0) || (x == x0 >> ((r - 1) as u32) && ((x0 as u32) >> ((r - 1) as u32)) << ((r - 1) as u32) == x0 as u32),
        (k == 16 && x != 0i32) || (k < 16 && x & low_mask32((2 * k) as u32) != 0i32),
    ensures
        x & low_mask32(k) == 0i32 ==> {
            &&& r - 1 + k <= 31
            &&& x >> k == x0 >> ((r - 1 + k) as u32)
            &&& ((x0 as u32) >> ((r - 1 + k) as u32)) << ((r - 1 + k) as u32) == x0 as u32
            &&& (x >> k) & low_mask32(k) != 0i32
        },
{
}

proof fn lemma_ffs_done(x0: i32, x: i32, r: u32)
    by (bit_vector)
    requires
        1 <= r <= 32,
        (r == 1 && x == x0) || (x == x0 >> ((r - 1) as u32) && ((x0 as u32) >> ((r - 1) as u32)) << ((r - 1) as u32) == x0 as u32),
        x & 1i32 != 0i32,
    ensures
        (((x0 as u32) as u64) >> ((r - 1) as u64)) & 1u64 == 1u64,
        (((x0 as u32) as u64) >> ((r - 1) as u64)) << ((r - 1) as u64) == ((x0 as u32) as u64),
        (x0 as u32) as u64 != 0u64,
{
}

/// Find first set bit: the 1-based index of the least significant set bit
/// of `x`, or 0 when `x` is zero.
pub fn ffs(x: i32) -> (r: u32)
    ensures
        r <= 32,
        is_ffs64((x as u32) as u64, r as u64),
{
    let ghost x0 = x;
    let mut x = x;
    let mut r: u32 = 1;
    if x == 0 {
        return 0;
    }
    proof { lemma_ffs_stage(x0, x, r, 16); }
    if (x & 0xffff) == 0 {
        x >>= 16;
        r += 16;
    }
    proof { lemma_ffs_stage(x0, x, r, 8); }
    if (x & 0xff) == 0 {
        x >>= 8;
        r += 8;
    }
    proof { lemma_ffs_stage(x0, x, r, 4); }
    if (x & 0xf) == 0 {
        x >>= 4;
        r += 4;
    }
    proof { lemma_ffs_stage(x0, x, r, 2); }
    if (x & 3) == 0 {
        x >>= 2;
        r += 2;
    }
    proof { lemma_ffs_stage(x0, x, r, 1); }
    if (x & 1) == 0 {
        x >>= 1;
        r += 1;
    }
    proof { lemma_ffs_done(x0, x, r); }
    r
}

proof fn lemma_ffs64_start(x0: i64)
    by (bit_vector)
    ensures
        x0 & 0xffffffffi64 == 0i64 ==> {
            &&& (x0 >> 32u64 == 0i64 ==> x0 == 0i64)
            &&& ((x0 as u64) >> 32u64) << 32u64 == x0 as u64
            &&& (x0 >> 32u64 != 0i64 ==> (x0 >> 32u64) & 0xffffffffi64 != 0i64)
        },
        x0 & 0xffffffffi64 != 0i64 ==> x0 != 0i64,
{
}

/// One halving step of the search for the first set bit of a 64-bit word
/// (see `lemma_ffs_stage`).
proof fn lemma_ffs64_stage(x0: i64, x: i64, r: u64, k: u64)
    by (bit_vector)
    requires
        k == 16 || k == 8 || k == 4 || k == 2 || k == 1,
        1 <= r <= 64,
        (r == 1 && x == x0) || (x == x0 >> ((r - 1) as u64) && ((x0 as u64) >> ((r - 1) as u64)) << ((r - 1) as u64) == x0 as u64),
        (k == 16 && x & 0xffffffffi64 != 0i64) || (k < 16 && x & low_mask64((2 * k) as u64) != 0i64),
    ensures
        x & low_mask64(k) == 0i64 ==> {
            &&& r - 1 + k <= 63
            &&& x >> k == x0 >> ((r - 1 + k) as u64)
            &&& ((x0 as u64) >> ((r - 1 + k) as u64)) << ((r - 1 + k) as u64) == x0 as u64
            &&& (x >> k) & low_mask64(k) != 0i64
        },
{
}

proof fn lemma_ffs64_done(x0: i64, x: i64, r: u64)
    by (bit_vector)
    requires
        1 <= r <= 64,
        (r == 1 && x == x0) || (x == x0 >> ((r - 1) as u64) && ((x0 as u64) >> ((r - 1) as u64)) << ((r - 1) as u64) == x0 as u64),
        x & 1i64 != 0i64,
    ensures
        ((x0 as u64) >> ((r - 1) as u64)) & 1u64 == 1u64,
        ((x0 as u64) >> ((r - 1) as u64)) << ((r - 1) as u64) == x0 as u64,
        x0 as u64 != 0u64,
{
}

/// Find first set bit of a 64-bit word: the 1-based index of the least
/// significant set bit of `x`, or 0 when `x` is zero.
pub fn ffs64(x: i64) -> (r: u64)
    ensures
        r <= 64,
        is_ffs64(x as u64, r),
{
    let ghost x0 = x;
    proof { lemma_ffs64_start(x0); }
    let mut x = x;
    let mut r: u64 = 1;
    if (x & 0xffffffff) == 0 {
        r += 32;
        x >>= 32;
    }
    if x == 0 {
        return 0;
    }
    proof { lemma_ffs64_stage(x0, x, r, 16); }
    if (x & 0xffff) == 0 {
        x >>= 16;
        r += 16;
    }
    proof { lemma_ffs64_stage(x0, x, r, 8); }
    if (x & 0xff) == 0 {
        x >>= 8;
        r += 8;
    }
    proof { lemma_ffs64_stage(x0, x, r, 4); }
    if (x & 0xf) == 0 {
        x >>= 4;
        r += 4;
    }
    proof { lemma_ffs64_stage(x0, x, r, 2); }
    if (x & 3) == 0 {
        x >>= 2;
        r += 2;
    }
    proof { lemma_ffs64_stage(x0, x, r, 1); }
    if (x & 1) == 0 {
        x >>= 1;
        r += 1;
    }
    proof { lemma_ffs64_done(x0, x, r); }
    r
}

} // verus!
