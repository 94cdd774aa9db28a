use vstd::prelude::*;
use crate::errno_base::ENOSPC;

verus! {

/// An allocator of increasing integer identifiers.
pub struct Ida {
    ids: i32,
}

/// What one call of `alloc_range(min, max)` does: the next identifier to
/// hand out goes from `old` to `new` and `r` is returned.
pub open spec fn alloc_range_spec(old: i32, min: i32, max: i32, new: i32, r: i32) -> bool {
    if old < min {
        new == min + 1 && r == min
    } else if old > max {
        new == old && r == -ENOSPC
    } else {
        new == old + 1 && r == old
    }
}

impl Ida {
    /// The next identifier that the allocator would hand out.
    pub closed spec fn next_id(&self) -> i32 {
        self.ids
    }

    /// An allocator that starts at identifier 0.
    pub fn new() -> (s: Ida)
        ensures
            s.next_id() == 0,
    {
        Ida { ids: 0 }
    }

    /// Allocates an identifier in `[min, max]`: `min` when no identifier at
    /// or above `min` was handed out yet, else the next one; `-ENOSPC` when
    /// that next one is above `max`.
    pub fn alloc_range(&mut self, min: i32, max: i32) -> (r: i32)
        requires
            old(self).next_id() < min ==> min < i32::MAX,
            min <= old(self).next_id() <= max ==> old(self).next_id() < i32::MAX,
        ensures
            alloc_range_spec(old(self).next_id(), min, max, final(self).next_id(), r),
    {
        if self.ids < min {
            self.ids = min + 1;
            return min;
        }
        let result = self.ids;
        if result > max {
            return (-ENOSPC) as i32;
        }
        self.ids += 1;
        result
    }

    /// Allocates an identifier at or above `min`.  The upper bound handed on
    /// is `!0`, which is -1 for this signed type, so once the next
    /// identifier is at or above both `min` and 0 the call fails with
    /// `-ENOSPC`.
    pub fn alloc_min(&mut self, min: i32) -> (r: i32)
        requires
            old(self).next_id() < min ==> min < i32::MAX,
        ensures
            alloc_range_spec(old(self).next_id(), min, -1i32, final(self).next_id(), r),
    {
        let max: i32 = !0;
        assert(max == -1i32) by (bit_vector) requires max == !0i32;
        self.alloc_range(min, max)
    }
}

/// The next identifier never goes down, and two calls that both hand out an
/// identifier (that move the next identifier) hand out different ones.
pub proof fn lemma_ida_distinct(
    s0: i32, s1: i32, s2: i32,
    min1: i32, max1: i32, r1: i32,
    min2: i32, max2: i32, r2: i32,
)
    requires
        alloc_range_spec(s0, min1, max1, s1, r1),
        alloc_range_spec(s1, min2, max2, s2, r2),
        s0 != s1,
        s1 != s2,
    ensures
        s0 < s1 < s2,
        s0 <= r1 < s1,
        s1 <= r2 < s2,
        r1 != r2,
{
}

} // verus!
