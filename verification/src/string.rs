use vstd::prelude::*;

verus! {

/// The end-of-string byte.
pub const EOS: u8 = 0;

/// Whether `c` separates the components of a path.
pub open spec fn spec_is_separator(c: u8) -> bool {
    c == 0x2f || c == 0x5c
}

/// Whether `c` separates the components of a path ('/' or '\\').
pub fn is_separator(c: u8) -> (b: bool)
    ensures
        b == spec_is_separator(c),
{
    c == 0x2f || c == 0x5c
}

/// `s[from..]` holds an end-of-string byte.
pub open spec fn has_eos_from(s: Seq<u8>, from: int) -> bool {
    exists|k: int| from <= k < s.len() && s[k] == EOS
}

/// Whether `c` is one of the bytes of the end-terminated string `delim`.
pub open spec fn in_delim(delim: Seq<u8>, c: u8) -> bool {
    exists|k: int| 0 <= k < delim.len() && delim[k] == c && c != EOS
        && (forall|m: int| 0 <= m < k ==> delim[m] != EOS)
}

/// The first position at or after `from` of a delimiter byte or of the end
/// of the string.
pub open spec fn strsep_stop(s: Seq<u8>, delim: Seq<u8>, from: int, p: int) -> bool {
    &&& from <= p < s.len()
    &&& (in_delim(delim, s[p]) || s[p] == EOS)
    &&& forall|q: int| from <= q < p ==> !in_delim(delim, s[q]) && s[q] != EOS
}

fn find_in_delim(delim: &[u8], c: u8) -> (b: bool)
    requires
        has_eos_from(delim@, 0),
    ensures
        b == in_delim(delim@, c),
{
    let mut i: usize = 0;
    while delim[i] != EOS
        invariant
            i < delim.len(),
            has_eos_from(delim@, 0),
            forall|m: int| 0 <= m < i ==> delim[m] != EOS && delim[m] != c,
        decreases delim.len() - i,
    {
        if delim[i] == c {
            return true;
        }
        i += 1;
        if i >= delim.len() {
            proof {
                let k = choose|k: int| 0 <= k < delim@.len() && delim@[k] == EOS;
                assert(delim@[k] != EOS);
            }
        }
    }
    false
}

/// Splits off the token that starts at `start`: the first delimiter byte at
/// or after `start` is overwritten with the end byte and the position after
/// it is returned (none when that position holds the end byte); when the
/// end of the string comes first, nothing changes and none is returned.
pub fn strsep(s: &mut [u8], start: usize, delim: &[u8]) -> (next: Option<usize>)
    requires
        start < old(s).len(),
        has_eos_from(old(s)@, start as int),
        has_eos_from(delim@, 0),
    ensures
        exists|p: int| #![trigger old(s)@[p]] strsep_stop(old(s)@, delim@, start as int, p) && {
            if in_delim(delim@, old(s)@[p]) {
                &&& final(s)@ == old(s)@.update(p, EOS)
                &&& p + 1 < old(s)@.len()
                &&& next == (if old(s)@[p + 1] == EOS { None } else { Some((p + 1) as usize) })
            } else {
                &&& final(s)@ == old(s)@
                &&& next.is_none()
            }
        },
{
    let mut ptr: usize = start;
    loop
        invariant
            start <= ptr < s.len(),
            s@ == old(s)@,
            has_eos_from(s@, start as int),
            has_eos_from(delim@, 0),
            forall|q: int| start <= q < ptr ==> !in_delim(delim@, s@[q]) && s@[q] != EOS,
        decreases s.len() - ptr,
    {
        let c = s[ptr];
        if find_in_delim(delim, c) {
            proof {
                let k = choose|k: int| start <= k < s@.len() && s@[k] == EOS;
                assert(k != ptr);
                assert(k > ptr);
                assert(strsep_stop(old(s)@, delim@, start as int, ptr as int));
            }
            s[ptr] = EOS;
            let nxt = ptr + 1;
            if s[nxt] == EOS {
                return None;
            }
            return Some(nxt);
        }
        if c == EOS {
            assert(strsep_stop(old(s)@, delim@, start as int, ptr as int));
            return None;
        }
        ptr += 1;
        if ptr >= s.len() {
            proof {
                let k = choose|k: int| start <= k < s@.len() && s@[k] == EOS;
                assert(s@[k] != EOS);
            }
        }
    }
}

/// The first position at or after `start` that holds `c`, scanning no
/// further than the end of the string (none when the end comes first).
pub fn strchr(s: &[u8], start: usize, c: u8) -> (r: Option<usize>)
    requires
        start <= s.len(),
        has_eos_from(s@, start as int),
    ensures
        exists|p: int| #![trigger s@[p]]
            start <= p < s.len() && (s@[p] == c || s@[p] == EOS)
            && (forall|q: int| start <= q < p ==> s@[q] != c && s@[q] != EOS)
            && r == (if s@[p] == c { Some(p as usize) } else { None }),
{
    let mut i: usize = start;
    loop
        invariant
            start <= i < s.len(),
            has_eos_from(s@, start as int),
            forall|q: int| start <= q < i ==> s@[q] != c && s@[q] != EOS,
        decreases s.len() - i,
    {
        if s[i] == c {
            return Some(i);
        }
        if s[i] == EOS {
            return None;
        }
        i += 1;
        if i >= s.len() {
            proof {
                let k = choose|k: int| start <= k < s@.len() && s@[k] == EOS;
                assert(s@[k] != EOS);
            }
        }
    }
}

/// Copies the first `min(dst_size, src_size)` elements of `src` to `dst`.
pub fn memcpy_s<T: Copy>(dst: &mut [T], dst_size: usize, src: &[T], src_size: usize)
    requires
        dst_size <= old(dst).len(),
        src_size <= src.len(),
    ensures
        final(dst)@.len() == old(dst)@.len(),
        forall|i: int| 0 <= i < dst_size && i < src_size ==> final(dst)@[i] == src@[i],
        forall|i: int| 0 <= i < old(dst)@.len() && !(i < dst_size && i < src_size) ==> final(dst)@[i] == old(dst)@[i],
{
    let cpy_size = if dst_size > src_size { src_size } else { dst_size };
    let mut i: usize = 0;
    while i < cpy_size
        invariant
            cpy_size <= dst_size,
            cpy_size <= src_size,
            dst_size <= dst.len(),
            src_size <= src.len(),
            i <= cpy_size,
            cpy_size == (if dst_size > src_size { src_size } else { dst_size }),
            dst@.len() == old(dst)@.len(),
            forall|j: int| 0 <= j < i ==> dst@[j] == src@[j],
            forall|j: int| i <= j < dst@.len() ==> dst@[j] == old(dst)@[j],
        decreases cpy_size - i,
    {
        dst[i] = src[i];
        i += 1;
    }
}

/// Sets the first `size` bytes of `dst` to `value`.
pub fn memset(dst: &mut [u8], value: u8, size: usize)
    requires
        size <= old(dst).len(),
    ensures
        final(dst)@.len() == old(dst)@.len(),
        forall|i: int| 0 <= i < size ==> final(dst)@[i] == value,
        forall|i: int| size <= i < old(dst)@.len() ==> final(dst)@[i] == old(dst)@[i],
{
    let mut i: usize = 0;
    while i < size
        invariant
            size <= dst.len(),
            i <= size,
            dst@.len() == old(dst)@.len(),
            forall|j: int| 0 <= j < i ==> dst@[j] == value,
            forall|j: int| i <= j < dst@.len() ==> dst@[j] == old(dst)@[j],
        decreases size - i,
    {
        dst[i] = value;
        i += 1;
    }
}

} // verus!
