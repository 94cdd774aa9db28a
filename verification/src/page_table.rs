//! The four-level page tables of an address space, held as the words of
//! the physical frames that store them.
//!
//! Frame `f` of a `PageTables` holds the 512 entries of one table; frame 0
//! is the level-4 table.  A table entry that is present names, in its
//! frame-number field, the frame of the next table down.  A frame taken for
//! a new table starts out zeroed, as `alloc_zeroed` gives it.
//!
//! What a mapping means is given by `translate`: the last-level entry that
//! the walk for an address reaches, or 0 when some entry on the way is not
//! present.

use vstd::prelude::*;
use crate::memory::{Pml4Entry, PtEntry, MemoryPool, Page, phys2page, virt2phys, wsub, spec_bits, frame_block,
    frame_allocator_added, next_pow2, pow2_from, lemma_frame_block, lemma_page_shift, frames_taken, PHYADDR_START,
    LINEAR_MAP_AREA_START, LINEAR_PHYS_BASE, CLONE_VM, get_page_start, get_pml4_offset, get_pdpt_offset, get_pdt_offset, get_pt_offset, spec_set_bits, spec_page_idx};

verus! {

/// Bit 0: the entry is present.
pub open spec fn entry_present(e: u64) -> bool {
    e % 2 == 1
}

/// Bit 1: the page may be written.
pub open spec fn entry_writable(e: u64) -> bool {
    (e / 2) % 2 == 1
}

/// Bits 1 and 2: the entry lets the tables or page below it be written and
/// reached from user mode.
#[verifier::opaque]
pub open spec fn entry_open(e: u64) -> bool {
    (e / 2) % 2 == 1 && (e / 4) % 2 == 1
}

/// Bits 12..=63: the frame number.
pub open spec fn entry_frame(e: u64) -> int {
    (e / 4096) as int
}

/// The entry with its writable bit cleared.
pub open spec fn write_protect(e: u64) -> u64 {
    if entry_writable(e) { (e - 2) as u64 } else { e }
}

/// Index of the level-4 entry for `v`.
pub open spec fn idx4(v: u64) -> int {
    ((v / 0x80_0000_0000) % 512) as int
}

/// Index of the level-3 entry for `v`.
pub open spec fn idx3(v: u64) -> int {
    ((v / 0x4000_0000) % 512) as int
}

/// Index of the level-2 entry for `v`.
pub open spec fn idx2(v: u64) -> int {
    ((v / 0x20_0000) % 512) as int
}

/// Index of the level-1 entry for `v`.
pub open spec fn idx1(v: u64) -> int {
    ((v / 0x1000) % 512) as int
}

/// `u` and `v` select the same entry at every level: they lie in the same
/// page as the tables see it.
pub open spec fn same_page(u: u64, v: u64) -> bool {
    &&& idx4(u) == idx4(v)
    &&& idx3(u) == idx3(v)
    &&& idx2(u) == idx2(v)
    &&& idx1(u) == idx1(v)
}

/// Entry `i` of the table in frame `f`.
pub open spec fn word(w: Seq<u64>, f: int, i: int) -> u64 {
    w[f * 512 + i]
}

/// The frame of the level-3 table on the walk for `v`.
pub open spec fn frame3(w: Seq<u64>, v: u64) -> int {
    entry_frame(word(w, 0, idx4(v)))
}

/// The frame of the level-2 table on the walk for `v`.
pub open spec fn frame2(w: Seq<u64>, v: u64) -> int {
    entry_frame(word(w, frame3(w, v), idx3(v)))
}

/// The frame of the level-1 table on the walk for `v`.
pub open spec fn frame1(w: Seq<u64>, v: u64) -> int {
    entry_frame(word(w, frame2(w, v), idx2(v)))
}

/// The level-4 entry for `v` is present.
pub open spec fn reach3(w: Seq<u64>, v: u64) -> bool {
    entry_present(word(w, 0, idx4(v)))
}

/// The level-4 and level-3 entries for `v` are present.
pub open spec fn reach2(w: Seq<u64>, v: u64) -> bool {
    reach3(w, v) && entry_present(word(w, frame3(w, v), idx3(v)))
}

/// The walk for `v` reaches a level-1 table.
pub open spec fn reach1(w: Seq<u64>, v: u64) -> bool {
    reach2(w, v) && entry_present(word(w, frame2(w, v), idx2(v)))
}

/// The last-level entry for `v`, or 0 where the walk stops early.
pub open spec fn translate_words(w: Seq<u64>, v: u64) -> u64 {
    if reach1(w, v) { word(w, frame1(w, v), idx1(v)) } else { 0 }
}

/// The frames form a tree of tables under frame 0: every present entry of
/// a table above the last level names a frame of the level below, whose
/// recorded parent is that entry.
pub open spec fn tables_wf(w: Seq<u64>, level: Seq<int>, parent: Seq<(int, int)>) -> bool {
    let n = level.len();
    &&& 1 <= n < 0x10_0000_0000
    &&& w.len() == n * 512
    &&& parent.len() == n
    &&& level[0] == 4
    &&& forall|f: int| 0 <= f < n ==> 1 <= #[trigger] level[f] <= 4
    &&& forall|f: int, i: int|
        0 <= f < n && 0 <= i < 512 && level[f] >= 2 && entry_present(#[trigger] word(w, f, i)) ==> {
            let c = entry_frame(word(w, f, i));
            &&& 0 <= c < n
            &&& level[c] == level[f] - 1
            &&& parent[c] == (f, i)
            &&& entry_open(word(w, f, i))
        }
}

/// The entry that points a table at a fresh frame `n`: the frame number,
/// writable, present and open to user mode, the other bits as they were.
pub open spec fn table_entry(raw: u64, n: u64) -> u64 {
    spec_set_bits(spec_set_bits(spec_set_bits(spec_set_bits(raw, 12, 0xfffffffffffff, n), 1, 1, 1), 0, 1, 1), 2, 1, 1)
}

/// The same entry as `set_pml4` and its kin fill it for a user page table:
/// frame, present, writable, user, not a big page.
pub open spec fn user_table_entry(raw: u64, n: u64) -> u64 {
    spec_set_bits(spec_set_bits(spec_set_bits(spec_set_bits(spec_set_bits(raw, 12, 0xfffffffffffff, n), 0, 1, 1), 1, 1, 1), 2, 1, 1), 7, 1, 0)
}

/// The entry that `next_table` writes where none was present: the user
/// table entry of `set_pml4` and its kin when `user` holds, else the entry
/// of the page-table copy.
#[verifier::opaque]
pub open spec fn made_entry(raw: u64, n: u64, user: bool) -> u64 {
    if user { user_table_entry(raw, n) } else { table_entry(raw, n) }
}

/// The bit operations on entries and addresses, in arithmetic terms.
proof fn lemma_entry_bits(e: u64, n: u64)
    by (bit_vector)
    requires
        n < 0x10_0000_0000,
    ensures
        e & 1 == e % 2,
        e >> 12u64 == e / 4096,
        (e >> 1u64) & 1 == (e / 2) % 2,
        (e / 2) % 2 == 1 ==> spec_set_bits(e, 1, 1, 0) == e - 2,
        (e / 2) % 2 == 0 ==> spec_set_bits(e, 1, 1, 0) == e,
        spec_bits(spec_set_bits(e, 1, 1, 0), 12, 0xfffffffffffff) == spec_bits(e, 12, 0xfffffffffffff),
        table_entry(e, n) % 2 == 1,
        table_entry(e, n) / 4096 == n,
        (table_entry(e, n) / 2) % 2 == 1 && (table_entry(e, n) / 4) % 2 == 1,
        user_table_entry(e, n) % 2 == 1,
        user_table_entry(e, n) / 4096 == n,
        (user_table_entry(e, n) / 2) % 2 == 1 && (user_table_entry(e, n) / 4) % 2 == 1,
{
}

/// The table indices of an address in arithmetic terms.
proof fn lemma_index_forms(x: u64)
    by (bit_vector)
    ensures
        (x >> 39u64) & 0x1ffu64 == (x / 0x80_0000_0000) % 512,
        (x >> 30u64) & 0x1ffu64 == (x / 0x4000_0000) % 512,
        (x >> 21u64) & 0x1ffu64 == (x / 0x20_0000) % 512,
        (x >> 12u64) & 0x1ffu64 == (x / 0x1000) % 512,
        x & 0xffffff8000000000u64 == x - x % 0x80_0000_0000,
        x & 0xffffffffc0000000u64 == x - x % 0x4000_0000,
        x & 0xffffffffffe00000u64 == x - x % 0x20_0000,
        ((x & 0xfffffffffffff000u64) / 0x80_0000_0000) % 512 == (x / 0x80_0000_0000) % 512,
        ((x & 0xfffffffffffff000u64) / 0x4000_0000) % 512 == (x / 0x4000_0000) % 512,
        ((x & 0xfffffffffffff000u64) / 0x20_0000) % 512 == (x / 0x20_0000) % 512,
        ((x & 0xfffffffffffff000u64) / 0x1000) % 512 == (x / 0x1000) % 512,
        x % 4096 == 0 && x < 0x1_0000_0000_0000 ==>
            ((x / 0x80_0000_0000) % 512) * 0x80_0000_0000 + ((x / 0x4000_0000) % 512) * 0x4000_0000
            + ((x / 0x20_0000) % 512) * 0x20_0000 + ((x / 0x1000) % 512) * 0x1000 == x,
{
}

/// Two entries of tables are the same word only when they are the same
/// entry of the same table.
proof fn lemma_word_pos(f: int, i: int, g: int, j: int)
    requires
        0 <= i < 512,
        0 <= j < 512,
        f * 512 + i == g * 512 + j,
    ensures
        f == g,
        i == j,
{
    assert(f == g) by (nonlinear_arith)
        requires 0 <= i < 512, 0 <= j < 512, f * 512 + i == g * 512 + j;
}

/// The walk of a tree visits tables of the expected levels, and two walks
/// that meet at a table came the same way.
proof fn lemma_walk_levels(w: Seq<u64>, level: Seq<int>, parent: Seq<(int, int)>, u: u64, v: u64)
    requires
        tables_wf(w, level, parent),
    ensures
        0 <= idx4(v) < 512 && 0 <= idx3(v) < 512 && 0 <= idx2(v) < 512 && 0 <= idx1(v) < 512,
        reach3(w, v) ==> 0 < frame3(w, v) < level.len() && level[frame3(w, v)] == 3,
        reach2(w, v) ==> 0 < frame2(w, v) < level.len() && level[frame2(w, v)] == 2,
        reach1(w, v) ==> 0 < frame1(w, v) < level.len() && level[frame1(w, v)] == 1,
        reach3(w, u) && reach3(w, v) && frame3(w, u) == frame3(w, v) ==> idx4(u) == idx4(v),
        reach2(w, u) && reach2(w, v) && frame2(w, u) == frame2(w, v) ==> idx4(u) == idx4(v) && idx3(u) == idx3(v),
        reach1(w, u) && reach1(w, v) && frame1(w, u) == frame1(w, v)
            ==> idx4(u) == idx4(v) && idx3(u) == idx3(v) && idx2(u) == idx2(v),
{
    assert(word(w, 0, idx4(v)) == word(w, 0, idx4(v)));
    assert(word(w, 0, idx4(u)) == word(w, 0, idx4(u)));
    if reach3(w, v) {
        assert(word(w, frame3(w, v), idx3(v)) == word(w, frame3(w, v), idx3(v)));
        if reach2(w, v) {
            assert(word(w, frame2(w, v), idx2(v)) == word(w, frame2(w, v), idx2(v)));
        }
    }
    if reach3(w, u) {
        assert(word(w, frame3(w, u), idx3(u)) == word(w, frame3(w, u), idx3(u)));
        if reach2(w, u) {
            assert(word(w, frame2(w, u), idx2(u)) == word(w, frame2(w, u), idx2(u)));
        }
    }
}

/// In a tree of tables, a walk that reaches a last-level table passed
/// through open entries.
proof fn lemma_walk_open_words(w: Seq<u64>, level: Seq<int>, parent: Seq<(int, int)>, v: u64)
    requires
        tables_wf(w, level, parent),
    ensures
        reach1(w, v) ==> entry_open(word(w, 0, idx4(v))) && entry_open(word(w, frame3(w, v), idx3(v)))
            && entry_open(word(w, frame2(w, v), idx2(v))),
{
    lemma_walk_levels(w, level, parent, v, v);
    if reach1(w, v) {
        assert(entry_present(word(w, 0, idx4(v))));
        assert(entry_present(word(w, frame3(w, v), idx3(v))));
        assert(entry_present(word(w, frame2(w, v), idx2(v))));
    }
}

/// The lowest address of the page that `u` selects, with the bits above
/// the four table indices dropped.
pub open spec fn page_base(u: u64) -> int {
    idx4(u) * 0x80_0000_0000 + idx3(u) * 0x4000_0000 + idx2(u) * 0x20_0000 + idx1(u) * 0x1000
}

/// A page-aligned address below 2^48 is its own page base.
proof fn lemma_aligned_base(x: u64)
    requires
        x % 4096 == 0,
        x < 0x1_0000_0000_0000,
    ensures
        page_base(x) == x,
{
    lemma_index_forms(x);
}

/// The page base determines the page, and the entries two addresses share
/// at the upper levels are read off the page bases.
proof fn lemma_page_base(u: u64, v: u64)
    ensures
        0 <= page_base(u) < 0x8000_0000_0000 * 2,
        page_base(u) % 4096 == 0,
        page_base(u) == page_base(v) <==> same_page(u, v),
        same_prefix(u, v, 4) <==> page_base(v) - page_base(v) % 0x80_0000_0000 <= page_base(u)
            < page_base(v) - page_base(v) % 0x80_0000_0000 + 0x80_0000_0000,
        same_prefix(u, v, 3) <==> page_base(v) - page_base(v) % 0x4000_0000 <= page_base(u)
            < page_base(v) - page_base(v) % 0x4000_0000 + 0x4000_0000,
        same_prefix(u, v, 2) <==> page_base(v) - page_base(v) % 0x20_0000 <= page_base(u)
            < page_base(v) - page_base(v) % 0x20_0000 + 0x20_0000,
{
    let (a4, a3, a2, a1) = (idx4(u), idx3(u), idx2(u), idx1(u));
    let (b4, b3, b2, b1) = (idx4(v), idx3(v), idx2(v), idx1(v));
    assert(0 <= a4 < 512 && 0 <= a3 < 512 && 0 <= a2 < 512 && 0 <= a1 < 512);
    assert(0 <= b4 < 512 && 0 <= b3 < 512 && 0 <= b2 < 512 && 0 <= b1 < 512);
    let pv = page_base(v);
    vstd::arithmetic::div_mod::lemma_fundamental_div_mod_converse(pv, 0x80_0000_0000, b4,
        b3 * 0x4000_0000 + b2 * 0x20_0000 + b1 * 0x1000);
    vstd::arithmetic::div_mod::lemma_fundamental_div_mod_converse(pv, 0x4000_0000, b4 * 512 + b3,
        b2 * 0x20_0000 + b1 * 0x1000);
    vstd::arithmetic::div_mod::lemma_fundamental_div_mod_converse(pv, 0x20_0000, b4 * 0x4_0000 + b3 * 512 + b2,
        b1 * 0x1000);
    vstd::arithmetic::div_mod::lemma_fundamental_div_mod_converse(page_base(u), 0x1000,
        a4 * 0x800_0000 + a3 * 0x4_0000 + a2 * 512 + a1, 0);
    let pu = page_base(u);
    let ru4 = a3 * 0x4000_0000 + a2 * 0x20_0000 + a1 * 0x1000;
    let ru3 = a2 * 0x20_0000 + a1 * 0x1000;
    let ru2 = a1 * 0x1000;
    assert(0 <= ru4 < 0x80_0000_0000 && 0 <= ru3 < 0x4000_0000 && 0 <= ru2 < 0x20_0000);
    assert(pu == a4 * 0x80_0000_0000 + ru4);
    if pu == pv {
        assert(a4 == b4);
        assert(a3 == b3);
        assert(a2 == b2);
        assert(a1 == b1);
    }
    let base4 = b4 * 0x80_0000_0000;
    let base3 = base4 + b3 * 0x4000_0000;
    let base2 = base3 + b2 * 0x20_0000;
    assert(pv - pv % 0x80_0000_0000 == base4);
    assert(pv - pv % 0x4000_0000 == base3);
    assert(pv - pv % 0x20_0000 == base2);
    if base4 <= pu < base4 + 0x80_0000_0000 {
        assert(a4 == b4);
    }
    if same_prefix(u, v, 4) {
        assert(base4 <= pu < base4 + 0x80_0000_0000);
    }
    if base3 <= pu < base3 + 0x4000_0000 {
        assert(a4 == b4);
        assert(a3 == b3);
    }
    if same_prefix(u, v, 3) {
        assert(base3 <= pu < base3 + 0x4000_0000);
    }
    if base2 <= pu < base2 + 0x20_0000 {
        assert(a4 == b4);
        assert(a3 == b3);
        assert(a2 == b2);
    }
    if same_prefix(u, v, 2) {
        assert(base2 <= pu < base2 + 0x20_0000);
    }
}

/// The words of a zeroed frame.
pub open spec fn zero_frame() -> Seq<u64> {
    Seq::new(512, |k: int| 0u64)
}

/// Hanging a fresh zeroed table under an entry that was not present keeps
/// the tree and maps nothing new.
proof fn lemma_attach_fresh(w: Seq<u64>, lv: Seq<int>, pa: Seq<(int, int)>, f: int, i: int, e: u64)
    requires
        tables_wf(w, lv, pa),
        lv.len() + 1 < 0x10_0000_0000,
        0 <= f < lv.len(),
        0 <= i < 512,
        lv[f] >= 2,
        !entry_present(word(w, f, i)),
        entry_present(e),
        entry_open(e),
        entry_frame(e) == lv.len(),
    ensures
        tables_wf((w + zero_frame()).update(f * 512 + i, e), lv.push(lv[f] - 1), pa.push((f, i))),
        forall|v: u64| #[trigger] translate_words((w + zero_frame()).update(f * 512 + i, e), v) == translate_words(w, v),
{
    let n = lv.len() as int;
    let w2 = (w + zero_frame()).update(f * 512 + i, e);
    let lv2 = lv.push(lv[f] - 1);
    let pa2 = pa.push((f, i));
    assert(f * 512 + i < n * 512) by (nonlinear_arith)
        requires 0 <= f < n, 0 <= i < 512;
    assert forall|g: int, j: int| 0 <= g < n && 0 <= j < 512 && !(g == f && j == i)
        implies #[trigger] word(w2, g, j) == word(w, g, j) by {
        assert(g * 512 + j < n * 512) by (nonlinear_arith)
            requires 0 <= g < n, 0 <= j < 512;
        if g * 512 + j == f * 512 + i {
            lemma_word_pos(g, j, f, i);
        }
    }
    assert forall|j: int| 0 <= j < 512 implies #[trigger] word(w2, n, j) == 0 by {
        assert(n * 512 + j != f * 512 + i) by (nonlinear_arith)
            requires 0 <= f < n, 0 <= i < 512, 0 <= j;
    }
    assert(word(w2, f, i) == e);
    assert forall|g: int, j: int|
        0 <= g < n + 1 && 0 <= j < 512 && lv2[g] >= 2 && entry_present(#[trigger] word(w2, g, j)) implies {
            let c = entry_frame(word(w2, g, j));
            &&& 0 <= c < n + 1
            &&& lv2[c] == lv2[g] - 1
            &&& pa2[c] == (g, j)
            &&& entry_open(word(w2, g, j))
        } by {
        if g == n {
            assert(word(w2, n, j) == 0);
        } else if g == f && j == i {
        } else {
            assert(word(w2, g, j) == word(w, g, j));
            assert(word(w, g, j) == word(w, g, j));
        }
    }
    assert forall|v: u64| #[trigger] translate_words(w2, v) == translate_words(w, v) by {
        lemma_walk_levels(w, lv, pa, v, v);
        if 0 == f && idx4(v) == i {
            assert(word(w2, n, idx3(v)) == 0);
        } else {
            assert(word(w2, 0, idx4(v)) == word(w, 0, idx4(v)));
            if reach3(w, v) {
                let c3 = frame3(w, v);
                if c3 == f && idx3(v) == i {
                    assert(word(w2, n, idx2(v)) == 0);
                } else {
                    assert(word(w2, c3, idx3(v)) == word(w, c3, idx3(v)));
                    if reach2(w, v) {
                        let c2 = frame2(w, v);
                        if c2 == f && idx2(v) == i {
                            assert(word(w2, n, idx1(v)) == 0);
                        } else {
                            assert(word(w2, c2, idx2(v)) == word(w, c2, idx2(v)));
                            if reach1(w, v) {
                                let c1 = frame1(w, v);
                                assert(word(w2, c1, idx1(v)) == word(w, c1, idx1(v)));
                            }
                        }
                    }
                }
            }
        }
    }
}

/// Writing the last-level entry of a mapped page changes what that page
/// maps to and nothing else.
proof fn lemma_set_leaf(w: Seq<u64>, lv: Seq<int>, pa: Seq<(int, int)>, v: u64, val: u64)
    requires
        tables_wf(w, lv, pa),
        reach1(w, v),
    ensures
        tables_wf(w.update(frame1(w, v) * 512 + idx1(v), val), lv, pa),
        forall|u: u64| #[trigger] translate_words(w.update(frame1(w, v) * 512 + idx1(v), val), u)
            == if same_page(u, v) { val } else { translate_words(w, u) },
        forall|g: int, j: int| 0 <= g < lv.len() && 0 <= j < 512 && lv[g] >= 2
            ==> #[trigger] word(w.update(frame1(w, v) * 512 + idx1(v), val), g, j) == word(w, g, j),
{
    let n = lv.len() as int;
    let c = frame1(w, v);
    let w2 = w.update(c * 512 + idx1(v), val);
    lemma_walk_levels(w, lv, pa, v, v);
    assert forall|g: int, j: int| 0 <= g < n && 0 <= j < 512 && !(g == c && j == idx1(v))
        implies #[trigger] word(w2, g, j) == word(w, g, j) by {
        assert(g * 512 + j < n * 512) by (nonlinear_arith)
            requires 0 <= g < n, 0 <= j < 512;
        if g * 512 + j == c * 512 + idx1(v) {
            lemma_word_pos(g, j, c, idx1(v));
        }
    }
    assert forall|g: int, j: int|
        0 <= g < n && 0 <= j < 512 && lv[g] >= 2 && entry_present(#[trigger] word(w2, g, j)) implies {
            let ch = entry_frame(word(w2, g, j));
            &&& 0 <= ch < n
            &&& lv[ch] == lv[g] - 1
            &&& pa[ch] == (g, j)
            &&& entry_open(word(w2, g, j))
        } by {
        assert(word(w2, g, j) == word(w, g, j));
    }
    assert forall|u: u64| #[trigger] translate_words(w2, u)
        == if same_page(u, v) { val } else { translate_words(w, u) } by {
        lemma_walk_levels(w, lv, pa, u, v);
        assert(word(w2, 0, idx4(u)) == word(w, 0, idx4(u)));
        if reach3(w, u) {
            assert(word(w2, frame3(w, u), idx3(u)) == word(w, frame3(w, u), idx3(u)));
            if reach2(w, u) {
                assert(word(w2, frame2(w, u), idx2(u)) == word(w, frame2(w, u), idx2(u)));
                if reach1(w, u) && !same_page(u, v) {
                    assert(word(w2, frame1(w, u), idx1(u)) == word(w, frame1(w, u), idx1(u)));
                }
            }
        }
    }
}

/// The table that the walk for `v` visits at level `l`.
pub open spec fn table_at(w: Seq<u64>, v: u64, l: int) -> int {
    if l == 4 { 0 } else if l == 3 { frame3(w, v) } else { frame2(w, v) }
}

/// The walk for `v` reaches a table of level `l`.
pub open spec fn reaches(w: Seq<u64>, v: u64, l: int) -> bool {
    l == 4 || (l == 3 && reach3(w, v)) || (l == 2 && reach2(w, v))
}

/// The index of the entry for `v` at level `l`.
pub open spec fn idx_at(v: u64, l: int) -> int {
    if l == 4 { idx4(v) } else if l == 3 { idx3(v) } else { idx2(v) }
}

/// `u` and `v` select the same entries from level 4 down to level `l`.
pub open spec fn same_prefix(u: u64, v: u64, l: int) -> bool {
    &&& idx4(u) == idx4(v)
    &&& l <= 3 ==> idx3(u) == idx3(v)
    &&& l <= 2 ==> idx2(u) == idx2(v)
}

/// Clearing the entry for `v` in the table of level `l` on its walk
/// unmaps every address that shares that entry and leaves the others.
proof fn lemma_clear_entry(w: Seq<u64>, lv: Seq<int>, pa: Seq<(int, int)>, v: u64, l: int)
    requires
        tables_wf(w, lv, pa),
        2 <= l <= 4,
        reaches(w, v, l),
    ensures
        tables_wf(w.update(table_at(w, v, l) * 512 + idx_at(v, l), 0), lv, pa),
        forall|u: u64| #[trigger] translate_words(w.update(table_at(w, v, l) * 512 + idx_at(v, l), 0), u)
            == if same_prefix(u, v, l) { 0 } else { translate_words(w, u) },
{
    let n = lv.len() as int;
    let t = table_at(w, v, l);
    let x = idx_at(v, l);
    let w2 = w.update(t * 512 + x, 0);
    lemma_walk_levels(w, lv, pa, v, v);
    assert(0 <= t < n && lv[t] == l);
    assert forall|g: int, j: int| 0 <= g < n && 0 <= j < 512 && !(g == t && j == x)
        implies #[trigger] word(w2, g, j) == word(w, g, j) by {
        assert(g * 512 + j < n * 512) by (nonlinear_arith)
            requires 0 <= g < n, 0 <= j < 512;
        if g * 512 + j == t * 512 + x {
            lemma_word_pos(g, j, t, x);
        }
    }
    assert(word(w2, t, x) == 0);
    assert forall|g: int, j: int|
        0 <= g < n && 0 <= j < 512 && lv[g] >= 2 && entry_present(#[trigger] word(w2, g, j)) implies {
            let ch = entry_frame(word(w2, g, j));
            &&& 0 <= ch < n
            &&& lv[ch] == lv[g] - 1
            &&& pa[ch] == (g, j)
            &&& entry_open(word(w2, g, j))
        } by {
        assert(word(w2, g, j) == word(w, g, j));
    }
    assert forall|u: u64| #[trigger] translate_words(w2, u)
        == if same_prefix(u, v, l) { 0 } else { translate_words(w, u) } by {
        lemma_walk_levels(w, lv, pa, u, v);
        lemma_walk_levels(w, lv, pa, u, u);
        if l == 4 {
            if same_prefix(u, v, l) {
                assert(word(w2, 0, idx4(u)) == 0);
            } else {
                assert(word(w2, 0, idx4(u)) == word(w, 0, idx4(u)));
                if reach3(w, u) {
                    assert(word(w2, frame3(w, u), idx3(u)) == word(w, frame3(w, u), idx3(u)));
                    if reach2(w, u) {
                        assert(word(w2, frame2(w, u), idx2(u)) == word(w, frame2(w, u), idx2(u)));
                        if reach1(w, u) {
                            assert(word(w2, frame1(w, u), idx1(u)) == word(w, frame1(w, u), idx1(u)));
                        }
                    }
                }
            }
        } else {
            assert(word(w2, 0, idx4(u)) == word(w, 0, idx4(u)));
            if reach3(w, u) {
                if l == 3 && same_prefix(u, v, l) {
                    assert(word(w2, frame3(w, u), idx3(u)) == 0);
                } else {
                    assert(word(w2, frame3(w, u), idx3(u)) == word(w, frame3(w, u), idx3(u)));
                    if reach2(w, u) {
                        if l == 2 && same_prefix(u, v, l) {
                            assert(word(w2, frame2(w, u), idx2(u)) == 0);
                        } else {
                            assert(word(w2, frame2(w, u), idx2(u)) == word(w, frame2(w, u), idx2(u)));
                            if reach1(w, u) {
                                assert(word(w2, frame1(w, u), idx1(u)) == word(w, frame1(w, u), idx1(u)));
                            }
                        }
                    }
                }
            }
        }
    }
}

/// The tables of one address space.
pub struct PageTables {
    words: Vec<u64>,
    level: Ghost<Seq<int>>,
    parent: Ghost<Seq<(int, int)>>,
}

impl PageTables {
    /// The frames form a tree of tables under the level-4 table.
    pub closed spec fn wf(&self) -> bool {
        tables_wf(self.words@, self.level@, self.parent@)
    }

    /// The last-level entry for `v`, or 0 where `v` is not mapped.
    pub closed spec fn translate(&self, v: u64) -> u64 {
        translate_words(self.words@, v)
    }

    /// The walk for `v` reaches a last-level table through entries (of the
    /// level-4, level-3 and level-2 tables) that are all present, writable
    /// and open to user mode.
    pub closed spec fn walk_open(&self, v: u64) -> bool {
        let w = self.words@;
        &&& reach1(w, v)
        &&& entry_open(word(w, 0, idx4(v)))
        &&& entry_open(word(w, frame3(w, v), idx3(v)))
        &&& entry_open(word(w, frame2(w, v), idx2(v)))
    }

    /// In well-formed tables every mapped address is reached through
    /// entries that are writable and open to user mode.
    pub proof fn lemma_walk_open(&self, v: u64)
        requires
            self.wf(),
            self.translate(v) != 0,
        ensures
            self.walk_open(v),
    {
        lemma_walk_open_words(self.words@, self.level@, self.parent@, v);
    }

    /// The number of frames that hold tables.
    pub closed spec fn frames(&self) -> nat {
        self.level@.len()
    }

    /// A single empty level-4 table: nothing is mapped.
    pub fn new() -> (t: PageTables)
        ensures
            t.wf(),
            t.frames() == 1,
            forall|v: u64| t.translate(v) == 0,
    {
        let mut words: Vec<u64> = Vec::new();
        let mut k: usize = 0;
        while k < 512
            invariant
                k <= 512,
                words@.len() == k,
                forall|p: int| 0 <= p < k ==> words@[p] == 0,
            decreases 512 - k,
        {
            words.push(0);
            k += 1;
        }
        let ghost lv: Seq<int> = seq![4int];
        let ghost pa: Seq<(int, int)> = seq![(0int, 0int)];
        let t = PageTables { words, level: Ghost(lv), parent: Ghost(pa) };
        proof {
            assert forall|f: int, i: int|
                0 <= f < 1 && 0 <= i < 512 && t.level@[f] >= 2 && entry_present(#[trigger] word(t.words@, f, i))
                implies false by {
                assert(word(t.words@, f, i) == 0);
            }
            assert forall|v: u64| t.translate(v) == 0 by {
                lemma_walk_levels(t.words@, t.level@, t.parent@, v, v);
                assert(word(t.words@, 0, idx4(v)) == 0);
            }
        }
        t
    }

    /// The number of frames that hold tables.
    pub fn frame_count(&self) -> (n: usize)
        requires
            self.wf(),
        ensures
            n == self.frames(),
    {
        self.words.len() / 512
    }

    /// The last-level entry for `vaddr`, or 0 where it is not mapped.
    pub fn lookup(&self, vaddr: u64) -> (e: u64)
        requires
            self.wf(),
        ensures
            e == self.translate(vaddr),
    {
        proof {
            lemma_index_forms(vaddr);
            lemma_walk_levels(self.words@, self.level@, self.parent@, vaddr, vaddr);
        }
        let w = &self.words;
        let ghost ws = self.words@;
        let len: usize = w.len();
        let e4 = w[get_pml4_offset(vaddr)];
        proof { lemma_entry_bits(e4, 0); }
        assert(e4 == word(ws, 0, idx4(vaddr)));
        if e4 & 1u64 == 0 {
            return 0;
        }
        assert(reach3(ws, vaddr));
        let f3 = (e4 >> 12u64) as usize;
        assert(f3 == frame3(ws, vaddr));
        assert(f3 * 512 + 512 <= ws.len()) by (nonlinear_arith)
            requires f3 < self.level@.len(), ws.len() == self.level@.len() * 512;
        let e3 = w[f3 * 512 + get_pdpt_offset(vaddr)];
        proof { lemma_entry_bits(e3, 0); }
        assert(e3 == word(ws, frame3(ws, vaddr), idx3(vaddr)));
        if e3 & 1u64 == 0 {
            return 0;
        }
        assert(reach2(ws, vaddr));
        let f2 = (e3 >> 12u64) as usize;
        assert(f2 == frame2(ws, vaddr));
        assert(f2 * 512 + 512 <= ws.len()) by (nonlinear_arith)
            requires f2 < self.level@.len(), ws.len() == self.level@.len() * 512;
        let e2 = w[f2 * 512 + get_pdt_offset(vaddr)];
        proof { lemma_entry_bits(e2, 0); }
        assert(e2 == word(ws, frame2(ws, vaddr), idx2(vaddr)));
        if e2 & 1u64 == 0 {
            return 0;
        }
        assert(reach1(ws, vaddr));
        let f1 = (e2 >> 12u64) as usize;
        assert(f1 == frame1(ws, vaddr));
        assert(f1 * 512 + 512 <= ws.len()) by (nonlinear_arith)
            requires f1 < self.level@.len(), ws.len() == self.level@.len() * 512;
        w[f1 * 512 + get_pt_offset(vaddr)]
    }
}

impl PageTables {
    /// The frame of the table that entry `i` of table `f` names.  Where the
    /// entry is not present a zeroed frame is taken and the entry is set to
    /// name it: as the user-table filling of `set_pml4` sets it when
    /// `user` holds, else as the page-table copy sets it.
    fn next_table(&mut self, f: usize, i: usize, user: bool) -> (c: usize)
        requires
            old(self).wf(),
            old(self).frames() + 1 < 0x10_0000_0000,
            f < old(self).frames(),
            i < 512,
            old(self).level@[f as int] >= 2,
        ensures
            final(self).wf(),
            forall|v: u64| #[trigger] translate_words(final(self).words@, v) == translate_words(old(self).words@, v),
            final(self).frames() == old(self).frames() || final(self).frames() == old(self).frames() + 1,
            final(self).level@.subrange(0, old(self).frames() as int) == old(self).level@,
            entry_present(word(final(self).words@, f as int, i as int)),
            entry_frame(word(final(self).words@, f as int, i as int)) == c,
            c < final(self).frames(),
            final(self).level@[c as int] == old(self).level@[f as int] - 1,
            forall|g: int, j: int| 0 <= g < old(self).frames() && 0 <= j < 512 && !(g == f && j == i)
                ==> #[trigger] word(final(self).words@, g, j) == word(old(self).words@, g, j),
            entry_present(word(old(self).words@, f as int, i as int)) ==> *final(self) == *old(self),
            !entry_present(word(old(self).words@, f as int, i as int)) ==> word(final(self).words@, f as int, i as int)
                == made_entry(word(old(self).words@, f as int, i as int), c as u64, user),
    {
        let ghost w0 = self.words@;
        let ghost lv0 = self.level@;
        let ghost pa0 = self.parent@;
        let len: usize = self.words.len();
        let n: usize = len / 512;
        proof {
            vstd::arithmetic::div_mod::lemma_fundamental_div_mod_converse(len as int, 512, lv0.len() as int, 0);
        }
        assert(f * 512 + 512 <= len) by (nonlinear_arith)
            requires f < n, len == n * 512;
        let pos: usize = f * 512 + i;
        let e = self.words[pos];
        proof {
            lemma_entry_bits(e, n as u64);
            assert(e == word(w0, f as int, i as int));
        }
        if e & 1u64 == 1 {
            proof {
                assert(word(w0, f as int, i as int) == word(w0, f as int, i as int));
                assert(self.level@.subrange(0, lv0.len() as int) =~= lv0);
            }
            return (e >> 12u64) as usize;
        }
        let mut k: usize = 0;
        while k < 512
            invariant
                k <= 512,
                self.words@ == w0 + Seq::new(k as nat, |j: int| 0u64),
                self.level@ == lv0,
                self.parent@ == pa0,
            decreases 512 - k,
        {
            self.words.push(0);
            k += 1;
            proof {
                assert(self.words@ =~= w0 + Seq::new(k as nat, |j: int| 0u64));
            }
        }
        assert(self.words@ =~= w0 + zero_frame());
        let mut entry = Pml4Entry(e);
        entry.set_page_offset(n as u64);
        if user {
            entry.set_present(1);
            entry.set_wr(1);
            entry.set_us(1);
            entry.set_ps(0);
        } else {
            entry.set_wr(1);
            entry.set_present(1);
            entry.set_us(1);
        }
        assert(entry.0 == if user { user_table_entry(e, n as u64) } else { table_entry(e, n as u64) });
        proof {
            reveal(entry_open);
            reveal(made_entry);
        }
        assert(pos < self.words.len());
        self.words.set(pos, entry.0);
        self.level = Ghost(lv0.push(lv0[f as int] - 1));
        self.parent = Ghost(pa0.push((f as int, i as int)));
        proof {
            lemma_attach_fresh(w0, lv0, pa0, f as int, i as int, entry.0);
            assert(self.words@ == (w0 + zero_frame()).update(f * 512 + i, entry.0));
            assert(self.level@.subrange(0, lv0.len() as int) =~= lv0);
            assert(word(self.words@, f as int, i as int) == entry.0);
            assert forall|g: int, j: int| 0 <= g < lv0.len() && 0 <= j < 512 && !(g == f && j == i)
                implies #[trigger] word(self.words@, g, j) == word(w0, g, j) by {
                assert(g * 512 + j < lv0.len() * 512) by (nonlinear_arith)
                    requires 0 <= g < lv0.len(), 0 <= j < 512;
                if g * 512 + j == f * 512 + i {
                    lemma_word_pos(g, j, f as int, i as int);
                }
            }
        }
        n
    }

    /// Maps the page of `vaddr` to the frame of `paddr` with the extra
    /// bits `prot_bit`, making the tables on the way where they are
    /// missing.  A table made here starts zeroed, as every frame of a
    /// `PageTables` does.
    pub fn link_user_page_by_prot_bit(&mut self, vaddr: u64, paddr: u64, prot_bit: u64)
        requires
            old(self).wf(),
            old(self).frames() + 3 < 0x10_0000_0000,
        ensures
            final(self).wf(),
            final(self).frames() <= old(self).frames() + 3,
            final(self).translate(vaddr)
                == spec_set_bits(old(self).translate(vaddr), 12, 0xfffffffffffff, spec_page_idx(paddr)) | prot_bit,
            forall|u: u64| !same_page(u, vaddr) ==> #[trigger] final(self).translate(u) == old(self).translate(u),
            final(self).walk_open(vaddr),
    {
        let pt = self.walk_or_make(vaddr, true);
        let ghost w3 = self.words@;
        let len: usize = self.words.len();
        proof { lemma_index_forms(vaddr); }
        let pos: usize = pt * 512 + get_pt_offset(vaddr);
        assert(translate_words(w3, vaddr) == w3[pos as int]);
        assert(translate_words(w3, vaddr) == translate_words(old(self).words@, vaddr));
        let mut e = PtEntry(self.words[pos]);
        e.set_page_offset(MemoryPool::get_page_idx(paddr));
        e.0 = e.0 | prot_bit;
        self.words.set(pos, e.0);
        proof {
            lemma_set_leaf(w3, self.level@, self.parent@, vaddr, e.0);
            assert(self.words@ == w3.update(frame1(w3, vaddr) * 512 + idx1(vaddr), e.0));
            assert(translate_words(self.words@, vaddr) == e.0);
            lemma_walk_levels(w3, self.level@, self.parent@, vaddr, vaddr);
            let w4 = self.words@;
            assert(word(w4, 0, idx4(vaddr)) == word(w3, 0, idx4(vaddr)));
            assert(word(w4, frame3(w3, vaddr), idx3(vaddr)) == word(w3, frame3(w3, vaddr), idx3(vaddr)));
            assert(word(w4, frame2(w3, vaddr), idx2(vaddr)) == word(w3, frame2(w3, vaddr), idx2(vaddr)));
            assert(reach1(w4, vaddr));
            lemma_walk_open_words(w4, self.level@, self.parent@, vaddr);
        }
    }

    /// Sets the low twelve bits of the entry for `vaddr` to those of
    /// `prot_bit`, making the tables on the way where they are missing.
    /// (The processor's cached translation of the page is then stale; the
    /// caller flushes it.)
    pub fn change_page_prot_by_prot_bit(&mut self, vaddr: u64, prot_bit: u64)
        requires
            old(self).wf(),
            old(self).frames() + 3 < 0x10_0000_0000,
        ensures
            final(self).wf(),
            final(self).frames() <= old(self).frames() + 3,
            final(self).translate(vaddr) == (old(self).translate(vaddr) | 0xfff) & (prot_bit | 0xfffffffffffff000),
            forall|u: u64| !same_page(u, vaddr) ==> #[trigger] final(self).translate(u) == old(self).translate(u),
    {
        let pt = self.walk_or_make(vaddr, true);
        let ghost w3 = self.words@;
        let len: usize = self.words.len();
        proof { lemma_index_forms(vaddr); }
        let pos: usize = pt * 512 + get_pt_offset(vaddr);
        assert(translate_words(w3, vaddr) == w3[pos as int]);
        assert(translate_words(w3, vaddr) == translate_words(old(self).words@, vaddr));
        let mut e = PtEntry(self.words[pos]);
        e.0 = e.0 | 0xfff;
        e.0 = e.0 & (prot_bit | 0xfffffffffffff000);
        self.words.set(pos, e.0);
        proof {
            lemma_set_leaf(w3, self.level@, self.parent@, vaddr, e.0);
            assert(self.words@ == w3.update(frame1(w3, vaddr) * 512 + idx1(vaddr), e.0));
            assert(translate_words(self.words@, vaddr) == e.0);
        }
    }

    /// Walks to the last-level table for `vaddr`, making the missing tables
    /// on the way; gives that table's frame.
    fn walk_or_make(&mut self, vaddr: u64, user: bool) -> (pt: usize)
        requires
            old(self).wf(),
            old(self).frames() + 3 < 0x10_0000_0000,
        ensures
            final(self).wf(),
            final(self).frames() <= old(self).frames() + 3,
            forall|v: u64| #[trigger] translate_words(final(self).words@, v) == translate_words(old(self).words@, v),
            reach1(final(self).words@, vaddr),
            frame1(final(self).words@, vaddr) == pt,
            pt < final(self).frames(),
            pt * 512 + 512 <= final(self).words@.len(),
            pt * 512 + idx1(vaddr) == frame1(final(self).words@, vaddr) * 512 + idx1(vaddr),
    {
        proof {
            lemma_index_forms(vaddr);
            lemma_walk_levels(self.words@, self.level@, self.parent@, vaddr, vaddr);
        }
        let l4 = get_pml4_offset(vaddr);
        let pdpt = self.next_table(0, l4, user);
        let ghost w1 = self.words@;
        let pdt = self.next_table(pdpt, get_pdpt_offset(vaddr), user);
        let ghost w2 = self.words@;
        let pt = self.next_table(pdt, get_pdt_offset(vaddr), user);
        let ghost w3 = self.words@;
        proof {
            assert(word(w2, 0, idx4(vaddr)) == word(w1, 0, idx4(vaddr)));
            assert(word(w3, 0, idx4(vaddr)) == word(w2, 0, idx4(vaddr)));
            assert(word(w3, pdpt as int, idx3(vaddr)) == word(w2, pdpt as int, idx3(vaddr)));
            assert(reach1(w3, vaddr));
            let len = self.words@.len();
            assert(pt * 512 + 512 <= len) by (nonlinear_arith)
                requires pt < self.level@.len(), len == self.level@.len() * 512;
        }
        pt
    }
}

/// The index of the frame descriptor for the frame that a last-level entry
/// names, as `phys2page` computes it from the entry's frame field.
pub open spec fn leaf_desc(e: u64) -> u64 {
    wsub(spec_bits(e, 12, 0xfffffffffffff) << 12u64, PHYADDR_START) >> 12u64
}

/// The smaller of `a` and `b`.
pub open spec fn min_int(a: int, b: int) -> int {
    if a < b { a } else { b }
}

/// The pages whose base lies in `[lo, hi)` are copied: `d` maps each as
/// `s0` did, write-protected, and `s` is write-protected there.  Every
/// other page keeps its mapping in `s`, and in `d` keeps its mapping or
/// lost it where `s0` maps nothing.
pub open spec fn copied(d0: PageTables, s0: PageTables, d: PageTables, s: PageTables, lo: int, hi: int) -> bool {
    &&& forall|u: u64| lo <= page_base(u) < hi ==> {
            &&& #[trigger] d.translate(u) == write_protect(s0.translate(u))
            &&& s.translate(u) == write_protect(s0.translate(u))
        }
    &&& forall|u: u64| !(lo <= page_base(u) < hi) ==> {
            &&& #[trigger] s.translate(u) == s0.translate(u)
            &&& d.translate(u) == d0.translate(u) || (d.translate(u) == 0 && s0.translate(u) == 0)
        }
}

/// The entry for `a` in `s` is writable.
#[verifier::opaque]
pub open spec fn writable_at(s: PageTables, a: u64) -> bool {
    entry_writable(s.translate(a))
}

/// `wp` lists, in increasing order, the page-aligned addresses in
/// `[lo, hi)` whose entry in `s0` is writable.
pub open spec fn protected_run(s0: PageTables, wp: Seq<u64>, lo: int, hi: int) -> bool {
    &&& forall|k: int| 0 <= k < wp.len() ==> lo <= #[trigger] wp[k] < hi && wp[k] % 4096 == 0
            && writable_at(s0, wp[k])
    &&& forall|k: int, l: int| 0 <= k < l < wp.len() ==> #[trigger] wp[k] < #[trigger] wp[l]
    &&& forall|a: u64| a % 4096 == 0 && lo <= a < hi && #[trigger] writable_at(s0, a) ==> wp.contains(a)
}

/// How many addresses of `wp` have, in `s0`, an entry whose frame has
/// descriptor `p`.
pub open spec fn desc_refs(s0: PageTables, wp: Seq<u64>, p: int) -> nat
    decreases wp.len(),
{
    if wp.len() == 0 {
        0
    } else {
        desc_refs(s0, wp.drop_last(), p) + if leaf_desc(s0.translate(wp.last())) == p { 1nat } else { 0nat }
    }
}

/// Each descriptor gained one reference (modulo 2^32) for every address of
/// `wp` whose frame it describes.
pub open spec fn refs_added(rc0: Seq<Page>, rc: Seq<Page>, s0: PageTables, wp: Seq<u64>) -> bool {
    &&& rc.len() == rc0.len()
    &&& forall|p: int| 0 <= p < rc.len() ==> {
            &&& #[trigger] rc[p].flags == rc0[p].flags
            &&& rc[p].refcount == (rc0[p].refcount + desc_refs(s0, wp, p)) % 0x1_0000_0000
        }
}

/// The state of a copy of the pages from `start`, done below `hi`.
spec fn copy_inv(d0: PageTables, s0: PageTables, rc0: Seq<Page>, d: PageTables, s: PageTables, rc: Seq<Page>,
    wp: Seq<u64>, start: int, hi: int) -> bool {
    &&& d.wf()
    &&& s.wf()
    &&& s0.wf()
    &&& s.level@ == s0.level@
    &&& s.parent@ == s0.parent@
    &&& forall|g: int, j: int| 0 <= g < s0.level@.len() && 0 <= j < 512 && s0.level@[g] >= 2
            ==> #[trigger] word(s.words@, g, j) == word(s0.words@, g, j)
    &&& copied(d0, s0, d, s, start, hi)
    &&& protected_run(s0, wp, start, hi)
    &&& refs_added(rc0, rc, s0, wp)
}

/// Translation looks at the four table indices only.
proof fn lemma_translate_same_page(w: Seq<u64>, u: u64, v: u64)
    requires
        same_page(u, v),
    ensures
        translate_words(w, u) == translate_words(w, v),
{
}

/// Copying the page at `cur` extends the copied range by that page.
proof fn lemma_copied_step(d0: PageTables, s0: PageTables, d: PageTables, s: PageTables, d2: PageTables,
    s2: PageTables, start: int, cur: u64, x: u64)
    requires
        copied(d0, s0, d, s, start, cur as int),
        start <= cur,
        cur % 4096 == 0,
        cur < 0x8000_0000_0000,
        x == write_protect(s0.translate(cur)),
        forall|u: u64| #[trigger] d2.translate(u) == if same_page(u, cur) { x } else { d.translate(u) },
        forall|u: u64| #[trigger] s2.translate(u) == if same_page(u, cur) { x } else { s.translate(u) },
    ensures
        copied(d0, s0, d2, s2, start, cur + 4096),
{
    lemma_aligned_base(cur);
    assert forall|u: u64| start <= page_base(u) < cur + 4096 implies {
        &&& #[trigger] d2.translate(u) == write_protect(s0.translate(u))
        &&& s2.translate(u) == write_protect(s0.translate(u))
    } by {
        lemma_page_base(u, cur);
        if same_page(u, cur) {
            lemma_translate_same_page(s0.words@, u, cur);
        } else {
            assert(page_base(u) % 4096 == 0);
            assert(page_base(u) < cur);
        }
    }
    assert forall|u: u64| !(start <= page_base(u) < cur + 4096) implies {
        &&& #[trigger] s2.translate(u) == s0.translate(u)
        &&& d2.translate(u) == d0.translate(u) || (d2.translate(u) == 0 && s0.translate(u) == 0)
    } by {
        lemma_page_base(u, cur);
        assert(!same_page(u, cur));
        assert(d2.translate(u) == d.translate(u));
    }
}

/// A list of the writable pages below `cur` grows by `cur` when its entry
/// is writable.
proof fn lemma_run_step(s0: PageTables, wp: Seq<u64>, start: int, cur: u64)
    requires
        protected_run(s0, wp, start, cur as int),
        start <= cur,
        cur % 4096 == 0,
    ensures
        protected_run(s0, if writable_at(s0, cur) { wp.push(cur) } else { wp }, start, cur + 4096),
{
    let wp2 = if writable_at(s0, cur) { wp.push(cur) } else { wp };
    assert forall|a: u64| a % 4096 == 0 && start <= a < cur + 4096 && #[trigger] writable_at(s0, a)
        implies wp2.contains(a) by {
        if a < cur {
            let k = choose|k: int| 0 <= k < wp.len() && wp[k] == a;
            assert(wp2[k] == a);
        } else {
            assert(a == cur);
            assert(wp2[wp.len() as int] == a);
        }
    }
    assert forall|k: int, l: int| 0 <= k < l < wp2.len() implies #[trigger] wp2[k] < #[trigger] wp2[l] by {
        if l == wp.len() {
            assert(wp[k] < cur);
        }
    }
}

/// Counting the references of a list with one more address.
proof fn lemma_refs_push(s0: PageTables, wp: Seq<u64>, a: u64, p: int)
    ensures
        desc_refs(s0, wp.push(a), p)
            == desc_refs(s0, wp, p) + if leaf_desc(s0.translate(a)) == p { 1nat } else { 0nat },
{
    assert(wp.push(a).drop_last() =~= wp);
}

/// One more reference counted, modulo 2^32, for the descriptor of the
/// frame of the page at `a`.
proof fn lemma_refs_step(rc0: Seq<Page>, rc: Seq<Page>, rc2: Seq<Page>, s0: PageTables, wp: Seq<u64>, a: u64)
    requires
        refs_added(rc0, rc, s0, wp),
        leaf_desc(s0.translate(a)) < rc.len(),
        rc2 == rc.update(leaf_desc(s0.translate(a)) as int, Page {
            refcount: if rc[leaf_desc(s0.translate(a)) as int].refcount == 0xffff_ffff { 0 }
                else { (rc[leaf_desc(s0.translate(a)) as int].refcount + 1) as u32 },
            flags: rc[leaf_desc(s0.translate(a)) as int].flags,
        }),
    ensures
        refs_added(rc0, rc2, s0, wp.push(a)),
{
    let q = leaf_desc(s0.translate(a)) as int;
    assert forall|p: int| 0 <= p < rc2.len() implies {
        &&& #[trigger] rc2[p].flags == rc0[p].flags
        &&& rc2[p].refcount == (rc0[p].refcount + desc_refs(s0, wp.push(a), p)) % 0x1_0000_0000
    } by {
        lemma_refs_push(s0, wp, a, p);
        assert(rc[p].flags == rc0[p].flags);
        if p == q {
            let x = rc0[p].refcount + desc_refs(s0, wp, p);
            vstd::arithmetic::div_mod::lemma_add_mod_noop(x, 1, 0x1_0000_0000);
            assert(rc[p].refcount == x % 0x1_0000_0000);
        }
    }
}

/// A walk only reads the tables above the last level: where their words
/// are the same, an address that shares the entries from level 4 down to
/// level `l` with `v` reaches the same table of level `l - 1`.
proof fn lemma_walk_kept(w1: Seq<u64>, w2: Seq<u64>, lv: Seq<int>, pa: Seq<(int, int)>, v: u64, u: u64, l: int)
    requires
        tables_wf(w1, lv, pa),
        2 <= l <= 4,
        forall|g: int, j: int| 0 <= g < lv.len() && 0 <= j < 512 && lv[g] >= l
            ==> #[trigger] word(w2, g, j) == word(w1, g, j),
        same_prefix(u, v, l),
    ensures
        reach3(w2, u) == reach3(w1, v),
        reach3(w1, v) ==> frame3(w2, u) == frame3(w1, v),
        l <= 3 ==> reach2(w2, u) == reach2(w1, v),
        l <= 3 && reach2(w1, v) ==> frame2(w2, u) == frame2(w1, v),
        l <= 2 ==> reach1(w2, u) == reach1(w1, v),
        l <= 2 && reach1(w1, v) ==> frame1(w2, u) == frame1(w1, v),
{
    lemma_walk_levels(w1, lv, pa, v, v);
    assert(word(w2, 0, idx4(u)) == word(w1, 0, idx4(v)));
    if l <= 3 && reach3(w1, v) {
        assert(word(w2, frame3(w1, v), idx3(u)) == word(w1, frame3(w1, v), idx3(v)));
        if l <= 2 && reach2(w1, v) {
            assert(word(w2, frame2(w1, v), idx2(u)) == word(w1, frame2(w1, v), idx2(v)));
        }
    }
}

/// Copies the last-level entry of the page at `cur`, write-protecting it
/// in the source and counting a reference when it is writable.
fn copy_page(dst: &mut PageTables, dpt: usize, src: &mut PageTables, spt: usize, cur: u64,
    mem_map: &mut Vec<Page>, wp: &mut Vec<u64>,
    Ghost(d0): Ghost<PageTables>, Ghost(s0): Ghost<PageTables>, Ghost(rc0): Ghost<Seq<Page>>, Ghost(start): Ghost<int>)
    requires
        copy_inv(d0, s0, rc0, *old(dst), *old(src), old(mem_map)@, old(wp)@, start, cur as int),
        start <= cur,
        cur % 4096 == 0,
        cur < 0x8000_0000_0000,
        reach1(old(dst).words@, cur),
        frame1(old(dst).words@, cur) == dpt,
        reach1(old(src).words@, cur),
        frame1(old(src).words@, cur) == spt,
        entry_writable(s0.translate(cur)) ==> leaf_desc(s0.translate(cur)) < rc0.len(),
    ensures
        copy_inv(d0, s0, rc0, *final(dst), *final(src), final(mem_map)@, final(wp)@, start, cur + 4096),
        final(dst).level@ == old(dst).level@,
        final(dst).parent@ == old(dst).parent@,
        forall|g: int, j: int| 0 <= g < old(dst).level@.len() && 0 <= j < 512 && old(dst).level@[g] >= 2
            ==> #[trigger] word(final(dst).words@, g, j) == word(old(dst).words@, g, j),
{
    proof {
        lemma_index_forms(cur);
        lemma_walk_levels(dst.words@, dst.level@, dst.parent@, cur, cur);
        lemma_walk_levels(src.words@, src.level@, src.parent@, cur, cur);
        lemma_aligned_base(cur);
    }
    let dlen: usize = dst.words.len();
    let slen: usize = src.words.len();
    let pt_no: usize = get_pt_offset(cur);
    assert(spt * 512 + 512 <= slen) by (nonlinear_arith)
        requires spt < src.level@.len(), slen == src.level@.len() * 512;
    assert(dpt * 512 + 512 <= dlen) by (nonlinear_arith)
        requires dpt < dst.level@.len(), dlen == dst.level@.len() * 512;
    let spos: usize = spt * 512 + pt_no;
    let dpos: usize = dpt * 512 + pt_no;
    let ghost s_before = *src;
    let ghost d_before = *dst;
    let ghost rc_before = mem_map@;
    let ghost wp_before = wp@;
    let mut e = PtEntry(src.words[spos]);
    assert(e.0 == translate_words(src.words@, cur));
    assert(page_base(cur) == cur);
    assert(src.translate(cur) == s0.translate(cur));
    proof {
        lemma_entry_bits(e.0, 0);
        reveal(writable_at);
    }
    if e.get_wr() != 0 {
        e.set_wr(0);
        src.words.set(spos, e.0);
        proof {
            lemma_set_leaf(s_before.words@, s_before.level@, s_before.parent@, cur, e.0);
            assert(src.words@ == s_before.words@.update(frame1(s_before.words@, cur) * 512 + idx1(cur), e.0));
        }
        let mlen: usize = mem_map.len();
        let desc = phys2page(e.get_page_offset() << 12u64);
        assert(desc == leaf_desc(s0.translate(cur)));
        let desc_no = desc as usize;
        let mut page = mem_map[desc_no];
        page.refcount = page.refcount.wrapping_add(1);
        mem_map.set(desc_no, page);
        wp.push(cur);
        proof {
            lemma_refs_step(rc0, rc_before, mem_map@, s0, wp_before, cur);
        }
    }
    dst.words.set(dpos, e.0);
    proof {
        lemma_set_leaf(d_before.words@, d_before.level@, d_before.parent@, cur, e.0);
        assert(dst.words@ == d_before.words@.update(frame1(d_before.words@, cur) * 512 + idx1(cur), e.0));
        lemma_copied_step(d0, s0, d_before, s_before, *dst, *src, start, cur, e.0);
        lemma_run_step(s0, wp_before, start, cur);
        assert forall|g: int, j: int| 0 <= g < s0.level@.len() && 0 <= j < 512 && s0.level@[g] >= 2
            implies #[trigger] word(src.words@, g, j) == word(s0.words@, g, j) by {
            assert(word(s_before.words@, g, j) == word(s0.words@, g, j));
        }
    }
}


/// `b` is a multiple of the page size.
pub open spec fn page_aligned(b: int) -> bool {
    b % 4096 == 0
}

/// Two bounds that admit the same page-aligned addresses give the same
/// state of a copy.
proof fn lemma_clip(d0: PageTables, s0: PageTables, rc0: Seq<Page>, d: PageTables, s: PageTables, rc: Seq<Page>,
    wp: Seq<u64>, start: int, h1: int, h2: int)
    requires
        copy_inv(d0, s0, rc0, d, s, rc, wp, start, h1),
        forall|b: int| #[trigger] page_aligned(b) ==> ((start <= b < h1) <==> (start <= b < h2)),
    ensures
        copy_inv(d0, s0, rc0, d, s, rc, wp, start, h2),
{
    assert forall|u: u64| start <= page_base(u) < h2 implies {
        &&& #[trigger] d.translate(u) == write_protect(s0.translate(u))
        &&& s.translate(u) == write_protect(s0.translate(u))
    } by {
        lemma_page_base(u, u);
        assert(page_aligned(page_base(u)));
        assert(start <= page_base(u) < h1);
        assert(copied(d0, s0, d, s, start, h1));
        assert(d.translate(u) == write_protect(s0.translate(u)));
    }
    assert forall|u: u64| !(start <= page_base(u) < h2) implies {
        &&& #[trigger] s.translate(u) == s0.translate(u)
        &&& d.translate(u) == d0.translate(u) || (d.translate(u) == 0 && s0.translate(u) == 0)
    } by {
        lemma_page_base(u, u);
        assert(page_aligned(page_base(u)));
    }
    assert forall|k: int| 0 <= k < wp.len() implies start <= #[trigger] wp[k] < h2 && wp[k] % 4096 == 0
        && writable_at(s0, wp[k]) by {
        assert(start <= wp[k] < h1);
        assert(page_aligned(wp[k] as int));
    }
    assert forall|a: u64| a % 4096 == 0 && start <= a < h2 && #[trigger] writable_at(s0, a) implies wp.contains(a) by {
        assert(page_aligned(a as int));
    }
}

/// The addresses that share the entries from level 4 down to level `l`
/// with the page-aligned `cur` are those whose page base lies in the
/// region of `c` bytes that holds `cur`.
proof fn lemma_prefix_region(u: u64, cur: u64, l: int, c: int)
    requires
        cur % 4096 == 0,
        cur < 0x8000_0000_0000,
        (l == 4 && c == 0x80_0000_0000) || (l == 3 && c == 0x4000_0000) || (l == 2 && c == 0x20_0000),
    ensures
        same_prefix(u, cur, l) <==> cur - (cur as int) % c <= page_base(u) < cur - (cur as int) % c + c,
        cur - (cur as int) % c <= cur < cur - (cur as int) % c + c,
{
    lemma_aligned_base(cur);
    lemma_page_base(u, cur);
}

/// Unmapping, in the destination, the region of `c` bytes that holds
/// `cur` where the source maps nothing copies that region.
proof fn lemma_skip_step(d0: PageTables, s0: PageTables, d: PageTables, s: PageTables, d2: PageTables,
    start: int, cur: u64, end: int, l: int, c: int)
    requires
        copied(d0, s0, d, s, start, cur as int),
        start <= cur < end,
        cur % 4096 == 0,
        cur < 0x8000_0000_0000,
        (l == 4 && c == 0x80_0000_0000) || (l == 3 && c == 0x4000_0000) || (l == 2 && c == 0x20_0000),
        cur == start || (cur as int) % c == 0,
        forall|u: u64| #[trigger] d2.translate(u) == if same_prefix(u, cur, l) { 0 } else { d.translate(u) },
        forall|u: u64| same_prefix(u, cur, l) ==> #[trigger] s.translate(u) == 0,
    ensures
        copied(d0, s0, d2, s, start, min_int(cur - (cur as int) % c + c, end)),
{
    let base = cur - (cur as int) % c;
    let hi = min_int(base + c, end);
    assert forall|u: u64| start <= page_base(u) < hi implies {
        &&& #[trigger] d2.translate(u) == write_protect(s0.translate(u))
        &&& s.translate(u) == write_protect(s0.translate(u))
    } by {
        lemma_prefix_region(u, cur, l, c);
        if page_base(u) >= cur {
            assert(same_prefix(u, cur, l));
            assert(s.translate(u) == 0);
            assert(s.translate(u) == s0.translate(u));
            assert(d2.translate(u) == 0);
            assert(write_protect(0) == 0);
        } else {
            assert(cur != start);
            assert(base == cur);
            assert(!same_prefix(u, cur, l));
            assert(d2.translate(u) == d.translate(u));
            assert(start <= page_base(u) < cur);
            assert(d.translate(u) == write_protect(s0.translate(u)));
        }
    }
    assert forall|u: u64| !(start <= page_base(u) < hi) implies {
        &&& #[trigger] s.translate(u) == s0.translate(u)
        &&& d2.translate(u) == d0.translate(u) || (d2.translate(u) == 0 && s0.translate(u) == 0)
    } by {
        lemma_prefix_region(u, cur, l, c);
        assert(!(start <= page_base(u) < cur));
        assert(s.translate(u) == s0.translate(u));
        if same_prefix(u, cur, l) {
            assert(s.translate(u) == 0);
        } else {
            assert(d2.translate(u) == d.translate(u));
        }
    }
}

/// Copies the last-level entries for the pages from `cur` up to the end of
/// its 2 MiB region or to `end`.
#[verifier::spinoff_prover]
#[verifier::rlimit(50)]
fn copy_pt(dst: &mut PageTables, dpt: usize, src: &mut PageTables, spt: usize, cur: u64, end: u64,
    mem_map: &mut Vec<Page>, wp: &mut Vec<u64>,
    Ghost(d0): Ghost<PageTables>, Ghost(s0): Ghost<PageTables>, Ghost(rc0): Ghost<Seq<Page>>, Ghost(start): Ghost<int>)
    -> (next: u64)
    requires
        copy_inv(d0, s0, rc0, *old(dst), *old(src), old(mem_map)@, old(wp)@, start, cur as int),
        start <= cur,
        cur % 4096 == 0,
        cur < end <= 0x8000_0000_0000,
        reach1(old(dst).words@, cur),
        frame1(old(dst).words@, cur) == dpt,
        reach1(old(src).words@, cur),
        frame1(old(src).words@, cur) == spt,
        forall|u: u64| start <= page_base(u) < end && entry_writable(#[trigger] s0.translate(u))
            ==> leaf_desc(s0.translate(u)) < rc0.len(),
    ensures
        copy_inv(d0, s0, rc0, *final(dst), *final(src), final(mem_map)@, final(wp)@, start, min_int(next as int, end as int)),
        cur + 4096 <= next,
        next % 4096 == 0,
        next <= cur - cur % 0x20_0000 + 0x20_0000,
        next == cur - cur % 0x20_0000 + 0x20_0000 || end <= next,
        final(dst).level@ == old(dst).level@,
        final(dst).parent@ == old(dst).parent@,
        forall|g: int, j: int| 0 <= g < old(dst).level@.len() && 0 <= j < 512 && old(dst).level@[g] >= 2
            ==> #[trigger] word(final(dst).words@, g, j) == word(old(dst).words@, g, j),
{
    proof {
        lemma_index_forms(cur);
    }
    let max_pt: u64 = (cur & 0xffffffffffe00000) + 0x20_0000 - 1;
    let ghost region = cur - cur % 0x20_0000;
    let ghost cur0 = cur;
    proof {
        lemma_walk_kept(s0.words@, old(src).words@, s0.level@, s0.parent@, cur, cur, 2);
    }
    let mut cur = cur;
    while cur < max_pt && cur < end
        invariant
            copy_inv(d0, s0, rc0, *dst, *src, mem_map@, wp@, start, cur as int),
            cur0 <= cur <= region + 0x20_0000,
            cur < end + 4096,
            start <= cur0,
            cur % 4096 == 0,
            cur0 % 4096 == 0,
            end <= 0x8000_0000_0000,
            max_pt == region + 0x20_0000 - 1,
            region == cur0 - cur0 % 0x20_0000,
            old(dst).wf(),
            dst.level@ == old(dst).level@,
            dst.parent@ == old(dst).parent@,
            forall|g: int, j: int| 0 <= g < old(dst).level@.len() && 0 <= j < 512 && old(dst).level@[g] >= 2
                ==> #[trigger] word(dst.words@, g, j) == word(old(dst).words@, g, j),
            reach1(old(dst).words@, cur0),
            frame1(old(dst).words@, cur0) == dpt,
            reach1(s0.words@, cur0),
            frame1(s0.words@, cur0) == spt,
            forall|u: u64| start <= page_base(u) < end && entry_writable(#[trigger] s0.translate(u))
                ==> leaf_desc(s0.translate(u)) < rc0.len(),
        decreases region + 0x20_0000 - cur,
    {
        proof {
            lemma_index_forms(cur);
            lemma_aligned_base(cur);
            lemma_aligned_base(cur0);
            lemma_page_base(cur, cur0);
            assert(same_prefix(cur, cur0, 2));
            lemma_walk_kept(old(dst).words@, dst.words@, old(dst).level@, old(dst).parent@, cur0, cur, 2);
            lemma_walk_kept(s0.words@, src.words@, s0.level@, s0.parent@, cur0, cur, 2);
        }
        copy_page(dst, dpt, src, spt, cur, mem_map, wp, Ghost(d0), Ghost(s0), Ghost(rc0), Ghost(start));
        cur = cur + 4096;
    }
    proof {
        lemma_clip(d0, s0, rc0, *dst, *src, mem_map@, wp@, start, cur as int, min_int(cur as int, end as int));
    }
    cur
}

/// The state of a copy holds of any destination that maps the same.
proof fn lemma_inv_same_dst(d0: PageTables, s0: PageTables, rc0: Seq<Page>, d: PageTables, d2: PageTables,
    s: PageTables, rc: Seq<Page>, wp: Seq<u64>, start: int, hi: int)
    requires
        copy_inv(d0, s0, rc0, d, s, rc, wp, start, hi),
        d2.wf(),
        forall|u: u64| #[trigger] d2.translate(u) == d.translate(u),
    ensures
        copy_inv(d0, s0, rc0, d2, s, rc, wp, start, hi),
{
    assert forall|u: u64| start <= page_base(u) < hi implies {
        &&& #[trigger] d2.translate(u) == write_protect(s0.translate(u))
        &&& s.translate(u) == write_protect(s0.translate(u))
    } by {
        assert(d2.translate(u) == d.translate(u));
    }
    assert forall|u: u64| !(start <= page_base(u) < hi) implies {
        &&& #[trigger] s.translate(u) == s0.translate(u)
        &&& d2.translate(u) == d0.translate(u) || (d2.translate(u) == 0 && s0.translate(u) == 0)
    } by {
        assert(d2.translate(u) == d.translate(u));
    }
}

/// Unmapping, in the destination, the region of `c` bytes that holds
/// `cur`, where the source maps nothing, carries the state of a copy over
/// that region.
proof fn lemma_skip_inv(d0: PageTables, s0: PageTables, rc0: Seq<Page>, d: PageTables, d2: PageTables,
    s: PageTables, rc: Seq<Page>, wp: Seq<u64>, start: int, cur: u64, end: int, l: int, c: int)
    requires
        copy_inv(d0, s0, rc0, d, s, rc, wp, start, cur as int),
        start <= cur < end,
        cur % 4096 == 0,
        cur < 0x8000_0000_0000,
        (l == 4 && c == 0x80_0000_0000) || (l == 3 && c == 0x4000_0000) || (l == 2 && c == 0x20_0000),
        cur == start || (cur as int) % c == 0,
        d2.wf(),
        forall|u: u64| #[trigger] d2.translate(u) == if same_prefix(u, cur, l) { 0 } else { d.translate(u) },
        forall|u: u64| same_prefix(u, cur, l) ==> #[trigger] s.translate(u) == 0,
    ensures
        copy_inv(d0, s0, rc0, d2, s, rc, wp, start, min_int(cur - (cur as int) % c + c, end)),
{
    lemma_skip_step(d0, s0, d, s, d2, start, cur, end, l, c);
    let hi = min_int(cur - (cur as int) % c + c, end);
    assert forall|a: u64| a % 4096 == 0 && start <= a < hi && #[trigger] writable_at(s0, a) implies wp.contains(a) by {
        if a >= cur {
            lemma_prefix_region(a, cur, l, c);
            lemma_aligned_base(a);
            assert(same_prefix(a, cur, l));
            assert(s.translate(a) == 0);
            assert(s.translate(a) == s0.translate(a));
            reveal(writable_at);
        }
    }
    assert forall|k: int| 0 <= k < wp.len() implies start <= #[trigger] wp[k] < hi && wp[k] % 4096 == 0
        && writable_at(s0, wp[k]) by {
        assert(start <= wp[k] < cur);
    }
}

/// Copies the pages from `cur` up to the end of its 1 GiB region or to
/// `end`: each 2 MiB region that the source maps gets a last-level table
/// in the destination, made where missing, and its entries copied; one
/// that the source does not map is unmapped in the destination.
#[verifier::spinoff_prover]
#[verifier::rlimit(80)]
fn copy_pdt(dst: &mut PageTables, dpdt: usize, src: &mut PageTables, spdt: usize, cur: u64, end: u64,
    mem_map: &mut Vec<Page>, wp: &mut Vec<u64>,
    Ghost(d0): Ghost<PageTables>, Ghost(s0): Ghost<PageTables>, Ghost(rc0): Ghost<Seq<Page>>, Ghost(start): Ghost<int>,
    Ghost(f0): Ghost<int>)
    -> (next: u64)
    requires
        copy_inv(d0, s0, rc0, *old(dst), *old(src), old(mem_map)@, old(wp)@, start, cur as int),
        start <= cur,
        cur % 4096 == 0,
        cur < end <= 0x8000_0000_0000,
        cur == start || cur % 0x20_0000 == 0,
        reach2(old(dst).words@, cur),
        frame2(old(dst).words@, cur) == dpdt,
        reach2(s0.words@, cur),
        frame2(s0.words@, cur) == spdt,
        forall|u: u64| start <= page_base(u) < end && entry_writable(#[trigger] s0.translate(u))
            ==> leaf_desc(s0.translate(u)) < rc0.len(),
        4096 * (old(dst).frames() - f0) <= 3 * (cur - start) + 2 * 4096,
        4096 * f0 + 3 * (end - start) + 4 * 4096 <= 4096 * 0x10_0000_0000,
    ensures
        copy_inv(d0, s0, rc0, *final(dst), *final(src), final(mem_map)@, final(wp)@, start, min_int(next as int, end as int)),
        cur + 4096 <= next,
        next % 4096 == 0,
        next <= cur - cur % 0x4000_0000 + 0x4000_0000,
        next == cur - cur % 0x4000_0000 + 0x4000_0000 || end <= next,
        4096 * (final(dst).frames() - f0) <= 3 * (next - start),
        final(dst).frames() >= old(dst).frames(),
        final(dst).level@.subrange(0, old(dst).level@.len() as int) == old(dst).level@,
        forall|g: int, j: int| 0 <= g < old(dst).level@.len() && 0 <= j < 512 && old(dst).level@[g] >= 3
            ==> #[trigger] word(final(dst).words@, g, j) == word(old(dst).words@, g, j),
{
    proof {
        lemma_index_forms(cur);
    }
    let max_pdt: u64 = (cur & 0xffffffffc0000000) + 0x4000_0000;
    let ghost region = cur - cur % 0x4000_0000;
    let ghost cur0 = cur;
    assert(dst.level@.subrange(0, old(dst).level@.len() as int) =~= old(dst).level@);
    let mut cur = cur;
    while cur < max_pdt && cur < end
        invariant
            copy_inv(d0, s0, rc0, *dst, *src, mem_map@, wp@, start, min_int(cur as int, end as int)),
            cur0 <= cur <= region + 0x4000_0000,
            start <= cur0,
            cur % 4096 == 0,
            cur0 % 4096 == 0,
            cur0 == start || cur0 % 0x20_0000 == 0,
            cur == cur0 || cur % 0x20_0000 == 0 || end <= cur,
            end <= 0x8000_0000_0000,
            max_pdt == region + 0x4000_0000,
            region == cur0 - cur0 % 0x4000_0000,
            4096 * (dst.frames() - f0) <= 3 * (cur - start) + if cur == cur0 { 2 * 4096 } else { 0 },
            4096 * f0 + 3 * (end - start) + 4 * 4096 <= 4096 * 0x10_0000_0000,
            old(dst).wf(),
            dst.frames() >= old(dst).frames(),
            dst.level@.subrange(0, old(dst).level@.len() as int) == old(dst).level@,
            forall|g: int, j: int| 0 <= g < old(dst).level@.len() && 0 <= j < 512 && old(dst).level@[g] >= 3
                ==> #[trigger] word(dst.words@, g, j) == word(old(dst).words@, g, j),
            reach2(old(dst).words@, cur0),
            frame2(old(dst).words@, cur0) == dpdt,
            reach2(s0.words@, cur0),
            frame2(s0.words@, cur0) == spdt,
            forall|u: u64| start <= page_base(u) < end && entry_writable(#[trigger] s0.translate(u))
                ==> leaf_desc(s0.translate(u)) < rc0.len(),
        decreases region + 0x4000_0000 - cur,
    {
        proof {
            lemma_index_forms(cur);
            lemma_aligned_base(cur);
            lemma_aligned_base(cur0);
            lemma_page_base(cur, cur0);
            assert(same_prefix(cur, cur0, 3));
            assert forall|g: int, j: int| 0 <= g < old(dst).level@.len() && 0 <= j < 512 && old(dst).level@[g] >= 3
                implies #[trigger] word(dst.words@, g, j) == word(old(dst).words@, g, j) by {
            }
            lemma_walk_kept(old(dst).words@, dst.words@, old(dst).level@, old(dst).parent@, cur0, cur, 3);
            lemma_walk_kept(s0.words@, src.words@, s0.level@, s0.parent@, cur0, cur, 3);
            lemma_walk_levels(old(dst).words@, old(dst).level@, old(dst).parent@, cur0, cur0);
            lemma_walk_levels(s0.words@, s0.level@, s0.parent@, cur0, cur0);
            assert(dst.level@[dpdt as int] == 2);
        }
        let pdt_no: usize = get_pdt_offset(cur);
        let slen: usize = src.words.len();
        let dlen: usize = dst.words.len();
        assert(spdt * 512 + 512 <= slen) by (nonlinear_arith)
            requires spdt < src.level@.len(), slen == src.level@.len() * 512;
        assert(dpdt * 512 + 512 <= dlen) by (nonlinear_arith)
            requires dpdt < dst.level@.len(), dlen == dst.level@.len() * 512;
        let se = src.words[spdt * 512 + pdt_no];
        proof { lemma_entry_bits(se, 0); }
        if se & 1u64 != 0 {
            let ghost d_before = *dst;
            let dpt = dst.next_table(dpdt, pdt_no, false);
            proof {
                lemma_walk_levels(src.words@, src.level@, src.parent@, cur, cur);
                assert(word(src.words@, spdt as int, idx2(cur)) == se);
                assert(reach1(src.words@, cur));
                assert(dst.level@.subrange(0, old(dst).level@.len() as int) =~= old(dst).level@) by {
                    assert forall|k: int| 0 <= k < old(dst).level@.len() implies dst.level@[k] == old(dst).level@[k] by {
                        assert(dst.level@.subrange(0, d_before.level@.len() as int)[k] == d_before.level@[k]);
                        assert(d_before.level@.subrange(0, old(dst).level@.len() as int)[k] == old(dst).level@[k]);
                    }
                }
            }
            let spt = (se >> 12u64) as usize;
            proof {
                lemma_inv_same_dst(d0, s0, rc0, d_before, *dst, *src, mem_map@, wp@, start, cur as int);
                lemma_walk_levels(d_before.words@, d_before.level@, d_before.parent@, cur, cur);
                assert(word(dst.words@, 0, idx4(cur)) == word(d_before.words@, 0, idx4(cur)));
                assert(word(dst.words@, frame3(d_before.words@, cur), idx3(cur))
                    == word(d_before.words@, frame3(d_before.words@, cur), idx3(cur)));
                assert(reach1(dst.words@, cur) && frame1(dst.words@, cur) == dpt);
                assert(reach1(src.words@, cur) && frame1(src.words@, cur) == spt);
                assert forall|g: int, j: int| 0 <= g < old(dst).level@.len() && 0 <= j < 512 && old(dst).level@[g] >= 3
                    implies #[trigger] word(dst.words@, g, j) == word(old(dst).words@, g, j) by {
                    assert(word(d_before.words@, g, j) == word(old(dst).words@, g, j));
                    assert(d_before.level@.subrange(0, old(dst).level@.len() as int)[g] == old(dst).level@[g]);
                }
            }
            let ghost d_mid = *dst;
            cur = copy_pt(dst, dpt, src, spt, cur, end, mem_map, wp, Ghost(d0), Ghost(s0), Ghost(rc0), Ghost(start));
            proof {
                assert forall|g: int, j: int| 0 <= g < old(dst).level@.len() && 0 <= j < 512 && old(dst).level@[g] >= 3
                    implies #[trigger] word(dst.words@, g, j) == word(old(dst).words@, g, j) by {
                    assert(word(d_mid.words@, g, j) == word(old(dst).words@, g, j));
                    assert(d_mid.level@.subrange(0, old(dst).level@.len() as int)[g] == old(dst).level@[g]);
                }
            }
        } else {
            let ghost d_before = *dst;
            let dpos: usize = dpdt * 512 + pdt_no;
            dst.words.set(dpos, 0);
            proof {
                lemma_clear_entry(d_before.words@, d_before.level@, d_before.parent@, cur, 2);
                assert(dst.words@ == d_before.words@.update(table_at(d_before.words@, cur, 2) * 512 + idx_at(cur, 2), 0));
                assert forall|u: u64| same_prefix(u, cur, 2) implies #[trigger] src.translate(u) == 0 by {
                    lemma_walk_kept(src.words@, src.words@, src.level@, src.parent@, cur, u, 2);
                }
                lemma_skip_inv(d0, s0, rc0, d_before, *dst, *src, mem_map@, wp@, start, cur, end as int, 2, 0x20_0000);
                assert forall|g: int, j: int| 0 <= g < old(dst).level@.len() && 0 <= j < 512 && old(dst).level@[g] >= 3
                    implies #[trigger] word(dst.words@, g, j) == word(old(dst).words@, g, j) by {
                    assert(word(d_before.words@, g, j) == word(old(dst).words@, g, j));
                    if g * 512 + j == dpdt * 512 + pdt_no {
                        lemma_word_pos(g, j, dpdt as int, pdt_no as int);
                    }
                }
            }
            cur = (cur & 0xffffffffffe00000) + 0x20_0000;
        }
    }
    cur
}

/// A multiple of 1 GiB is a multiple of 2 MiB.
proof fn lemma_region_nested(x: int)
    requires
        x % 0x4000_0000 == 0,
    ensures
        x % 0x20_0000 == 0,
{
    vstd::arithmetic::div_mod::lemma_fundamental_div_mod(x, 0x4000_0000);
    vstd::arithmetic::div_mod::lemma_fundamental_div_mod_converse(x, 0x20_0000, (x / 0x4000_0000) * 512, 0);
}

/// A multiple of 512 GiB is a multiple of 1 GiB.
proof fn lemma_region_nested4(x: int)
    requires
        x % 0x80_0000_0000 == 0,
    ensures
        x % 0x4000_0000 == 0,
{
    vstd::arithmetic::div_mod::lemma_fundamental_div_mod(x, 0x80_0000_0000);
    vstd::arithmetic::div_mod::lemma_fundamental_div_mod_converse(x, 0x4000_0000, (x / 0x80_0000_0000) * 512, 0);
}

/// Copies the pages from `cur` up to the end of its 512 GiB region or to
/// `end`: each 1 GiB region that the source maps gets a page directory in
/// the destination, made where missing, and is copied below it; one that
/// the source does not map is unmapped in the destination.
#[verifier::spinoff_prover]
#[verifier::rlimit(80)]
fn copy_pdpt(dst: &mut PageTables, dpdpt: usize, src: &mut PageTables, spdpt: usize, cur: u64, end: u64,
    mem_map: &mut Vec<Page>, wp: &mut Vec<u64>,
    Ghost(d0): Ghost<PageTables>, Ghost(s0): Ghost<PageTables>, Ghost(rc0): Ghost<Seq<Page>>, Ghost(start): Ghost<int>,
    Ghost(f0): Ghost<int>)
    -> (next: u64)
    requires
        copy_inv(d0, s0, rc0, *old(dst), *old(src), old(mem_map)@, old(wp)@, start, cur as int),
        start <= cur,
        cur % 4096 == 0,
        cur < end <= 0x8000_0000_0000,
        cur == start || cur % 0x4000_0000 == 0,
        reach3(old(dst).words@, cur),
        frame3(old(dst).words@, cur) == dpdpt,
        reach3(s0.words@, cur),
        frame3(s0.words@, cur) == spdpt,
        forall|u: u64| start <= page_base(u) < end && entry_writable(#[trigger] s0.translate(u))
            ==> leaf_desc(s0.translate(u)) < rc0.len(),
        4096 * (old(dst).frames() - f0) <= 3 * (cur - start) + 4096,
        4096 * f0 + 3 * (end - start) + 4 * 4096 <= 4096 * 0x10_0000_0000,
    ensures
        copy_inv(d0, s0, rc0, *final(dst), *final(src), final(mem_map)@, final(wp)@, start, min_int(next as int, end as int)),
        cur + 4096 <= next,
        next % 4096 == 0,
        next <= cur - cur % 0x80_0000_0000 + 0x80_0000_0000,
        next == cur - cur % 0x80_0000_0000 + 0x80_0000_0000 || end <= next,
        4096 * (final(dst).frames() - f0) <= 3 * (next - start),
{
    proof {
        lemma_index_forms(cur);
    }
    let max_pdpt: u64 = (cur & 0xffffff8000000000) + 0x80_0000_0000;
    let ghost region = cur - cur % 0x80_0000_0000;
    let ghost cur0 = cur;
    assert(dst.level@.subrange(0, old(dst).level@.len() as int) =~= old(dst).level@);
    let mut cur = cur;
    while cur < max_pdpt && cur < end
        invariant
            copy_inv(d0, s0, rc0, *dst, *src, mem_map@, wp@, start, min_int(cur as int, end as int)),
            cur0 <= cur <= region + 0x80_0000_0000,
            start <= cur0,
            cur % 4096 == 0,
            cur0 % 4096 == 0,
            cur0 == start || cur0 % 0x4000_0000 == 0,
            cur == cur0 || cur % 0x4000_0000 == 0 || end <= cur,
            end <= 0x8000_0000_0000,
            max_pdpt == region + 0x80_0000_0000,
            region == cur0 - cur0 % 0x80_0000_0000,
            4096 * (dst.frames() - f0) <= 3 * (cur - start) + if cur == cur0 { 4096int } else { 0int },
            4096 * f0 + 3 * (end - start) + 4 * 4096 <= 4096 * 0x10_0000_0000,
            old(dst).wf(),
            dst.frames() >= old(dst).frames(),
            dst.level@.subrange(0, old(dst).level@.len() as int) == old(dst).level@,
            forall|g: int, j: int| 0 <= g < old(dst).level@.len() && 0 <= j < 512 && old(dst).level@[g] >= 4
                ==> #[trigger] word(dst.words@, g, j) == word(old(dst).words@, g, j),
            reach3(old(dst).words@, cur0),
            frame3(old(dst).words@, cur0) == dpdpt,
            reach3(s0.words@, cur0),
            frame3(s0.words@, cur0) == spdpt,
            forall|u: u64| start <= page_base(u) < end && entry_writable(#[trigger] s0.translate(u))
                ==> leaf_desc(s0.translate(u)) < rc0.len(),
        decreases region + 0x80_0000_0000 - cur,
    {
        proof {
            lemma_index_forms(cur);
            lemma_aligned_base(cur);
            lemma_aligned_base(cur0);
            lemma_page_base(cur, cur0);
            assert(same_prefix(cur, cur0, 4));
            lemma_walk_kept(old(dst).words@, dst.words@, old(dst).level@, old(dst).parent@, cur0, cur, 4);
            lemma_walk_kept(s0.words@, src.words@, s0.level@, s0.parent@, cur0, cur, 4);
            lemma_walk_levels(old(dst).words@, old(dst).level@, old(dst).parent@, cur0, cur0);
            lemma_walk_levels(s0.words@, s0.level@, s0.parent@, cur0, cur0);
            assert(dst.level@[dpdpt as int] == 3);
            if cur == cur0 && cur0 != start {
                lemma_region_nested(cur as int);
            } else if cur != cur0 && cur < end {
                lemma_region_nested(cur as int);
            }
        }
        let pdpt_no: usize = get_pdpt_offset(cur);
        let slen: usize = src.words.len();
        let dlen: usize = dst.words.len();
        assert(spdpt * 512 + 512 <= slen) by (nonlinear_arith)
            requires spdpt < src.level@.len(), slen == src.level@.len() * 512;
        assert(dpdpt * 512 + 512 <= dlen) by (nonlinear_arith)
            requires dpdpt < dst.level@.len(), dlen == dst.level@.len() * 512;
        let se = src.words[spdpt * 512 + pdpt_no];
        proof { lemma_entry_bits(se, 0); }
        if se & 1u64 != 0 {
            let ghost d_before = *dst;
            let dpdt = dst.next_table(dpdpt, pdpt_no, false);
            proof {
                lemma_walk_levels(src.words@, src.level@, src.parent@, cur, cur);
                assert(word(src.words@, spdpt as int, idx3(cur)) == se);
                assert(reach2(src.words@, cur));
                lemma_walk_kept(src.words@, s0.words@, src.level@, src.parent@, cur, cur, 2);
                assert(dst.level@.subrange(0, old(dst).level@.len() as int) =~= old(dst).level@) by {
                    assert forall|k: int| 0 <= k < old(dst).level@.len() implies dst.level@[k] == old(dst).level@[k] by {
                        assert(dst.level@.subrange(0, d_before.level@.len() as int)[k] == d_before.level@[k]);
                        assert(d_before.level@.subrange(0, old(dst).level@.len() as int)[k] == old(dst).level@[k]);
                    }
                }
            }
            let spdt = (se >> 12u64) as usize;
            proof {
                lemma_inv_same_dst(d0, s0, rc0, d_before, *dst, *src, mem_map@, wp@, start, cur as int);
                lemma_walk_levels(d_before.words@, d_before.level@, d_before.parent@, cur, cur);
                assert(word(dst.words@, 0, idx4(cur)) == word(d_before.words@, 0, idx4(cur)));
                assert(reach2(dst.words@, cur) && frame2(dst.words@, cur) == dpdt);
                assert(reach2(s0.words@, cur) && frame2(s0.words@, cur) == spdt);
                assert forall|g: int, j: int| 0 <= g < old(dst).level@.len() && 0 <= j < 512 && old(dst).level@[g] >= 4
                    implies #[trigger] word(dst.words@, g, j) == word(old(dst).words@, g, j) by {
                    assert(word(d_before.words@, g, j) == word(old(dst).words@, g, j));
                    assert(d_before.level@.subrange(0, old(dst).level@.len() as int)[g] == old(dst).level@[g]);
                }
            }
            let ghost d_mid = *dst;
            cur = copy_pdt(dst, dpdt, src, spdt, cur, end, mem_map, wp, Ghost(d0), Ghost(s0), Ghost(rc0), Ghost(start), Ghost(f0));
            proof {
                assert forall|g: int, j: int| 0 <= g < old(dst).level@.len() && 0 <= j < 512 && old(dst).level@[g] >= 4
                    implies #[trigger] word(dst.words@, g, j) == word(old(dst).words@, g, j) by {
                    assert(word(d_mid.words@, g, j) == word(old(dst).words@, g, j));
                    assert(d_mid.level@.subrange(0, old(dst).level@.len() as int)[g] == old(dst).level@[g]);
                }
                assert(dst.level@.subrange(0, old(dst).level@.len() as int) =~= old(dst).level@) by {
                    assert forall|k: int| 0 <= k < old(dst).level@.len() implies dst.level@[k] == old(dst).level@[k] by {
                        assert(dst.level@.subrange(0, d_mid.level@.len() as int)[k] == d_mid.level@[k]);
                        assert(d_mid.level@.subrange(0, old(dst).level@.len() as int)[k] == old(dst).level@[k]);
                    }
                }
            }
        } else {
            let ghost d_before = *dst;
            let dpos: usize = dpdpt * 512 + pdpt_no;
            dst.words.set(dpos, 0);
            proof {
                lemma_clear_entry(d_before.words@, d_before.level@, d_before.parent@, cur, 3);
                assert(dst.words@ == d_before.words@.update(table_at(d_before.words@, cur, 3) * 512 + idx_at(cur, 3), 0));
                assert forall|u: u64| same_prefix(u, cur, 3) implies #[trigger] src.translate(u) == 0 by {
                    lemma_walk_kept(src.words@, src.words@, src.level@, src.parent@, cur, u, 3);
                }
                lemma_skip_inv(d0, s0, rc0, d_before, *dst, *src, mem_map@, wp@, start, cur, end as int, 3, 0x4000_0000);
                assert forall|g: int, j: int| 0 <= g < old(dst).level@.len() && 0 <= j < 512 && old(dst).level@[g] >= 4
                    implies #[trigger] word(dst.words@, g, j) == word(old(dst).words@, g, j) by {
                    assert(word(d_before.words@, g, j) == word(old(dst).words@, g, j));
                    if g * 512 + j == dpdpt * 512 + pdpt_no {
                        lemma_word_pos(g, j, dpdpt as int, pdpt_no as int);
                    }
                }
            }
            cur = (cur & 0xffffffffc0000000) + 0x4000_0000;
        }
    }
    cur
}

/// Copies the mappings of the pages from `start` to `end` from the tables
/// `src` to the tables `dst`, as a fork does for one area of the address
/// space: every writable page is write-protected in both, so that the
/// first write to it faults and copies it, and the descriptor of its frame
/// gains a reference.  Where the source maps nothing for a whole region,
/// the destination's entry for that region is cleared.  Gives the
/// write-protected pages in increasing order (the processor's cached
/// translations for them are stale and are for the caller to flush).
#[verifier::spinoff_prover]
#[verifier::rlimit(80)]
pub fn x86_64_copy_pml4(dst: &mut PageTables, src: &mut PageTables, start: u64, end: u64,
    mem_map: &mut Vec<Page>) -> (protected: Vec<u64>)
    requires
        old(dst).wf(),
        old(src).wf(),
        start % 4096 == 0,
        end <= 0x8000_0000_0000,
        old(dst).frames() + 3 * ((end - start) / 4096 + 3) < 0x10_0000_0000,
        forall|u: u64| start <= page_base(u) < end && entry_writable(#[trigger] old(src).translate(u))
            ==> leaf_desc(old(src).translate(u)) < old(mem_map)@.len(),
    ensures
        final(dst).wf(),
        final(src).wf(),
        copied(*old(dst), *old(src), *final(dst), *final(src), start as int, end as int),
        forall|u: u64| start <= page_base(u) < end && #[trigger] final(dst).translate(u) != 0
            ==> final(dst).walk_open(u),
        protected_run(*old(src), protected@, start as int, end as int),
        refs_added(old(mem_map)@, final(mem_map)@, *old(src), protected@),
{
    let ghost d0 = *dst;
    let ghost s0 = *src;
    let ghost rc0 = mem_map@;
    let ghost f0 = dst.frames() as int;
    let mut wp: Vec<u64> = Vec::new();
    proof {
        vstd::arithmetic::div_mod::lemma_fundamental_div_mod(end - start, 4096);
        assert(4096 * f0 + 3 * (end - start) + 4 * 4096 <= 4096 * 0x10_0000_0000) by (nonlinear_arith)
            requires
                f0 + 3 * ((end - start) / 4096 + 3) < 0x10_0000_0000,
                end - start == 4096 * ((end - start) / 4096) + (end - start) % 4096,
                0 <= (end - start) % 4096 < 4096;
        assert forall|p: int| 0 <= p < rc0.len() implies {
            &&& #[trigger] rc0[p].flags == rc0[p].flags
            &&& rc0[p].refcount == (rc0[p].refcount + desc_refs(s0, wp@, p)) % 0x1_0000_0000
        } by {
            vstd::arithmetic::div_mod::lemma_small_mod(rc0[p].refcount as nat, 0x1_0000_0000);
        }
        assert(copy_inv(d0, s0, rc0, *dst, *src, mem_map@, wp@, start as int, min_int(start as int, end as int)));
    }
    let mut cur: u64 = start;
    while cur < end
        invariant
            copy_inv(d0, s0, rc0, *dst, *src, mem_map@, wp@, start as int, min_int(cur as int, end as int)),
            start <= cur,
            cur == start || cur <= 0x8000_0000_0000,
            cur % 4096 == 0,
            start % 4096 == 0,
            cur == start || cur % 0x80_0000_0000 == 0 || end <= cur,
            end <= 0x8000_0000_0000,
            f0 == d0.frames(),
            4096 * (dst.frames() - f0) <= 3 * (cur - start),
            4096 * f0 + 3 * (end - start) + 4 * 4096 <= 4096 * 0x10_0000_0000,
            forall|u: u64| start <= page_base(u) < end && entry_writable(#[trigger] s0.translate(u))
                ==> leaf_desc(s0.translate(u)) < rc0.len(),
        decreases if cur < end { end - cur } else { 0int },
    {
        proof {
            lemma_index_forms(cur);
            lemma_walk_levels(dst.words@, dst.level@, dst.parent@, cur, cur);
            lemma_walk_levels(src.words@, src.level@, src.parent@, cur, cur);
            if cur != start {
                lemma_region_nested4(cur as int);
            }
        }
        let pml4_no: usize = get_pml4_offset(cur);
        let slen: usize = src.words.len();
        let se = src.words[pml4_no];
        proof { lemma_entry_bits(se, 0); }
        if se & 1u64 != 0 {
            let ghost d_before = *dst;
            let dpdpt = dst.next_table(0, pml4_no, false);
            proof {
                assert(word(src.words@, 0, idx4(cur)) == se);
                assert(reach3(src.words@, cur));
                lemma_walk_kept(src.words@, s0.words@, src.level@, src.parent@, cur, cur, 2);
            }
            let spdpt = (se >> 12u64) as usize;
            proof {
                lemma_inv_same_dst(d0, s0, rc0, d_before, *dst, *src, mem_map@, wp@, start as int, cur as int);
                assert(reach3(dst.words@, cur) && frame3(dst.words@, cur) == dpdpt);
                assert(reach3(s0.words@, cur) && frame3(s0.words@, cur) == spdpt);
            }
            cur = copy_pdpt(dst, dpdpt, src, spdpt, cur, end, mem_map, &mut wp, Ghost(d0), Ghost(s0), Ghost(rc0),
                Ghost(start as int), Ghost(f0));
        } else {
            let ghost d_before = *dst;
            dst.words.set(pml4_no, 0);
            proof {
                lemma_clear_entry(d_before.words@, d_before.level@, d_before.parent@, cur, 4);
                assert(dst.words@ == d_before.words@.update(table_at(d_before.words@, cur, 4) * 512 + idx_at(cur, 4), 0));
                assert forall|u: u64| same_prefix(u, cur, 4) implies #[trigger] src.translate(u) == 0 by {
                    lemma_walk_kept(src.words@, src.words@, src.level@, src.parent@, cur, u, 4);
                }
                lemma_skip_inv(d0, s0, rc0, d_before, *dst, *src, mem_map@, wp@, start as int, cur, end as int, 4,
                    0x80_0000_0000);
            }
            cur = (cur & 0xffffff8000000000) + 0x80_0000_0000;
        }
    }
    proof {
        assert forall|u: u64| start <= page_base(u) < end && #[trigger] dst.translate(u) != 0 implies dst.walk_open(u) by {
            dst.lemma_walk_open(u);
        }
    }
    wp
}

/// Copies the page tables of one area of an address space for a fork:
/// see `x86_64_copy_pml4`.
pub fn arch_copy_page_table(dst: &mut PageTables, src: &mut PageTables, start: u64, end: u64,
    mem_map: &mut Vec<Page>) -> (protected: Vec<u64>)
    requires
        old(dst).wf(),
        old(src).wf(),
        start % 4096 == 0,
        end <= 0x8000_0000_0000,
        old(dst).frames() + 3 * ((end - start) / 4096 + 3) < 0x10_0000_0000,
        forall|u: u64| start <= page_base(u) < end && entry_writable(#[trigger] old(src).translate(u))
            ==> leaf_desc(old(src).translate(u)) < old(mem_map)@.len(),
    ensures
        final(dst).wf(),
        final(src).wf(),
        copied(*old(dst), *old(src), *final(dst), *final(src), start as int, end as int),
        forall|u: u64| start <= page_base(u) < end && #[trigger] final(dst).translate(u) != 0
            ==> final(dst).walk_open(u),
        protected_run(*old(src), protected@, start as int, end as int),
        refs_added(old(mem_map)@, final(mem_map)@, *old(src), protected@),
{
    x86_64_copy_pml4(dst, src, start, end, mem_map)
}

/// After the tables of an area are copied for a fork, parent and child
/// map every page of the area to the same entry, and that entry does not
/// let the page be written.
pub proof fn lemma_copy_shares_read_only(d0: PageTables, s0: PageTables, d: PageTables, s: PageTables,
    start: int, end: int, u: u64)
    requires
        copied(d0, s0, d, s, start, end),
        start <= page_base(u) < end,
    ensures
        d.translate(u) == s.translate(u),
        !entry_writable(d.translate(u)),
{
    lemma_write_protect_read_only(s0.translate(u));
}

/// A write-protected entry is not writable, and protecting it again
/// changes nothing.
pub proof fn lemma_write_protect_read_only(e: u64)
    ensures
        !entry_writable(write_protect(e)),
        write_protect(write_protect(e)) == write_protect(e),
{
    if entry_writable(e) {
        vstd::arithmetic::div_mod::lemma_fundamental_div_mod(e as int, 4);
        let q = e as int / 4;
        let r = e as int % 4;
        assert(r == 2 || r == 3) by {
            vstd::arithmetic::div_mod::lemma_fundamental_div_mod_converse(e as int / 2, 2, q, r / 2);
        }
        vstd::arithmetic::div_mod::lemma_fundamental_div_mod_converse(e as int - 2, 2, 2 * q + (r - 2) / 2, (r - 2) % 2);
        vstd::arithmetic::div_mod::lemma_fundamental_div_mod_converse((e as int - 2) / 2, 2, q, 0);
    }
}

/// The physical address that `virt2phys` gives for an address of the
/// linear map.
pub open spec fn linear_to_phys(v: u64) -> u64 {
    (PHYADDR_START + (wsub(v, LINEAR_PHYS_BASE) >> 12u64) * 4096) as u64
}

/// `new_p` is `old_p` after descriptor `d` lost one reference and the
/// buddy allocator handed out the single frame `s`, which gained one.
pub open spec fn frame_taken_for_copy(old_p: MemoryPool, new_p: MemoryPool, d: int, s: usize) -> bool {
    let block = frame_block(s, 1);
    &&& block.subset_of(old_p.free_frames())
    &&& new_p.free_frames() == old_p.free_frames().sub(block)
    &&& frame_allocator_added(new_p.frame_allocator) == frame_allocator_added(old_p.frame_allocator)
    &&& new_p.mem_map@.len() == old_p.mem_map@.len()
    &&& s != d
    &&& new_p.mem_map@[s as int].refcount == old_p.mem_map@[s as int].refcount + 1
    &&& new_p.mem_map@[s as int].flags == old_p.mem_map@[s as int].flags
    &&& new_p.mem_map@[d].refcount == old_p.mem_map@[d].refcount - 1
    &&& new_p.mem_map@[d].flags == old_p.mem_map@[d].flags
    &&& forall|i: int| 0 <= i < old_p.mem_map@.len() && i != s && i != d ==> #[trigger] new_p.mem_map@[i] == old_p.mem_map@[i]
    &&& new_p.free_pages == old_p.free_pages - 1
    &&& new_p.lowest_idx == old_p.lowest_idx
}

impl PageTables {
    /// Handles a write to the page at `vaddr` that a fork left shared and
    /// write-protected.  The descriptor of its frame drops one reference;
    /// when others remain, the page gets a new frame from `pool`, whose
    /// linear-map address is given back so that the caller copies the old
    /// contents into it; otherwise the reference is kept and the page keeps
    /// its frame (0 is given back).  Either way the entry becomes writable.
    /// When no frame can be had the reference is given back and the entry is
    /// left as it was.  (The caller flushes the stale translation.)
    pub fn copy_on_write(&mut self, vaddr: u64, pool: &mut MemoryPool) -> (new_page: u64)
        requires
            old(self).wf(),
            old(self).frames() + 3 < 0x10_0000_0000,
            old(pool).wf(),
            leaf_desc(old(self).translate(vaddr)) < old(pool).mem_map@.len(),
        ensures
            final(self).wf(),
            final(pool).wf(),
            final(self).frames() <= old(self).frames() + 3,
            forall|u: u64| !same_page(u, vaddr) ==> #[trigger] final(self).translate(u) == old(self).translate(u),
            ({
                let e = old(self).translate(vaddr);
                let d = leaf_desc(e) as int;
                let prev = old(pool).mem_map@[d].refcount;
                &&& prev > 1 && old(pool).free_frames().len() > 0 ==> new_page != 0
                &&& if prev > 1 && new_page != 0 {
                    &&& exists|s: usize| #[trigger] frame_taken_for_copy(*old(pool), *final(pool), d, s)
                        && new_page == LINEAR_MAP_AREA_START + s * 4096 + PHYADDR_START
                    &&& final(self).translate(vaddr) == spec_set_bits(
                        spec_set_bits(e, 12, 0xfffffffffffff, spec_page_idx(linear_to_phys(new_page))), 1, 1, 1)
                } else {
                    &&& final(pool).mem_map@ == old(pool).mem_map@
                    &&& final(pool).free_frames() == old(pool).free_frames()
                    &&& final(pool).free_pages == old(pool).free_pages
                    &&& final(pool).lowest_idx == old(pool).lowest_idx
                    &&& frame_allocator_added(final(pool).frame_allocator) == frame_allocator_added(old(pool).frame_allocator)
                    &&& prev > 1 ==> final(self).translate(vaddr) == e
                    &&& prev <= 1 ==> final(self).translate(vaddr) == spec_set_bits(e, 1, 1, 1)
                }
            }),
    {
        let pt = self.walk_or_make(vaddr, true);
        let ghost w3 = self.words@;
        let ghost p0 = *pool;
        let len: usize = self.words.len();
        proof { lemma_index_forms(vaddr); }
        let pos: usize = pt * 512 + get_pt_offset(vaddr);
        assert(translate_words(w3, vaddr) == w3[pos as int]);
        assert(translate_words(w3, vaddr) == translate_words(old(self).words@, vaddr));
        let mut e = PtEntry(self.words[pos]);
        let ghost e0 = e.0;
        let mlen: usize = pool.mem_map.len();
        let desc = phys2page(e.get_page_offset() << 12u64);
        assert(desc == leaf_desc(e0));
        let d = desc as usize;
        let mut page = pool.mem_map[d];
        let prev: u32 = page.refcount;
        page.refcount = prev.wrapping_sub(1);
        pool.mem_map.set(d, page);
        let mut new_page: u64 = 0;
        if prev > 1 {
            proof {
                assert forall|f: usize| #[trigger] pool.free_frames().count(f) > 0 implies {
                    &&& pool.free_frames().count(f) == 1
                    &&& f < pool.mem_map@.len()
                    &&& pool.mem_map@[f as int].refcount == 0
                } by {
                    assert(p0.free_frames().count(f) > 0);
                }
                assert(pow2_from(1, 1) == 1);
            }
            let ghost p_mid = *pool;
            let r = pool.alloc_frames(1);
            if r == 0 {
                let mut back = pool.mem_map[d];
                back.refcount = back.refcount.wrapping_add(1);
                pool.mem_map.set(d, back);
                proof {
                    assert(pool.mem_map@ =~= p0.mem_map@);
                }
                return 0;
            }
            new_page = r;
            proof {
                let s = choose|s: usize| #[trigger] frames_taken(p_mid, *pool, s, 1)
                    && r == LINEAR_MAP_AREA_START + s * 4096 + PHYADDR_START;
                lemma_frame_block(s, 1);
                assert(frame_block(s, 1).count((s + 0nat) as usize) >= 1);
                assert(p_mid.free_frames().count(s) >= 1);
                assert(p_mid.mem_map@[s as int].refcount == 0);
                assert(s != d);
                assert(p_mid.free_frames() == p0.free_frames());
                assert(next_pow2(1) == 1);
                assert(pool.mem_map@[s as int].flags == p_mid.mem_map@[s as int].flags);
                assert(p_mid.mem_map@[s as int] == p0.mem_map@[s as int]);
                assert(pool.mem_map@[s as int].refcount == p0.mem_map@[s as int].refcount + 1);
                assert(pool.mem_map@[d as int] == p_mid.mem_map@[d as int]);
                assert(pool.mem_map@[d as int].refcount == p0.mem_map@[d as int].refcount - 1);
                assert forall|i: int| 0 <= i < p0.mem_map@.len() && i != s && i != d
                    implies #[trigger] pool.mem_map@[i] == p0.mem_map@[i] by {
                    assert(pool.mem_map@[i] == p_mid.mem_map@[i]);
                }
                assert(frame_taken_for_copy(p0, *pool, d as int, s));
                lemma_page_shift(s as u64);
                assert(wsub(r, LINEAR_PHYS_BASE) == s * 4096);
            }
            let paddr = virt2phys(r);
            e.set_page_offset(MemoryPool::get_page_idx(paddr));
        } else {
            let mut back = pool.mem_map[d];
            back.refcount = back.refcount.wrapping_add(1);
            pool.mem_map.set(d, back);
            proof {
                assert(pool.mem_map@ =~= p0.mem_map@);
            }
        }
        e.set_wr(1);
        self.words.set(pos, e.0);
        proof {
            lemma_set_leaf(w3, self.level@, self.parent@, vaddr, e.0);
            assert(self.words@ == w3.update(frame1(w3, vaddr) * 512 + idx1(vaddr), e.0));
            assert(translate_words(self.words@, vaddr) == e.0);
        }
        new_page
    }

    /// Maps the page of `vaddr` to a new frame from `pool` with the bits
    /// `prot_bit`.  (When the pool has no frame left, the page is mapped to
    /// the frame that the linear-map address 0 translates to.)
    pub fn link_user_page(&mut self, vaddr: u64, prot_bit: u64, pool: &mut MemoryPool)
        requires
            old(self).wf(),
            old(self).frames() + 3 < 0x10_0000_0000,
            old(pool).wf(),
        ensures
            final(self).wf(),
            final(pool).wf(),
            final(self).frames() <= old(self).frames() + 3,
            forall|u: u64| !same_page(u, vaddr) ==> #[trigger] final(self).translate(u) == old(self).translate(u),
            old(pool).free_frames().len() > 0 ==> exists|s: usize| #[trigger] frames_taken(*old(pool), *final(pool), s, 1)
                && final(self).translate(vaddr) == spec_set_bits(old(self).translate(vaddr), 12, 0xfffffffffffff,
                    spec_page_idx(linear_to_phys((LINEAR_MAP_AREA_START + s * 4096 + PHYADDR_START) as u64))) | prot_bit,
            old(pool).free_frames().len() == 0 ==> *final(pool) == *old(pool)
                && final(self).translate(vaddr) == spec_set_bits(old(self).translate(vaddr), 12, 0xfffffffffffff,
                    spec_page_idx(linear_to_phys(0))) | prot_bit,
            final(self).walk_open(vaddr),
    {
        proof {
            assert(pow2_from(1, 1) == 1);
        }
        let new_page = pool.alloc_frames(1);
        proof {
            if new_page != 0 {
                let s = choose|s: usize| #[trigger] frames_taken(*old(pool), *pool, s, 1)
                    && new_page == LINEAR_MAP_AREA_START + s * 4096 + PHYADDR_START;
                lemma_page_shift(s as u64);
                assert(wsub(new_page, LINEAR_PHYS_BASE) == s * 4096);
                lemma_frame_block(s, 1);
                assert(frame_block(s, 1).count((s + 0nat) as usize) >= 1);
                assert(old(pool).free_frames().count(s) >= 1);
            } else {
                lemma_page_shift(0x7_7fff_ff00);
                assert(wsub(0, LINEAR_PHYS_BASE) == 0x7_7fff_ff00u64 * 4096);
            }
        }
        let paddr = virt2phys(new_page);
        let page_start = get_page_start(vaddr);
        proof {
            assert(page_start == vaddr & 0xfffffffffffff000u64);
            lemma_index_forms(vaddr);
        }
        self.link_user_page_by_prot_bit(page_start, paddr, prot_bit);
        proof {
            assert(same_page(page_start, vaddr));
            assert(self.walk_open(page_start));
        }
    }
}


/// The page that `u` selects lies in one of the areas `areas[..k]` (each a
/// start and an end address).
pub open spec fn in_areas(areas: Seq<(u64, u64)>, k: int, u: u64) -> bool {
    exists|i: int| 0 <= i < k && (#[trigger] areas[i]).0 <= page_base(u) < areas[i].1
}

/// The tables `d`, made empty, and `s` after the areas `areas[..k]` of
/// `s0` were copied one after the other: the pages of the areas are mapped
/// in both as `s0` mapped them, write-protected; every other page keeps its
/// mapping in `s` and is unmapped in `d`.
pub open spec fn space_copied(s0: PageTables, d: PageTables, s: PageTables, areas: Seq<(u64, u64)>, k: int) -> bool {
    &&& forall|u: u64| in_areas(areas, k, u) ==> {
            &&& #[trigger] d.translate(u) == write_protect(s0.translate(u))
            &&& s.translate(u) == write_protect(s0.translate(u))
        }
    &&& forall|u: u64| !in_areas(areas, k, u) ==> {
            &&& #[trigger] s.translate(u) == s0.translate(u)
            &&& d.translate(u) == 0
        }
}

/// `wp` lists, each once, the page-aligned addresses of the areas
/// `areas[..k]` whose entry in `s0` is writable.
pub open spec fn space_protected(s0: PageTables, wp: Seq<u64>, areas: Seq<(u64, u64)>, k: int) -> bool {
    &&& forall|j: int| 0 <= j < wp.len() ==> (#[trigger] wp[j]) % 4096 == 0 && wp[j] < 0x8000_0000_0000
            && in_areas(areas, k, wp[j]) && writable_at(s0, wp[j])
    &&& forall|i: int, j: int| 0 <= i < j < wp.len() ==> #[trigger] wp[i] != #[trigger] wp[j]
    &&& forall|a: u64| a % 4096 == 0 && a < 0x8000_0000_0000 && in_areas(areas, k, a) && #[trigger] writable_at(s0, a)
            ==> wp.contains(a)
}

/// Counting references over a list whose entries map the same in two
/// tables gives the same count.
proof fn lemma_refs_same(s1: PageTables, s2: PageTables, wp: Seq<u64>, p: int)
    requires
        forall|j: int| 0 <= j < wp.len() ==> s1.translate(#[trigger] wp[j]) == s2.translate(wp[j]),
    ensures
        desc_refs(s1, wp, p) == desc_refs(s2, wp, p),
    decreases wp.len(),
{
    if wp.len() > 0 {
        let w = wp.drop_last();
        assert forall|j: int| 0 <= j < w.len() implies s1.translate(#[trigger] w[j]) == s2.translate(w[j]) by {
            assert(w[j] == wp[j]);
        }
        lemma_refs_same(s1, s2, w, p);
        assert(wp.last() == wp[wp.len() - 1]);
    }
}

/// Counting references over two lists in a row adds the counts.
proof fn lemma_refs_concat(s0: PageTables, a: Seq<u64>, b: Seq<u64>, p: int)
    ensures
        desc_refs(s0, a + b, p) == desc_refs(s0, a, p) + desc_refs(s0, b, p),
    decreases b.len(),
{
    if b.len() == 0 {
        assert(a + b =~= a);
    } else {
        lemma_refs_concat(s0, a, b.drop_last(), p);
        assert((a + b).drop_last() =~= a + b.drop_last());
        assert((a + b).last() == b.last());
    }
}

/// Copying one more area carries the copy of the areas before it over.
proof fn lemma_space_step(s0: PageTables, d: PageTables, s: PageTables, d2: PageTables, s2: PageTables,
    areas: Seq<(u64, u64)>, k: int)
    requires
        0 <= k < areas.len(),
        space_copied(s0, d, s, areas, k),
        copied(d, s, d2, s2, areas[k].0 as int, areas[k].1 as int),
    ensures
        space_copied(s0, d2, s2, areas, k + 1),
{
    assert forall|u: u64| in_areas(areas, k + 1, u) implies {
        &&& #[trigger] d2.translate(u) == write_protect(s0.translate(u))
        &&& s2.translate(u) == write_protect(s0.translate(u))
    } by {
        lemma_write_protect_read_only(s0.translate(u));
        let dt = d.translate(u);
        let st = s.translate(u);
        if areas[k].0 <= page_base(u) < areas[k].1 {
            assert(d2.translate(u) == write_protect(st));
            if in_areas(areas, k, u) {
                assert(dt == write_protect(s0.translate(u)));
                assert(st == write_protect(s0.translate(u)));
            } else {
                assert(st == s0.translate(u));
            }
        } else {
            let i = choose|i: int| 0 <= i < k + 1 && (#[trigger] areas[i]).0 <= page_base(u) < areas[i].1;
            assert(i < k);
            assert(in_areas(areas, k, u));
            assert(dt == write_protect(s0.translate(u)));
            assert(st == write_protect(s0.translate(u)));
            assert(s2.translate(u) == st);
            if d2.translate(u) != dt {
                assert(d2.translate(u) == 0 && st == 0);
            }
        }
    }
    assert forall|u: u64| !in_areas(areas, k + 1, u) implies {
        &&& #[trigger] s2.translate(u) == s0.translate(u)
        &&& d2.translate(u) == 0
    } by {
        assert(!(areas[k].0 <= page_base(u) < areas[k].1));
        assert(!in_areas(areas, k, u)) by {
            if in_areas(areas, k, u) {
                let i = choose|i: int| 0 <= i < k && (#[trigger] areas[i]).0 <= page_base(u) < areas[i].1;
                assert(0 <= i < k + 1 && areas[i].0 <= page_base(u) < areas[i].1);
            }
        }
    }
}

/// The writable pages of one more area, found after the areas before it
/// were copied, extend the list of the writable pages of the areas.
proof fn lemma_space_protected_step(s0: PageTables, s: PageTables, wp: Seq<u64>, w2: Seq<u64>,
    areas: Seq<(u64, u64)>, k: int)
    requires
        0 <= k < areas.len(),
        space_protected(s0, wp, areas, k),
        forall|u: u64| in_areas(areas, k, u) ==> #[trigger] s.translate(u) == write_protect(s0.translate(u)),
        forall|u: u64| !in_areas(areas, k, u) ==> #[trigger] s.translate(u) == s0.translate(u),
        protected_run(s, w2, areas[k].0 as int, areas[k].1 as int),
        areas[k].1 <= 0x8000_0000_0000,
    ensures
        space_protected(s0, wp + w2, areas, k + 1),
        forall|j: int| 0 <= j < w2.len() ==> s.translate(#[trigger] w2[j]) == s0.translate(w2[j]),
{
    reveal(writable_at);
    let all = wp + w2;
    assert forall|j: int| 0 <= j < w2.len() implies !in_areas(areas, k, #[trigger] w2[j])
        && s.translate(w2[j]) == s0.translate(w2[j]) && page_base(w2[j]) == w2[j] by {
        lemma_aligned_base(w2[j]);
        if in_areas(areas, k, w2[j]) {
            lemma_write_protect_read_only(s0.translate(w2[j]));
        }
    }
    assert forall|j: int| 0 <= j < all.len() implies (#[trigger] all[j]) % 4096 == 0 && all[j] < 0x8000_0000_0000
        && in_areas(areas, k + 1, all[j]) && writable_at(s0, all[j]) by {
        if j < wp.len() {
            assert(all[j] == wp[j]);
            let i = choose|i: int| 0 <= i < k && (#[trigger] areas[i]).0 <= page_base(wp[j]) < areas[i].1;
            assert(0 <= i < k + 1);
        } else {
            let m = j - wp.len();
            assert(all[j] == w2[m]);
            assert(areas[k].0 <= page_base(w2[m]) < areas[k].1);
        }
    }
    assert forall|i: int, j: int| 0 <= i < j < all.len() implies #[trigger] all[i] != #[trigger] all[j] by {
        if j < wp.len() {
            assert(all[i] == wp[i] && all[j] == wp[j]);
        } else if i >= wp.len() {
            assert(all[i] == w2[i - wp.len()] && all[j] == w2[j - wp.len()]);
        } else {
            assert(all[i] == wp[i] && all[j] == w2[j - wp.len()]);
            assert(in_areas(areas, k, wp[i]));
            assert(!in_areas(areas, k, w2[j - wp.len()]));
        }
    }
    assert forall|a: u64| a % 4096 == 0 && a < 0x8000_0000_0000 && in_areas(areas, k + 1, a) && #[trigger] writable_at(s0, a)
        implies all.contains(a) by {
        lemma_aligned_base(a);
        if in_areas(areas, k, a) {
            let m = choose|m: int| 0 <= m < wp.len() && wp[m] == a;
            assert(all[m] == a);
        } else {
            let i = choose|i: int| 0 <= i < k + 1 && (#[trigger] areas[i]).0 <= page_base(a) < areas[i].1;
            assert(i == k);
            assert(s.translate(a) == s0.translate(a));
            assert(writable_at(s, a));
            let m = choose|m: int| 0 <= m < w2.len() && w2[m] == a;
            assert(all[wp.len() + m] == a);
        }
    }
}

/// Adding, modulo 2^32, the references of a second list to those of a
/// first.
proof fn lemma_refs_step_areas(rc0: Seq<Page>, rc1: Seq<Page>, rc2: Seq<Page>, s0: PageTables, s: PageTables,
    wp: Seq<u64>, w2: Seq<u64>)
    requires
        refs_added(rc0, rc1, s0, wp),
        refs_added(rc1, rc2, s, w2),
        forall|j: int| 0 <= j < w2.len() ==> s.translate(#[trigger] w2[j]) == s0.translate(w2[j]),
    ensures
        refs_added(rc0, rc2, s0, wp + w2),
{
    assert forall|p: int| 0 <= p < rc2.len() implies {
        &&& #[trigger] rc2[p].flags == rc0[p].flags
        &&& rc2[p].refcount == (rc0[p].refcount + desc_refs(s0, wp + w2, p)) % 0x1_0000_0000
    } by {
        assert(rc1[p].flags == rc0[p].flags);
        assert(rc2[p].flags == rc1[p].flags);
        lemma_refs_same(s, s0, w2, p);
        lemma_refs_concat(s0, wp, w2, p);
        let m = 0x1_0000_0000int;
        let x = rc0[p].refcount + desc_refs(s0, wp, p);
        let y = desc_refs(s0, w2, p) as int;
        assert(rc1[p].refcount == x % m);
        assert(rc2[p].refcount == (rc1[p].refcount + y) % m);
        vstd::arithmetic::div_mod::lemma_add_mod_noop(x, y, m);
        vstd::arithmetic::div_mod::lemma_add_mod_noop(x % m, y, m);
        vstd::arithmetic::div_mod::lemma_mod_twice(x, m);
        assert((x % m + y) % m == (x + y) % m);
        assert(desc_refs(s0, wp + w2, p) == x - rc0[p].refcount + y);
    }
}


/// What copying an address space for a clone gives.
pub enum SpaceCopy {
    /// The clone shares the address space of its parent.
    Shared,
    /// New tables for the clone, and the pages write-protected in both.
    Copied(PageTables, Vec<u64>),
    /// No frame was left for a table.
    OutOfTables,
}

/// Copies the address space whose tables are `src` and whose areas are
/// `areas` for a clone with the flags `clone_flags`.  With `CLONE_VM` the
/// clone shares it: the frame of the level-4 table (descriptor
/// `src_pml4_desc`) gains a reference.  Otherwise new tables are made and
/// every area is copied into them in turn as `x86_64_copy_pml4` copies it;
/// the new tables map nothing outside the areas.  Running out of frames
/// for tables (more than 2^36 of them) stops the copy.
pub fn copy_page_table(src: &mut PageTables, areas: &Vec<(u64, u64)>, clone_flags: u64, mem_map: &mut Vec<Page>,
    src_pml4_desc: usize) -> (r: SpaceCopy)
    requires
        old(src).wf(),
        clone_flags & CLONE_VM != 0 ==> src_pml4_desc < old(mem_map)@.len(),
        clone_flags & CLONE_VM == 0 ==> forall|i: int| 0 <= i < areas@.len()
            ==> (#[trigger] areas@[i]).0 % 4096 == 0 && areas@[i].1 <= 0x8000_0000_0000,
        clone_flags & CLONE_VM == 0 ==> forall|u: u64| in_areas(areas@, areas@.len() as int, u)
            && entry_writable(#[trigger] old(src).translate(u)) ==> leaf_desc(old(src).translate(u)) < old(mem_map)@.len(),
    ensures
        clone_flags & CLONE_VM != 0 ==> {
            &&& r is Shared
            &&& *final(src) == *old(src)
            &&& final(mem_map)@ == old(mem_map)@.update(src_pml4_desc as int, Page {
                    refcount: old(mem_map)@[src_pml4_desc as int].refcount.wrapping_add(1),
                    flags: old(mem_map)@[src_pml4_desc as int].flags,
                })
        },
        clone_flags & CLONE_VM == 0 ==> final(src).wf() && match r {
            SpaceCopy::Copied(d, wp) => {
                &&& d.wf()
                &&& forall|u: u64| #[trigger] d.translate(u) != 0 ==> d.walk_open(u)
                &&& space_copied(*old(src), d, *final(src), areas@, areas@.len() as int)
                &&& space_protected(*old(src), wp@, areas@, areas@.len() as int)
                &&& refs_added(old(mem_map)@, final(mem_map)@, *old(src), wp@)
            },
            SpaceCopy::OutOfTables => true,
            SpaceCopy::Shared => false,
        },
{
    if clone_flags & CLONE_VM != 0 {
        let mut page = mem_map[src_pml4_desc];
        page.refcount = page.refcount.wrapping_add(1);
        mem_map.set(src_pml4_desc, page);
        return SpaceCopy::Shared;
    }
    let ghost s0 = *src;
    let ghost rc0 = mem_map@;
    let mut dst = PageTables::new();
    let mut wp: Vec<u64> = Vec::new();
    proof {
        assert forall|p: int| 0 <= p < rc0.len() implies {
            &&& #[trigger] rc0[p].flags == rc0[p].flags
            &&& rc0[p].refcount == (rc0[p].refcount + desc_refs(s0, wp@, p)) % 0x1_0000_0000
        } by {
            vstd::arithmetic::div_mod::lemma_small_mod(rc0[p].refcount as nat, 0x1_0000_0000);
        }
        assert forall|u: u64| !in_areas(areas@, 0, u) implies {
            &&& #[trigger] src.translate(u) == s0.translate(u)
            &&& dst.translate(u) == 0
        } by {
        }
    }
    let mut k: usize = 0;
    while k < areas.len()
        invariant
            k <= areas@.len(),
            clone_flags & CLONE_VM == 0,
            dst.wf(),
            src.wf(),
            s0.wf(),
            space_copied(s0, dst, *src, areas@, k as int),
            space_protected(s0, wp@, areas@, k as int),
            refs_added(rc0, mem_map@, s0, wp@),
            forall|i: int| 0 <= i < areas@.len() ==> (#[trigger] areas@[i]).0 % 4096 == 0 && areas@[i].1 <= 0x8000_0000_0000,
            forall|u: u64| in_areas(areas@, areas@.len() as int, u)
                && entry_writable(#[trigger] s0.translate(u)) ==> leaf_desc(s0.translate(u)) < rc0.len(),
        decreases areas@.len() - k,
    {
        let (start, end) = areas[k];
        assert(areas@[k as int] == (start, end));
        let pages: u64 = if end > start { (end - start) / 4096 } else { 0 };
        let n: usize = dst.frame_count();
        if n as u64 + 3 * (pages + 3) >= 0x10_0000_0000 {
            return SpaceCopy::OutOfTables;
        }
        let ghost d1 = dst;
        let ghost s1 = *src;
        let ghost rc1 = mem_map@;
        proof {
            assert forall|u: u64| start <= page_base(u) < end && entry_writable(#[trigger] s1.translate(u))
                implies leaf_desc(s1.translate(u)) < rc1.len() by {
                assert(in_areas(areas@, areas@.len() as int, u)) by {
                    assert(0 <= k < areas@.len() && areas@[k as int].0 <= page_base(u) < areas@[k as int].1);
                }
                if in_areas(areas@, k as int, u) {
                    assert(d1.translate(u) == write_protect(s0.translate(u)));
                    assert(s1.translate(u) == write_protect(s0.translate(u)));
                    lemma_write_protect_read_only(s0.translate(u));
                } else {
                    assert(s1.translate(u) == s0.translate(u));
                }
            }
        }
        let mut w2 = x86_64_copy_pml4(&mut dst, src, start, end, mem_map);
        proof {
            lemma_space_step(s0, d1, s1, dst, *src, areas@, k as int);
            assert forall|u: u64| in_areas(areas@, k as int, u) implies #[trigger] s1.translate(u) == write_protect(s0.translate(u)) by {
                assert(d1.translate(u) == write_protect(s0.translate(u)));
            }
            lemma_space_protected_step(s0, s1, wp@, w2@, areas@, k as int);
            lemma_refs_step_areas(rc0, rc1, mem_map@, s0, s1, wp@, w2@);
        }
        wp.append(&mut w2);
        k += 1;
    }
    proof {
        assert forall|u: u64| #[trigger] dst.translate(u) != 0 implies dst.walk_open(u) by {
            dst.lemma_walk_open(u);
        }
    }
    SpaceCopy::Copied(dst, wp)
}

} // verus!
