//! The directory-entry cache: entries named by their index in the cache,
//! each with its children by name.

use vstd::prelude::*;
use crate::fs_context::str_eq;

verus! {

/// The directory bit of an inode mode.
pub const IFDIR: u16 = 0o40000;

/// A cached directory entry.  `d_inode` holds the mode of the inode the
/// entry names, once it has one; `d_parent` and the children are indices
/// of entries of the same cache.
pub struct DEntry {
    pub d_flags: u32,
    pub d_parent: Option<usize>,
    pub d_inode: Option<u16>,
    pub d_children: Vec<(String, usize)>,
    pub d_ref: i64,
}

/// What a look-up of a name among an entry's children found.
pub enum LookUp {
    /// The child with that name.
    Found(usize),
    /// The entry is a directory whose children were never read: they are
    /// to be loaded from its inode and the name looked up again.
    Load,
    /// There is no child with that name.
    Missing,
}

impl DEntry {
    /// No two children share a name.
    pub closed spec fn wf(&self) -> bool {
        forall|i: int, j: int| 0 <= i < j < self.d_children@.len()
            ==> #[trigger] self.d_children@[i].0@ != #[trigger] self.d_children@[j].0@
    }

    /// The child named `name`, if there is one.
    pub closed spec fn child(&self, name: Seq<char>) -> Option<usize> {
        if exists|k: int| 0 <= k < self.d_children@.len() && #[trigger] self.d_children@[k].0@ == name {
            let k = choose|k: int| 0 <= k < self.d_children@.len() && #[trigger] self.d_children@[k].0@ == name;
            Some(self.d_children@[k].1)
        } else {
            None
        }
    }

    /// A child found by name is one of the children.
    pub proof fn lemma_child_in(&self, name: Seq<char>)
        ensures
            self.child(name) matches Some(c) ==> exists|k: int| 0 <= k < self.d_children@.len()
                && #[trigger] self.d_children@[k].1 == c,
            self.look_up_result(name) matches LookUp::Found(c) ==> exists|k: int| 0 <= k < self.d_children@.len()
                && #[trigger] self.d_children@[k].1 == c,
    {
    }

    /// The number of children.
    pub closed spec fn child_count(&self) -> nat {
        self.d_children@.len()
    }

    /// The inode the entry names is a directory (its mode has the directory
    /// bit).
    pub closed spec fn spec_is_dir(&self) -> bool {
        self.d_inode.unwrap() & IFDIR != 0
    }

    /// What `look_up` finds for `name`.
    pub closed spec fn look_up_result(&self, name: Seq<char>) -> LookUp {
        match self.child(name) {
            Some(c) => LookUp::Found(c),
            None => if self.child_count() == 0 && self.spec_is_dir() { LookUp::Load } else { LookUp::Missing },
        }
    }

    /// A new entry under `parent`: one reference, no inode, no children.
    pub fn empty(parent: Option<usize>) -> (d: DEntry)
        ensures
            d.wf(),
            d.d_parent == parent,
            d.d_inode.is_none(),
            d.d_flags == 0,
            d.d_ref == 1,
            d.child_count() == 0,
            forall|name: Seq<char>| d.child(name).is_none(),
    {
        DEntry { d_flags: 0, d_parent: parent, d_inode: None, d_children: Vec::new(), d_ref: 1 }
    }

    /// Takes one more reference to the entry (wrapping as the atomic
    /// counter does).
    pub fn dget(&mut self)
        ensures
            final(self).d_ref == old(self).d_ref.wrapping_add(1),
            final(self).d_flags == old(self).d_flags,
            final(self).d_parent == old(self).d_parent,
            final(self).d_inode == old(self).d_inode,
            final(self).d_children == old(self).d_children,
    {
        self.d_ref = self.d_ref.wrapping_add(1);
    }

    /// Drops one reference to the entry; gives whether it was the last one,
    /// after which the caller releases the entry.
    pub fn dput(&mut self) -> (last: bool)
        ensures
            final(self).d_ref == old(self).d_ref.wrapping_sub(1),
            last == (old(self).d_ref == 1),
            final(self).d_flags == old(self).d_flags,
            final(self).d_parent == old(self).d_parent,
            final(self).d_inode == old(self).d_inode,
            final(self).d_children == old(self).d_children,
    {
        let prev = self.d_ref;
        self.d_ref = prev.wrapping_sub(1);
        prev == 1
    }

    /// Whether the entry is a directory whose children were never read
    /// (it has none yet).
    pub fn unloaded(&self) -> (b: bool)
        requires
            self.child_count() > 0 || self.d_inode.is_some(),
        ensures
            b == (self.child_count() == 0 && self.spec_is_dir()),
    {
        self.d_children.len() == 0 && self.is_dir()
    }

    /// Whether the inode the entry names is a directory.
    pub fn is_dir(&self) -> (b: bool)
        requires
            self.d_inode.is_some(),
        ensures
            b == self.spec_is_dir(),
    {
        match self.d_inode {
            Some(mode) => mode & IFDIR != 0,
            None => false,
        }
    }

    /// The index of the child named `name`, if there is one.
    fn find_child(&self, name: &String) -> (r: Option<usize>)
        requires
            self.wf(),
        ensures
            r.is_some() ==> r.unwrap() < self.d_children@.len() && self.d_children@[r.unwrap() as int].0@ == name@,
            r.is_none() ==> forall|k: int| 0 <= k < self.d_children@.len() ==> #[trigger] self.d_children@[k].0@ != name@,
    {
        let n = self.d_children.len();
        let mut k: usize = 0;
        while k < n
            invariant
                n == self.d_children@.len(),
                k <= n,
                forall|j: int| 0 <= j < k ==> #[trigger] self.d_children@[j].0@ != name@,
            decreases n - k,
        {
            if str_eq(self.d_children[k].0.as_str(), name.as_str()) {
                return Some(k);
            }
            k += 1;
        }
        None
    }

    /// Looks `name` up among the children: the child with that name, or,
    /// for a directory whose children were never read, the word to load
    /// them and look again; else nothing.
    pub fn look_up(&self, name: &String) -> (r: LookUp)
        requires
            self.wf(),
            self.child_count() > 0 || self.d_inode.is_some(),
        ensures
            r == self.look_up_result(name@),
    {
        match self.find_child(name) {
            Some(k) => {
                let c = self.d_children[k].1;
                proof {
                    assert(self.d_children@[k as int].0@ == name@);
                    let j = choose|j: int| 0 <= j < self.d_children@.len() && #[trigger] self.d_children@[j].0@ == name@;
                    if j != k {
                        if j < k {
                            assert(self.d_children@[j].0@ != self.d_children@[k as int].0@);
                        } else {
                            assert(self.d_children@[k as int].0@ != self.d_children@[j].0@);
                        }
                    }
                }
                LookUp::Found(c)
            },
            None => {
                if self.d_children.len() == 0 && self.is_dir() {
                    LookUp::Load
                } else {
                    LookUp::Missing
                }
            },
        }
    }

    /// Makes a new entry named `name` under the entry `parent` of `cache`:
    /// it is put at the end of the cache and becomes the parent's child by
    /// that name, in place of any child the name had.  Gives its index.
    pub fn new_child(cache: &mut Vec<DEntry>, parent: usize, name: &String) -> (c: usize)
        requires
            parent < old(cache)@.len(),
            old(cache)@[parent as int].wf(),
        ensures
            c == old(cache)@.len(),
            final(cache)@.len() == old(cache)@.len() + 1,
            final(cache)@[c as int].d_parent == Some(parent),
            final(cache)@[c as int].d_inode.is_none(),
            final(cache)@[c as int].d_ref == 1,
            final(cache)@[c as int].child_count() == 0,
            final(cache)@[c as int].wf(),
            final(cache)@[parent as int].wf(),
            final(cache)@[parent as int].child(name@) == Some(c),
            forall|other: Seq<char>| other != name@
                ==> #[trigger] final(cache)@[parent as int].child(other) == old(cache)@[parent as int].child(other),
            final(cache)@[parent as int].d_ref == old(cache)@[parent as int].d_ref,
            final(cache)@[parent as int].d_inode == old(cache)@[parent as int].d_inode,
            final(cache)@[parent as int].d_parent == old(cache)@[parent as int].d_parent,
            forall|i: int| 0 <= i < old(cache)@.len() && i != parent ==> #[trigger] final(cache)@[i] == old(cache)@[i],
    {
        let c = cache.len();
        let child = DEntry::empty(Some(parent));
        cache.push(child);
        let ghost before = cache@[parent as int].d_children@;
        let mut p = DEntry::empty(None);
        std::mem::swap(&mut p, &mut cache[parent]);
        assert(p.d_children@ == before);
        let ghost mut wk: int = 0;
        match p.find_child(name) {
            Some(k) => {
                let entry_name = p.d_children[k].0.clone();
                p.d_children.set(k, (entry_name, c));
                proof {
                    let ch = p.d_children@;
                    wk = k as int;
                    assert(ch[k as int].0@ == name@);
                    assert forall|i: int, j: int| 0 <= i < j < ch.len() implies #[trigger] ch[i].0@ != #[trigger] ch[j].0@ by {
                        assert(before[i].0@ != before[j].0@);
                    }
                }
            },
            None => {
                p.d_children.push((name.clone(), c));
                proof {
                    let ch = p.d_children@;
                    wk = before.len() as int;
                    assert(ch[wk].0@ == name@);
                    assert forall|i: int, j: int| 0 <= i < j < ch.len() implies #[trigger] ch[i].0@ != #[trigger] ch[j].0@ by {
                        if j < before.len() {
                            assert(before[i].0@ != before[j].0@);
                        } else {
                            assert(before[i].0@ != name@);
                        }
                    }
                }
            },
        }
        proof {
            let ch = p.d_children@;
            let old_ch = before;
            assert(ch[wk].0@ == name@ && ch[wk].1 == c);
            let kk = choose|k: int| 0 <= k < ch.len() && #[trigger] ch[k].0@ == name@ && ch[k].1 == c;
            let k2 = choose|k: int| 0 <= k < ch.len() && #[trigger] ch[k].0@ == name@;
            if k2 != kk {
                if k2 < kk { assert(ch[k2].0@ != ch[kk].0@); } else { assert(ch[kk].0@ != ch[k2].0@); }
            }
            assert forall|other: Seq<char>| other != name@ implies #[trigger] p.child(other) == old(cache)@[parent as int].child(other) by {
                if exists|k: int| 0 <= k < old_ch.len() && #[trigger] old_ch[k].0@ == other {
                    let a = choose|k: int| 0 <= k < old_ch.len() && #[trigger] old_ch[k].0@ == other;
                    assert(ch[a].0@ == other);
                    let b = choose|k: int| 0 <= k < ch.len() && #[trigger] ch[k].0@ == other;
                    if b != a {
                        if b < a { assert(ch[b].0@ != ch[a].0@); } else { assert(ch[a].0@ != ch[b].0@); }
                    }
                } else {
                    if exists|k: int| 0 <= k < ch.len() && #[trigger] ch[k].0@ == other {
                        let b = choose|k: int| 0 <= k < ch.len() && #[trigger] ch[k].0@ == other;
                        assert(b < old_ch.len());
                        assert(old_ch[b].0@ == other);
                    }
                }
            }
        }
        std::mem::swap(&mut p, &mut cache[parent]);
        c
    }
}

/// A child made under a name is what a look-up of that name finds.
pub proof fn lemma_look_up_after_new_child(d: DEntry, name: Seq<char>, c: usize)
    requires
        d.wf(),
        d.child(name) == Some(c),
    ensures
        d.look_up_result(name) == LookUp::Found(c),
{
}

} // verus!
