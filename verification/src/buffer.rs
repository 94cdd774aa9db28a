use vstd::prelude::*;
use std::collections::BTreeMap;
use crate::device::DevT;

verus! {

broadcast use vstd::laws_cmp::group_laws_cmp;

/// A block buffer: the device and block it holds, its bytes, how many
/// users hold it, whether its bytes were read from the device, and whether
/// they were changed since.
pub struct Buffer {
    pub dev: DevT,
    pub idx: u64,
    pub data: Vec<u8>,
    pub count: usize,
    pub avaliable: bool,
    pub dirty: bool,
}

impl Buffer {
    /// A buffer of `buffer_size` bytes, held once, not yet read, for block
    /// 0 of device 0. (Its bytes have no meaning until it is read.)
    pub fn new(buffer_size: usize) -> (b: Buffer)
        ensures
            b.data@.len() == buffer_size,
            b.count == 1,
            !b.avaliable,
            !b.dirty,
            b.dev == 0,
            b.idx == 0,
    {
        Buffer { dev: 0, idx: 0, data: vec![0u8; buffer_size], count: 1, avaliable: false, dirty: false }
    }

    /// The block the buffer holds.
    pub fn get_idx(&self) -> (i: u64)
        ensures
            i == self.idx,
    {
        self.idx
    }

    /// Sets the block the buffer holds.
    pub fn set_idx(&mut self, idx: u64)
        ensures
            final(self).idx == idx,
            final(self).dev == old(self).dev,
            final(self).data@ == old(self).data@,
            final(self).count == old(self).count,
            final(self).avaliable == old(self).avaliable,
            final(self).dirty == old(self).dirty,
    {
        self.idx = idx;
    }

    /// The device the buffer reads from.
    pub fn get_dev(&self) -> (d: DevT)
        ensures
            d == self.dev,
    {
        self.dev
    }

    /// Sets the device the buffer reads from.
    pub fn set_dev(&mut self, dev: DevT)
        ensures
            final(self).dev == dev,
            final(self).idx == old(self).idx,
            final(self).data@ == old(self).data@,
            final(self).count == old(self).count,
            final(self).avaliable == old(self).avaliable,
            final(self).dirty == old(self).dirty,
    {
        self.dev = dev;
    }

    /// Whether the buffer's bytes were read from the device.
    pub fn is_avaliable(&self) -> (b: bool)
        ensures
            b == self.avaliable,
    {
        self.avaliable
    }

    /// Takes in the bytes the device answered a read with (as many as
    /// fit) and marks the buffer as read.
    pub fn read_from_device(&mut self, bytes: &[u8])
        ensures
            final(self).avaliable,
            final(self).data@.len() == old(self).data@.len(),
            forall|i: int| 0 <= i < old(self).data@.len() ==> #[trigger] final(self).data@[i]
                == if i < bytes@.len() { bytes@[i] } else { old(self).data@[i] },
            final(self).dev == old(self).dev,
            final(self).idx == old(self).idx,
            final(self).count == old(self).count,
            final(self).dirty == old(self).dirty,
    {
        let mut i: usize = 0;
        let n = self.data.len();
        while i < n && i < bytes.len()
            invariant
                i <= n,
                i <= bytes@.len(),
                n == old(self).data@.len(),
                self.data@.len() == n,
                forall|k: int| 0 <= k < i ==> #[trigger] self.data@[k] == bytes@[k],
                forall|k: int| i <= k < n ==> #[trigger] self.data@[k] == old(self).data@[k],
                self.dev == old(self).dev,
                self.idx == old(self).idx,
                self.count == old(self).count,
                self.dirty == old(self).dirty,
                self.avaliable == old(self).avaliable,
            decreases n - i,
        {
            self.data.set(i, bytes[i]);
            i += 1;
        }
        self.avaliable = true;
    }

    /// Copies `len` bytes from byte `offset` of the buffer to the front of
    /// `dst`. The buffer must have been read, and the bytes must lie in it.
    pub fn read_from_buffer(&self, dst: &mut [u8], offset: usize, len: usize)
        requires
            self.avaliable,
            len + offset <= self.data@.len(),
            len <= old(dst)@.len(),
        ensures
            final(dst)@.len() == old(dst)@.len(),
            forall|i: int| 0 <= i < len ==> #[trigger] final(dst)@[i] == self.data@[offset + i],
            forall|i: int| len <= i < old(dst)@.len() ==> #[trigger] final(dst)@[i] == old(dst)@[i],
    {
        let mut i: usize = 0;
        let dlen = self.data.len();
        while i < len
            invariant
                i <= len,
                dlen == self.data@.len(),
                len + offset <= self.data@.len(),
                len <= dst@.len(),
                dst@.len() == old(dst)@.len(),
                forall|k: int| 0 <= k < i ==> #[trigger] dst@[k] == self.data@[offset + k],
                forall|k: int| i <= k < dst@.len() ==> #[trigger] dst@[k] == old(dst)@[k],
            decreases len - i,
        {
            dst[i] = self.data[offset + i];
            i += 1;
        }
    }
}

/// The block buffers of a mounted file system, by block number, and the
/// size of its logical blocks in KiB.
pub struct BufferCache {
    pub logic_block_size: i32,
    pub data_map: BTreeMap<u64, Buffer>,
}

impl BufferCache {
    /// The buffer for block `idx`, returned by the key it is kept under
    /// (`idx`): a buffer already there gains a holder; otherwise a new one of
    /// a logical block's size, held once, is made (its block and device
    /// fields are not set).
    pub fn get_buffer(&mut self, idx: u64) -> (key: u64)
        requires
            0 <= old(self).logic_block_size <= 0x10_0000,
            old(self).data_map@.contains_key(idx) ==> old(self).data_map@[idx].count < usize::MAX,
        ensures
            key == idx,
            final(self).logic_block_size == old(self).logic_block_size,
            final(self).data_map@.dom() == old(self).data_map@.dom().insert(idx),
            forall|k: u64| k != idx && #[trigger] old(self).data_map@.contains_key(k) ==> final(self).data_map@[k] == old(self).data_map@[k],
            old(self).data_map@.contains_key(idx) ==> {
                let b = old(self).data_map@[idx];
                let n = final(self).data_map@[idx];
                &&& n.count == b.count + 1
                &&& n.data@ == b.data@ && n.dev == b.dev && n.idx == b.idx
                &&& n.avaliable == b.avaliable && n.dirty == b.dirty
            },
            !old(self).data_map@.contains_key(idx) ==> {
                let n = final(self).data_map@[idx];
                &&& n.count == 1 && !n.avaliable && !n.dirty && n.dev == 0 && n.idx == 0
                &&& n.data@.len() == old(self).logic_block_size * 1024
            },
    {
        match self.data_map.remove(&idx) {
            Some(b) => {
                let mut b = b;
                b.count = b.count + 1;
                self.data_map.insert(idx, b);
            },
            None => {
                let size: usize = self.logic_block_size as usize * 1024;
                self.data_map.insert(idx, Buffer::new(size));
            },
        }
        proof {
            assert(self.data_map@.dom() =~= old(self).data_map@.dom().insert(idx));
        }
        idx
    }

    /// Gives back one hold of the buffer kept under `key`. When it was the
    /// last, the buffer is freed and the entry under its block number (its
    /// `idx` field) leaves the map; an entry under another key stays. The
    /// buffer must be held, and the last holder must not leave it changed
    /// (writing a buffer back is not written in this kernel).
    pub fn release_buffer(&mut self, key: u64)
        requires
            old(self).data_map@.contains_key(key),
            old(self).data_map@[key].count >= 1,
            old(self).data_map@[key].count == 1 ==> !old(self).data_map@[key].dirty,
        ensures
            final(self).logic_block_size == old(self).logic_block_size,
            ({
                let b = old(self).data_map@[key];
                &&& b.count > 1 ==> final(self).data_map@.dom() == old(self).data_map@.dom()
                        && final(self).data_map@[key].count == b.count - 1
                        && final(self).data_map@[key].data@ == b.data@
                        && forall|k: u64| k != key && #[trigger] old(self).data_map@.contains_key(k) ==> final(self).data_map@[k] == old(self).data_map@[k]
                &&& b.count == 1 ==> final(self).data_map@.dom() == old(self).data_map@.dom().remove(b.idx)
                        && forall|k: u64| k != b.idx && k != key && #[trigger] old(self).data_map@.contains_key(k) ==> final(self).data_map@[k] == old(self).data_map@[k]
                        && (b.idx != key ==> final(self).data_map@[key].count == 0)
            }),
    {
        let b = self.data_map.remove(&key);
        match b {
            Some(b) => {
                let mut b = b;
                b.count = b.count - 1;
                let done = b.count == 0;
                let bidx = b.idx;
                self.data_map.insert(key, b);
                if done {
                    self.data_map.remove(&bidx);
                }
                proof {
                    if !done {
                        assert(self.data_map@.dom() =~= old(self).data_map@.dom());
                    } else {
                        assert(self.data_map@.dom() =~= old(self).data_map@.dom().remove(bidx));
                    }
                }
            },
            None => {},
        }
    }
}

} // verus!
