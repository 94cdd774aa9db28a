use vstd::prelude::*;
use std::collections::BTreeMap;

verus! {

broadcast use vstd::laws_cmp::group_laws_cmp;

/// A counting lock that does not note its holder. The count is the number
/// of units still to be taken; a caller that holds the lock by `&mut` is
/// the only one that can change it.
pub struct UnreenterabkeSpinLock {
    counting: i64,
}

impl UnreenterabkeSpinLock {
    /// The units still to be taken.
    pub closed spec fn count(&self) -> int {
        self.counting as int
    }

    /// Takes `cnt` units. The count must not be negative, and `cnt` units
    /// must be there: nothing else can release them while the lock is
    /// borrowed, so the wait would never end.
    pub fn acquire(&mut self, cnt: i64)
        requires
            old(self).count() >= 0,
            old(self).count() - cnt >= 0,
            old(self).count() - cnt <= i64::MAX,
        ensures
            final(self).count() == old(self).count() - cnt,
    {
        let expect = self.counting;
        self.counting = expect - cnt;
    }

    /// Gives back `cnt` units; `cnt` must be positive.
    pub fn release(&mut self, cnt: i64)
        requires
            cnt > 0,
            old(self).count() + cnt <= i64::MAX,
        ensures
            final(self).count() == old(self).count() + cnt,
    {
        let expect = self.counting;
        self.counting = expect + cnt;
    }

    /// A lock with `start_cnt` units.
    pub fn new(start_cnt: i64) -> (l: Self)
        ensures
            l.count() == start_cnt,
    {
        UnreenterabkeSpinLock { counting: start_cnt }
    }
}

/// Taking `cnt` units from a lock that has them and giving them back
/// leaves its count as it was, and the giving back is always allowed.
pub proof fn lemma_acquire_then_release(l0: UnreenterabkeSpinLock, l1: UnreenterabkeSpinLock, l2: UnreenterabkeSpinLock, cnt: i64)
    requires
        cnt > 0,
        l0.count() >= cnt,
        l1.count() == l0.count() - cnt,
        l2.count() == l1.count() + cnt,
    ensures
        l1.count() + cnt <= i64::MAX,
        l2.count() == l0.count(),
{
    assert(l0.count() <= i64::MAX);
}

/// A counting lock that notes its holder, identified by the address of its
/// process control block (0 for none): the holder can take it again.
pub struct SpinLock {
    counting: i64,
    current_holder: u64,
}

impl SpinLock {
    /// The units still to be taken.
    pub closed spec fn count(&self) -> int {
        self.counting as int
    }

    /// The holder's process control block address, 0 for none.
    pub closed spec fn holder(&self) -> u64 {
        self.current_holder
    }

    /// Takes `cnt` units for the process at `current`. The holder takes one
    /// unit more whatever `cnt` is (the count wraps, as an atomic
    /// subtraction does); another process needs `cnt` units to be there,
    /// takes them and becomes the holder.
    pub fn acquire(&mut self, cnt: i64, current: u64)
        requires
            old(self).holder() != current ==> old(self).count() - cnt >= 0,
            old(self).holder() != current ==> old(self).count() - cnt <= i64::MAX,
        ensures
            old(self).holder() == current ==> final(self).count() == (if old(self).count() == i64::MIN { i64::MAX as int } else { old(self).count() - 1 })
                && final(self).holder() == current,
            old(self).holder() != current ==> final(self).count() == old(self).count() - cnt
                && final(self).holder() == current,
    {
        if self.current_holder == current {
            self.counting = self.counting.wrapping_sub(1);
            return;
        }
        let expect = self.counting;
        self.counting = expect - cnt;
        self.current_holder = current;
    }

    /// Gives back `cnt` units; `cnt` must be positive. The holder is kept.
    pub fn release(&mut self, cnt: i64)
        requires
            cnt > 0,
            old(self).count() + cnt <= i64::MAX,
        ensures
            final(self).count() == old(self).count() + cnt,
            final(self).holder() == old(self).holder(),
    {
        let expect = self.counting;
        self.counting = expect + cnt;
    }

    /// A lock with `start_cnt` units and no holder.
    pub fn new(start_cnt: i64) -> (l: SpinLock)
        ensures
            l.count() == start_cnt,
            l.holder() == 0,
    {
        SpinLock { counting: start_cnt, current_holder: 0 }
    }
}

impl Default for SpinLock {
    /// A lock at count zero and with no holder.
    fn default() -> (l: SpinLock)
        ensures
            l.count() == 0,
            l.holder() == 0,
    {
        SpinLock::new(0)
    }
}


/// The lock can be taken once more by the process at `current` without
/// waiting: it holds it already, or a unit is free; and its count is above
/// the least value.
pub open spec fn can_take(l: SpinLock, current: u64) -> bool {
    &&& l.count() > i64::MIN
    &&& l.holder() != current ==> l.count() >= 1
}

/// The record of readers after the process at `current` takes the lock
/// for reading once more.
pub open spec fn readers_after_rdlock(m: Map<u64, i64>, current: u64) -> Map<u64, i64> {
    m.insert(current, if m.contains_key(current) { (m[current] + 1) as i64 } else { 1i64 })
}

/// The record of readers after the process at `current` gives back one
/// read.
pub open spec fn readers_after_rdunlock(m: Map<u64, i64>, current: u64) -> Map<u64, i64> {
    if m[current] == 1 { m.remove(current) } else { m.insert(current, (m[current] - 1) as i64) }
}

/// Taking the lock for reading and giving the read back leaves the record
/// of readers as it was.
pub proof fn lemma_rdlock_then_rdunlock(m: Map<u64, i64>, current: u64)
    requires
        m.contains_key(current) ==> 0 < m[current] < i64::MAX,
    ensures
        readers_after_rdunlock(readers_after_rdlock(m, current), current) == m,
{
    let l = readers_after_rdlock(m, current);
    if m.contains_key(current) {
        assert(l[current] == m[current] + 1);
        assert(readers_after_rdunlock(l, current) =~= m);
    } else {
        assert(l[current] == 1);
        assert(readers_after_rdunlock(l, current) =~= m);
    }
}

/// A readers-writer lock: how many times each process (by the address of
/// its control block) holds it for reading, the lock that guards that
/// record, and the lock that writers take.
pub struct RWLock {
    pub readers: BTreeMap<u64, i64>,
    pub change_mutex: SpinLock,
    pub writer_mutex: SpinLock,
}

impl RWLock {
    /// A lock with no reader and both inner locks free.
    pub fn new() -> (l: RWLock)
        ensures
            l.readers@ == Map::<u64, i64>::empty(),
            l.change_mutex.count() == 1 && l.change_mutex.holder() == 0,
            l.writer_mutex.count() == 1 && l.writer_mutex.holder() == 0,
    {
        RWLock { readers: BTreeMap::new(), change_mutex: SpinLock::new(1), writer_mutex: SpinLock::new(1) }
    }

    /// The process at `current` takes the lock for reading once more: its
    /// count of reads goes up by one (from none to one). Both inner locks
    /// are taken and given back, and are left noted as held by `current`.
    pub fn rdlock(&mut self, current: u64)
        requires
            can_take(old(self).writer_mutex, current),
            can_take(old(self).change_mutex, current),
            old(self).readers@.contains_key(current) ==> old(self).readers@[current] < i64::MAX,
        ensures
            final(self).readers@ == readers_after_rdlock(old(self).readers@, current),
            final(self).writer_mutex.count() == old(self).writer_mutex.count(),
            final(self).writer_mutex.holder() == current,
            final(self).change_mutex.count() == old(self).change_mutex.count(),
            final(self).change_mutex.holder() == current,
    {
        self.writer_mutex.acquire(1, current);
        self.change_mutex.acquire(1, current);
        match self.readers.get(&current) {
            Some(c) => {
                let n = *c + 1;
                self.readers.insert(current, n);
            },
            None => {
                self.readers.insert(current, 1);
            },
        }
        self.change_mutex.release(1);
        self.writer_mutex.release(1);
    }

    /// The process at `current` gives back one read of the lock: its count
    /// goes down by one, and it leaves the record at zero. It must hold the
    /// lock for reading.
    pub fn rdunlock(&mut self, current: u64)
        requires
            can_take(old(self).change_mutex, current),
            old(self).readers@.contains_key(current),
            old(self).readers@[current] > i64::MIN,
        ensures
            final(self).readers@ == readers_after_rdunlock(old(self).readers@, current),
            final(self).change_mutex.count() == old(self).change_mutex.count(),
            final(self).change_mutex.holder() == current,
            final(self).writer_mutex == old(self).writer_mutex,
    {
        self.change_mutex.acquire(1, current);
        match self.readers.get(&current) {
            Some(c) => {
                let n = *c - 1;
                if n == 0 {
                    self.readers.remove(&current);
                } else {
                    self.readers.insert(current, n);
                }
            },
            None => {},
        }
        self.change_mutex.release(1);
    }

    /// The process at `current` takes the lock for writing: the writer lock,
    /// then the record lock, both kept. A writer that also reads waits
    /// until it is the only reader, so it must be.
    pub fn wrlock(&mut self, current: u64)
        requires
            can_take(old(self).writer_mutex, current),
            can_take(old(self).change_mutex, current),
            old(self).readers@.contains_key(current) ==> old(self).readers@.len() == 1,
        ensures
            final(self).readers@ == old(self).readers@,
            final(self).writer_mutex.count() == old(self).writer_mutex.count() - 1,
            final(self).writer_mutex.holder() == current,
            final(self).change_mutex.count() == old(self).change_mutex.count() - 1,
            final(self).change_mutex.holder() == current,
    {
        self.writer_mutex.acquire(1, current);
        self.change_mutex.acquire(1, current);
    }

    /// The writer gives the lock back: both inner locks gain their unit.
    pub fn wrunlock(&mut self)
        requires
            old(self).writer_mutex.count() < i64::MAX,
            old(self).change_mutex.count() < i64::MAX,
        ensures
            final(self).readers@ == old(self).readers@,
            final(self).writer_mutex.count() == old(self).writer_mutex.count() + 1,
            final(self).change_mutex.count() == old(self).change_mutex.count() + 1,
            final(self).writer_mutex.holder() == old(self).writer_mutex.holder(),
            final(self).change_mutex.holder() == old(self).change_mutex.holder(),
    {
        self.writer_mutex.release(1);
        self.change_mutex.release(1);
    }
}

} // verus!
