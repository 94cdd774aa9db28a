use vstd::prelude::*;
use std::collections::BTreeMap;
use crate::device::{DevT, DEV_NAME_LEN, DEV_CMD_SECTOR_START, DEV_CMD_SECTOR_COUNT, major, minor, mkdev, spec_major, spec_minor, spec_mkdev};
use crate::list::ListHead;

verus! {

broadcast use vstd::laws_cmp::group_laws_cmp;

/// The direction of a device request.
#[derive(Clone, Copy)]
pub enum DevReqType {
    Read,
    Write,
}

/// A request to a block device. `list_node` links it into its device's
/// queue; the links are the addresses of other requests, 0 for none.
#[derive(Clone, Copy)]
pub struct RequestDescriptor {
    pub dev_idx: DevT,
    pub req_type: DevReqType,
    pub idx: usize,
    pub count: usize,
    pub buffer: usize,
    pub flags: u32,
    pub process: usize,
    pub list_node: ListHead,
}

/// Which operations a driver offers: read, write, ioctl, and an order of
/// its own for queued requests.
#[derive(Clone, Copy)]
pub struct Driver {
    pub read: bool,
    pub write: bool,
    pub ioctl: bool,
    pub req_priority: bool,
}

/// An installed device: its name (NUL padded), number, flags, parent
/// device (0 for none), the address of its driver's data, and the head of
/// its request queue.
#[derive(Clone, Copy)]
pub struct Device {
    pub name: [u8; 64],
    pub dev: DevT,
    pub flags: u32,
    pub parent: DevT,
    pub ptr: usize,
    pub request_list: ListHead,
}

/// The installed devices, by major number and then by minor number, and
/// the registered drivers, by major number.
pub struct DeviceTable {
    pub devices: BTreeMap<u32, Vec<Device>>,
    pub drivers: BTreeMap<u32, Driver>,
}

/// A device name as stored: the bytes of `name`, then NUL bytes up to
/// `DEV_NAME_LEN`.
pub open spec fn padded_name(name: Seq<u8>) -> Seq<u8> {
    Seq::new(64, |i: int| if i < name.len() { name[i] } else { 0u8 })
}

impl DeviceTable {
    /// The devices installed under the major number `ma`, none when it
    /// has no list.
    pub open spec fn devices_of(&self, ma: u32) -> Seq<Device> {
        if self.devices@.contains_key(ma) { self.devices@[ma]@ } else { Seq::empty() }
    }

    /// The device with number `dev`, if one is installed.
    pub open spec fn device_at(&self, dev: u32) -> Option<Device> {
        let list = self.devices_of(spec_major(dev));
        if spec_minor(dev) < list.len() { Some(list[spec_minor(dev) as int]) } else { None }
    }

    /// A table with no device and no driver.
    pub fn new() -> (t: DeviceTable)
        ensures
            t.devices@ == Map::<u32, Vec<Device>>::empty(),
            t.drivers@ == Map::<u32, Driver>::empty(),
    {
        DeviceTable { devices: BTreeMap::new(), drivers: BTreeMap::new() }
    }

    /// The device with number `dev_t`, if one is installed.
    pub fn get_device(&self, dev_t: DevT) -> (r: Option<&Device>)
        ensures
            match r {
                Some(d) => self.device_at(dev_t) == Some(*d),
                None => self.device_at(dev_t).is_none(),
            },
    {
        let ma = major(dev_t);
        match self.devices.get(&ma) {
            Some(dev_list) => {
                let mi = minor(dev_t);
                if dev_list.len() > mi as usize {
                    Some(&dev_list[mi as usize])
                } else {
                    None
                }
            },
            None => None,
        }
    }

    /// Registers the driver of major number `dev_no`, replacing any
    /// driver registered before.
    pub fn regist_device(&mut self, dev_no: DevT, ioctl_fn: bool, read_fn: bool, write_fn: bool, priority_fn: bool)
        ensures
            final(self).drivers@ == old(self).drivers@.insert(dev_no,
                Driver { read: read_fn, write: write_fn, ioctl: ioctl_fn, req_priority: priority_fn }),
            final(self).devices@ == old(self).devices@,
    {
        let driver = Driver { read: read_fn, write: write_fn, ioctl: ioctl_fn, req_priority: priority_fn };
        self.drivers.insert(dev_no, driver);
    }

    /// Installs a device under the major number `dev_no`, with the next
    /// free minor number, the given name (UTF-8, at most `DEV_NAME_LEN`
    /// bytes), parent, flags and driver data, and an empty request queue.
    /// Returns its device number.
    pub fn device_install(&mut self, dev_no: DevT, ptr: usize, name: &[u8], parent: DevT, flags: u32) -> (dev: DevT)
        requires
            name@.len() <= DEV_NAME_LEN,
            vstd::utf8::valid_utf8(name@),
        ensures
            ({
                let old_list = old(self).devices_of(dev_no);
                let d = Device {
                    name: final(self).devices@[dev_no]@.last().name,
                    dev: spec_mkdev(dev_no, old_list.len() as u32),
                    flags,
                    parent,
                    ptr,
                    request_list: ListHead { next: 0, prev: 0 },
                };
                &&& dev == spec_mkdev(dev_no, old_list.len() as u32)
                &&& final(self).devices@ == old(self).devices@.insert(dev_no, final(self).devices@[dev_no])
                &&& final(self).devices@[dev_no]@ == old_list.push(d)
                &&& d.name@ == padded_name(name@)
                &&& dev_no < 4096 && old_list.len() < 0x100000 ==> final(self).device_at(dev) == Some(d)
            }),
            final(self).drivers@ == old(self).drivers@,
    {
        let mut target_list: Vec<Device> = match self.devices.remove(&dev_no) {
            Some(list) => list,
            None => Vec::new(),
        };
        let ghost old_list = target_list@;
        proof {
            assert(old_list == old(self).devices_of(dev_no));
        }
        let minor_no = target_list.len() as DevT;
        let mut device = Device {
            name: [0u8; 64],
            dev: mkdev(dev_no, minor_no),
            flags,
            parent,
            ptr,
            request_list: ListHead::empty(),
        };
        let mut i: usize = 0;
        while i < name.len()
            invariant
                name@.len() <= 64,
                i <= name@.len(),
                device.name@.len() == 64,
                forall|k: int| 0 <= k < i ==> #[trigger] device.name@[k] == name@[k],
                forall|k: int| i <= k < 64 ==> #[trigger] device.name@[k] == 0u8,
                device.dev == spec_mkdev(dev_no, minor_no),
                device.flags == flags,
                device.parent == parent,
                device.ptr == ptr,
                device.request_list.next == 0,
                device.request_list.prev == 0,
            decreases name@.len() - i,
        {
            device.name[i] = name[i];
            i += 1;
        }
        assert(device.name@ =~= padded_name(name@));
        let dev = mkdev(dev_no, minor_no);
        target_list.push(device);
        self.devices.insert(dev_no, target_list);
        proof {
            assert(self.devices@ =~= old(self).devices@.insert(dev_no, self.devices@[dev_no]));
            if dev_no < 4096 && old_list.len() < 0x100000 {
                crate::device::lemma_major_minor_of_mkdev(dev_no, minor_no);
                assert(self.devices_of(dev_no) == old_list.push(device));
            }
        }
        dev
    }

    /// The driver data of device `dev_t` when it is installed and its
    /// driver has an ioctl operation; `None` (answered with -1) otherwise.
    pub fn ioctl_target(&self, dev_t: DevT) -> (r: Option<usize>)
        ensures
            match r {
                Some(p) => self.device_at(dev_t) matches Some(d) && d.ptr == p
                    && self.drivers@.contains_key(spec_major(dev_t)) && self.drivers@[spec_major(dev_t)].ioctl,
                None => self.device_at(dev_t).is_none() || !self.drivers@.contains_key(spec_major(dev_t))
                    || !self.drivers@[spec_major(dev_t)].ioctl,
            },
    {
        match self.get_device(dev_t) {
            Some(device) => {
                match self.drivers.get(&major(dev_t)) {
                    Some(driver) => {
                        if driver.ioctl { Some(device.ptr) } else { None }
                    },
                    None => None,
                }
            },
            None => None,
        }
    }
}


/// The requests in `reqs` are addressed by their position plus one; 0 is
/// no request. `s` lists the positions of the queue that starts at the
/// address `first`, in order: each request links to the next, the last to
/// none, and no request comes twice.
pub open spec fn is_queue(reqs: Seq<RequestDescriptor>, first: usize, s: Seq<int>) -> bool {
    &&& (s.len() == 0) == (first == 0)
    &&& s.len() > 0 ==> first == s[0] + 1
    &&& forall|i: int| 0 <= i < s.len() ==> 0 <= #[trigger] s[i] < reqs.len()
    &&& forall|i: int| 0 <= i < s.len() - 1 ==> reqs[#[trigger] s[i]].list_node.next == s[i + 1] + 1
    &&& s.len() > 0 ==> reqs[s.last()].list_node.next == 0
    &&& forall|i: int, j: int| 0 <= i < j < s.len() ==> #[trigger] s[i] != #[trigger] s[j]
}

/// A queue is determined by its first address: two lists of positions
/// that both follow it are the same.
pub proof fn lemma_queue_unique(reqs: Seq<RequestDescriptor>, first: usize, s1: Seq<int>, s2: Seq<int>)
    requires
        is_queue(reqs, first, s1),
        is_queue(reqs, first, s2),
    ensures
        s1 == s2,
{
    if s1.len() > 0 {
        assert forall|i: int| 0 <= i < s1.len() && i < s2.len() implies s1[i] == s2[i] by {
            lemma_queue_prefix(reqs, first, s1, s2, i);
        }
        if s1.len() < s2.len() {
            let i = s1.len() - 1;
            lemma_queue_prefix(reqs, first, s1, s2, i);
            assert(reqs[s2[i]].list_node.next == s2[i + 1] + 1);
        }
        if s2.len() < s1.len() {
            let i = s2.len() - 1;
            lemma_queue_prefix(reqs, first, s1, s2, i);
            assert(reqs[s1[i]].list_node.next == s1[i + 1] + 1);
        }
        assert(s1 =~= s2);
    }
}

proof fn lemma_queue_prefix(reqs: Seq<RequestDescriptor>, first: usize, s1: Seq<int>, s2: Seq<int>, i: int)
    requires
        is_queue(reqs, first, s1),
        is_queue(reqs, first, s2),
        0 <= i < s1.len(),
        i < s2.len(),
    ensures
        s1[i] == s2[i],
    decreases i,
{
    if i > 0 {
        lemma_queue_prefix(reqs, first, s1, s2, i - 1);
        assert(reqs[s1[i - 1]].list_node.next == s1[i] + 1);
        assert(reqs[s2[i - 1]].list_node.next == s2[i] + 1);
    }
}

/// The first position below `n` whose request the new one goes before,
/// `n` when there is none.
pub open spec fn first_preferred(prefer: Seq<bool>, n: int) -> int
    decreases n,
{
    if n <= 0 {
        0
    } else if first_preferred(prefer, n - 1) < n - 1 {
        first_preferred(prefer, n - 1)
    } else if prefer[n - 1] {
        n - 1
    } else {
        n
    }
}

proof fn lemma_first_preferred(prefer: Seq<bool>, n: int)
    requires
        n >= 0,
    ensures
        0 <= first_preferred(prefer, n) <= n,
        forall|k: int| 0 <= k < first_preferred(prefer, n) ==> !#[trigger] prefer[k],
        first_preferred(prefer, n) < n ==> prefer[first_preferred(prefer, n)],
    decreases n,
{
    if n > 0 {
        lemma_first_preferred(prefer, n - 1);
    }
}

/// `reqs` with the next link of the request at position `i` set to `next`.
pub open spec fn with_next(reqs: Seq<RequestDescriptor>, i: int, next: usize) -> Seq<RequestDescriptor> {
    reqs.update(i, RequestDescriptor { list_node: ListHead { next, prev: reqs[i].list_node.prev }, ..reqs[i] })
}

/// `reqs` with the back link of the request at position `i` set to `prev`.
pub open spec fn with_prev(reqs: Seq<RequestDescriptor>, i: int, prev: usize) -> Seq<RequestDescriptor> {
    reqs.update(i, RequestDescriptor { list_node: ListHead { next: reqs[i].list_node.next, prev }, ..reqs[i] })
}

fn set_next(reqs: &mut Vec<RequestDescriptor>, i: usize, next: usize)
    requires
        i < old(reqs)@.len(),
    ensures
        final(reqs)@ == with_next(old(reqs)@, i as int, next),
{
    let mut r = reqs[i];
    r.list_node.next = next;
    reqs.set(i, r);
}

fn set_prev(reqs: &mut Vec<RequestDescriptor>, i: usize, prev: usize)
    requires
        i < old(reqs)@.len(),
    ensures
        final(reqs)@ == with_prev(old(reqs)@, i as int, prev),
{
    let mut r = reqs[i];
    r.list_node.prev = prev;
    reqs.set(i, r);
}

/// Queueing a new request after the last one of a queue and then taking
/// it out again leaves every other request's links as they were, when the
/// new request was not queued and had no successor.
pub proof fn lemma_insert_then_erase_at_tail(reqs: Seq<RequestDescriptor>, first: usize, s: Seq<int>, request: usize)
    requires
        is_queue(reqs, first, s),
        s.len() > 0,
        reqs.len() <= usize::MAX,
        1 <= request <= reqs.len(),
        !s.contains(request - 1),
        reqs[request - 1].list_node.next == 0,
    ensures
        ({
            let last = s.last();
            let inserted = with_prev(with_next(reqs, last, request), request - 1, (last + 1) as usize);
            let r = inserted[request - 1].list_node;
            let erased = if r.next == 0 { with_next(inserted, r.prev - 1, r.next) }
                else { with_prev(with_next(inserted, r.prev - 1, r.next), r.next - 1, r.prev) };
            &&& r.prev != 0
            &&& forall|i: int| 0 <= i < reqs.len() && i != request - 1 ==> #[trigger] erased[i] == reqs[i]
        }),
{
    let last = s.last();
    assert(0 <= last < reqs.len());
    assert(last != request - 1) by {
        assert(s[s.len() - 1] == last);
    }
    let w = with_next(reqs, last, request);
    let inserted = with_prev(w, request - 1, (last + 1) as usize);
    assert(w[request - 1] == reqs[request - 1]);
    let r = inserted[request - 1].list_node;
    assert(r.next == 0);
    assert(r.prev == last + 1);
    let erased = with_next(inserted, r.prev - 1, r.next);
    assert forall|i: int| 0 <= i < reqs.len() && i != request - 1 implies #[trigger] erased[i] == reqs[i] by {
        if i == last {
            assert(reqs[last].list_node.next == 0);
            assert(erased[i].list_node == reqs[i].list_node);
        }
    }
}

impl Device {
    /// The address of the first queued request, 0 for none.
    pub fn get_next_request(&self) -> (r: usize)
        ensures
            r == self.request_list.next,
    {
        self.request_list.next
    }

    /// Whether no request is queued.
    pub fn empty_req_list(&self) -> (b: bool)
        ensures
            b == (self.request_list.next == 0),
    {
        self.request_list.next == 0
    }

    /// Queues the request at address `request` when the device's driver
    /// is registered (`has_driver`), and says whether it was. An empty
    /// queue gets it as its first request. Otherwise the queue is walked
    /// from the front: `prefer[k]` is the driver's order (all false for a
    /// driver without one) on the `k`-th queued request and the new one.
    /// Where it holds, the request before that one is linked to the new
    /// request and that one is linked to itself and back to the new
    /// request, as this kernel does; where it never holds, the new request
    /// goes after the last one.
    pub fn insert_request(&mut self, reqs: &mut Vec<RequestDescriptor>, request: usize, has_driver: bool, prefer: &[bool]) -> (r: bool)
        requires
            1 <= request <= old(reqs)@.len(),
            has_driver && old(self).request_list.next != 0 ==> exists|s: Seq<int>| is_queue(old(reqs)@, old(self).request_list.next, s),
            forall|s: Seq<int>| has_driver && #[trigger] is_queue(old(reqs)@, old(self).request_list.next, s) && s.len() > 0 ==> {
                let k = first_preferred(prefer@, s.len() as int);
                &&& prefer@.len() >= s.len()
                &&& k < s.len() ==> 1 <= old(reqs)@[s[k]].list_node.prev <= old(reqs)@.len()
            },
        ensures
            r == has_driver,
            !has_driver ==> *final(self) == *old(self) && final(reqs)@ == old(reqs)@,
            has_driver && old(self).request_list.next == 0 ==> final(self).request_list.next == request
                && final(reqs)@ == old(reqs)@,
            forall|s: Seq<int>| has_driver && #[trigger] is_queue(old(reqs)@, old(self).request_list.next, s) && s.len() > 0 ==> {
                let k = first_preferred(prefer@, s.len() as int);
                &&& *final(self) == *old(self)
                &&& k == s.len() ==> final(reqs)@ == with_prev(with_next(old(reqs)@, s.last(), request), request - 1, (s.last() + 1) as usize)
                &&& k < s.len() ==> {
                        let cur = s[k];
                        let p = old(reqs)@[cur].list_node.prev - 1;
                        let r1 = with_next(old(reqs)@, p, request);
                        final(reqs)@ == with_prev(with_next(r1, cur, (cur + 1) as usize), cur, request)
                    }
            },
    {
        if !has_driver {
            return false;
        }
        if self.request_list.next == 0 {
            self.request_list.next = request;
            return true;
        }
        let ghost s = choose|s: Seq<int>| is_queue(reqs@, self.request_list.next, s);
        let ghost old_reqs = reqs@;
        proof {
            lemma_first_preferred(prefer@, s.len() as int);
            assert forall|s2: Seq<int>| #[trigger] is_queue(old_reqs, self.request_list.next, s2) implies s2 == s by {
                lemma_queue_unique(old_reqs, self.request_list.next, s, s2);
            }
        }
        let mut k: usize = 0;
        let mut req_list: usize = self.request_list.next;
        loop
            invariant
                has_driver,
                *self == *old(self),
                old_reqs == old(reqs)@,
                forall|s2: Seq<int>| #[trigger] is_queue(old_reqs, self.request_list.next, s2) ==> s2 == s,
                reqs@ == old_reqs,
                is_queue(old_reqs, self.request_list.next, s),
                s.len() > 0,
                k < s.len(),
                req_list == s[k as int] + 1,
                1 <= request <= old_reqs.len(),
                prefer@.len() >= s.len(),
                0 <= first_preferred(prefer@, s.len() as int) <= s.len(),
                forall|j: int| 0 <= j < first_preferred(prefer@, s.len() as int) ==> !#[trigger] prefer@[j],
                first_preferred(prefer@, s.len() as int) < s.len() ==> prefer@[first_preferred(prefer@, s.len() as int)],
                first_preferred(prefer@, s.len() as int) < s.len() ==>
                    1 <= old_reqs[s[first_preferred(prefer@, s.len() as int)]].list_node.prev <= old_reqs.len(),
                k <= first_preferred(prefer@, s.len() as int),
            decreases s.len() - k,
        {
            let cur = req_list - 1;
            if prefer[k] {
                let p = reqs[cur].list_node.prev - 1;
                set_next(reqs, p, request);
                let same_prev = reqs[cur].list_node.prev;
                set_prev(reqs, cur, same_prev);
                set_next(reqs, cur, req_list);
                set_prev(reqs, cur, request);
                proof {
                    assert(with_prev(with_next(with_prev(with_next(old_reqs, p as int, request), cur as int, same_prev), cur as int, req_list), cur as int, request)
                        =~= with_prev(with_next(with_next(old_reqs, p as int, request), cur as int, req_list), cur as int, request));
                }
                return true;
            }
            let next = reqs[cur].list_node.next;
            if next == 0 {
                set_next(reqs, cur, request);
                set_prev(reqs, request - 1, req_list);
                return true;
            }
            k += 1;
            req_list = next;
        }
    }

    /// Takes the request at address `request` out of the queue: the
    /// first request's successor becomes the front (and its back link is
    /// cleared); any other request's neighbours are linked to each other.
    pub fn erase_request(&mut self, reqs: &mut Vec<RequestDescriptor>, request: usize)
        requires
            1 <= request <= old(reqs)@.len(),
            old(reqs)@[request - 1].list_node.prev <= old(reqs)@.len(),
            old(reqs)@[request - 1].list_node.prev != 0 ==> old(reqs)@[request - 1].list_node.next <= old(reqs)@.len(),
        ensures
            ({
                let r = old(reqs)@[request - 1].list_node;
                &&& r.prev == 0 ==> final(self).request_list.next == r.next
                        && final(self).request_list.prev == old(self).request_list.prev
                        && final(reqs)@ == with_prev(old(reqs)@, request - 1, 0)
                &&& r.prev != 0 ==> *final(self) == *old(self) && {
                        let r1 = with_next(old(reqs)@, r.prev - 1, r.next);
                        &&& r.next == 0 ==> final(reqs)@ == r1
                        &&& r.next != 0 ==> final(reqs)@ == with_prev(r1, r.next - 1, r.prev)
                    }
            }),
    {
        let node = reqs[request - 1].list_node;
        if node.prev == 0 {
            self.request_list.next = node.next;
            set_prev(reqs, request - 1, 0);
        } else {
            set_next(reqs, node.prev - 1, node.next);
            let next = reqs[request - 1].list_node.next;
            let prev = reqs[request - 1].list_node.prev;
            if next != 0 {
                set_prev(reqs, next - 1, prev);
            }
        }
    }
}


/// A request for `count` sectors at sector `offset` of device `dev`,
/// into or out of `buffer`: a read, with no process waiting, no flags and
/// no links yet.
pub fn create_request(buffer: usize, count: usize, dev: DevT, offset: usize) -> (r: RequestDescriptor)
    ensures
        r.buffer == buffer,
        r.count == count,
        r.dev_idx == dev,
        r.process == 0,
        r.idx == offset,
        r.req_type is Read,
        r.flags == 0,
        r.list_node.next == 0,
        r.list_node.prev == 0,
{
    RequestDescriptor {
        dev_idx: dev,
        req_type: DevReqType::Read,
        idx: offset,
        count,
        buffer,
        flags: 0,
        process: 0,
        list_node: ListHead::empty(),
    }
}

impl DeviceTable {
    /// Where a request for sector `idx` of device `dev` goes: the device
    /// itself, or its parent when it has one (a partition's disk), at the
    /// sector `sector_start + idx`, where `sector_start` is the answer of
    /// the device's ioctl for its first sector. `None` (answered with -1)
    /// when no such device is installed.
    pub fn request_target(&self, dev: DevT, sector_start: i64, idx: u64) -> (r: Option<(DevT, usize)>)
        requires
            self.device_at(dev) matches Some(d) ==> {
                &&& (sector_start as usize) + idx <= usize::MAX
                &&& d.parent != 0 ==> self.device_at(d.parent).is_some()
            },
        ensures
            match self.device_at(dev) {
                None => r.is_none(),
                Some(d) => r == Some((if d.parent != 0 { d.parent } else { dev }, ((sector_start as usize) + idx) as usize)),
            },
    {
        match self.get_device(dev) {
            Some(device) => {
                let offset: usize = (sector_start as usize) + (idx as usize);
                if device.parent != 0 {
                    let parent = device.parent;
                    let _ = self.get_device(parent);
                    Some((parent, offset))
                } else {
                    Some((dev, offset))
                }
            },
            None => None,
        }
    }
}

/// A partition's answer to an ioctl: its first sector for
/// `DEV_CMD_SECTOR_START`, its sector count for `DEV_CMD_SECTOR_COUNT`.
/// No other command is known.
pub fn ide_part_ioctl(start: u32, count: u32, cmd: i64) -> (r: i64)
    requires
        cmd == DEV_CMD_SECTOR_START || cmd == DEV_CMD_SECTOR_COUNT,
    ensures
        cmd == DEV_CMD_SECTOR_START ==> r == start,
        cmd == DEV_CMD_SECTOR_COUNT ==> r == count,
{
    if cmd == DEV_CMD_SECTOR_START { start as i64 } else { count as i64 }
}

/// A whole disk's answer to an ioctl: 0 as its first sector, its count of
/// sectors for `DEV_CMD_SECTOR_COUNT`. No other command is known.
pub fn ide_disk_ioctl(total_lba: u32, cmd: i64) -> (r: i64)
    requires
        cmd == DEV_CMD_SECTOR_START || cmd == DEV_CMD_SECTOR_COUNT,
    ensures
        cmd == DEV_CMD_SECTOR_START ==> r == 0,
        cmd == DEV_CMD_SECTOR_COUNT ==> r == total_lba,
{
    if cmd == DEV_CMD_SECTOR_START { 0 } else { total_lba as i64 }
}

/// The kinds of device.
#[derive(Clone, Copy, PartialEq, Eq, Structural)]
pub enum DeviceType {
    Null,
    Console,
    Block,
}

} // verus!
