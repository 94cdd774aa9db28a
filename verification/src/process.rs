use vstd::prelude::*;
use crate::memory::{CLONE_VFORK, CLONE_VM, Page};
use crate::page_table::{copy_page_table, in_areas, leaf_desc, entry_writable, space_copied, space_protected,
    refs_added, PageTables, SpaceCopy};

verus! {

/// A scheduling priority: lower runs first.
pub type Priority = u8;
/// A process identifier.
pub type Pid = i32;
pub type Uid = u32;
pub type Gid = u32;

/// The number of slots in the task table.
pub const MAX_PROGRESS_NUM: Pid = 65536;
pub const MAX_PROCSEE_STACK_SIZE: usize = 0x4000000;
pub const PROCESS_NAME_LEN: usize = 256;
pub const THREAD_SIZE: usize = 16 * 1024;
/// The mark at the end of every process control block.
pub const PCB_MAGIC: u64 = 0x55aa55aa55aa55aa;

/// The registers saved on the kernel stack on an interrupt or a system
/// call.
#[derive(Clone, Copy, Default)]
pub struct PtRegs {
    pub gs: u16,
    pub fs: u16,
    pub es: u16,
    pub ds: u16,
    pub r15: u64,
    pub r14: u64,
    pub r13: u64,
    pub r12: u64,
    pub r11: u64,
    pub r10: u64,
    pub r9: u64,
    pub r8: u64,
    pub rbp: u64,
    pub rdi: u64,
    pub rsi: u64,
    pub rbx: u64,
    pub rdx: u64,
    pub rcx: u64,
    pub rax: u64,
    pub error: u64,
    pub code: u64,
    pub rip: u64,
    pub cs: u64,
    pub rflags: u64,
    pub rsp: u64,
    pub ss: u64,
}

/// A process: the parts of its control block that the kernel's decisions
/// read. Addresses are plain numbers, 0 for none; `files` maps each file
/// descriptor to its open file, 0 for a free descriptor.
pub struct ProcessControlBlock {
    pub stack: usize,
    pub priority: Priority,
    pub jiffies: u32,
    pub name: Vec<u8>,
    pub files: Vec<usize>,
    pub uid: Uid,
    pub gid: Gid,
    pub pid: Pid,
    pub ppid: Pid,
    pub pgid: Pid,
    pub pml4: usize,
    pub wait_pid: Pid,
    pub blocked: u32,
    pub iroot: usize,
    pub ipwd: usize,
    pub magic: u64,
}

impl ProcessControlBlock {
    /// A fresh control block: priority and counters 0, the name all NUL
    /// bytes, no open file, no page table, no stack, and the end mark set.
    pub fn create_task_control_block() -> (p: ProcessControlBlock)
        ensures
            p.priority == 0,
            p.jiffies == 0,
            p.name@ == Seq::new(PROCESS_NAME_LEN as nat, |i: int| 0u8),
            p.files@.len() == 0,
            p.uid == 0 && p.gid == 0 && p.pid == 0 && p.ppid == 0 && p.pgid == 0,
            p.pml4 == 0 && p.stack == 0 && p.iroot == 0 && p.ipwd == 0,
            p.wait_pid == 0 && p.blocked == 0,
            p.magic == PCB_MAGIC,
    {
        let name: Vec<u8> = vec![0u8; PROCESS_NAME_LEN];
        assert(name@ =~= Seq::new(PROCESS_NAME_LEN as nat, |i: int| 0u8));
        ProcessControlBlock {
            stack: 0,
            priority: 0,
            jiffies: 0,
            name,
            files: Vec::new(),
            uid: 0,
            gid: 0,
            pid: 0,
            ppid: 0,
            pgid: 0,
            pml4: 0,
            wait_pid: 0,
            blocked: 0,
            iroot: 0,
            ipwd: 0,
            magic: PCB_MAGIC,
        }
    }

    /// The open file of descriptor `fd`, 0 when there is none.
    pub fn get_file(&self, fd: usize) -> (f: usize)
        ensures
            fd < self.files@.len() ==> f == self.files@[fd as int],
            fd >= self.files@.len() ==> f == 0,
    {
        if fd < self.files.len() { self.files[fd] } else { 0 }
    }

    /// Gives `file_t` the lowest free descriptor, a new one at the end when
    /// none is free, and returns it.
    pub fn insert_to_fd(&mut self, file_t: usize) -> (fd: usize)
        ensures
            ({
                let old_files = old(self).files@;
                &&& fd <= old_files.len()
                &&& forall|k: int| 0 <= k < fd && k < old_files.len() ==> #[trigger] old_files[k] != 0
                &&& fd < old_files.len() ==> old_files[fd as int] == 0 && final(self).files@ == old_files.update(fd as int, file_t)
                &&& fd == old_files.len() ==> final(self).files@ == old_files.push(file_t)
                &&& fd < final(self).files@.len() && final(self).files@[fd as int] == file_t
            }),
            final(self).pid == old(self).pid,
            final(self).iroot == old(self).iroot,
            final(self).ipwd == old(self).ipwd,
    {
        let mut var: usize = 0;
        while var < self.files.len()
            invariant
                var <= self.files@.len(),
                self.files@ == old(self).files@,
                self.pid == old(self).pid,
                self.iroot == old(self).iroot,
                self.ipwd == old(self).ipwd,
                forall|k: int| 0 <= k < var ==> #[trigger] self.files@[k] != 0,
            decreases self.files@.len() - var,
        {
            if self.files[var] == 0 {
                self.files.set(var, file_t);
                return var;
            }
            var += 1;
        }
        self.files.push(file_t);
        var
    }

    /// The root directory of the process.
    pub fn get_iroot(&self) -> (d: usize)
        ensures
            d == self.iroot,
    {
        self.iroot
    }

    /// The working directory of the process.
    pub fn get_ipwd(&self) -> (d: usize)
        ensures
            d == self.ipwd,
    {
        self.ipwd
    }
}

/// What `schedule` decides: keep running the current process, or switch
/// to the process at the given address.
#[derive(PartialEq, Eq, Structural)]
pub enum SchedDecision {
    Stay,
    Switch(usize),
}

/// The scheduler's state: for each priority the processes waiting to run
/// in arrival order, the task table by process id, the next process id to
/// try, and the idle process.
pub struct Scheduler {
    pub wait: Vec<Vec<usize>>,
    pub tasks: Vec<usize>,
    pub seq: Pid,
    pub idle: usize,
}

/// The queues as sequences.
pub open spec fn queues(wait: Seq<Vec<usize>>) -> Seq<Seq<usize>> {
    Seq::new(wait.len(), |p: int| wait[p]@)
}

/// The lowest priority from `p` on whose queue is not empty, 256 when all
/// are empty.
pub open spec fn first_waiting(wait: Seq<Seq<usize>>, p: int) -> int
    decreases 256 - p,
{
    if p >= 256 || p >= wait.len() {
        256
    } else if wait[p].len() > 0 {
        p
    } else {
        first_waiting(wait, p + 1)
    }
}

/// With every queue before `prio` empty and the one at `prio` not, the
/// first waiting priority from any `p` up to `prio` is `prio`.
proof fn lemma_first_waiting_at(w: Seq<Seq<usize>>, prio: int, p: int)
    requires
        w.len() == 256,
        0 <= p <= prio < 256,
        w[prio].len() > 0,
        forall|q: int| 0 <= q < prio ==> #[trigger] w[q].len() == 0,
    ensures
        first_waiting(w, p) == prio,
    decreases prio - p,
{
    if p < prio {
        lemma_first_waiting_at(w, prio, p + 1);
    }
}

/// A process woken into a scheduler where no process waits is the one
/// that the next `schedule` (with no current process) picks: its priority
/// is the first that has a waiting process, and it is at the front there.
pub proof fn lemma_awake_then_schedule(wait: Seq<Seq<usize>>, prio: int, pcb: usize)
    requires
        wait.len() == 256,
        0 <= prio < 256,
        forall|q: int| 0 <= q < 256 ==> #[trigger] wait[q].len() == 0,
    ensures
        ({
            let w = wait.update(prio, wait[prio].push(pcb));
            &&& first_waiting(w, 0) == prio
            &&& w[prio][0] == pcb
        }),
{
    let w = wait.update(prio, wait[prio].push(pcb));
    assert forall|q: int| 0 <= q < prio implies #[trigger] w[q].len() == 0 by {
        assert(w[q] == wait[q]);
    }
    lemma_first_waiting_at(w, prio, 0);
}

impl Scheduler {
    /// One queue per priority and one slot per process id.
    pub open spec fn wf(&self) -> bool {
        &&& self.wait@.len() == 256
        &&& self.tasks@.len() == MAX_PROGRESS_NUM
        &&& 0 <= self.seq <= MAX_PROGRESS_NUM
    }

    /// No process waiting, an empty task table, process ids from 0 on, and
    /// the idle process at `idle`.
    pub fn new(idle: usize) -> (s: Scheduler)
        ensures
            s.wf(),
            forall|p: int| 0 <= p < 256 ==> #[trigger] s.wait@[p]@.len() == 0,
            forall|i: int| 0 <= i < MAX_PROGRESS_NUM ==> #[trigger] s.tasks@[i] == 0,
            s.seq == 0,
            s.idle == idle,
    {
        let mut wait: Vec<Vec<usize>> = Vec::new();
        let mut i: usize = 0;
        while i < 256
            invariant
                i <= 256,
                wait@.len() == i,
                forall|p: int| 0 <= p < i ==> #[trigger] wait@[p]@.len() == 0,
            decreases 256 - i,
        {
            wait.push(Vec::new());
            i += 1;
        }
        let tasks: Vec<usize> = vec![0usize; 65536];
        Scheduler { wait, tasks, seq: 0, idle }
    }

    /// Puts the process at `pcb`, of priority `prio`, at the back of the
    /// queue of its priority.
    pub fn awake_process(&mut self, pcb: usize, prio: Priority)
        requires
            old(self).wf(),
        ensures
            final(self).wf(),
            final(self).wait@ == old(self).wait@.update(prio as int, final(self).wait@[prio as int]),
            final(self).wait@[prio as int]@ == old(self).wait@[prio as int]@.push(pcb),
            final(self).tasks == old(self).tasks,
            final(self).seq == old(self).seq,
            final(self).idle == old(self).idle,
    {
        let mut q: Vec<usize> = Vec::new();
        std::mem::swap(&mut q, &mut self.wait[prio as usize]);
        q.push(pcb);
        self.wait.set(prio as usize, q);
        proof {
            assert(self.wait@ =~= old(self).wait@.update(prio as int, self.wait@[prio as int]));
        }
    }

    /// Picks the next process to run. The current process (at `current`,
    /// of priority `current_prio`; 0 for none) goes back to its queue
    /// first. The process at the front of the lowest non-empty queue leaves
    /// it and runs, unless it is the current one, which keeps running; with
    /// every queue empty the idle process runs.
    pub fn schedule(&mut self, current: usize, current_prio: Priority) -> (d: SchedDecision)
        requires
            old(self).wf(),
        ensures
            final(self).wf(),
            final(self).tasks == old(self).tasks,
            final(self).seq == old(self).seq,
            ({
                let w = queues(old(self).wait@);
                let woken = if current != 0 { w.update(current_prio as int, w[current_prio as int].push(current)) } else { w };
                let p = first_waiting(woken, 0);
                &&& p == 256 ==> d == SchedDecision::Switch(old(self).idle) && queues(final(self).wait@) == woken
                &&& p < 256 ==> {
                    let next = woken[p][0];
                    &&& queues(final(self).wait@) == woken.update(p, woken[p].drop_first())
                    &&& next == current ==> d == SchedDecision::Stay
                    &&& next != current ==> d == SchedDecision::Switch(next)
                }
            }),
    {
        if current != 0 {
            self.awake_process(current, current_prio);
        }
        let ghost woken = queues(self.wait@);
        proof {
            let w = queues(old(self).wait@);
            if current != 0 {
                assert(woken =~= w.update(current_prio as int, w[current_prio as int].push(current)));
            } else {
                assert(woken =~= w);
            }
        }
        let mut p: usize = 0;
        while p < 256
            invariant
                self.wf(),
                self.tasks == old(self).tasks,
                self.seq == old(self).seq,
                self.idle == old(self).idle,
                queues(self.wait@) == woken,
                woken == (if current != 0 {
                    queues(old(self).wait@).update(current_prio as int, queues(old(self).wait@)[current_prio as int].push(current))
                } else {
                    queues(old(self).wait@)
                }),
                woken.len() == 256,
                p <= 256,
                first_waiting(woken, p as int) == first_waiting(woken, 0),
            decreases 256 - p,
        {
            proof {
                assert(queues(self.wait@)[p as int] == self.wait@[p as int]@);
            }
            if self.wait[p].len() > 0 {
                proof {
                    assert(first_waiting(woken, p as int) == p as int);
                }
                let mut q: Vec<usize> = Vec::new();
                std::mem::swap(&mut q, &mut self.wait[p]);
                let next = q.remove(0);
                self.wait.set(p, q);
                proof {
                    assert(queues(self.wait@) =~= woken.update(p as int, woken[p as int].drop_first()));
                }
                if next == current {
                    return SchedDecision::Stay;
                } else {
                    return SchedDecision::Switch(next);
                }
            }
            p += 1;
        }
        proof {
            assert(queues(self.wait@) =~= woken);
        }
        SchedDecision::Switch(self.idle)
    }

    /// Finds the next free process id from `seq` on, moves `seq` past it
    /// and returns it. A free slot must lie ahead: the search does not wrap.
    pub fn get_avaliable_pid(&mut self) -> (pid: Pid)
        requires
            old(self).wf(),
            exists|i: int| old(self).seq <= i < MAX_PROGRESS_NUM && old(self).tasks@[i] == 0,
        ensures
            final(self).wf(),
            old(self).seq <= pid < MAX_PROGRESS_NUM,
            old(self).tasks@[pid as int] == 0,
            forall|i: int| old(self).seq <= i < pid ==> #[trigger] old(self).tasks@[i] != 0,
            final(self).seq == pid + 1,
            final(self).tasks == old(self).tasks,
            final(self).wait == old(self).wait,
            final(self).idle == old(self).idle,
    {
        let ghost j = choose|i: int| self.seq <= i < MAX_PROGRESS_NUM && self.tasks@[i] == 0;
        let ghost start = self.seq;
        while self.tasks[self.seq as usize] != 0
            invariant
                self.wf(),
                self.tasks == old(self).tasks,
                self.wait == old(self).wait,
                self.idle == old(self).idle,
                start == old(self).seq,
                start <= self.seq <= j,
                j < MAX_PROGRESS_NUM,
                self.tasks@[j] == 0,
                forall|i: int| start <= i < self.seq ==> #[trigger] self.tasks@[i] != 0,
            decreases j - self.seq,
        {
            self.seq += 1;
        }
        self.seq += 1;
        self.seq - 1
    }

    /// Enters the process at `pcb` in the task table under the next free
    /// process id, queues it at priority `prio`, and returns the id.
    pub fn insert_to_task_table(&mut self, pcb: usize, prio: Priority) -> (pid: Pid)
        requires
            old(self).wf(),
            exists|i: int| old(self).seq <= i < MAX_PROGRESS_NUM && old(self).tasks@[i] == 0,
        ensures
            final(self).wf(),
            old(self).seq <= pid < MAX_PROGRESS_NUM,
            old(self).tasks@[pid as int] == 0,
            forall|i: int| old(self).seq <= i < pid ==> #[trigger] old(self).tasks@[i] != 0,
            final(self).tasks@ == old(self).tasks@.update(pid as int, pcb),
            final(self).seq == pid + 1,
            final(self).wait@[prio as int]@ == old(self).wait@[prio as int]@.push(pcb),
            forall|q: int| 0 <= q < 256 && q != prio ==> #[trigger] final(self).wait@[q] == old(self).wait@[q],
    {
        let pid = self.get_avaliable_pid();
        self.tasks.set(pid as usize, pcb);
        self.awake_process(pcb, prio);
        pid
    }

    /// Ends a clone once the new process was copied to `copied` (0 when the
    /// copy failed, answered with -1): the new process, of priority
    /// `prio`, enters the task table and its id is returned.
    pub fn kernel_clone(&mut self, copied: usize, prio: Priority) -> (pid: Pid)
        requires
            old(self).wf(),
            copied != 0 ==> exists|i: int| old(self).seq <= i < MAX_PROGRESS_NUM && old(self).tasks@[i] == 0,
        ensures
            final(self).wf(),
            copied == 0 ==> pid == -1 && final(self).tasks == old(self).tasks && final(self).wait == old(self).wait,
            copied != 0 ==> old(self).seq <= pid < MAX_PROGRESS_NUM && old(self).tasks@[pid as int] == 0
                && forall|i: int| old(self).seq <= i < pid ==> #[trigger] old(self).tasks@[i] != 0,
            copied != 0 ==> final(self).tasks@ == old(self).tasks@.update(pid as int, copied)
                && final(self).wait@[prio as int]@ == old(self).wait@[prio as int]@.push(copied),
            copied != 0 ==> forall|q: int| 0 <= q < 256 && q != prio ==> #[trigger] final(self).wait@[q] == old(self).wait@[q],
    {
        if copied == 0 {
            return -1;
        }
        self.insert_to_task_table(copied, prio)
    }
}

/// The flags and stack of a clone.
#[derive(Clone, Copy)]
pub struct KernelCloneArgs {
    pub clone_flags: u64,
    pub stack_start: usize,
    pub stack_size: isize,
}

/// The clone that `fork` makes: no flag, no new stack.
pub fn fork_clone_args() -> (a: KernelCloneArgs)
    ensures
        a.clone_flags == 0,
        a.stack_start == 0,
        a.stack_size == 0,
{
    KernelCloneArgs { clone_flags: 0, stack_start: 0, stack_size: 0 }
}

/// The clone that `vfork` makes: the memory is shared and the parent
/// waits, no new stack.
pub fn vfork_clone_args() -> (a: KernelCloneArgs)
    ensures
        a.clone_flags == CLONE_VFORK | CLONE_VM,
        a.stack_start == 0,
        a.stack_size == 0,
{
    KernelCloneArgs { clone_flags: CLONE_VFORK | CLONE_VM, stack_start: 0, stack_size: 0 }
}

/// The interrupt frame that drops the first process to user mode:
/// general registers 0 to 13 in the order `rax, rcx, rdx, rbx, rsi, rdi,
/// r8` .. `r15`, the data selectors (`ss`, `ds`, `es`, `fs`) at the user
/// data descriptor with privilege 3, `gs` 0, `cs` at the user code
/// descriptor with privilege 3, and interrupts enabled in `rflags`
/// (0x202). The other fields are those of `frame`. The descriptor indices
/// are those of the global descriptor table.
pub fn task_to_user_mode(frame: PtRegs, user_code_idx: u16, user_data_idx: u16) -> (f: PtRegs)
    requires
        user_code_idx < 0x2000,
        user_data_idx < 0x2000,
    ensures
        f.rax == 0 && f.rcx == 1 && f.rdx == 2 && f.rbx == 3 && f.rsi == 4 && f.rdi == 5,
        f.r8 == 6 && f.r9 == 7 && f.r10 == 8 && f.r11 == 9 && f.r12 == 10 && f.r13 == 11,
        f.r14 == 12 && f.r15 == 13,
        f.ss == user_data_idx * 8 + 3,
        f.ds == user_data_idx * 8 + 3 && f.es == user_data_idx * 8 + 3 && f.fs == user_data_idx * 8 + 3,
        f.gs == 0,
        f.cs == user_code_idx * 8 + 3,
        f.rflags == 0x202,
        f.rbp == frame.rbp && f.error == frame.error && f.code == frame.code && f.rip == frame.rip && f.rsp == frame.rsp,
{
    let mut f = frame;
    let data_sel: u16 = user_data_idx * 8 + 3;
    let code_sel: u16 = user_code_idx * 8 + 3;
    f.rax = 0;
    f.rcx = 1;
    f.rdx = 2;
    f.rbx = 3;
    f.rsi = 4;
    f.rdi = 5;
    f.r8 = 6;
    f.r9 = 7;
    f.r10 = 8;
    f.r11 = 9;
    f.r12 = 10;
    f.r13 = 11;
    f.r14 = 12;
    f.r15 = 13;
    f.ss = data_sel as u64;
    f.ds = data_sel;
    f.es = data_sel;
    f.fs = data_sel;
    f.gs = 0;
    f.cs = code_sel as u64;
    f.rflags = 0x202;
    f
}

/// Whether switching to a process with the page table `pml4` must load
/// it: when it is not the one in use (`cr3`).
pub fn task_switch_loads_cr3(pml4: u64, cr3: u64) -> (b: bool)
    ensures
        b == (pml4 != cr3),
{
    pml4 != cr3
}


/// The control block and interrupt frame of a process copied from `src` by
/// a fork, before its address space is set: a new process (priority 0, no
/// id yet, the file system's root `froot` as its root and working
/// directory, its own kernel stack at `kernel_stack`) with the parent's uid,
/// gid and name, the parent's id as its parent id, and the parent's
/// interrupt frame `src_frame` with rax 0, so that the fork returns 0 in
/// the child.
pub fn dup_pcb(src: &ProcessControlBlock, src_frame: &PtRegs, froot: usize, kernel_stack: usize)
    -> (r: (ProcessControlBlock, PtRegs))
    requires
        src.name@.len() == PROCESS_NAME_LEN,
    ensures
        r.0.uid == src.uid,
        r.0.gid == src.gid,
        r.0.ppid == src.pid,
        r.0.name@ == src.name@,
        r.0.pid == -1,
        r.0.priority == 0,
        r.0.iroot == froot,
        r.0.ipwd == froot,
        r.0.stack == kernel_stack,
        r.0.files@.len() == 0,
        r.0.pml4 == 0 && r.0.jiffies == 0 && r.0.pgid == 0 && r.0.wait_pid == 0 && r.0.blocked == 0,
        r.0.magic == PCB_MAGIC,
        r.1 == (PtRegs { rax: 0, ..*src_frame }),
{
    let mut name: Vec<u8> = Vec::new();
    let mut k: usize = 0;
    while k < PROCESS_NAME_LEN
        invariant
            k <= PROCESS_NAME_LEN,
            name@.len() == k,
            src.name@.len() == PROCESS_NAME_LEN,
            forall|j: int| 0 <= j < k ==> name@[j] == src.name@[j],
        decreases PROCESS_NAME_LEN - k,
    {
        name.push(src.name[k]);
        k += 1;
    }
    assert(name@ =~= src.name@);
    let mut p = ProcessControlBlock::create_task_control_block();
    p.priority = 0;
    p.ipwd = froot;
    p.iroot = froot;
    p.pid = -1;
    p.uid = src.uid;
    p.gid = src.gid;
    p.ppid = src.pid;
    p.name = name;
    let mut frame = *src_frame;
    frame.rax = 0;
    p.stack = kernel_stack;
    (p, frame)
}

/// Copies the calling process `src` for a clone with the flags
/// `clone_flags`: its control block and interrupt frame as `dup_pcb` makes
/// them, and its address space as `copy_page_table` copies it (its tables
/// `src_tables`, its areas `areas`).  A shared address space keeps the
/// parent's level-4 table `src.pml4`; new tables are placed by the caller
/// at `new_pml4`.  None when no frame was left for a table.
pub fn copy_process(src: &ProcessControlBlock, src_frame: &PtRegs, froot: usize, kernel_stack: usize,
    src_tables: &mut PageTables, areas: &Vec<(u64, u64)>, clone_flags: u64, mem_map: &mut Vec<Page>,
    src_pml4_desc: usize, new_pml4: usize) -> (r: Option<(ProcessControlBlock, PtRegs, SpaceCopy)>)
    requires
        src.name@.len() == PROCESS_NAME_LEN,
        old(src_tables).wf(),
        clone_flags & CLONE_VM != 0 ==> src_pml4_desc < old(mem_map)@.len(),
        clone_flags & CLONE_VM == 0 ==> forall|i: int| 0 <= i < areas@.len()
            ==> (#[trigger] areas@[i]).0 % 4096 == 0 && areas@[i].1 <= 0x8000_0000_0000,
        clone_flags & CLONE_VM == 0 ==> forall|u: u64| in_areas(areas@, areas@.len() as int, u)
            && entry_writable(#[trigger] old(src_tables).translate(u))
            ==> leaf_desc(old(src_tables).translate(u)) < old(mem_map)@.len(),
    ensures
        clone_flags & CLONE_VM != 0 ==> r is Some && *final(src_tables) == *old(src_tables)
            && final(mem_map)@ == old(mem_map)@.update(src_pml4_desc as int, Page {
                refcount: old(mem_map)@[src_pml4_desc as int].refcount.wrapping_add(1),
                flags: old(mem_map)@[src_pml4_desc as int].flags,
            }),
        r matches Some((p, frame, space)) ==> {
            &&& p.uid == src.uid && p.gid == src.gid && p.ppid == src.pid && p.name@ == src.name@
            &&& p.pid == -1 && p.priority == 0 && p.iroot == froot && p.ipwd == froot && p.stack == kernel_stack
            &&& p.files@.len() == 0 && p.magic == PCB_MAGIC
            &&& frame == (PtRegs { rax: 0, ..*src_frame })
            &&& p.pml4 == if clone_flags & CLONE_VM != 0 { src.pml4 } else { new_pml4 }
            &&& clone_flags & CLONE_VM != 0 ==> space is Shared
            &&& clone_flags & CLONE_VM == 0 ==> final(src_tables).wf() && match space {
                SpaceCopy::Copied(d, wp) => {
                    &&& d.wf()
                    &&& forall|u: u64| #[trigger] d.translate(u) != 0 ==> d.walk_open(u)
                    &&& space_copied(*old(src_tables), d, *final(src_tables), areas@, areas@.len() as int)
                    &&& space_protected(*old(src_tables), wp@, areas@, areas@.len() as int)
                    &&& refs_added(old(mem_map)@, final(mem_map)@, *old(src_tables), wp@)
                },
                _ => false,
            }
        },
{
    let (mut p, frame) = dup_pcb(src, src_frame, froot, kernel_stack);
    let space = copy_page_table(src_tables, areas, clone_flags, mem_map, src_pml4_desc);
    match space {
        SpaceCopy::OutOfTables => None,
        SpaceCopy::Shared => {
            p.pml4 = src.pml4;
            Some((p, frame, SpaceCopy::Shared))
        },
        SpaceCopy::Copied(d, wp) => {
            p.pml4 = new_pml4;
            Some((p, frame, SpaceCopy::Copied(d, wp)))
        },
    }
}


/// After a clone of `src` (its interrupt frame `src_frame`) for the
/// control block placed at `pcb`, with priority `prio`: `r` is the child's
/// id, or -1, and the child as it was copied. A failed copy changes no
/// task and no queue. Otherwise the child took the first free slot of the
/// task table from `seq` on, its id is that slot, it waits in the queue of
/// its priority, and it is a copy of the parent: same user, group and
/// name, the parent's id as its parent, rax 0 in its frame, the level-4
/// table `pml4`.
pub open spec fn cloned(old_s: Scheduler, new_s: Scheduler, src: ProcessControlBlock, src_frame: PtRegs, froot: usize,
    kernel_stack: usize, pml4: usize, pcb: usize, prio: Priority, r: (Pid, Option<(ProcessControlBlock, PtRegs, SpaceCopy)>)) -> bool {
    match r.1 {
        None => r.0 == -1 && new_s.tasks == old_s.tasks && new_s.wait == old_s.wait,
        Some((p, frame, _)) => {
            &&& r.0 == p.pid
            &&& old_s.seq <= p.pid < MAX_PROGRESS_NUM
            &&& old_s.tasks@[p.pid as int] == 0
            &&& forall|i: int| old_s.seq <= i < p.pid ==> #[trigger] old_s.tasks@[i] != 0
            &&& new_s.tasks@ == old_s.tasks@.update(p.pid as int, pcb)
            &&& new_s.wait@[prio as int]@ == old_s.wait@[prio as int]@.push(pcb)
            &&& forall|q: int| 0 <= q < 256 && q != prio ==> #[trigger] new_s.wait@[q] == old_s.wait@[q]
            &&& p.uid == src.uid && p.gid == src.gid && p.ppid == src.pid && p.name@ == src.name@
            &&& p.priority == 0 && p.iroot == froot && p.ipwd == froot && p.stack == kernel_stack
            &&& p.files@.len() == 0 && p.magic == PCB_MAGIC
            &&& frame == (PtRegs { rax: 0, ..src_frame })
            &&& p.pml4 == pml4
        },
    }
}

proof fn lemma_clone_flags()
    by (bit_vector)
    ensures
        0u64 & CLONE_VM == 0u64,
        (CLONE_VFORK | CLONE_VM) & CLONE_VM != 0u64,
{
}

fn clone_into(sched: &mut Scheduler, src: &ProcessControlBlock, src_frame: &PtRegs, froot: usize, kernel_stack: usize,
    src_tables: &mut PageTables, areas: &Vec<(u64, u64)>, clone_flags: u64, mem_map: &mut Vec<Page>,
    src_pml4_desc: usize, new_pml4: usize, pcb: usize, prio: Priority) -> (r: (Pid, Option<(ProcessControlBlock, PtRegs, SpaceCopy)>))
    requires
        old(sched).wf(),
        pcb != 0,
        exists|i: int| old(sched).seq <= i < MAX_PROGRESS_NUM && old(sched).tasks@[i] == 0,
        src.name@.len() == PROCESS_NAME_LEN,
        old(src_tables).wf(),
        clone_flags & CLONE_VM != 0 ==> src_pml4_desc < old(mem_map)@.len(),
        clone_flags & CLONE_VM == 0 ==> forall|i: int| 0 <= i < areas@.len()
            ==> (#[trigger] areas@[i]).0 % 4096 == 0 && areas@[i].1 <= 0x8000_0000_0000,
        clone_flags & CLONE_VM == 0 ==> forall|u: u64| in_areas(areas@, areas@.len() as int, u)
            && entry_writable(#[trigger] old(src_tables).translate(u))
            ==> leaf_desc(old(src_tables).translate(u)) < old(mem_map)@.len(),
    ensures
        final(sched).wf(),
        cloned(*old(sched), *final(sched), *src, *src_frame, froot, kernel_stack,
            if clone_flags & CLONE_VM != 0 { src.pml4 } else { new_pml4 }, pcb, prio, r),
        clone_flags & CLONE_VM != 0 ==> r.1 is Some && *final(src_tables) == *old(src_tables)
            && final(mem_map)@ == old(mem_map)@.update(src_pml4_desc as int, Page {
                refcount: old(mem_map)@[src_pml4_desc as int].refcount.wrapping_add(1),
                flags: old(mem_map)@[src_pml4_desc as int].flags,
            }),
        clone_flags & CLONE_VM == 0 ==> (r.1 matches Some((_, _, space)) ==> final(src_tables).wf() && match space {
            SpaceCopy::Copied(d, wp) => {
                &&& d.wf()
                &&& forall|u: u64| #[trigger] d.translate(u) != 0 ==> d.walk_open(u)
                &&& space_copied(*old(src_tables), d, *final(src_tables), areas@, areas@.len() as int)
                &&& space_protected(*old(src_tables), wp@, areas@, areas@.len() as int)
                &&& refs_added(old(mem_map)@, final(mem_map)@, *old(src_tables), wp@)
            },
            _ => false,
        }),
{
    match copy_process(src, src_frame, froot, kernel_stack, src_tables, areas, clone_flags, mem_map, src_pml4_desc, new_pml4) {
        None => {
            let pid = sched.kernel_clone(0, prio);
            (pid, None)
        },
        Some((p, frame, space)) => {
            let pid = sched.kernel_clone(pcb, prio);
            let mut p = p;
            p.pid = pid;
            (pid, Some((p, frame, space)))
        },
    }
}

/// `fork`: the calling process `src` (its interrupt frame `src_frame`, its
/// page tables `src_tables` over the areas `areas`) is copied with the
/// flags of `fork_clone_args`, into a new address space whose level-4
/// table the caller placed at `new_pml4`, for the control block it placed
/// at `pcb`; the child enters the task table and the queue of `prio`.
/// Gives the child's id and the child, or -1 when no frame was left for
/// its tables (see `cloned` and `copy_process`). The task table must have
/// a free slot from `seq` on (the search runs past its end otherwise).
pub fn sys_fork(sched: &mut Scheduler, src: &ProcessControlBlock, src_frame: &PtRegs, froot: usize, kernel_stack: usize,
    src_tables: &mut PageTables, areas: &Vec<(u64, u64)>, mem_map: &mut Vec<Page>, new_pml4: usize, pcb: usize,
    prio: Priority) -> (r: (Pid, Option<(ProcessControlBlock, PtRegs, SpaceCopy)>))
    requires
        old(sched).wf(),
        pcb != 0,
        exists|i: int| old(sched).seq <= i < MAX_PROGRESS_NUM && old(sched).tasks@[i] == 0,
        src.name@.len() == PROCESS_NAME_LEN,
        old(src_tables).wf(),
        forall|i: int| 0 <= i < areas@.len() ==> (#[trigger] areas@[i]).0 % 4096 == 0 && areas@[i].1 <= 0x8000_0000_0000,
        forall|u: u64| in_areas(areas@, areas@.len() as int, u) && entry_writable(#[trigger] old(src_tables).translate(u))
            ==> leaf_desc(old(src_tables).translate(u)) < old(mem_map)@.len(),
    ensures
        final(sched).wf(),
        cloned(*old(sched), *final(sched), *src, *src_frame, froot, kernel_stack, new_pml4, pcb, prio, r),
        r.1 matches Some((_, _, space)) ==> final(src_tables).wf() && match space {
            SpaceCopy::Copied(d, wp) => {
                &&& d.wf()
                &&& forall|u: u64| #[trigger] d.translate(u) != 0 ==> d.walk_open(u)
                &&& space_copied(*old(src_tables), d, *final(src_tables), areas@, areas@.len() as int)
                &&& space_protected(*old(src_tables), wp@, areas@, areas@.len() as int)
                &&& refs_added(old(mem_map)@, final(mem_map)@, *old(src_tables), wp@)
            },
            _ => false,
        },
{
    let args = fork_clone_args();
    proof {
        lemma_clone_flags();
    }
    clone_into(sched, src, src_frame, froot, kernel_stack, src_tables, areas, args.clone_flags, mem_map, 0, new_pml4, pcb, prio)
}

/// `vfork`: the calling process `src` is copied with the flags of
/// `vfork_clone_args`, sharing its address space (its level-4 table, whose
/// descriptor is `src_pml4_desc`, gains a reference), for the control
/// block placed at `pcb`; the child enters the task table and the queue of
/// `prio`. Gives the child's id and the child (see `cloned`). The task
/// table must have a free slot from `seq` on.
pub fn sys_vfork(sched: &mut Scheduler, src: &ProcessControlBlock, src_frame: &PtRegs, froot: usize, kernel_stack: usize,
    src_tables: &mut PageTables, mem_map: &mut Vec<Page>, src_pml4_desc: usize, pcb: usize,
    prio: Priority) -> (r: (Pid, Option<(ProcessControlBlock, PtRegs, SpaceCopy)>))
    requires
        old(sched).wf(),
        pcb != 0,
        exists|i: int| old(sched).seq <= i < MAX_PROGRESS_NUM && old(sched).tasks@[i] == 0,
        src.name@.len() == PROCESS_NAME_LEN,
        old(src_tables).wf(),
        src_pml4_desc < old(mem_map)@.len(),
    ensures
        final(sched).wf(),
        r.1 is Some,
        cloned(*old(sched), *final(sched), *src, *src_frame, froot, kernel_stack, src.pml4, pcb, prio, r),
        *final(src_tables) == *old(src_tables),
        final(mem_map)@ == old(mem_map)@.update(src_pml4_desc as int, Page {
            refcount: old(mem_map)@[src_pml4_desc as int].refcount.wrapping_add(1),
            flags: old(mem_map)@[src_pml4_desc as int].flags,
        }),
{
    let args = vfork_clone_args();
    proof {
        lemma_clone_flags();
    }
    let areas: Vec<(u64, u64)> = Vec::new();
    clone_into(sched, src, src_frame, froot, kernel_stack, src_tables, &areas, args.clone_flags, mem_map, src_pml4_desc, 0, pcb, prio)
}

} // verus!
