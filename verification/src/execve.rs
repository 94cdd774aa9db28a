use vstd::prelude::*;
use crate::fs_types::{spec_permission, permission, FILE_MODE_IFREG, FS_EXEC};
use crate::memory::USER_STACK_TOP;
use crate::mm_type::{spec_vm_page_prot, VMAreaStruct, PROT_READ, PROT_WRITE};
use crate::process::{PtRegs, MAX_PROCSEE_STACK_SIZE};

verus! {

/// Whether `execve` goes on to load the program it opened: there must be a
/// file, its mode must have the regular-file bit, and the process (user
/// `uid`, group `gid`) must be allowed to execute it by its permission
/// bits `i_perm` and owners `i_uid`, `i_gid`. Otherwise it answers `EOF`.
pub fn execve_may_load(found: bool, i_mode: u16, i_perm: u16, i_uid: u32, i_gid: u32, uid: u32, gid: u32) -> (b: bool)
    ensures
        b == (found && i_mode & FILE_MODE_IFREG != 0 && spec_permission(i_perm, i_uid, i_gid, uid, gid, FS_EXEC)),
{
    if !found {
        return false;
    }
    if i_mode & FILE_MODE_IFREG == 0 {
        return false;
    }
    if !permission(i_perm, i_uid, i_gid, uid, gid, FS_EXEC) {
        return false;
    }
    true
}

/// The frame that enters the loaded program: at its entry point, with the
/// frame and stack pointers at the top of the user stack; the other
/// registers are those of `frame`.
pub fn execve_frame(frame: PtRegs, entry: i64) -> (f: PtRegs)
    ensures
        f == (PtRegs { rip: entry as u64, rbp: USER_STACK_TOP, rsp: USER_STACK_TOP, ..frame }),
{
    let mut f = frame;
    f.rip = entry as u64;
    f.rbp = USER_STACK_TOP;
    f.rsp = USER_STACK_TOP;
    f
}

/// The user stack of a program that `execve` loads into the address space
/// at `mm`: the `MAX_PROCSEE_STACK_SIZE` bytes below the top of the user
/// stack, readable and writable.
pub fn execve_stack_area(mm: usize) -> (v: VMAreaStruct)
    ensures
        v.vm_start == USER_STACK_TOP - MAX_PROCSEE_STACK_SIZE,
        v.vm_end == USER_STACK_TOP - 1,
        v.vm_mm == mm,
        v.vm_flags == 0,
        v.vm_page_prot == spec_vm_page_prot(PROT_READ | PROT_WRITE),
        v.file == 0,
        v.offset == 0,
{
    let mut v = VMAreaStruct::new(USER_STACK_TOP - MAX_PROCSEE_STACK_SIZE as u64, USER_STACK_TOP, mm, 0);
    v.set_prot(PROT_READ | PROT_WRITE);
    v
}

} // verus!
