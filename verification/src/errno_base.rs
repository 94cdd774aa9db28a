use vstd::prelude::*;

verus! {

/// A kernel error code: the negated errno on failure, 0 on success.
pub type ErrCode = i64;

pub const EPERM: ErrCode = 1;
pub const ENOENT: ErrCode = 2;
pub const ESRCH: ErrCode = 3;
pub const EINTR: ErrCode = 4;
pub const EIO: ErrCode = 5;
pub const ENXIO: ErrCode = 6;
pub const E2BIG: ErrCode = 7;
pub const ENOEXEC: ErrCode = 8;
pub const EBADF: ErrCode = 9;
pub const ECHILD: ErrCode = 10;
pub const EAGAIN: ErrCode = 11;
pub const ENOMEM: ErrCode = 12;
pub const EACCES: ErrCode = 13;
pub const EFAULT: ErrCode = 14;
pub const ENOTBLK: ErrCode = 15;
pub const EBUSY: ErrCode = 16;
pub const EEXIST: ErrCode = 17;
pub const EXDEV: ErrCode = 18;
pub const ENODEV: ErrCode = 19;
pub const ENOTDIR: ErrCode = 20;
pub const EISDIR: ErrCode = 21;
pub const EINVAL: ErrCode = 22;
pub const ENFILE: ErrCode = 23;
pub const EMFILE: ErrCode = 24;
pub const ENOTTY: ErrCode = 25;
pub const ETXTBSY: ErrCode = 26;
pub const EFBIG: ErrCode = 27;
pub const ENOSPC: ErrCode = 28;
pub const ESPIPE: ErrCode = 29;
pub const EROFS: ErrCode = 30;
pub const EMLINK: ErrCode = 31;
pub const EPIPE: ErrCode = 32;
pub const EDOM: ErrCode = 33;
pub const ERANGE: ErrCode = 34;
pub const ERESTARTSYS: ErrCode = 512;
pub const ERESTARTNOINTR: ErrCode = 513;
pub const ERESTARTNOHAND: ErrCode = 514;
pub const ENOIOCTLCMD: ErrCode = 515;
pub const ERESTART_RESTARTBLOCK: ErrCode = 516;
pub const EPROBE_DEFER: ErrCode = 517;
pub const EOPENSTALE: ErrCode = 518;
pub const ENOPARAM: ErrCode = 519;
pub const EBADHANDLE: ErrCode = 521;
pub const ENOTSYNC: ErrCode = 522;
pub const EBADCOOKIE: ErrCode = 523;
pub const ENOTSUPP: ErrCode = 524;
pub const ETOOSMALL: ErrCode = 525;
pub const ESERVERFAULT: ErrCode = 526;
pub const EBADTYPE: ErrCode = 527;
pub const EJUKEBOX: ErrCode = 528;
pub const EIOCBQUEUED: ErrCode = 529;
pub const ERECALLCONFLICT: ErrCode = 530;
pub const ENOGRACE: ErrCode = 531;

pub const MAX_ERRNO: ErrCode = 4095;

/// Whether a pointer value (given as its address) carries an error code: its
/// value read as a signed number is at least `-MAX_ERRNO`.  As in this
/// kernel, the comparison is signed, so every address below 2^63 counts as
/// an error too.
pub fn is_err(x: u64) -> (b: bool)
    ensures
        b == ((x as i64) >= -MAX_ERRNO),
{
    (x as ErrCode) >= -MAX_ERRNO
}

/// The error code carried by a pointer value.
pub fn ptr_err(ptr: u64) -> (e: ErrCode)
    ensures
        e == ptr as i64,
{
    ptr as ErrCode
}

/// The pointer value that carries an error code.
pub fn err_ptr(err: ErrCode) -> (p: u64)
    ensures
        p == err as u64,
{
    err as u64
}

/// An error code stored in a pointer value reads back unchanged.
pub proof fn lemma_err_ptr_round_trip(err: i64)
    ensures
        ((err as u64) as i64) == err,
{
    assert(((err as u64) as i64) == err) by (bit_vector);
}

/// A negated errno stored in a pointer value is recognised as an error.
pub proof fn lemma_err_ptr_is_err(errno: i64)
    requires
        0 <= errno <= MAX_ERRNO,
    ensures
        (((-errno) as i64) as u64) as i64 >= -MAX_ERRNO,
{
    let e: i64 = (-errno) as i64;
    assert(((e as u64) as i64) == e) by (bit_vector);
}

} // verus!
