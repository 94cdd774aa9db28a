use vstd::prelude::*;
use crate::errno_base::{ErrCode, EINVAL, ENOPARAM};
use crate::semaphore::SpinLock;
use crate::vfs::{SB_DIRSYNC, SB_LAZYTIME, SB_MANDLOCK, SB_RDONLY, SB_SYNCHRONOUS};

verus! {

/// A name and the flag it stands for; an entry with an empty name ends a
/// table.
#[derive(Clone, Copy)]
pub struct ConstantTable {
    pub name: &'static str,
    pub value: u32,
}

impl ConstantTable {
    /// The entry that ends a table: empty name, value 0.
    pub fn empty() -> (c: Self)
        ensures
            c.name@.len() == 0,
            c.value == 0,
    {
        proof {
            reveal_strlit("");
        }
        ConstantTable { name: "", value: 0 }
    }
}

/// The superblock options that set a flag.
pub fn common_set_sb_flag() -> (t: [ConstantTable; 6])
    ensures
        t@[0].name@ == "dirsync"@ && t@[0].value == SB_DIRSYNC,
        t@[1].name@ == "lazytime"@ && t@[1].value == SB_LAZYTIME,
        t@[2].name@ == "mand"@ && t@[2].value == SB_MANDLOCK,
        t@[3].name@ == "ro"@ && t@[3].value == SB_RDONLY,
        t@[4].name@ == "sync"@ && t@[4].value == SB_SYNCHRONOUS,
        t@[5].name@.len() == 0 && t@[5].value == 0,
{
    [
        ConstantTable { name: "dirsync", value: SB_DIRSYNC },
        ConstantTable { name: "lazytime", value: SB_LAZYTIME },
        ConstantTable { name: "mand", value: SB_MANDLOCK },
        ConstantTable { name: "ro", value: SB_RDONLY },
        ConstantTable { name: "sync", value: SB_SYNCHRONOUS },
        ConstantTable::empty(),
    ]
}

/// The superblock options that clear a flag.
pub fn common_clear_sb_flag() -> (t: [ConstantTable; 5])
    ensures
        t@[0].name@ == "async"@ && t@[0].value == SB_SYNCHRONOUS,
        t@[1].name@ == "nolazytime"@ && t@[1].value == SB_LAZYTIME,
        t@[2].name@ == "nomand"@ && t@[2].value == SB_MANDLOCK,
        t@[3].name@ == "rw"@ && t@[3].value == SB_RDONLY,
        t@[4].name@.len() == 0 && t@[4].value == 0,
{
    [
        ConstantTable { name: "async", value: SB_SYNCHRONOUS },
        ConstantTable { name: "nolazytime", value: SB_LAZYTIME },
        ConstantTable { name: "nomand", value: SB_MANDLOCK },
        ConstantTable { name: "rw", value: SB_RDONLY },
        ConstantTable::empty(),
    ]
}

/// The value of the first entry from `i` on named `key`, searching up to
/// the first entry with an empty name; `not_found` when there is none.
pub open spec fn lookup_from(tbl: Seq<ConstantTable>, key: Seq<char>, i: int, not_found: u32) -> u32
    decreases tbl.len() - i,
{
    if i < 0 || i >= tbl.len() || tbl[i].name@.len() == 0 {
        not_found
    } else if tbl[i].name@ == key {
        tbl[i].value
    } else {
        lookup_from(tbl, key, i + 1, not_found)
    }
}

/// `tbl` has an entry with an empty name from `i` on.
pub open spec fn terminated_from(tbl: Seq<ConstantTable>, i: int) -> bool {
    exists|k: int| i <= k < tbl.len() && #[trigger] tbl[k].name@.len() == 0
}

/// Whether two strings are the same, compared byte by byte.
pub fn str_eq(a: &str, b: &str) -> (r: bool)
    ensures
        r == (a@ == b@),
{
    let x = a.as_bytes();
    let y = b.as_bytes();
    proof {
        vstd::utf8::encode_utf8_decode_utf8(a@);
        vstd::utf8::encode_utf8_decode_utf8(b@);
        if a@ == b@ {
            assert(x@ == y@);
        }
    }
    if x.len() != y.len() {
        return false;
    }
    let mut i: usize = 0;
    while i < x.len()
        invariant
            x.len() == y.len(),
            a@ == b@ ==> x@ == y@,
            i <= x.len(),
            forall|k: int| 0 <= k < i ==> x@[k] == y@[k],
        decreases x.len() - i,
    {
        if x[i] != y[i] {
            return false;
        }
        i += 1;
    }
    assert(x@ =~= y@);
    true
}

/// The value that `tbl` gives `name`, or `not_fount` when no entry before
/// the one with an empty name has that name. The table must end with an
/// entry with an empty name.
pub fn lookup_constant(tbl: &[ConstantTable], name: &str, not_fount: u32) -> (v: u32)
    requires
        terminated_from(tbl@, 0),
    ensures
        v == lookup_from(tbl@, name@, 0, not_fount),
{
    let mut i: usize = 0;
    while i < tbl.len()
        invariant
            terminated_from(tbl@, i as int),
            lookup_from(tbl@, name@, i as int, not_fount) == lookup_from(tbl@, name@, 0, not_fount),
        decreases tbl.len() - i,
    {
        if tbl[i].name.is_empty() {
            return not_fount;
        }
        if str_eq(tbl[i].name, name) {
            return tbl[i].value;
        }
        i += 1;
    }
    not_fount
}

/// The flag that a superblock option sets, 0 for none.
pub open spec fn set_flag_of(key: Seq<char>) -> u32 {
    if key == "dirsync"@ { SB_DIRSYNC }
    else if key == "lazytime"@ { SB_LAZYTIME }
    else if key == "mand"@ { SB_MANDLOCK }
    else if key == "ro"@ { SB_RDONLY }
    else if key == "sync"@ { SB_SYNCHRONOUS }
    else { 0 }
}

/// The flag that a superblock option clears, 0 for none.
pub open spec fn clear_flag_of(key: Seq<char>) -> u32 {
    if key == "async"@ { SB_SYNCHRONOUS }
    else if key == "nolazytime"@ { SB_LAZYTIME }
    else if key == "nomand"@ { SB_MANDLOCK }
    else if key == "rw"@ { SB_RDONLY }
    else { 0 }
}

/// The kinds of value a filesystem parameter can carry.
#[derive(Clone, Copy, PartialEq, Eq, Structural)]
pub enum FsValueType {
    FsValueIsUndefined,
    FsValueIsFlag,
    FsValueIsString,
    FsValueIsBlob,
    FsValueIsFilename,
    FsValueIsFile,
}

/// A filesystem parameter: its key, the kind of its value, its value as a
/// string, and the value's size.
pub struct FsParameter {
    pub key: String,
    pub p_type: FsValueType,
    pub value: String,
    pub size: usize,
}

/// Why a filesystem context is made.
#[derive(Clone, Copy, PartialEq, Eq, Structural)]
pub enum FsContextPurpose {
    FsContextForMount,
    FsContextForSubmount,
    FsContextForReconfigure,
}

/// Which operations the filesystem's context offers.
#[derive(Clone, Copy)]
pub struct FsContextOperations {
    pub parse_param: bool,
    pub get_tree: bool,
    pub parse_monolithic: bool,
}

/// The state of a mount being set up: its operations, lock, source,
/// root dentry, filesystem type and private data (addresses, 0 for none),
/// the superblock flags and the mask of those set, and its purpose.
pub struct FsContext {
    pub ops: FsContextOperations,
    pub mutex: SpinLock,
    pub source: String,
    pub root: usize,
    pub fs_type: usize,
    pub fs_private: usize,
    pub sb_flags: u32,
    pub sb_flags_mask: u32,
    pub purpose: FsContextPurpose,
    pub need_free: bool,
}

/// What is left to do for a parameter once the common options were
/// tried: nothing (with the answer), or ask the filesystem's own parser.
pub enum ParamStep {
    Done(ErrCode),
    AskFilesystem,
}

impl FsContext {
    /// A context for `fs_type` with the given flags and purpose: no
    /// operations, a free lock, empty source, no root and no private data.
    /// Its filesystem type's initializer has yet to run.
    pub fn alloc_context(fs_type: usize, sb_flags: u32, sb_flags_mask: u32, purpose: FsContextPurpose) -> (fc: FsContext)
        ensures
            fc.fs_type == fs_type,
            fc.sb_flags == sb_flags,
            fc.sb_flags_mask == sb_flags_mask,
            fc.purpose == purpose,
            fc.source@.len() == 0,
            fc.root == 0,
            fc.fs_private == 0,
            !fc.ops.parse_param && !fc.ops.get_tree && !fc.ops.parse_monolithic,
            fc.mutex.count() == 1,
            !fc.need_free,
    {
        FsContext {
            ops: FsContextOperations { parse_param: false, get_tree: false, parse_monolithic: false },
            mutex: SpinLock::new(1),
            source: String::new(),
            root: 0,
            fs_type,
            fs_private: 0,
            sb_flags,
            sb_flags_mask,
            purpose,
            need_free: false,
        }
    }

    /// Ends making a context once its filesystem type's initializer
    /// answered `init_ret` (0 when it has none): a negative answer is the
    /// error, otherwise the context is marked to be freed by its owner.
    pub fn finish_alloc(self, init_ret: ErrCode) -> (r: Result<FsContext, ErrCode>)
        ensures
            init_ret < 0 ==> r == Err::<FsContext, ErrCode>(init_ret),
            init_ret >= 0 ==> (r matches Ok(fc) && fc.need_free && fc.source@ == self.source@
                && fc.sb_flags == self.sb_flags && fc.sb_flags_mask == self.sb_flags_mask
                && fc.purpose == self.purpose && fc.fs_type == self.fs_type && fc.root == self.root),
    {
        if init_ret < 0 {
            return Err(init_ret);
        }
        let mut fc = self;
        fc.need_free = true;
        Ok(fc)
    }

    /// A context for mounting `fs_type` with the flags `sb_flags`.
    pub fn context_for_mount(fs_type: usize, sb_flags: u32) -> (fc: FsContext)
        ensures
            fc.fs_type == fs_type,
            fc.sb_flags == sb_flags,
            fc.sb_flags_mask == 0,
            fc.purpose == FsContextPurpose::FsContextForMount,
            fc.source@.len() == 0,
            fc.root == 0,
    {
        Self::alloc_context(fs_type, sb_flags, 0, FsContextPurpose::FsContextForMount)
    }
}

/// Applies a common superblock option: an option that sets or clears a
/// flag adds that flag to the flags and to the mask (both kinds add it, as
/// this kernel does) and answers 0; any other key answers `-ENOPARAM`.
pub fn vfs_parse_sb_flag(fc: &mut FsContext, key: &str) -> (r: ErrCode)
    ensures
        ({
            let token = if set_flag_of(key@) != 0 { set_flag_of(key@) } else { clear_flag_of(key@) };
            &&& token != 0 ==> r == 0 && final(fc).sb_flags == old(fc).sb_flags | token
                    && final(fc).sb_flags_mask == old(fc).sb_flags_mask | token
            &&& token == 0 ==> r == -ENOPARAM && final(fc).sb_flags == old(fc).sb_flags
                    && final(fc).sb_flags_mask == old(fc).sb_flags_mask
        }),
        final(fc).source@ == old(fc).source@,
        final(fc).root == old(fc).root,
{
    let set = common_set_sb_flag();
    proof {
        reveal_strlit("dirsync");
        reveal_strlit("lazytime");
        reveal_strlit("mand");
        reveal_strlit("ro");
        reveal_strlit("sync");
        assert(terminated_from(set@, 0)) by { assert(set@[5].name@.len() == 0); }
    }
    let mut token = lookup_constant(&set, key, 0);
    proof {
        reveal_with_fuel(lookup_from, 7);
        assert(token == set_flag_of(key@));
    }
    if token != 0 {
        fc.sb_flags = fc.sb_flags | token;
        fc.sb_flags_mask = fc.sb_flags_mask | token;
        return 0;
    }
    let clear = common_clear_sb_flag();
    proof {
        reveal_strlit("async");
        reveal_strlit("nolazytime");
        reveal_strlit("nomand");
        reveal_strlit("rw");
        assert(terminated_from(clear@, 0)) by { assert(clear@[4].name@.len() == 0); }
    }
    token = lookup_constant(&clear, key, 0);
    proof {
        reveal_with_fuel(lookup_from, 6);
        assert(token == clear_flag_of(key@));
    }
    if token != 0 {
        fc.sb_flags = fc.sb_flags | token;
        fc.sb_flags_mask = fc.sb_flags_mask | token;
        return 0;
    }
    -ENOPARAM
}

/// Takes the `source` parameter: any other key answers `-ENOPARAM`. The
/// parameter is refused (`-EINVAL`) when its value is not of the flag
/// kind, as this kernel checks it, or when the source is already set;
/// otherwise the source becomes its value.
pub fn vfs_parse_fs_param_source(fc: &mut FsContext, param: &FsParameter) -> (r: ErrCode)
    ensures
        param.key@ != "source"@ ==> r == -ENOPARAM && final(fc).source@ == old(fc).source@,
        param.key@ == "source"@ && param.p_type != FsValueType::FsValueIsFlag ==> r == -EINVAL
            && final(fc).source@ == old(fc).source@,
        param.key@ == "source"@ && param.p_type == FsValueType::FsValueIsFlag && old(fc).source@.len() != 0 ==>
            r == -EINVAL && final(fc).source@ == old(fc).source@,
        param.key@ == "source"@ && param.p_type == FsValueType::FsValueIsFlag && old(fc).source@.len() == 0 ==>
            r == 0 && final(fc).source@ == param.value@,
        final(fc).sb_flags == old(fc).sb_flags,
        final(fc).sb_flags_mask == old(fc).sb_flags_mask,
        final(fc).root == old(fc).root,
{
    if !str_eq(param.key.as_str(), "source") {
        return -ENOPARAM;
    }
    if param.p_type != FsValueType::FsValueIsFlag {
        return -EINVAL;
    }
    if !fc.source.as_str().is_empty() {
        return -EINVAL;
    }
    fc.source = param.value.clone();
    0
}

/// The first part of parsing a parameter: an empty key is refused
/// (`-EINVAL`); a common superblock option is applied (answer 0).
/// Otherwise the filesystem's own parser, when it has one, is to be asked
/// next.
pub fn vfs_parsefs_param_common(fc: &mut FsContext, param: &FsParameter) -> (r: ParamStep)
    ensures
        param.key@.len() == 0 ==> (r matches ParamStep::Done(e) && e == -EINVAL) && final(fc).sb_flags == old(fc).sb_flags
            && final(fc).sb_flags_mask == old(fc).sb_flags_mask,
        param.key@.len() != 0 ==> {
            let token = if set_flag_of(param.key@) != 0 { set_flag_of(param.key@) } else { clear_flag_of(param.key@) };
            &&& token != 0 ==> (r matches ParamStep::Done(e) && e == 0) && final(fc).sb_flags == old(fc).sb_flags | token
                    && final(fc).sb_flags_mask == old(fc).sb_flags_mask | token
            &&& token == 0 ==> r is AskFilesystem && final(fc).sb_flags == old(fc).sb_flags
                    && final(fc).sb_flags_mask == old(fc).sb_flags_mask
        },
        final(fc).source@ == old(fc).source@,
        final(fc).root == old(fc).root,
{
    if param.key.as_str().is_empty() {
        return ParamStep::Done(-EINVAL);
    }
    let ret = vfs_parse_sb_flag(fc, param.key.as_str());
    if ret != -ENOPARAM {
        return ParamStep::Done(ret);
    }
    ParamStep::AskFilesystem
}

/// The last part of parsing a parameter, once the filesystem's parser
/// answered `fs_ret` (`None` when it has none): an answer other than
/// `-ENOPARAM` is final; otherwise the `source` parameter is tried, and a
/// key that nothing knows is refused with `-EINVAL`.
pub fn vfs_parsefs_param_finish(fc: &mut FsContext, param: &FsParameter, fs_ret: Option<ErrCode>) -> (r: ErrCode)
    ensures
        (fs_ret matches Some(e) && e != -ENOPARAM) ==> r == fs_ret->0 && final(fc).source@ == old(fc).source@,
        !(fs_ret matches Some(e) && e != -ENOPARAM) ==> {
            &&& param.key@ != "source"@ ==> r == -EINVAL && final(fc).source@ == old(fc).source@
            &&& param.key@ == "source"@ && param.p_type != FsValueType::FsValueIsFlag ==> r == -EINVAL
                    && final(fc).source@ == old(fc).source@
            &&& param.key@ == "source"@ && param.p_type == FsValueType::FsValueIsFlag && old(fc).source@.len() != 0 ==>
                    r == -EINVAL && final(fc).source@ == old(fc).source@
            &&& param.key@ == "source"@ && param.p_type == FsValueType::FsValueIsFlag && old(fc).source@.len() == 0 ==>
                    r == 0 && final(fc).source@ == param.value@
        },
        final(fc).sb_flags == old(fc).sb_flags,
        final(fc).sb_flags_mask == old(fc).sb_flags_mask,
{
    match fs_ret {
        Some(ret) => {
            if ret != -ENOPARAM {
                return ret;
            }
        },
        None => {},
    }
    let ret = vfs_parse_fs_param_source(fc, param);
    if ret != -ENOPARAM {
        return ret;
    }
    -EINVAL
}

/// The parameter `key` with the string `value`, of the flag kind as this
/// kernel builds it.
pub fn vfs_parse_fs_string(key: &str, value: &String) -> (p: FsParameter)
    ensures
        p.key@ == key@,
        p.value@ == value@,
        p.p_type == FsValueType::FsValueIsFlag,
        p.size == vstd::utf8::encode_utf8(value@).len() as usize,
{
    FsParameter {
        key: key.to_owned(),
        p_type: FsValueType::FsValueIsFlag,
        value: value.clone(),
        size: value.as_str().len(),
    }
}

} // verus!
