use vstd::prelude::*;
use crate::dcache::{DEntry, LookUp};
use crate::string::{has_eos_from, in_delim, is_separator, spec_is_separator, strsep, strsep_stop, EOS};

verus! {

/// `p` is the first position at or after `from` that holds a path
/// separator or the end byte.
pub open spec fn path_stop(s: Seq<u8>, from: int, p: int) -> bool {
    &&& from <= p < s.len()
    &&& (spec_is_separator(s[p]) || s[p] == EOS)
    &&& forall|q: int| from <= q < p ==> !spec_is_separator(#[trigger] s[q]) && s[q] != EOS
}

/// The first position at or after `from` that holds a separator or the
/// end byte.
pub open spec fn first_stop(s: Seq<u8>, from: int) -> int {
    choose|p: int| path_stop(s, from, p)
}

/// The components of the path `s` from `from` on, split at the separators
/// the way the walk splits them: the starts of the components to look up
/// in order, the start of the last component (which is not looked up),
/// and the path with every separator the walk passed cut to an end byte.
/// A separator followed by the end byte is cut and ends the walk.
pub open spec fn walk_path(s: Seq<u8>, from: int) -> (Seq<int>, int, Seq<u8>)
    decreases s.len() - from,
{
    if !(0 <= from < s.len()) {
        (Seq::empty(), from, s)
    } else {
        let p = first_stop(s, from);
        if !(from <= p < s.len()) || s[p] == EOS {
            (Seq::empty(), from, s)
        } else {
            let s1 = s.update(p, EOS);
            if p + 1 >= s.len() || s[p + 1] == EOS {
                (Seq::empty(), from, s1)
            } else {
                let r = walk_path(s1, p + 1);
                (seq![from] + r.0, r.1, r.2)
            }
        }
    }
}

/// Where a path walk starts: the process's root directory (the path
/// begins with a separator), its working directory, or nowhere (an empty
/// path).
#[derive(Clone, Copy, PartialEq, Eq, Structural)]
pub enum PathAnchor {
    Root,
    Pwd,
    Empty,
}

/// The plan of a path walk: where it starts, the components to look up in
/// order (their starts in the cut path, each ended by an end byte), and
/// the start of the last component, which the caller handles itself.
pub struct NamedPlan {
    pub anchor: PathAnchor,
    pub lookups: Vec<usize>,
    pub next: usize,
}

proof fn lemma_stop_unique(s: Seq<u8>, from: int, p1: int, p2: int)
    requires
        path_stop(s, from, p1),
        path_stop(s, from, p2),
    ensures
        p1 == p2,
{
    if p1 < p2 {
        assert(!spec_is_separator(s[p1]) && s[p1] != EOS);
    }
    if p2 < p1 {
        assert(!spec_is_separator(s[p2]) && s[p2] != EOS);
    }
}

/// The separators as `strsep` takes them.
pub open spec fn path_delims() -> Seq<u8> {
    seq![0x5cu8, 0x2fu8, 0u8]
}

proof fn lemma_delims(c: u8)
    ensures
        in_delim(path_delims(), c) == spec_is_separator(c),
{
    let d = path_delims();
    if spec_is_separator(c) {
        if c == 0x5c {
            assert(d[0] == c);
        } else {
            assert(d[1] == c && d[0] != EOS);
        }
    }
    if in_delim(d, c) {
        let k = choose|k: int| 0 <= k < d.len() && d[k] == c && c != EOS && (forall|m: int| 0 <= m < k ==> d[m] != EOS);
        assert(k == 0 || k == 1 || k == 2);
    }
}

proof fn lemma_stop_from_strsep(s: Seq<u8>, from: int, p: int)
    requires
        strsep_stop(s, path_delims(), from, p),
    ensures
        path_stop(s, from, p),
        first_stop(s, from) == p,
{
    lemma_delims(s[p]);
    assert forall|q: int| from <= q < p implies !spec_is_separator(#[trigger] s[q]) && s[q] != EOS by {
        lemma_delims(s[q]);
    }
    assert(path_stop(s, from, p));
    assert(exists|q: int| path_stop(s, from, q));
    let f = first_stop(s, from);
    assert(path_stop(s, from, f));
    lemma_stop_unique(s, from, f, p);
}

/// Plans the walk of the NUL-terminated path in `buf`: a leading separator
/// starts at the root and is skipped; another first byte starts at the
/// working directory; an empty path plans nothing. The rest is split at
/// separators as `walk_path` says; `buf` is left cut at them.
pub fn plan_path(buf: &mut [u8]) -> (plan: NamedPlan)
    requires
        has_eos_from(old(buf)@, 0),
    ensures
        ({
            let s = old(buf)@;
            let start: int = if spec_is_separator(s[0]) { 1 } else { 0 };
            &&& spec_is_separator(s[0]) ==> plan.anchor == PathAnchor::Root
            &&& !spec_is_separator(s[0]) && s[0] != EOS ==> plan.anchor == PathAnchor::Pwd
            &&& s[0] == EOS ==> plan.anchor == PathAnchor::Empty && plan.lookups@.len() == 0 && plan.next == 0
                    && final(buf)@ == s
            &&& s[0] != EOS && s[start] == EOS ==> plan.lookups@.len() == 0 && plan.next == start && final(buf)@ == s
            &&& s[0] != EOS && s[start] != EOS ==> {
                    let w = walk_path(s, start);
                    &&& plan.lookups@.len() == w.0.len()
                    &&& forall|i: int| 0 <= i < w.0.len() ==> #[trigger] plan.lookups@[i] == w.0[i]
                    &&& plan.next == w.1
                    &&& final(buf)@ == w.2
                }
        }),
{
    let mut lookups: Vec<usize> = Vec::new();
    let anchor;
    let start: usize;
    if is_separator(buf[0]) {
        anchor = PathAnchor::Root;
        start = 1;
        proof {
            let k = choose|k: int| 0 <= k < buf@.len() && buf@[k] == EOS;
            assert(k > 0);
        }
    } else if buf[0] != EOS {
        anchor = PathAnchor::Pwd;
        start = 0;
    } else {
        return NamedPlan { anchor: PathAnchor::Empty, lookups, next: 0 };
    }
    if buf[start] == EOS {
        return NamedPlan { anchor, lookups, next: start };
    }
    let delim: [u8; 3] = [0x5c, 0x2f, 0];
    assert(delim@ =~= path_delims());
    assert(has_eos_from(delim@, 0)) by { assert(delim@[2] == EOS); }
    let ghost s0 = buf@;
    let buf_len: usize = buf.len();
    let mut pos: usize = start;
    proof {
        assert(has_eos_from(buf@, start as int)) by {
            let k = choose|k: int| 0 <= k < buf@.len() && buf@[k] == EOS;
            assert(k != start as int);
            if k < start as int {
                assert(k == 0);
            }
        }
        assert(lookups@.len() == 0);
    }
    loop
        invariant
            pos < buf@.len(),
            buf@.len() == s0.len(),
            buf_len == s0.len(),
            s0 == old(buf)@,
            start as int == (if spec_is_separator(s0[0]) { 1int } else { 0int }),
            s0[0] != EOS,
            s0[start as int] != EOS,
            anchor == (if spec_is_separator(s0[0]) { PathAnchor::Root } else { PathAnchor::Pwd }),
            has_eos_from(buf@, pos as int),
            has_eos_from(delim@, 0),
            delim@ == path_delims(),
            ({
                let w0 = walk_path(s0, start as int);
                let w = walk_path(buf@, pos as int);
                &&& w0.0 == lookups@.map_values(|x: usize| x as int) + w.0
                &&& w0.1 == w.1
                &&& w0.2 == w.2
            }),
        decreases buf@.len() - pos,
    {
        let left = pos;
        let ghost before = buf@;
        let r = strsep(buf, pos, &delim);
        let ghost p: int = choose|p: int| #![trigger before[p]] strsep_stop(before, delim@, pos as int, p) && {
            if in_delim(delim@, before[p]) {
                &&& buf@ == before.update(p, EOS)
                &&& p + 1 < before.len()
                &&& r == (if before[p + 1] == EOS { None } else { Some((p + 1) as usize) })
            } else {
                &&& buf@ == before
                &&& r.is_none()
            }
        };
        proof {
            assert(p + 1 < buf_len ==> (p + 1) as usize == p + 1);
            lemma_stop_from_strsep(before, pos as int, p);
            lemma_delims(before[p]);
            let w = walk_path(before, pos as int);
            if before[p] == EOS {
                assert(w == (Seq::<int>::empty(), pos as int, before));
                assert(buf@ == before);
            } else if before[p + 1] == EOS {
                assert(w == (Seq::<int>::empty(), pos as int, before.update(p, EOS)));
            } else {
                let w1 = walk_path(before.update(p, EOS), p + 1);
                assert(w == (seq![pos as int] + w1.0, w1.1, w1.2));
            }
        }
        match r {
            None => {
                proof {
                    let w0 = walk_path(s0, start as int);
                    assert(lookups@.map_values(|x: usize| x as int) + Seq::<int>::empty() =~= lookups@.map_values(|x: usize| x as int));
                }
                let plan = NamedPlan { anchor, lookups, next: left };
                proof {
                    let w0 = walk_path(s0, start as int);
                    assert(plan.lookups@.map_values(|x: usize| x as int) == w0.0);
                    assert forall|i: int| 0 <= i < w0.0.len() implies plan.lookups@[i] == w0.0[i] by {
                        assert(plan.lookups@.map_values(|x: usize| x as int)[i] == plan.lookups@[i] as int);
                    }
                }
                return plan;
            },
            Some(n) => {
                let ghost old_lookups = lookups@;
                lookups.push(left);
                proof {
                    assert(lookups@.map_values(|x: usize| x as int) =~= old_lookups.map_values(|x: usize| x as int) + seq![left as int]);
                    let w = walk_path(buf@, n as int);
                    assert(old_lookups.map_values(|x: usize| x as int) + (seq![left as int] + w.0)
                        =~= lookups@.map_values(|x: usize| x as int) + w.0);
                    assert(has_eos_from(buf@, n as int)) by {
                        let k = choose|k: int| pos <= k < before.len() && before[k] == EOS;
                        assert(k >= n as int);
                        assert(buf@[k] == EOS);
                    }
                }
                pos = n;
            },
        }
    }
}


/// What a path walk does with one component: `..` at the root of a mount
/// crosses to the mount point, `..` elsewhere goes to the parent, `.`
/// stays, and any other name is looked up.
#[derive(Clone, Copy, PartialEq, Eq, Structural)]
pub enum DotStep {
    CrossMount,
    Parent,
    Stay,
    LookUp,
}

/// The step for the component `curr_name`, where `at_mount_root` says
/// whether the walk is at the root of its mount.
pub fn handle_dots(curr_name: &str, at_mount_root: bool) -> (d: DotStep)
    ensures
        curr_name@ == ".."@ ==> d == (if at_mount_root { DotStep::CrossMount } else { DotStep::Parent }),
        curr_name@ == "."@ ==> d == DotStep::Stay,
        curr_name@ != ".."@ && curr_name@ != "."@ ==> d == DotStep::LookUp,
{
    proof {
        reveal_strlit("..");
        reveal_strlit(".");
        assert(".."@.len() == 2 && "."@.len() == 1);
    }
    if crate::fs_context::str_eq(curr_name, "..") {
        if at_mount_root {
            return DotStep::CrossMount;
        }
        return DotStep::Parent;
    }
    if crate::fs_context::str_eq(curr_name, ".") {
        return DotStep::Stay;
    }
    DotStep::LookUp
}


/// How a walk over the components of a path ended: at a dentry; with the
/// empty path, where a component led to no dentry; at the dentry whose
/// children are to be loaded before component `k` is looked up again; or at
/// the root of a mount, where `..` in component `k` crosses to the mount
/// point.
#[derive(Clone, Copy, PartialEq, Eq, Structural)]
pub enum WalkOutcome {
    At(usize),
    Empty,
    Load(usize, usize),
    CrossMount(usize, usize),
}

/// The dentries of `cache` link only to dentries of `cache`, none has two
/// children of one name, and each can be searched: it has children or an
/// inode.
pub open spec fn cache_ok(cache: Seq<DEntry>) -> bool {
    forall|i: int| 0 <= i < cache.len() ==> {
        &&& (#[trigger] cache[i]).wf()
        &&& cache[i].child_count() > 0 || cache[i].d_inode.is_some()
        &&& (cache[i].d_parent matches Some(p) ==> p < cache.len())
        &&& forall|k: int| 0 <= k < cache[i].d_children@.len() ==> #[trigger] cache[i].d_children@[k].1 < cache.len()
    }
}

/// The walk from dentry `at` over the components `names[k..]`, the dentry
/// `mount_root` being the root of the mount walked in: `.` stays, `..`
/// goes to the parent (or crosses to the mount point at `mount_root`), and
/// any other name is looked up among the children.
pub open spec fn walk_from(cache: Seq<DEntry>, at: int, names: Seq<Seq<char>>, k: int, mount_root: int) -> WalkOutcome
    decreases names.len() - k,
{
    if k < 0 || k >= names.len() {
        WalkOutcome::At(at as usize)
    } else if names[k] == ".."@ {
        if at == mount_root {
            WalkOutcome::CrossMount(at as usize, k as usize)
        } else {
            match cache[at].d_parent {
                Some(p) => walk_from(cache, p as int, names, k + 1, mount_root),
                None => WalkOutcome::Empty,
            }
        }
    } else if names[k] == "."@ {
        walk_from(cache, at, names, k + 1, mount_root)
    } else {
        match cache[at].look_up_result(names[k]) {
            LookUp::Found(c) => walk_from(cache, c as int, names, k + 1, mount_root),
            LookUp::Load => WalkOutcome::Load(at as usize, k as usize),
            LookUp::Missing => WalkOutcome::Empty,
        }
    }
}

/// Walks the components `names` (each but the last of a path, as
/// `plan_path` plans them) from the dentry `start` over the dentry cache.  A
/// component that leads to no dentry ends the walk with the empty path; a
/// directory whose children were never read, or `..` at the root of the
/// mount, stops the walk there for the caller to load the children or to
/// cross to the mount point.
pub fn walk_components(cache: &Vec<DEntry>, start: usize, names: &Vec<String>, mount_root: usize) -> (r: WalkOutcome)
    requires
        cache_ok(cache@),
        start < cache@.len(),
    ensures
        r == walk_from(cache@, start as int, names@.map_values(|n: String| n@), 0, mount_root as int),
{
    let ghost ns = names@.map_values(|n: String| n@);
    let mut at = start;
    let mut k: usize = 0;
    while k < names.len()
        invariant
            cache_ok(cache@),
            at < cache@.len(),
            k <= names@.len(),
            ns == names@.map_values(|n: String| n@),
            walk_from(cache@, at as int, ns, k as int, mount_root as int)
                == walk_from(cache@, start as int, ns, 0, mount_root as int),
        decreases names@.len() - k,
    {
        let name = &names[k];
        assert(ns[k as int] == name@);
        let cur = &cache[at];
        assert(cache@[at as int] == *cur);
        match handle_dots(name.as_str(), at == mount_root) {
            DotStep::CrossMount => {
                return WalkOutcome::CrossMount(at, k);
            },
            DotStep::Parent => {
                match cur.d_parent {
                    Some(p) => {
                        assert(cache@[at as int].d_parent matches Some(q) ==> q < cache@.len());
                        at = p;
                    },
                    None => {
                        return WalkOutcome::Empty;
                    },
                }
            },
            DotStep::Stay => {},
            DotStep::LookUp => {
                match cur.look_up(name) {
                    LookUp::Found(c) => {
                        proof {
                            cur.lemma_child_in(name@);
                            let j = choose|j: int| 0 <= j < cur.d_children@.len() && #[trigger] cur.d_children@[j].1 == c;
                            assert(cache@[at as int].d_children@[j].1 < cache@.len());
                        }
                        at = c;
                    },
                    LookUp::Load => {
                        return WalkOutcome::Load(at, k);
                    },
                    LookUp::Missing => {
                        return WalkOutcome::Empty;
                    },
                }
            },
        }
        k += 1;
    }
    WalkOutcome::At(at)
}


/// The bytes of `s` from `p` up to the first end byte (or the end of `s`).
pub open spec fn cstr(s: Seq<u8>, p: int) -> Seq<u8>
    decreases s.len() - p,
{
    if p < 0 || p >= s.len() || s[p] == EOS {
        Seq::empty()
    } else {
        seq![s[p]] + cstr(s, p + 1)
    }
}

fn cstr_bytes(s: &[u8], p: usize) -> (v: Vec<u8>)
    ensures
        v@ == cstr(s@, p as int),
{
    let mut v: Vec<u8> = Vec::new();
    let mut i: usize = p;
    while i < s.len() && s[i] != EOS
        invariant
            i >= p,
            v@ + cstr(s@, i as int) == cstr(s@, p as int),
        decreases s.len() - i,
    {
        proof {
            assert(v@ + cstr(s@, i as int) =~= v@.push(s@[i as int]) + cstr(s@, i + 1));
        }
        v.push(s[i]);
        i += 1;
    }
    proof {
        assert(cstr(s@, i as int) =~= Seq::<u8>::empty());
        assert(v@ + cstr(s@, i as int) =~= v@);
    }
    v
}

/// `String::from_utf8`: the bytes as a string when they are valid UTF-8
/// (the string then holds the characters they encode), else nothing.
#[verifier::external_body]
fn string_from_utf8(v: Vec<u8>) -> (r: Option<String>)
    ensures
        r.is_some() == vstd::utf8::valid_utf8(v@),
        r matches Some(s) ==> s@ == vstd::utf8::decode_utf8(v@),
{
    String::from_utf8(v).ok()
}

/// One component `name` (its bytes) walked from the dentry `at`: a name
/// that is UTF-8 is walked as `walk_from` walks it; one that is not names
/// no child, so it asks for the children of a directory never read and
/// otherwise ends the walk with the empty path.
pub open spec fn step_name(cache: Seq<DEntry>, at: int, name: Seq<u8>, mount_root: int) -> WalkOutcome {
    if vstd::utf8::valid_utf8(name) {
        walk_from(cache, at, seq![vstd::utf8::decode_utf8(name)], 0, mount_root)
    } else if cache[at].child_count() == 0 && cache[at].spec_is_dir() {
        WalkOutcome::Load(at as usize, 0)
    } else {
        WalkOutcome::Empty
    }
}

/// The walk from the dentry `at` over the components (as bytes)
/// `names[k..]`, one `step_name` after another; a step that stops the walk
/// gives the component's index.
pub open spec fn walk_names(cache: Seq<DEntry>, at: int, names: Seq<Seq<u8>>, k: int, mount_root: int) -> WalkOutcome
    decreases names.len() - k,
{
    if k < 0 || k >= names.len() {
        WalkOutcome::At(at as usize)
    } else {
        match step_name(cache, at, names[k], mount_root) {
            WalkOutcome::At(d) => walk_names(cache, d as int, names, k + 1, mount_root),
            WalkOutcome::Load(d, _) => WalkOutcome::Load(d, k as usize),
            WalkOutcome::CrossMount(d, _) => WalkOutcome::CrossMount(d, k as usize),
            WalkOutcome::Empty => WalkOutcome::Empty,
        }
    }
}

proof fn lemma_step_in_cache(cache: Seq<DEntry>, at: int, name: Seq<char>, mount_root: int)
    requires
        cache_ok(cache),
        0 <= at < cache.len(),
    ensures
        walk_from(cache, at, seq![name], 0, mount_root) matches WalkOutcome::At(d) ==> d < cache.len(),
{
    reveal_with_fuel(walk_from, 2);
    let names = seq![name];
    assert(names[0] == name);
    if name != ".."@ && name != "."@ {
        let cur = cache[at];
        cur.lemma_child_in(name);
        if let LookUp::Found(c) = cur.look_up_result(name) {
            let j = choose|j: int| 0 <= j < cur.d_children@.len() && #[trigger] cur.d_children@[j].1 == c;
            assert(cache[at].d_children@[j].1 < cache.len());
        }
    }
}

/// The components (as bytes) of the cut path `s` whose starts are `starts`.
pub open spec fn component_names(s: Seq<u8>, starts: Seq<int>) -> Seq<Seq<u8>> {
    Seq::new(starts.len(), |i: int| cstr(s, starts[i]))
}

/// Resolves the NUL-terminated path in `buf` over the dentry cache: the
/// walk that `plan_path` plans starts at the dentry `root` (a leading
/// separator) or `pwd`, and each component but the last is walked by
/// `walk_components`, `.` and `..` included. Gives the outcome and the
/// start of the last component in the cut path. An empty path gives the
/// empty path; a component that names no dentry ends the walk with the
/// empty path; a directory never read, or `..` at the root of the mount
/// `mount_root`, stops the walk at that component for the caller.
#[verifier::loop_isolation(false)]
pub fn named(buf: &mut [u8], cache: &Vec<DEntry>, root: usize, pwd: usize, mount_root: usize) -> (r: (WalkOutcome, usize))
    requires
        has_eos_from(old(buf)@, 0),
        cache_ok(cache@),
        root < cache@.len(),
        pwd < cache@.len(),
    ensures
        ({
            let s = old(buf)@;
            let start: int = if spec_is_separator(s[0]) { 1 } else { 0 };
            let at: usize = if spec_is_separator(s[0]) { root } else { pwd };
            &&& s[0] == EOS ==> r.0 == WalkOutcome::Empty && final(buf)@ == s
            &&& s[0] != EOS && s[start] == EOS ==> r == (WalkOutcome::At(at), start as usize) && final(buf)@ == s
            &&& s[0] != EOS && s[start] != EOS ==> {
                    let w = walk_path(s, start);
                    &&& final(buf)@ == w.2
                    &&& r.1 == w.1
                    &&& r.0 == walk_names(cache@, at as int, component_names(w.2, w.0), 0, mount_root as int)
                }
        }),
{
    let ghost s0 = buf@;
    let plan = plan_path(buf);
    let start_at: usize = match plan.anchor {
        PathAnchor::Root => root,
        PathAnchor::Pwd => pwd,
        PathAnchor::Empty => {
            return (WalkOutcome::Empty, 0);
        },
    };
    let ghost s1 = buf@;
    let ghost names = Seq::new(plan.lookups@.len(), |i: int| cstr(s1, plan.lookups@[i] as int));
    proof {
        let start: int = if spec_is_separator(s0[0]) { 1 } else { 0 };
        let w = walk_path(s0, start);
        assert(s0[0] != EOS);
        if s0[start] != EOS {
            assert(s1 == w.2);
            assert(plan.lookups@.len() == w.0.len());
            assert forall|i: int| 0 <= i < names.len() implies names[i] == component_names(w.2, w.0)[i] by {
                assert(plan.lookups@[i] == w.0[i]);
            }
            assert(names =~= component_names(w.2, w.0));
        } else {
            assert(names.len() == 0);
        }
    }
    let mut at = start_at;
    let mut k: usize = 0;
    while k < plan.lookups.len()
        invariant
            cache_ok(cache@),
            at < cache@.len(),
            k <= plan.lookups@.len(),
            buf@ == s1,
            names == Seq::new(plan.lookups@.len(), |i: int| cstr(s1, plan.lookups@[i] as int)),
            walk_names(cache@, at as int, names, k as int, mount_root as int)
                == walk_names(cache@, start_at as int, names, 0, mount_root as int),
        decreases plan.lookups@.len() - k,
    {
        let bytes = cstr_bytes(buf, plan.lookups[k]);
        assert(bytes@ == names[k as int]);
        let ghost bv = bytes@;
        let step = match string_from_utf8(bytes) {
            Some(name) => {
                let v = vec![name];
                proof {
                    assert(v@.map_values(|n: String| n@) =~= seq![vstd::utf8::decode_utf8(bv)]);
                }
                walk_components(cache, at, &v, mount_root)
            },
            None => {
                assert(cache@[at as int] == cache[at as int]);
                if cache[at].unloaded() {
                    WalkOutcome::Load(at, 0)
                } else {
                    WalkOutcome::Empty
                }
            },
        };
        assert(step == step_name(cache@, at as int, names[k as int], mount_root as int));
        match step {
            WalkOutcome::At(d) => {
                proof {
                    if vstd::utf8::valid_utf8(bv) {
                        lemma_step_in_cache(cache@, at as int, vstd::utf8::decode_utf8(bv), mount_root as int);
                    }
                }
                at = d;
                k += 1;
            },
            WalkOutcome::Load(d, _) => {
                assert(walk_names(cache@, at as int, names, k as int, mount_root as int) == WalkOutcome::Load(d, k));
                return (WalkOutcome::Load(d, k), plan.next);
            },
            WalkOutcome::CrossMount(d, _) => {
                assert(walk_names(cache@, at as int, names, k as int, mount_root as int) == WalkOutcome::CrossMount(d, k));
                return (WalkOutcome::CrossMount(d, k), plan.next);
            },
            WalkOutcome::Empty => {
                assert(walk_names(cache@, at as int, names, k as int, mount_root as int) == WalkOutcome::Empty);
                return (WalkOutcome::Empty, plan.next);
            },
        }
    }
    (WalkOutcome::At(at), plan.next)
}

} // verus!
