use vstd::prelude::*;
use crate::errno_base::ErrCode;
use crate::ida::{Ida, alloc_range_spec};
use crate::mount::{MNT_MARKED, MNT_SHARED};

verus! {

/// Where a link of one of a mount's lists points: at the node of the mount
/// with that index in that list, at the list's head in the mount with that
/// index, or nowhere (a link never set).
#[derive(Clone, Copy, PartialEq, Eq, Structural)]
pub enum ListLink {
    Node(usize),
    Head(usize),
    Null,
}

/// A mount as the propagation walk sees it, in a table of mounts indexed
/// by position: the next peer in its ring of shared mounts, the first link
/// of its own list of slaves, its link in its master's list of slaves, its
/// master (`None` for none), its parent, the first link of its list of
/// children, its peer group id, whether it belongs to a namespace, and its
/// flags.
#[derive(Clone, Copy)]
pub struct MountNode {
    pub share_next: usize,
    pub slave_list_next: ListLink,
    pub slave_next: ListLink,
    pub master: Option<usize>,
    pub parent: usize,
    pub mounts_next: ListLink,
    pub group_id: i32,
    pub has_ns: bool,
    pub flags: u32,
}

/// The link points into the table of `n` mounts (or nowhere).
pub open spec fn link_in(l: ListLink, n: int) -> bool {
    match l {
        ListLink::Node(i) => i < n,
        ListLink::Head(i) => i < n,
        ListLink::Null => true,
    }
}

/// Every link of every mount points into the table.
pub open spec fn graph_wf(g: Seq<MountNode>) -> bool {
    forall|i: int| 0 <= i < g.len() ==> {
        &&& #[trigger] g[i].share_next < g.len()
        &&& g[i].parent < g.len()
        &&& (g[i].master matches Some(k) ==> k < g.len())
        &&& link_in(g[i].slave_list_next, g.len() as int)
        &&& link_in(g[i].slave_next, g.len() as int)
        &&& link_in(g[i].mounts_next, g.len() as int)
    }
}

/// Where the walk for the next peer group stands: among the peers of a
/// mount, climbing from a mount through its masters, just after a climb
/// at a mount, done (with the group found, `None` for none), or stuck on a
/// link that leads to no mount.
#[derive(Clone, Copy, PartialEq, Eq, Structural)]
pub enum GroupWalk {
    Peers(usize),
    Masters(usize),
    Climbed(usize),
    Found(Option<usize>),
    Stuck,
}

/// The mount whose slave-list node a link points at; `Stuck` for a link
/// to a list head or to nowhere.
pub open spec fn slave_target(l: ListLink) -> GroupWalk {
    match l {
        ListLink::Node(j) => GroupWalk::Found(Some(j)),
        _ => GroupWalk::Stuck,
    }
}

/// One step of the walk for the next peer group after the one of `origin`.
/// Among peers: a mount of a namespace with slaves leads to its first
/// slave; in the group of `origin` the walk ends back at `origin` or moves
/// to the next peer; elsewhere it climbs unless the next peer is also the
/// next slave of the same master. Climbing: a mount that is not the last
/// slave of its master leads to its next slave; otherwise the walk goes to
/// the peer after the master, stopping the climb at the group of `origin`
/// or where that peer is the master's next slave. After a climb the walk
/// ends at `origin` or goes on among peers. A mount without a namespace
/// has no namespace to read, which stops the walk.
pub open spec fn group_step(g: Seq<MountNode>, origin: usize, s: GroupWalk) -> GroupWalk {
    match s {
        GroupWalk::Peers(m) => {
            let n = g[m as int];
            if !n.has_ns {
                GroupWalk::Stuck
            } else if n.slave_list_next != ListLink::Head(m) {
                slave_target(n.slave_list_next)
            } else if n.group_id == g[origin as int].group_id {
                if n.share_next == origin { GroupWalk::Found(None) } else { GroupWalk::Peers(n.share_next) }
            } else if n.slave_next != ListLink::Node(n.share_next) {
                GroupWalk::Masters(m)
            } else {
                GroupWalk::Peers(n.share_next)
            }
        },
        GroupWalk::Masters(m) => {
            let n = g[m as int];
            match n.master {
                None => slave_target(n.slave_next),
                Some(master) => {
                    if n.slave_next != ListLink::Head(master) {
                        slave_target(n.slave_next)
                    } else {
                        let m2 = g[master as int].share_next;
                        if g[master as int].group_id == g[origin as int].group_id
                            || g[master as int].slave_next == ListLink::Node(m2) {
                            GroupWalk::Climbed(m2)
                        } else {
                            GroupWalk::Masters(master)
                        }
                    }
                },
            }
        },
        GroupWalk::Climbed(m) => {
            if m == origin { GroupWalk::Found(None) } else { GroupWalk::Peers(m) }
        },
        _ => s,
    }
}

/// The walk after at most `fuel` steps (it stays where it ends).
pub open spec fn group_walk(g: Seq<MountNode>, origin: usize, s: GroupWalk, fuel: nat) -> GroupWalk
    decreases fuel,
{
    if fuel == 0 {
        s
    } else {
        match s {
            GroupWalk::Found(_) => s,
            GroupWalk::Stuck => s,
            _ => group_walk(g, origin, group_step(g, origin, s), (fuel - 1) as nat),
        }
    }
}

/// The walk from the peers of `m` ends with a group (or with none).
pub open spec fn group_walk_ends(g: Seq<MountNode>, origin: usize, m: usize) -> bool {
    exists|f: nat| #[trigger] group_walk(g, origin, GroupWalk::Peers(m), f) is Found
}

/// The next peer group after `m` in the propagation tree of `origin`, as
/// the walk finds it.
pub open spec fn next_group_spec(g: Seq<MountNode>, m: usize, origin: usize) -> Option<usize> {
    let f = choose|f: nat| #[trigger] group_walk(g, origin, GroupWalk::Peers(m), f) is Found;
    match group_walk(g, origin, GroupWalk::Peers(m), f) {
        GroupWalk::Found(r) => r,
        _ => None,
    }
}

/// A slave mount `m` of a namespace, with no slaves of its own and
/// outside the peer group of `origin`, that is not the last slave of its
/// master (its link in the master's list of slaves leads to the slave `j`,
/// which is not also its next peer) is followed by its next sibling slave:
/// the next peer group after `m` is `j`'s.
pub proof fn lemma_next_group_next_slave(g: Seq<MountNode>, m: usize, origin: usize, master: usize, j: usize)
    requires
        m < g.len(),
        origin < g.len(),
        g[m as int].has_ns,
        g[m as int].slave_list_next == ListLink::Head(m),
        g[m as int].group_id != g[origin as int].group_id,
        g[m as int].master == Some(master),
        g[m as int].slave_next == ListLink::Node(j),
        j != g[m as int].share_next,
    ensures
        group_walk_ends(g, origin, m),
        next_group_spec(g, m, origin) == Some(j),
{
    assert(group_step(g, origin, GroupWalk::Peers(m)) == GroupWalk::Masters(m));
    assert(group_step(g, origin, GroupWalk::Masters(m)) == GroupWalk::Found(Some(j)));
    assert forall|f: nat| f >= 2 implies #[trigger] group_walk(g, origin, GroupWalk::Peers(m), f) == GroupWalk::Found(Some(j)) by {
        assert(group_walk(g, origin, GroupWalk::Masters(m), (f - 1) as nat)
            == group_walk(g, origin, GroupWalk::Found(Some(j)), (f - 2) as nat));
        if f > 2 {
            assert(group_walk(g, origin, GroupWalk::Found(Some(j)), (f - 2) as nat) == GroupWalk::Found(Some(j)));
        }
    }
    assert(group_walk(g, origin, GroupWalk::Peers(m), 2) is Found);
    let f = choose|f: nat| #[trigger] group_walk(g, origin, GroupWalk::Peers(m), f) is Found;
    assert(group_walk(g, origin, GroupWalk::Peers(m), 0) == GroupWalk::Peers(m));
    assert(group_walk(g, origin, GroupWalk::Peers(m), 1) == group_walk(g, origin, GroupWalk::Masters(m), 0));
    assert(f >= 2);
}

/// A mount of a namespace that has slaves is followed by its first slave:
/// the next peer group after `m` is the group of the first mount of its
/// list of slaves.
pub proof fn lemma_next_group_first_slave(g: Seq<MountNode>, m: usize, origin: usize, j: usize)
    requires
        m < g.len(),
        origin < g.len(),
        g[m as int].has_ns,
        g[m as int].slave_list_next == ListLink::Node(j),
    ensures
        group_walk_ends(g, origin, m),
        next_group_spec(g, m, origin) == Some(j),
{
    assert(group_step(g, origin, GroupWalk::Peers(m)) == GroupWalk::Found(Some(j)));
    assert forall|f: nat| f >= 1 implies #[trigger] group_walk(g, origin, GroupWalk::Peers(m), f) == GroupWalk::Found(Some(j)) by {
        if f > 1 {
            assert(group_walk(g, origin, GroupWalk::Found(Some(j)), (f - 1) as nat) == GroupWalk::Found(Some(j)));
        }
    }
    assert(group_walk(g, origin, GroupWalk::Peers(m), 1) is Found);
    let f = choose|f: nat| #[trigger] group_walk(g, origin, GroupWalk::Peers(m), f) is Found;
    assert(group_walk(g, origin, GroupWalk::Peers(m), 0) == GroupWalk::Peers(m));
    assert(f >= 1);
}

/// In the peer group of `origin`, a mount of a namespace without slaves
/// whose next peer is `origin` closes the walk: there is no next group.
pub proof fn lemma_next_group_back_at_origin(g: Seq<MountNode>, m: usize, origin: usize)
    requires
        m < g.len(),
        origin < g.len(),
        g[m as int].has_ns,
        g[m as int].slave_list_next == ListLink::Head(m),
        g[m as int].group_id == g[origin as int].group_id,
        g[m as int].share_next == origin,
    ensures
        group_walk_ends(g, origin, m),
        next_group_spec(g, m, origin) == None::<usize>,
{
    assert(group_step(g, origin, GroupWalk::Peers(m)) == GroupWalk::Found(None));
    assert forall|f: nat| f >= 1 implies #[trigger] group_walk(g, origin, GroupWalk::Peers(m), f) == GroupWalk::Found(None) by {
        if f > 1 {
            assert(group_walk(g, origin, GroupWalk::Found(None), (f - 1) as nat) == GroupWalk::Found(None));
        }
    }
    assert(group_walk(g, origin, GroupWalk::Peers(m), 1) is Found);
    let f = choose|f: nat| #[trigger] group_walk(g, origin, GroupWalk::Peers(m), f) is Found;
    assert(group_walk(g, origin, GroupWalk::Peers(m), 0) == GroupWalk::Peers(m));
    assert(f >= 1);
}

/// A step keeps the walk inside the table.
proof fn lemma_step_in(g: Seq<MountNode>, origin: usize, s: GroupWalk)
    requires
        graph_wf(g),
        origin < g.len(),
        walk_in(s, g.len() as int),
    ensures
        walk_in(group_step(g, origin, s), g.len() as int),
{
    match s {
        GroupWalk::Peers(m) => { assert(g[m as int].share_next < g.len()); },
        GroupWalk::Masters(m) => {
            assert(g[m as int].share_next < g.len());
            match g[m as int].master {
                Some(k) => { assert(g[k as int].share_next < g.len()); },
                None => {},
            }
        },
        _ => {},
    }
}

/// The mount a walk stands at is in the table, and a group found is too.
pub open spec fn walk_in(s: GroupWalk, n: int) -> bool {
    match s {
        GroupWalk::Peers(m) => m < n,
        GroupWalk::Masters(m) => m < n,
        GroupWalk::Climbed(m) => m < n,
        GroupWalk::Found(r) => (r matches Some(j) ==> j < n),
        GroupWalk::Stuck => true,
    }
}

/// The next peer of `p` in its ring of shared mounts.
pub fn next_peer(g: &[MountNode], p: usize) -> (n: usize)
    requires
        p < g@.len(),
    ensures
        n == g@[p as int].share_next,
{
    g[p].share_next
}

/// Whether the mount `m` is new. Its namespace is read whenever it is set,
/// so the answer is always yes; a mount without one cannot be asked.
pub fn is_mnt_new(g: &[MountNode], m: usize) -> (b: bool)
    requires
        m < g@.len(),
        g@[m as int].has_ns,
    ensures
        b,
{
    g[m].has_ns
}

/// Propagates a mount to the mount `m`: only new mounts are handled, and
/// for them there is nothing to do.
pub fn propagate_one(g: &[MountNode], m: usize, dest_mp: usize) -> (r: ErrCode)
    requires
        m < g@.len(),
        g@[m as int].has_ns,
    ensures
        r == 0,
{
    let _new = is_mnt_new(g, m);
    0
}

/// The next peer group after `m` in the propagation tree of `origin`
/// (`None` for none). The walk must end: on some tables it never does, or
/// reads a link that leads to no mount.
pub fn next_group(g: &[MountNode], m: usize, origin: usize) -> (r: Option<usize>)
    requires
        graph_wf(g@),
        m < g@.len(),
        origin < g@.len(),
        group_walk_ends(g@, origin, m),
    ensures
        r == next_group_spec(g@, m, origin),
        r matches Some(j) ==> j < g@.len(),
{
    let ghost f0 = choose|f: nat| #[trigger] group_walk(g@, origin, GroupWalk::Peers(m), f) is Found;
    let ghost target = group_walk(g@, origin, GroupWalk::Peers(m), f0);
    let ghost mut fuel: nat = f0;
    let mut state = GroupWalk::Peers(m);
    let origin_group = g[origin].group_id;
    loop
        invariant
            graph_wf(g@),
            origin < g@.len(),
            origin_group == g@[origin as int].group_id,
            walk_in(state, g@.len() as int),
            group_walk(g@, origin, state, fuel) == target,
            target is Found,
            target == group_walk(g@, origin, GroupWalk::Peers(m), f0),
            f0 == choose|f: nat| #[trigger] group_walk(g@, origin, GroupWalk::Peers(m), f) is Found,
        decreases fuel,
    {
        let ghost before = state;
        proof {
            lemma_step_in(g@, origin, state);
        }
        match state {
            GroupWalk::Found(r) => {
                proof {
                    if fuel > 0 {
                        assert(group_walk(g@, origin, state, fuel) == state);
                    }
                }
                return r;
            },
            GroupWalk::Stuck => {
                proof {
                    assert(group_walk(g@, origin, state, fuel) == state);
                    assert(false);
                }
                return None;
            },
            GroupWalk::Peers(cur) => {
                let n = g[cur];
                if !n.has_ns {
                    state = GroupWalk::Stuck;
                } else if n.slave_list_next != ListLink::Head(cur) {
                    state = match n.slave_list_next {
                        ListLink::Node(j) => GroupWalk::Found(Some(j)),
                        _ => GroupWalk::Stuck,
                    };
                } else if n.group_id == origin_group {
                    if n.share_next == origin {
                        state = GroupWalk::Found(None);
                    } else {
                        state = GroupWalk::Peers(n.share_next);
                    }
                } else if n.slave_next != ListLink::Node(n.share_next) {
                    state = GroupWalk::Masters(cur);
                } else {
                    state = GroupWalk::Peers(n.share_next);
                }
            },
            GroupWalk::Masters(cur) => {
                let n = g[cur];
                proof {
                    assert(g@[cur as int].share_next < g@.len());
                }
                match n.master {
                    None => {
                        state = match n.slave_next {
                            ListLink::Node(j) => GroupWalk::Found(Some(j)),
                            _ => GroupWalk::Stuck,
                        };
                    },
                    Some(master) => {
                        if n.slave_next != ListLink::Head(master) {
                            state = match n.slave_next {
                                ListLink::Node(j) => GroupWalk::Found(Some(j)),
                                _ => GroupWalk::Stuck,
                            };
                        } else {
                            let mn = g[master];
                            let m2 = mn.share_next;
                            if mn.group_id == origin_group || mn.slave_next == ListLink::Node(m2) {
                                state = GroupWalk::Climbed(m2);
                            } else {
                                state = GroupWalk::Masters(master);
                            }
                        }
                    },
                }
            },
            GroupWalk::Climbed(cur) => {
                if cur == origin {
                    state = GroupWalk::Found(None);
                } else {
                    state = GroupWalk::Peers(cur);
                }
            },
        }
        proof {
            assert(state == group_step(g@, origin, before));
            assert(fuel > 0);
            fuel = (fuel - 1) as nat;
        }
    }
}

/// Walking the peer ring from `n` reaches `dest` within `fuel` steps, and
/// every mount passed before it has a namespace.
pub open spec fn ring_closes(g: Seq<MountNode>, dest: usize, n: usize, fuel: nat) -> bool
    decreases fuel,
{
    if n == dest {
        true
    } else if fuel == 0 {
        false
    } else {
        n < g.len() && g[n as int].has_ns && ring_closes(g, dest, g[n as int].share_next, (fuel - 1) as nat)
    }
}

/// The chain of peer groups from `m` on, each found after the previous
/// one, ends within `fuel` groups; each group has a namespace, is not its
/// own only peer, and the walk from it ends.
pub open spec fn group_chain_ends(g: Seq<MountNode>, dest: usize, m: Option<usize>, fuel: nat) -> bool
    decreases fuel,
{
    match m {
        None => true,
        Some(x) => {
            &&& fuel > 0
            &&& x < g.len()
            &&& g[x as int].has_ns
            &&& g[x as int].share_next != x
            &&& group_walk_ends(g, dest, x)
            &&& group_chain_ends(g, dest, next_group_spec(g, x, dest), (fuel - 1) as nat)
        },
    }
}

/// The mount `i` is a master whose mark the propagation clears: the
/// master of the parent of a mount of `tree`, when it is not the master of
/// `dest`.
pub open spec fn mark_cleared(g: Seq<MountNode>, dest: usize, tree: Seq<usize>, i: int) -> bool {
    exists|k: int| 0 <= k < tree.len() && #[trigger] g[g[tree[k] as int].parent as int].master == Some(i as usize)
        && g[g[tree[k] as int].parent as int].master != g[dest as int].master
}

/// Clearing the mark twice is clearing it once.
proof fn lemma_clear_mark_twice(x: u32)
    by (bit_vector)
    ensures
        (x & !0x4000000u32) & !0x4000000u32 == x & !0x4000000u32,
{
}

/// Propagates a tree of mounts to the peers and slave groups of `dest`:
/// each peer of `dest`, then the first mount of each peer group found by
/// `next_group`, is handed to `propagate_one`. Then, for each mount of
/// `tree_list`, the master of its parent loses its mark when it is not the
/// master of `dest`. Answers 0. The walks must end, every mount handed on
/// must have a namespace, a group's first mount must have another peer
/// (else the walk over its peers never ends), and a parent of a mount of
/// `tree_list` whose master differs from that of `dest` must have one.
pub fn propagate_mnt(g: &mut Vec<MountNode>, dest_mnt: usize, dest_mp: usize, source_mnt: usize, tree_list: &[usize]) -> (r: ErrCode)
    requires
        graph_wf(old(g)@),
        dest_mnt < old(g)@.len(),
        exists|f: nat| ring_closes(old(g)@, dest_mnt, old(g)@[dest_mnt as int].share_next, f),
        group_walk_ends(old(g)@, dest_mnt, dest_mnt),
        exists|f: nat| group_chain_ends(old(g)@, dest_mnt, next_group_spec(old(g)@, dest_mnt, dest_mnt), f),
        forall|k: int| 0 <= k < tree_list@.len() ==> #[trigger] tree_list@[k] < old(g)@.len(),
        forall|k: int| 0 <= k < tree_list@.len()
            && #[trigger] old(g)@[old(g)@[tree_list@[k] as int].parent as int].master != old(g)@[dest_mnt as int].master
            ==> old(g)@[old(g)@[tree_list@[k] as int].parent as int].master.is_some(),
    ensures
        r == 0,
        final(g)@.len() == old(g)@.len(),
        forall|i: int| 0 <= i < old(g)@.len() ==> #[trigger] final(g)@[i] == (if mark_cleared(old(g)@, dest_mnt, tree_list@, i) {
            MountNode { flags: old(g)@[i].flags & !MNT_MARKED, ..old(g)@[i] }
        } else {
            old(g)@[i]
        }),
{
    let ghost g0 = g@;
    let mut n = next_peer(g, dest_mnt);
    let ghost mut ring_fuel: nat = choose|f: nat| ring_closes(g0, dest_mnt, g0[dest_mnt as int].share_next, f);
    while n != dest_mnt
        invariant
            g@ == g0,
            graph_wf(g0),
            dest_mnt < g0.len(),
            n < g0.len(),
            ring_closes(g0, dest_mnt, n, ring_fuel),
        decreases ring_fuel,
    {
        let ret = propagate_one(g, n, dest_mp);
        if ret != 0 {
            return ret;
        }
        n = next_peer(g, n);
        proof {
            ring_fuel = (ring_fuel - 1) as nat;
        }
    }
    let mut m = next_group(g, dest_mnt, dest_mnt);
    let ghost mut chain_fuel: nat = choose|f: nat| group_chain_ends(g0, dest_mnt, next_group_spec(g0, dest_mnt, dest_mnt), f);
    while m.is_some()
        invariant
            g@ == g0,
            graph_wf(g0),
            dest_mnt < g0.len(),
            group_chain_ends(g0, dest_mnt, m, chain_fuel),
        decreases chain_fuel,
    {
        let cur = m.unwrap();
        let mut k = cur;
        loop
            invariant_except_break
                k == cur,
            invariant
                g@ == g0,
                cur < g0.len(),
                g0[cur as int].has_ns,
                g0[cur as int].share_next != cur,
            decreases 1int,
        {
            let ret = propagate_one(g, k, dest_mp);
            if ret != 0 {
                return ret;
            }
            k = next_peer(g, k);
            if k != cur {
                break;
            }
        }
        m = next_group(g, cur, dest_mnt);
        proof {
            chain_fuel = (chain_fuel - 1) as nat;
        }
    }
    let dest_master = g[dest_mnt].master;
    let glen: usize = g.len();
    let mut t: usize = 0;
    while t < tree_list.len()
        invariant
            t <= tree_list@.len(),
            g@.len() == g0.len(),
            glen == g0.len(),
            graph_wf(g0),
            dest_mnt < g0.len(),
            dest_master == g0[dest_mnt as int].master,
            forall|k: int| 0 <= k < tree_list@.len() ==> #[trigger] tree_list@[k] < g0.len(),
            forall|k: int| 0 <= k < tree_list@.len()
                && #[trigger] g0[g0[tree_list@[k] as int].parent as int].master != g0[dest_mnt as int].master
                ==> g0[g0[tree_list@[k] as int].parent as int].master.is_some(),
            forall|i: int| 0 <= i < g0.len() ==> #[trigger] g@[i] == (if mark_cleared(g0, dest_mnt, tree_list@.subrange(0, t as int), i) {
                MountNode { flags: g0[i].flags & !MNT_MARKED, ..g0[i] }
            } else {
                g0[i]
            }),
        decreases tree_list@.len() - t,
    {
        let p = g[tree_list[t]].parent;
        let pm = g[p].master;
        proof {
            assert(g@[tree_list@[t as int] as int].parent == g0[tree_list@[t as int] as int].parent);
            assert(g@[p as int].master == g0[p as int].master);
        }
        let ghost prev = g@;
        if pm != dest_master {
            let master = pm.unwrap();
            let mut node = g[master];
            node.flags = node.flags & !MNT_MARKED;
            g.set(master, node);
        }
        proof {
            let done = tree_list@.subrange(0, t as int);
            let done1 = tree_list@.subrange(0, t as int + 1);
            let hit = pm != dest_master;
            assert(done1[t as int] == tree_list@[t as int]);
            assert forall|i: int| 0 <= i < g0.len() implies #[trigger] g@[i] == (if mark_cleared(g0, dest_mnt, done1, i) {
                MountNode { flags: g0[i].flags & !MNT_MARKED, ..g0[i] }
            } else {
                g0[i]
            }) by {
                assert((i as usize) as int == i);
                let was = mark_cleared(g0, dest_mnt, done, i);
                let cleared = MountNode { flags: g0[i].flags & !MNT_MARKED, ..g0[i] };
                assert(prev[i] == (if was { cleared } else { g0[i] }));
                if was {
                    let k = choose|k: int| 0 <= k < done.len() && #[trigger] g0[g0[done[k] as int].parent as int].master == Some(i as usize)
                        && g0[g0[done[k] as int].parent as int].master != g0[dest_mnt as int].master;
                    assert(done1[k] == done[k]);
                    assert(mark_cleared(g0, dest_mnt, done1, i));
                }
                if hit && i == pm.unwrap() {
                    assert(mark_cleared(g0, dest_mnt, done1, i));
                    lemma_clear_mark_twice(g0[i].flags);
                    assert(g@[i] == MountNode { flags: prev[i].flags & !MNT_MARKED, ..prev[i] });
                    assert(g@[i] == cleared);
                } else {
                    assert(g@[i] == prev[i]);
                    if mark_cleared(g0, dest_mnt, done1, i) && !was {
                        let k = choose|k: int| 0 <= k < done1.len() && #[trigger] g0[g0[done1[k] as int].parent as int].master == Some(i as usize)
                            && g0[g0[done1[k] as int].parent as int].master != g0[dest_mnt as int].master;
                        if k < t {
                            assert(done[k] == done1[k]);
                            assert(false);
                        }
                        assert(k == t);
                        assert(pm == Some(i as usize));
                        assert(hit);
                        assert(pm.unwrap() == i);
                        assert(false);
                    }
                }
            }
        }
        t += 1;
    }
    proof {
        assert(tree_list@.subrange(0, tree_list@.len() as int) =~= tree_list@);
    }
    0
}


/// The mount after `m` in the walk of the tree under `root`: the first
/// child of `m`. A mount without children ends the walk only when it is
/// the root; for any other the walk up reads a list head as a child, so
/// it must not be asked.
pub fn next_mnt(g: &[MountNode], m: usize, root: usize) -> (r: Option<usize>)
    requires
        m < g@.len(),
        g@[m as int].mounts_next == ListLink::Head(m) ==> m == root,
        g@[m as int].mounts_next != ListLink::Head(m) ==> g@[m as int].mounts_next is Node,
    ensures
        r == (match g@[m as int].mounts_next {
            ListLink::Node(j) => Some(j),
            _ => None,
        }),
{
    let next = g[m].mounts_next;
    if next == ListLink::Head(m) && m == root {
        return None;
    }
    match next {
        ListLink::Node(j) => Some(j),
        _ => None,
    }
}

/// Whether a mount with these flags is shared.
pub open spec fn flags_shared(flags: u32) -> bool {
    flags & MNT_SHARED != 0
}

/// Gives mount `m` a peer group id from `ida` (the smallest from 1 on when
/// none was handed out, else none is left): the id, answer 0; or the
/// allocator's error, leaving the mount as it was.
pub fn mnt_alloc_group_id(g: &mut Vec<MountNode>, ida: &mut Ida, m: usize) -> (r: ErrCode)
    requires
        m < old(g)@.len(),
        old(ida).next_id() < 1 ==> 1 < i32::MAX,
    ensures
        exists|res: i32| #[trigger] alloc_range_spec(old(ida).next_id(), 1, -1i32, final(ida).next_id(), res) && {
            &&& res < 0 ==> r == res && final(g)@ == old(g)@
            &&& res >= 0 ==> r == 0 && final(g)@ == old(g)@.update(m as int, MountNode { group_id: res, ..old(g)@[m as int] })
        },
{
    let res = ida.alloc_min(1);
    if res < 0 {
        return res as ErrCode;
    }
    let mut node = g[m];
    node.group_id = res;
    g.set(m, node);
    0
}

/// The first mount, going down the first children from `x` in the tree of
/// `root` (only `x` itself when not recursing), that is shared and has no
/// peer group id, within `fuel` steps: `Some(Some(m))` for it, `Some(None)`
/// when the walk ends at the root first, `None` when it does not end well
/// (a childless mount other than the root, a bad link, or no fuel).
pub open spec fn first_needing_id(g: Seq<MountNode>, root: usize, x: usize, recurse: bool, fuel: nat) -> Option<Option<usize>>
    decreases fuel,
{
    if !(x < g.len()) {
        None
    } else if g[x as int].group_id == 0 && flags_shared(g[x as int].flags) {
        Some(Some(x))
    } else if !recurse {
        Some(None)
    } else {
        match g[x as int].mounts_next {
            ListLink::Node(j) => if fuel == 0 { None } else { first_needing_id(g, root, j, recurse, (fuel - 1) as nat) },
            ListLink::Head(h) => if h == x && x == root { Some(None) } else { None },
            ListLink::Null => None,
        }
    }
}

/// Gives a peer group id to the first mount of the tree of `mnt` (going
/// down first children when `recurse`) that is shared and has none; the
/// answer is that of `mnt_alloc_group_id`, or 0 when no mount needs one.
/// The walk must end at such a mount or at `mnt` itself.
pub fn invent_group_ids(g: &mut Vec<MountNode>, ida: &mut Ida, mnt: usize, recures: bool) -> (r: ErrCode)
    requires
        graph_wf(old(g)@),
        old(ida).next_id() < 1 ==> 1 < i32::MAX,
        exists|f: nat| #[trigger] first_needing_id(old(g)@, mnt, mnt, recures, f) is Some,
    ensures
        ({
            let f = choose|f: nat| #[trigger] first_needing_id(old(g)@, mnt, mnt, recures, f) is Some;
            match first_needing_id(old(g)@, mnt, mnt, recures, f) {
                Some(Some(m)) => exists|res: i32| #[trigger] alloc_range_spec(old(ida).next_id(), 1, -1i32, final(ida).next_id(), res) && {
                    &&& res < 0 ==> r == res && final(g)@ == old(g)@
                    &&& res >= 0 ==> r == 0 && final(g)@ == old(g)@.update(m as int, MountNode { group_id: res, ..old(g)@[m as int] })
                },
                _ => r == 0 && final(g)@ == old(g)@ && final(ida).next_id() == old(ida).next_id(),
            }
        }),
{
    let ghost f0 = choose|f: nat| #[trigger] first_needing_id(g@, mnt, mnt, recures, f) is Some;
    let ghost target = first_needing_id(g@, mnt, mnt, recures, f0);
    let ghost mut fuel: nat = f0;
    let mut p: Option<usize> = Some(mnt);
    while p.is_some()
        invariant
            g@ == old(g)@,
            *ida == *old(ida),
            graph_wf(g@),
            old(ida).next_id() < 1 ==> 1 < i32::MAX,
            target is Some,
            target == first_needing_id(old(g)@, mnt, mnt, recures, f0),
            f0 == choose|f: nat| #[trigger] first_needing_id(old(g)@, mnt, mnt, recures, f) is Some,
            p matches Some(x) ==> first_needing_id(g@, mnt, x, recures, fuel) == target,
            p is None ==> target == Some(None::<usize>),
        decreases fuel, if p is Some { 1int } else { 0int },
    {
        let x = p.unwrap();
        proof {
            assert(x < g@.len());
        }
        let node = g[x];
        if node.group_id == 0 && node.flags & MNT_SHARED != 0 {
            let err = mnt_alloc_group_id(g, ida, x);
            return err;
        }
        if recures {
            proof {
                assert(g@[x as int].share_next < g@.len());
            }
            p = next_mnt(g, x, mnt);
        } else {
            p = None;
        }
        proof {
            if p is Some {
                assert(fuel > 0);
                fuel = (fuel - 1) as nat;
            }
        }
    }
    0
}

} // verus!
