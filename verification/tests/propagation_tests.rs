use lee_os::mount::MNT_MARKED;
use lee_os::ida::Ida;
use lee_os::mount::MNT_SHARED;
use lee_os::propagation::{
    invent_group_ids, is_mnt_new, mnt_alloc_group_id, next_group, next_mnt, next_peer, propagate_mnt, propagate_one,
    ListLink, MountNode,
};

fn node(share_next: usize, own: usize, group_id: i32) -> MountNode {
    MountNode {
        share_next,
        slave_list_next: ListLink::Head(own),
        slave_next: ListLink::Null,
        master: None,
        parent: own,
        mounts_next: ListLink::Head(own),
        group_id,
        has_ns: true,
        flags: 0,
    }
}

/// Mounts 0 and 1 are peers (group 1); mounts 2 and 3 are peers (group 5)
/// and 2 is the only slave of 0.
fn tree_with_slave_group() -> Vec<MountNode> {
    let mut g = vec![node(1, 0, 1), node(0, 1, 1), node(3, 2, 5), node(2, 3, 5)];
    g[0].slave_list_next = ListLink::Node(2);
    g[2].slave_next = ListLink::Head(0);
    g[2].master = Some(0);
    g
}

#[test]
fn peers_only_have_no_next_group() {
    let g = vec![node(1, 0, 1), node(0, 1, 1)];
    assert_eq!(next_peer(&g, 0), 1);
    assert_eq!(next_group(&g, 0, 0), None);
    assert!(is_mnt_new(&g, 1));
    assert_eq!(propagate_one(&g, 1, 0), 0);
}

#[test]
fn slave_group_is_found_then_walk_ends() {
    let g = tree_with_slave_group();
    assert_eq!(next_group(&g, 0, 0), Some(2));
    assert_eq!(next_group(&g, 2, 0), None);
}

#[test]
fn propagation_clears_marks_of_other_masters() {
    let mut g = tree_with_slave_group();
    g.push(node(4, 4, 9));
    g.push(node(5, 5, 9));
    g[4].flags = MNT_MARKED | 0x1;
    g[5].master = Some(4);
    g[5].parent = 5;
    let mut t = node(6, 6, 9);
    t.parent = 5;
    g.push(t);
    let before: Vec<u32> = g.iter().map(|n| n.flags).collect();
    assert_eq!(propagate_mnt(&mut g, 0, 0, 6, &[6]), 0);
    assert_eq!(g[4].flags, 0x1);
    for i in [0usize, 1, 2, 3, 5, 6] {
        assert_eq!(g[i].flags, before[i]);
    }
}

#[test]
fn propagation_keeps_marks_of_same_master() {
    let mut g = vec![node(0, 0, 1), node(1, 1, 2), node(2, 2, 3)];
    g[0].master = Some(2);
    g[1].master = Some(2);
    g[2].flags = MNT_MARKED;
    assert_eq!(propagate_mnt(&mut g, 0, 0, 1, &[1]), 0);
    assert_eq!(g[2].flags, MNT_MARKED);
}

#[test]
fn tree_walk_goes_to_first_child() {
    let mut g = vec![node(0, 0, 0), node(1, 1, 0)];
    g[0].mounts_next = ListLink::Node(1);
    assert_eq!(next_mnt(&g, 0, 0), Some(1));
    assert_eq!(next_mnt(&g, 1, 1), None);
}

#[test]
fn group_ids_for_shared_mounts() {
    let mut g = vec![node(0, 0, 0), node(1, 1, 0)];
    g[0].mounts_next = ListLink::Node(1);
    g[0].group_id = 4;
    g[1].flags = MNT_SHARED;
    let mut ida = Ida::new();
    assert_eq!(invent_group_ids(&mut g, &mut ida, 0, true), 0);
    assert_eq!(g[1].group_id, 1);
    let mut plain = vec![node(0, 0, 0)];
    let mut ida2 = Ida::new();
    assert_eq!(invent_group_ids(&mut plain, &mut ida2, 0, false), 0);
    assert_eq!(plain[0].group_id, 0);
    let mut again = vec![node(0, 0, 0), node(1, 1, 0)];
    assert_eq!(mnt_alloc_group_id(&mut again, &mut ida, 0), -(lee_os::errno_base::ENOSPC));
    assert_eq!(again[0].group_id, 0);
}
