use lee_os::dcache::{DEntry, LookUp};
use lee_os::namei::{named, walk_components, WalkOutcome};

#[test]
fn a_new_child_is_found_by_its_name() {
    let mut cache = vec![DEntry::empty(None)];
    cache[0].d_inode = Some(0o40755);
    let a = DEntry::new_child(&mut cache, 0, &String::from("bin"));
    let b = DEntry::new_child(&mut cache, 0, &String::from("etc"));
    assert_eq!((a, b), (1, 2));
    assert_eq!(cache[a].d_parent, Some(0));
    assert_eq!(cache[a].d_ref, 1);
    assert!(matches!(cache[0].look_up(&String::from("bin")), LookUp::Found(1)));
    assert!(matches!(cache[0].look_up(&String::from("etc")), LookUp::Found(2)));
    assert!(matches!(cache[0].look_up(&String::from("usr")), LookUp::Missing));
}

#[test]
fn a_new_child_replaces_one_of_the_same_name() {
    let mut cache = vec![DEntry::empty(None)];
    cache[0].d_inode = Some(0o40755);
    DEntry::new_child(&mut cache, 0, &String::from("tmp"));
    let again = DEntry::new_child(&mut cache, 0, &String::from("tmp"));
    assert_eq!(again, 2);
    assert_eq!(cache[0].d_children.len(), 1);
    assert!(matches!(cache[0].look_up(&String::from("tmp")), LookUp::Found(2)));
}

#[test]
fn a_directory_never_read_asks_for_its_children() {
    let mut d = DEntry::empty(None);
    d.d_inode = Some(0o40755);
    assert!(d.is_dir());
    assert!(matches!(d.look_up(&String::from("x")), LookUp::Load));
    let mut f = DEntry::empty(None);
    f.d_inode = Some(0o100644);
    assert!(!f.is_dir());
    assert!(matches!(f.look_up(&String::from("x")), LookUp::Missing));
}

#[test]
fn references_are_counted() {
    let mut d = DEntry::empty(None);
    d.dget();
    assert_eq!(d.d_ref, 2);
    assert!(!d.dput());
    assert!(d.dput());
    assert_eq!(d.d_ref, 0);
}

fn tree() -> Vec<DEntry> {
    let mut cache = vec![DEntry::empty(None)];
    cache[0].d_inode = Some(0o40755);
    let a = DEntry::new_child(&mut cache, 0, &String::from("a"));
    let b = DEntry::new_child(&mut cache, 0, &String::from("b"));
    let c = DEntry::new_child(&mut cache, a, &String::from("c"));
    cache[a].d_inode = Some(0o40755);
    cache[b].d_inode = Some(0o40755);
    cache[c].d_inode = Some(0o100644);
    cache
}

fn names(v: &[&str]) -> Vec<String> {
    v.iter().map(|s| String::from(*s)).collect()
}

#[test]
fn a_walk_follows_names_and_dots() {
    let cache = tree();
    assert!(walk_components(&cache, 0, &names(&["a", "c"]), 0) == WalkOutcome::At(3));
    assert!(walk_components(&cache, 0, &names(&[".", "a", ".."]), 0) == WalkOutcome::At(0));
    assert!(walk_components(&cache, 0, &names(&[]), 0) == WalkOutcome::At(0));
}

#[test]
fn a_walk_that_finds_no_dentry_ends_with_the_empty_path() {
    let cache = tree();
    assert!(walk_components(&cache, 0, &names(&["a", "x"]), 0) == WalkOutcome::Empty);
    assert!(walk_components(&cache, 0, &names(&["zz", "a"]), 0) == WalkOutcome::Empty);
}

#[test]
fn a_walk_stops_to_load_children_or_cross_a_mount() {
    let cache = tree();
    assert!(walk_components(&cache, 0, &names(&["b", "z"]), 0) == WalkOutcome::Load(2, 1));
    assert!(walk_components(&cache, 0, &names(&[".."]), 0) == WalkOutcome::CrossMount(0, 0));
    assert!(walk_components(&cache, 1, &names(&["..", "b"]), 0) == WalkOutcome::At(2));
}

fn small_tree() -> Vec<DEntry> {
    let mut cache = vec![DEntry::empty(None)];
    cache[0].d_inode = Some(0o40755);
    let usr = DEntry::new_child(&mut cache, 0, &String::from("usr"));
    cache[usr].d_inode = Some(0o40755);
    let etc = DEntry::new_child(&mut cache, 0, &String::from("etc"));
    cache[etc].d_inode = Some(0o40755);
    let bin = DEntry::new_child(&mut cache, usr, &String::from("bin"));
    cache[bin].d_inode = Some(0o40755);
    cache
}

fn resolve(path: &[u8], cache: &Vec<DEntry>, pwd: usize, mount_root: usize) -> (WalkOutcome, Vec<u8>) {
    let mut buf = path.to_vec();
    buf.push(0);
    let (r, next) = named(&mut buf, cache, 0, pwd, mount_root);
    let end = buf[next..].iter().position(|&b| b == 0).unwrap() + next;
    (r, buf[next..end].to_vec())
}

#[test]
fn a_path_resolves_each_component_but_the_last() {
    let cache = small_tree();
    let (r, last) = resolve(b"/usr/bin/ls", &cache, 2, 9);
    assert!(matches!(r, WalkOutcome::At(3)));
    assert_eq!(last, b"ls");
    let (r, last) = resolve(b"/usr/./../etc/hosts", &cache, 2, 9);
    assert!(matches!(r, WalkOutcome::At(2)));
    assert_eq!(last, b"hosts");
    let (r, last) = resolve(b"usr/bin", &cache, 0, 9);
    assert!(matches!(r, WalkOutcome::At(1)));
    assert_eq!(last, b"bin");
    let (r, last) = resolve(b"passwd", &cache, 2, 9);
    assert!(matches!(r, WalkOutcome::At(2)));
    assert_eq!(last, b"passwd");
}

#[test]
fn a_path_through_a_missing_entry_is_the_empty_path() {
    let cache = small_tree();
    assert!(matches!(resolve(b"/nope/x", &cache, 0, 9).0, WalkOutcome::Empty));
    assert!(matches!(resolve(b"", &cache, 0, 9).0, WalkOutcome::Empty));
    assert!(matches!(resolve(&[b'/', 0xff, b'/', b'x'], &cache, 0, 9).0, WalkOutcome::Empty));
}

#[test]
fn a_path_stops_to_load_a_directory_or_cross_a_mount() {
    let cache = small_tree();
    assert!(matches!(resolve(b"/etc/passwd/x", &cache, 0, 9).0, WalkOutcome::Load(2, 1)));
    assert!(matches!(resolve(&[b'/', b'e', b't', b'c', b'/', 0xff, b'/', b'x'], &cache, 0, 9).0, WalkOutcome::Load(2, 1)));
    assert!(matches!(resolve(b"/usr/../../x", &cache, 0, 0).0, WalkOutcome::CrossMount(0, 2)));
}
