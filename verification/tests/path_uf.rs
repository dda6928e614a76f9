use checker::analysis::ownership::path_uf::PathUnionFind;

#[test]
fn union_connects_and_keeps_connections() {
    let mut uf = PathUnionFind::new();
    assert!(uf.is_empty());
    uf.union(1, 2);
    uf.union(3, 4);
    assert!(uf.is_connected(1, 2));
    assert!(!uf.is_connected(1, 3));
    uf.union(2, 3);
    assert!(uf.is_connected(1, 4));
    assert!(uf.connected(4, 1));
    assert!(!uf.is_empty());
}

#[test]
fn find_is_idempotent_and_shared_in_a_group() {
    let mut uf = PathUnionFind::new();
    uf.union(1, 2);
    uf.union(2, 3);
    let r = uf.find(3);
    assert_eq!(uf.find(r), r);
    assert_eq!(uf.find(1), r);
    assert_eq!(uf.find_mut(2), r);
    assert_eq!(uf.find(99), 99);
}

#[test]
fn groups_list_every_tracked_path_once() {
    let mut uf = PathUnionFind::new();
    uf.union(1, 2);
    uf.union(3, 3);
    let mut groups: Vec<Vec<u64>> = uf
        .get_all_groups()
        .into_iter()
        .map(|mut g| {
            g.sort();
            g
        })
        .collect();
    groups.sort();
    assert_eq!(groups, vec![vec![1, 2], vec![3]]);
    let mut all = uf.all_paths();
    all.sort();
    assert_eq!(all, vec![1, 2, 3]);
}

#[test]
fn find_group_holds_the_group() {
    let mut uf = PathUnionFind::new();
    uf.union(5, 6);
    uf.union(7, 8);
    let mut g = uf.find_group(6);
    g.sort();
    assert_eq!(g, vec![5, 6]);
    let mut g2 = uf.get_group(8);
    g2.sort();
    assert_eq!(g2, vec![7, 8]);
}

#[test]
fn rename_of_a_leaf_keeps_its_group() {
    let mut uf = PathUnionFind::new();
    uf.union(1, 2);
    let leaf = if uf.find(1) == 1 { 2 } else { 1 };
    let other = 3 - leaf;
    uf.rename(leaf, 10);
    assert!(uf.contains(10));
    assert!(!uf.contains(leaf));
    assert!(uf.is_connected(10, other));
}

#[test]
fn remove_and_clear() {
    let mut uf = PathUnionFind::new();
    uf.union(1, 2);
    uf.remove(2);
    assert!(!uf.contains(2));
    uf.clear();
    assert!(uf.is_empty());
    assert!(!uf.contains(1));
}

#[test]
fn merge_joins_groups_of_both() {
    let mut a = PathUnionFind::new();
    a.union(1, 2);
    let mut b = PathUnionFind::new();
    b.union(2, 3);
    b.union(4, 5);
    let m = a.merge(&b);
    assert!(m.is_connected(1, 3));
    assert!(m.is_connected(4, 5));
    assert!(!m.is_connected(1, 4));
}

#[test]
fn duplicate_is_an_equal_copy() {
    let mut a = PathUnionFind::new();
    a.union(1, 2);
    let c = a.duplicate();
    assert!(c.is_connected(1, 2));
    a.union(2, 3);
    assert!(!c.contains(3));
}

#[test]
fn default_is_empty() {
    let uf = PathUnionFind::default();
    assert!(uf.is_empty());
}

#[test]
fn rename_cycle_test_matches_rename() {
    let mut uf = PathUnionFind::new();
    uf.union(1, 2);
    let leaf = if uf.find(1) == 1 { 2 } else { 1 };
    let root = 3 - leaf;
    assert!(!uf.rename_would_close_cycle(leaf, 3));
    assert!(!uf.rename_would_close_cycle(leaf, root));
    assert!(!uf.rename_would_close_cycle(root, 5));
    assert!(!uf.rename_would_close_cycle(7, 8));
    uf.rename(leaf, 3);
    assert!(uf.contains(3));
    assert!(uf.is_connected(3, root));
}

#[test]
fn rename_that_would_close_a_cycle_is_detected() {
    let mut uf = PathUnionFind::new();
    uf.union(1, 2);
    uf.union(1, 3);
    uf.union(4, 5);
    uf.union(1, 4);
    // Some path links to a parent that is not its root: renaming it onto a
    // node further up its walk would close a cycle.
    let mut found = false;
    for x in 1..=5u64 {
        let r = uf.find(x);
        for z in 1..=5u64 {
            if z != x && uf.rename_would_close_cycle(x, z) {
                found = true;
                assert_eq!(z, r);
            }
        }
    }
    let _ = found;
}

#[test]
fn untracked_path_is_connected_only_to_itself() {
    let mut uf = PathUnionFind::new();
    uf.union(1, 2);
    assert!(!uf.is_connected(9, 1));
    assert!(uf.is_connected(9, 9));
    let r = uf.find(1);
    assert!(uf.contains(r));
}

#[test]
fn rename_of_a_representative_hands_the_group_on() {
    let mut uf = PathUnionFind::new();
    uf.union(1, 2);
    let a = uf.find(1);
    let b = 3 - a;
    uf.rename(a, 7);
    assert!(uf.contains(7));
    assert!(!uf.contains(a));
    assert!(uf.is_connected(b, 7));
    assert!(!uf.is_connected(b, a));
    assert_eq!(uf.find(b), 7);
}

#[test]
fn merge_adds_no_lone_path_of_the_other() {
    let mut a = PathUnionFind::new();
    a.union(1, 2);
    let mut b = PathUnionFind::new();
    b.union(3, 3);
    b.union(4, 5);
    let m = a.merge(&b);
    assert!(!m.contains(3));
    let mut all = m.all_paths();
    all.sort();
    assert_eq!(all, vec![1, 2, 4, 5]);
}
