use vstd::prelude::*;
use std::collections::HashMap;
use vstd::std_specs::iter::IteratorSpec;

verus! {

broadcast use vstd::std_specs::hash::group_hash_axioms;

/// Collects the keys of a map into a vector, in the map's iteration order.
pub fn keys_of<V>(m: &HashMap<u64, V>) -> (keys: Vec<u64>)
    ensures
        keys@.to_set() == m@.dom(),
        keys@.no_duplicates(),
        keys@.len() == m@.dom().len(),
{
    let mut keys: Vec<u64> = Vec::new();
    let ghost all = m.keys().remaining().unref();
    for k in it: m.keys()
        invariant
            it.seq().unref() == all,
            keys@ == all.take(it.index() as int),
    {
        keys.push(*k);
    }
    assert(keys@ == all);
    keys
}

/// What a sequence holds after a push.
pub proof fn lemma_push_contains<A>(s: Seq<A>, x: A, y: A)
    ensures
        s.push(x).contains(y) <==> (s.contains(y) || x == y),
{
    if s.push(x).contains(y) && x != y {
        let k = choose|k: int| 0 <= k < s.push(x).len() && s.push(x)[k] == y;
        assert(s[k] == y);
    }
    if s.contains(y) {
        let k = choose|k: int| 0 <= k < s.len() && s[k] == y;
        assert(s.push(x)[k] == y);
    }
    if x == y {
        assert(s.push(x)[s.len() as int] == y);
    }
}

/// A ranking of the parent links: every link that does not point to the node
/// itself points to a node of strictly smaller depth.  This is what makes
/// every walk up the parent links finite.
pub open spec fn ranked(parent: Map<u64, u64>, depth: spec_fn(u64) -> nat) -> bool {
    forall|x: u64|
        #![trigger parent[x]]
        parent.contains_key(x) && parent[x] != x ==> depth(parent[x]) < depth(x)
}

/// The node reached from `x` by following parent links until a node that is
/// its own parent, or that has no parent link.
pub open spec fn root_of(parent: Map<u64, u64>, depth: spec_fn(u64) -> nat, x: u64) -> u64
    decreases depth(x),
{
    if parent.contains_key(x) && parent[x] != x && depth(parent[x]) < depth(x) {
        root_of(parent, depth, parent[x])
    } else {
        x
    }
}

/// `z` lies on the walk up the parent links that starts at `y`.
pub open spec fn reaches(parent: Map<u64, u64>, depth: spec_fn(u64) -> nat, y: u64, z: u64) -> bool
    decreases depth(y),
{
    y == z || (parent.contains_key(y) && parent[y] != y && depth(parent[y]) < depth(y)
        && reaches(parent, depth, parent[y], z))
}

/// The root of a node does not depend on which ranking is used to define it.
pub proof fn lemma_root_any_ranking(
    parent: Map<u64, u64>,
    d1: spec_fn(u64) -> nat,
    d2: spec_fn(u64) -> nat,
    x: u64,
)
    requires
        ranked(parent, d1),
        ranked(parent, d2),
    ensures
        root_of(parent, d1, x) == root_of(parent, d2, x),
    decreases d1(x),
{
    if parent.contains_key(x) && parent[x] != x {
        lemma_root_any_ranking(parent, d1, d2, parent[x]);
    }
}

/// A root sits no deeper than the node it is the root of, and is a root.
pub proof fn lemma_root_facts(parent: Map<u64, u64>, d: spec_fn(u64) -> nat, x: u64)
    requires
        ranked(parent, d),
    ensures
        d(root_of(parent, d, x)) <= d(x),
        root_of(parent, d, x) != x ==> d(root_of(parent, d, x)) < d(x),
        !parent.contains_key(root_of(parent, d, x)) || parent[root_of(parent, d, x)] == root_of(parent, d, x),
        root_of(parent, d, root_of(parent, d, x)) == root_of(parent, d, x),
        parent.contains_key(x) && parent[x] != x ==> root_of(parent, d, x) == root_of(parent, d, parent[x]),
    decreases d(x),
{
    if parent.contains_key(x) && parent[x] != x {
        lemma_root_facts(parent, d, parent[x]);
    }
}

/// Pointing a node straight at its root keeps every root unchanged.
pub proof fn lemma_compress(parent: Map<u64, u64>, d: spec_fn(u64) -> nat, x: u64, y: u64)
    requires
        ranked(parent, d),
        parent.contains_key(x),
    ensures
        ranked(parent.insert(x, root_of(parent, d, x)), d),
        root_of(parent.insert(x, root_of(parent, d, x)), d, y) == root_of(parent, d, y),
    decreases d(y),
{
    let r = root_of(parent, d, x);
    let p2 = parent.insert(x, r);
    lemma_root_facts(parent, d, x);
    assert(ranked(p2, d)) by {
        assert forall|z: u64| #![trigger p2[z]] p2.contains_key(z) && p2[z] != z implies d(p2[z]) < d(z) by {
            if z == x {
            } else {
                assert(p2[z] == parent[z]);
            }
        }
    }
    if y == x {
        if r != x {
            lemma_root_facts(parent, d, r);
            assert(root_of(p2, d, r) == r);
            assert(root_of(p2, d, x) == root_of(p2, d, r));
        } else {
            assert(root_of(p2, d, x) == x);
        }
    } else if parent.contains_key(y) && parent[y] != y {
        lemma_compress(parent, d, x, parent[y]);
    }
}

/// Giving a node that had no parent link a link to itself keeps every root unchanged.
pub proof fn lemma_add_root(parent: Map<u64, u64>, d: spec_fn(u64) -> nat, x: u64, y: u64)
    requires
        ranked(parent, d),
        !parent.contains_key(x),
    ensures
        ranked(parent.insert(x, x), d),
        root_of(parent.insert(x, x), d, y) == root_of(parent, d, y),
    decreases d(y),
{
    let p2 = parent.insert(x, x);
    assert(ranked(p2, d)) by {
        assert forall|z: u64| #![trigger p2[z]] p2.contains_key(z) && p2[z] != z implies d(p2[z]) < d(z) by {
            assert(z != x);
            assert(p2[z] == parent[z]);
        }
    }
    if parent.contains_key(y) && parent[y] != y {
        lemma_add_root(parent, d, x, parent[y]);
    }
}

/// Removing a parent link keeps the links ranked.
pub proof fn lemma_remove_ranked(parent: Map<u64, u64>, d: spec_fn(u64) -> nat, x: u64)
    requires
        ranked(parent, d),
    ensures
        ranked(parent.remove(x), d),
{
    let p2 = parent.remove(x);
    assert forall|z: u64| #![trigger p2[z]] p2.contains_key(z) && p2[z] != z implies d(p2[z]) < d(z) by {
        assert(p2[z] == parent[z]);
    }
}


/// Linking root `b` under root `a`: raising the depth of every node of `b`'s
/// group keeps the links ranked, and the nodes of `b`'s group take `a` as root.
pub proof fn lemma_link(parent: Map<u64, u64>, d: spec_fn(u64) -> nat, a: u64, b: u64, y: u64)
    requires
        ranked(parent, d),
        a != b,
        parent.contains_key(a) && parent[a] == a,
        parent.contains_key(b) && parent[b] == b,
    ensures
        ranked(parent.insert(b, a), raise_group(parent, d, b, d(a) + 1)),
        root_of(parent.insert(b, a), raise_group(parent, d, b, d(a) + 1), y) == (if root_of(
            parent,
            d,
            y,
        ) == b {
            a
        } else {
            root_of(parent, d, y)
        }),
    decreases d(y),
{
    let d2 = raise_group(parent, d, b, d(a) + 1);
    let p2 = parent.insert(b, a);
    assert(root_of(parent, d, a) == a);
    assert(root_of(parent, d, b) == b);
    assert(ranked(p2, d2)) by {
        assert forall|z: u64| #![trigger p2[z]] p2.contains_key(z) && p2[z] != z implies d2(p2[z]) < d2(z) by {
            if z != b {
                assert(p2[z] == parent[z]);
                lemma_root_facts(parent, d, z);
            }
        }
    }
    if y == b {
        assert(root_of(p2, d2, a) == a);
    } else if parent.contains_key(y) && parent[y] != y {
        lemma_root_facts(parent, d, y);
        lemma_link(parent, d, a, b, parent[y]);
    } else {
        assert(root_of(p2, d2, y) == y);
    }
}

/// The depths after raising every node whose root is `b` by `k`.
pub open spec fn raise_group(parent: Map<u64, u64>, d: spec_fn(u64) -> nat, b: u64, k: nat) -> spec_fn(u64) -> nat {
    |y: u64| if root_of(parent, d, y) == b { d(y) + k } else { d(y) }
}

/// The depths after raising every node whose walk passes through `n` by `k`.
pub open spec fn raise_walkers(parent: Map<u64, u64>, d: spec_fn(u64) -> nat, n: u64, k: nat) -> spec_fn(u64) -> nat {
    |y: u64| if reaches(parent, d, y, n) { d(y) + k } else { d(y) }
}

/// Giving `n` the parent `p0` keeps the links free of cycles as long as `n`
/// does not lie on the walk from `p0`.
pub proof fn lemma_relink(parent: Map<u64, u64>, d: spec_fn(u64) -> nat, n: u64, p0: u64)
    requires
        ranked(parent, d),
        p0 != n,
        !reaches(parent, d, p0, n),
    ensures
        ranked(parent.insert(n, p0), raise_walkers(parent, d, n, d(p0) + 1)),
{
    let d2 = raise_walkers(parent, d, n, d(p0) + 1);
    let p2 = parent.insert(n, p0);
    assert(reaches(parent, d, n, n));
    assert forall|z: u64| #![trigger p2[z]] p2.contains_key(z) && p2[z] != z implies d2(p2[z]) < d2(z) by {
        if z != n {
            assert(p2[z] == parent[z]);
            assert(reaches(parent, d, z, n) == reaches(parent, d, parent[z], n));
        }
    }
}


/// The parent links when the root `old_path` hands its place to `new_path`:
/// every other path that linked to `old_path` links to `new_path`, which
/// becomes a root, and `old_path` loses its link.
pub open spec fn root_renamed(parent: Map<u64, u64>, old_path: u64, new_path: u64) -> Map<u64, u64> {
    Map::new(
        |k: u64| (parent.contains_key(k) || k == new_path) && k != old_path,
        |k: u64|
            if k == new_path {
                new_path
            } else if parent[k] == old_path {
                new_path
            } else {
                parent[k]
            },
    )
}

/// The parent links after `rename(old_path, new_path)`: `old_path` loses its
/// link; when it was a root, `new_path` takes its place as the root of its
/// group; otherwise `new_path` takes over its parent link.
pub open spec fn renamed_parent(parent: Map<u64, u64>, old_path: u64, new_path: u64) -> Map<u64, u64> {
    if !parent.contains_key(old_path) {
        parent
    } else if parent[old_path] == old_path {
        root_renamed(parent, old_path, new_path)
    } else {
        parent.insert(new_path, parent[old_path]).remove(old_path)
    }
}

/// The ranks after `rename(old_path, new_path)`: a root hands its rank on to
/// `new_path`; `old_path` loses its rank.
pub open spec fn renamed_rank(
    parent: Map<u64, u64>,
    rank: Map<u64, usize>,
    old_path: u64,
    new_path: u64,
) -> Map<u64, usize> {
    if !parent.contains_key(old_path) {
        rank
    } else if parent[old_path] == old_path && rank.contains_key(old_path) {
        rank.remove(old_path).insert(new_path, rank[old_path]).remove(old_path)
    } else {
        rank.remove(old_path)
    }
}


/// `groups` lists the groups of `uf`: each entry is non-empty, repeats no
/// path, holds exactly the tracked paths of one group, and every tracked path
/// is in exactly one entry.
pub open spec fn lists_groups(uf: PathUnionFind, groups: Seq<Seq<u64>>) -> bool {
    &&& forall|i: int| 0 <= i < groups.len() ==> #[trigger] groups[i].len() > 0
    &&& forall|i: int| 0 <= i < groups.len() ==> #[trigger] groups[i].no_duplicates()
    &&& forall|i: int, x: u64|
        0 <= i < groups.len() ==> (#[trigger] groups[i].contains(x) <==> (uf.tracks(x) && uf.root(x)
            == uf.root(groups[i][0])))
    &&& forall|x: u64| uf.tracks(x) ==> exists|i: int| 0 <= i < groups.len() && #[trigger] groups[i].contains(x)
    &&& forall|i: int, j: int|
        0 <= i < groups.len() && 0 <= j < groups.len() && i != j ==> uf.root(#[trigger] groups[i][0]) != uf.root(
            #[trigger] groups[j][0],
        )
}


/// `e` is reflexive, symmetric and transitive.
pub open spec fn is_equivalence(e: spec_fn(u64, u64) -> bool) -> bool {
    &&& forall|x: u64| #[trigger] e(x, x)
    &&& forall|x: u64, y: u64| #[trigger] e(x, y) ==> e(y, x)
    &&& forall|x: u64, y: u64, z: u64| #[trigger] e(x, y) && #[trigger] e(y, z) ==> e(x, z)
}

/// Every two paths in one group of `uf` are related by `e`.
pub open spec fn groups_within(uf: PathUnionFind, e: spec_fn(u64, u64) -> bool) -> bool {
    forall|x: u64, y: u64| #[trigger] uf.same_group(x, y) ==> e(x, y)
}

/// A path that `merge` may have to track: tracked by one of the two
/// structures, or the untracked representative of a group of `base`.
pub open spec fn merge_may_track(base: PathUnionFind, other: PathUnionFind, x: u64) -> bool {
    base.tracks(x) || other.tracks(x) || exists|y: u64| base.tracks(y) && #[trigger] base.root(y) == x
}

/// A union of the groups of `a` and `b` keeps every equivalence that relates
/// `a` and `b` and all paths that were grouped before.
pub proof fn lemma_union_within(
    before: PathUnionFind,
    after: PathUnionFind,
    a: u64,
    b: u64,
    w: u64,
    e: spec_fn(u64, u64) -> bool,
)
    requires
        is_equivalence(e),
        groups_within(before, e),
        e(a, b),
        w == before.root(a) || w == before.root(b),
        forall|y: u64|
            #[trigger] after.root(y) == (if before.root(y) == before.root(a) || before.root(y) == before.root(b) {
                w
            } else {
                before.root(y)
            }),
    ensures
        groups_within(after, e),
{
    assert forall|x: u64, y: u64| #[trigger] after.same_group(x, y) implies e(x, y) by {
        let in_x = before.root(x) == before.root(a) || before.root(x) == before.root(b);
        let in_y = before.root(y) == before.root(a) || before.root(y) == before.root(b);
        if in_x && in_y {
            if before.root(x) == before.root(a) {
                assert(before.same_group(x, a));
                assert(e(x, a));
            } else {
                assert(before.same_group(x, b));
                assert(e(x, b));
                assert(e(b, a));
                assert(e(x, a));
            }
            if before.root(y) == before.root(a) {
                assert(before.same_group(a, y));
                assert(e(a, y));
            } else {
                assert(before.same_group(b, y));
                assert(e(b, y));
                assert(e(a, y));
            }
            assert(e(x, y));
        } else if in_x {
            assert(after.root(x) == w);
            assert(after.root(y) == before.root(y));
            assert(before.root(y) == w);
        } else if in_y {
            assert(after.root(y) == w);
            assert(before.root(x) == w);
        } else {
            assert(before.same_group(x, y));
        }
    }
}

/// A path that `merge` tracks when the first structure's tracked paths have
/// tracked representatives: one that the first structure tracks, or one in a
/// group of two or more paths of the second.
pub open spec fn merge_tracks_allowed(base: PathUnionFind, other: PathUnionFind, x: u64) -> bool {
    base.tracks(x) || (other.tracks(x) && exists|y: u64| #[trigger] other.tracks(y) && y != x && other.same_group(x, y))
}

/// The root that `union(path1, path2)` leaves as the representative of the
/// merged group.
pub open spec fn union_winner(uf: PathUnionFind, path1: u64, path2: u64) -> u64 {
    let r1 = uf.root(path1);
    let r2 = uf.root(path2);
    if r1 != r2 && uf.effective_rank(r1) < uf.effective_rank(r2) {
        r2
    } else {
        r1
    }
}

/// `y` belongs to the group of some member of `m`.
pub open spec fn touches(uf: PathUnionFind, m: Set<u64>, y: u64) -> bool {
    exists|x: u64| #[trigger] m.contains(x) && uf.same_group(y, x)
}

/// `after` is `before` with the groups of all members of `m` merged into a
/// single group whose root is `w`, the former root of one of them; every
/// member of `m`, and the former root of each, is tracked afterwards, and
/// nothing else changes group or starts being tracked.
pub open spec fn merged_into(before: PathUnionFind, after: PathUnionFind, m: Set<u64>, w: u64) -> bool {
    &&& forall|y: u64| #[trigger] after.root(y) == (if touches(before, m, y) { w } else { before.root(y) })
    &&& (m != Set::<u64>::empty() ==> exists|x: u64| #[trigger] m.contains(x) && w == before.root(x))
    &&& forall|y: u64|
        #[trigger] after.tracks(y) <==> (before.tracks(y) || exists|x: u64|
            #[trigger] m.contains(x) && (y == x || y == before.root(x)))
}

/// Merging nothing leaves the structure as it is.
pub proof fn lemma_merged_nothing(uf: PathUnionFind, w: u64)
    ensures
        merged_into(uf, uf, Set::<u64>::empty(), w),
{
}

/// What `union(p1, p2)` guarantees is a merge of the groups of `p1` and `p2`.
pub proof fn lemma_union_merged(before: PathUnionFind, after: PathUnionFind, p1: u64, p2: u64)
    requires
        forall|y: u64|
            #[trigger] after.tracks(y) <==> (before.tracks(y) || y == p1 || y == p2 || y == before.root(p1)
                || y == before.root(p2)),
        forall|y: u64|
            #[trigger] after.root(y) == (if before.root(y) == before.root(p1) || before.root(y) == before.root(p2) {
                union_winner(before, p1, p2)
            } else {
                before.root(y)
            }),
    ensures
        merged_into(before, after, set![p1, p2], union_winner(before, p1, p2)),
{
    let m = set![p1, p2];
    assert(m.contains(p1) && m.contains(p2));
    assert forall|y: u64| #[trigger] after.root(y) == (if touches(before, m, y) {
        union_winner(before, p1, p2)
    } else {
        before.root(y)
    }) by {
        if before.root(y) == before.root(p1) {
            assert(touches(before, m, y));
        } else if before.root(y) == before.root(p2) {
            assert(touches(before, m, y));
        } else {
            assert(!touches(before, m, y));
        }
    }
    assert forall|y: u64| #[trigger] after.tracks(y) <==> (before.tracks(y) || exists|x: u64|
        #[trigger] m.contains(x) && (y == x || y == before.root(x))) by {
        if y == p1 || y == before.root(p1) {
            assert(m.contains(p1));
        }
        if y == p2 || y == before.root(p2) {
            assert(m.contains(p2));
        }
    }
}

/// Two merges in a row, where the second one involves a member of the first
/// (or the first merged nothing), are one merge of all the members.
pub proof fn lemma_merged_chain(
    o: PathUnionFind,
    c: PathUnionFind,
    n: PathUnionFind,
    m: Set<u64>,
    w: u64,
    m2: Set<u64>,
    w2: u64,
)
    requires
        merged_into(o, c, m, w),
        merged_into(c, n, m2, w2),
        m2 != Set::<u64>::empty(),
        m == Set::<u64>::empty() || exists|x: u64| #[trigger] m2.contains(x) && m.contains(x),
    ensures
        merged_into(o, n, m + m2, w2),
{
    let mm = m + m2;
    if m == Set::<u64>::empty() {
        assert forall|y: u64| #[trigger] c.root(y) == o.root(y) by {
            assert(!touches(o, m, y));
        }
        assert(mm =~= m2);
        assert forall|y: u64| touches(c, m2, y) == touches(o, m2, y) by {
            if touches(c, m2, y) {
                let x = choose|x: u64| #[trigger] m2.contains(x) && c.same_group(y, x);
                assert(o.same_group(y, x));
            }
            if touches(o, m2, y) {
                let x = choose|x: u64| #[trigger] m2.contains(x) && o.same_group(y, x);
                assert(c.same_group(y, x));
            }
        }
        assert forall|y: u64| #[trigger] c.tracks(y) == o.tracks(y) by {}
        assert forall|y: u64| #[trigger] n.root(y) == (if touches(o, mm, y) { w2 } else { o.root(y) }) by {
            assert(touches(c, m2, y) == touches(o, m2, y));
        }
        let x2 = choose|x: u64| #[trigger] m2.contains(x) && w2 == c.root(x);
        assert(mm.contains(x2) && w2 == o.root(x2));
    } else {
        let x0 = choose|x: u64| #[trigger] m2.contains(x) && m.contains(x);
        assert(touches(o, m, x0)) by {
            assert(o.same_group(x0, x0));
        }
        assert(c.root(x0) == w);
        assert forall|y: u64| touches(c, m2, y) == touches(o, mm, y) by {
            if touches(c, m2, y) {
                let x = choose|x: u64| #[trigger] m2.contains(x) && c.same_group(y, x);
                if touches(o, m, y) {
                    let x1 = choose|x1: u64| #[trigger] m.contains(x1) && o.same_group(y, x1);
                    assert(mm.contains(x1));
                } else if touches(o, m, x) {
                    let x1 = choose|x1: u64| #[trigger] m.contains(x1) && w == o.root(x1);
                    assert(o.same_group(y, x1));
                    assert(mm.contains(x1));
                    assert(touches(o, m, y));
                } else {
                    assert(o.same_group(y, x));
                    assert(mm.contains(x));
                }
            }
            if touches(o, mm, y) {
                let x = choose|x: u64| #[trigger] mm.contains(x) && o.same_group(y, x);
                if touches(o, m, y) {
                    assert(c.root(y) == w);
                    assert(c.same_group(y, x0));
                } else if m.contains(x) {
                    assert(touches(o, m, y));
                } else {
                    assert(m2.contains(x));
                    if touches(o, m, x) {
                        let x1 = choose|x1: u64| #[trigger] m.contains(x1) && o.same_group(x, x1);
                        assert(o.same_group(y, x1));
                        assert(touches(o, m, y));
                    }
                    assert(c.same_group(y, x));
                }
            }
        }
        assert forall|y: u64| #[trigger] n.root(y) == (if touches(o, mm, y) { w2 } else { o.root(y) }) by {
            assert(touches(c, m2, y) == touches(o, mm, y));
            if !touches(o, mm, y) {
                if touches(o, m, y) {
                    let x1 = choose|x1: u64| #[trigger] m.contains(x1) && o.same_group(y, x1);
                    assert(mm.contains(x1));
                }
            }
        }
        let x2 = choose|x: u64| #[trigger] m2.contains(x) && w2 == c.root(x);
        assert(mm.contains(x2));
        if touches(o, m, x2) {
            let x1 = choose|x1: u64| #[trigger] m.contains(x1) && w == o.root(x1);
            assert(mm.contains(x1) && w2 == o.root(x1));
        } else {
            assert(w2 == o.root(x2));
        }
        assert forall|y: u64| #[trigger] n.tracks(y) <==> (o.tracks(y) || exists|x: u64|
            #[trigger] mm.contains(x) && (y == x || y == o.root(x))) by {
            if n.tracks(y) && !o.tracks(y) {
                if c.tracks(y) {
                    let x = choose|x: u64| #[trigger] m.contains(x) && (y == x || y == o.root(x));
                    assert(mm.contains(x));
                } else {
                    let x = choose|x: u64| #[trigger] m2.contains(x) && (y == x || y == c.root(x));
                    assert(mm.contains(x));
                    if y != x && touches(o, m, x) {
                        let x1 = choose|x1: u64| #[trigger] m.contains(x1) && w == o.root(x1);
                        assert(mm.contains(x1));
                    }
                }
            }
            if !o.tracks(y) && (exists|x: u64| #[trigger] mm.contains(x) && (y == x || y == o.root(x))) {
                let x = choose|x: u64| #[trigger] mm.contains(x) && (y == x || y == o.root(x));
                if m.contains(x) {
                    assert(c.tracks(y));
                } else {
                    assert(m2.contains(x));
                    if y == x {
                        assert(n.tracks(y));
                    } else if touches(o, m, x) {
                        let x1 = choose|x1: u64| #[trigger] m.contains(x1) && o.same_group(x, x1);
                        assert(c.tracks(y));
                    } else {
                        assert(c.root(x) == o.root(x));
                        assert(n.tracks(y));
                    }
                }
            }
        }
    }
}

/// A merge keeps every tracked path's representative tracked.
pub proof fn lemma_merged_keeps_roots_tracked(before: PathUnionFind, after: PathUnionFind, m: Set<u64>, w: u64)
    requires
        before.wf(),
        before.roots_tracked(),
        merged_into(before, after, m, w),
    ensures
        after.roots_tracked(),
{
    assert forall|y: u64| #[trigger] after.tracks(y) implies after.tracks(after.root(y)) by {
        if touches(before, m, y) {
            let x = choose|x: u64| #[trigger] m.contains(x) && before.same_group(y, x);
            let x1 = choose|x1: u64| #[trigger] m.contains(x1) && w == before.root(x1);
            assert(after.tracks(before.root(x1)));
        } else if before.tracks(y) {
            assert(before.tracks(before.root(y)));
            assert(after.tracks(before.root(y)));
        } else {
            let x = choose|x: u64| #[trigger] m.contains(x) && (y == x || y == before.root(x));
            before.lemma_root(x);
            assert(before.same_group(y, x));
            assert(false);
        }
    }
}

/// A change that keeps every representative, and tracks at most `path` and
/// its representative besides, keeps every tracked path's representative
/// tracked.
pub proof fn lemma_same_roots_keep_roots_tracked(before: PathUnionFind, after: PathUnionFind, path: u64)
    requires
        before.wf(),
        forall|y: u64| #[trigger] after.root(y) == before.root(y),
        forall|y: u64| #[trigger] after.tracks(y) <==> (before.tracks(y) || y == path || y == before.root(path)),
    ensures
        before.roots_tracked() ==> after.roots_tracked(),
{
    if before.roots_tracked() {
        before.lemma_root(path);
        assert forall|y: u64| #[trigger] after.tracks(y) implies after.tracks(after.root(y)) by {
            if before.tracks(y) {
                assert(before.tracks(before.root(y)));
            }
        }
    }
}

/// A union-find structure over paths (each path named by a `u64`).
pub struct PathUnionFind {
    parent: HashMap<u64, u64>,
    rank: HashMap<u64, usize>,
    depth: Ghost<spec_fn(u64) -> nat>,
}

impl PathUnionFind {
    /// The parent links.
    pub closed spec fn parent_map(&self) -> Map<u64, u64> {
        self.parent@
    }

    /// The rank recorded for each node.
    pub closed spec fn rank_map(&self) -> Map<u64, usize> {
        self.rank@
    }

    pub closed spec fn depth_fn(&self) -> spec_fn(u64) -> nat {
        self.depth@
    }

    /// The structure is well formed: its parent links are free of cycles.
    pub closed spec fn wf(&self) -> bool {
        ranked(self.parent@, self.depth@)
    }

    /// The representative of `x`: `x` itself when `x` is not tracked.
    pub closed spec fn root(&self, x: u64) -> u64 {
        root_of(self.parent@, self.depth@, x)
    }

    /// `x` is tracked (has a parent link).
    pub open spec fn tracks(&self, x: u64) -> bool {
        self.parent_map().contains_key(x)
    }

    /// Every tracked path's representative is tracked too.
    pub open spec fn roots_tracked(&self) -> bool {
        forall|x: u64| #[trigger] self.tracks(x) ==> self.tracks(self.root(x))
    }

    /// `x` and `y` belong to the same group.
    pub open spec fn same_group(&self, x: u64, y: u64) -> bool {
        self.root(x) == self.root(y)
    }

    /// The rank that `union` compares for a root: the recorded rank of a
    /// tracked node, 0 for a node that `union` first has to track.
    pub open spec fn effective_rank(&self, x: u64) -> usize {
        if self.tracks(x) && self.rank_map().contains_key(x) {
            self.rank_map()[x]
        } else {
            0
        }
    }

    /// The root of `x` is reached from `x` by parent links, is a root, and
    /// `x`'s parent (when it has one) has the same root.
    pub proof fn lemma_root(&self, x: u64)
        requires
            self.wf(),
        ensures
            self.root(self.root(x)) == self.root(x),
            !self.tracks(self.root(x)) || self.parent_map()[self.root(x)] == self.root(x),
            self.tracks(x) ==> self.root(x) == self.root(self.parent_map()[x]),
            !self.tracks(x) ==> self.root(x) == x,
            self.tracks(x) && self.parent_map()[x] == x ==> self.root(x) == x,
    {
        lemma_root_facts(self.parent@, self.depth@, x);
    }

    /// Creates an empty structure.
    pub fn new() -> (uf: Self)
        ensures
            uf.wf(),
            uf.roots_tracked(),
            uf.parent_map() == Map::<u64, u64>::empty(),
            uf.rank_map() == Map::<u64, usize>::empty(),
    {
        PathUnionFind {
            parent: HashMap::new(),
            rank: HashMap::new(),
            depth: Ghost(|x: u64| 0nat),
        }
    }

    /// Returns the representative of `path` without changing the structure.
    pub fn find(&self, path: u64) -> (r: u64)
        requires
            self.wf(),
        ensures
            r == self.root(path),
    {
        if !self.parent.contains_key(&path) {
            return path;
        }
        let mut current = path;
        loop
            invariant
                self.wf(),
                self.root(current) == self.root(path),
            ensures
                current == self.root(path),
            decreases self.depth@(current),
        {
            match self.parent.get(&current) {
                Some(p) => {
                    if *p == current {
                        proof {
                            lemma_root_facts(self.parent@, self.depth@, current);
                        }
                        break;
                    }
                    proof {
                        lemma_root_facts(self.parent@, self.depth@, current);
                    }
                    current = *p;
                },
                None => {
                    break;
                },
            }
        }
        current
    }

    /// Returns the representative of `path`, tracking `path` first if it is
    /// not tracked, and pointing every node on the walk straight at the root.
    pub fn find_mut(&mut self, path: u64) -> (r: u64)
        requires
            old(self).wf(),
        ensures
            final(self).wf(),
            r == old(self).root(path),
            forall|y: u64| #[trigger] final(self).root(y) == old(self).root(y),
            final(self).tracks(path),
            forall|y: u64|
                #[trigger] final(self).tracks(y) <==> (old(self).tracks(y) || y == path || y == r),
            forall|y: u64|
                #![trigger final(self).parent_map()[y]]
                old(self).tracks(y) ==> (final(self).parent_map()[y] == old(self).parent_map()[y]
                    || final(self).parent_map()[y] == old(self).root(y)),
            !old(self).tracks(path) ==> final(self).parent_map() == old(self).parent_map().insert(path, path),
            !old(self).tracks(path) ==> final(self).rank_map() == old(self).rank_map().insert(path, 0),
            old(self).tracks(path) && !old(self).tracks(r) ==> final(self).rank_map() == old(self).rank_map().insert(r, 0),
            old(self).tracks(path) && old(self).tracks(r) ==> final(self).rank_map() == old(self).rank_map(),
            final(self).tracks(r),
            final(self).depth_fn() == old(self).depth_fn(),
            old(self).roots_tracked() ==> final(self).roots_tracked(),
        decreases old(self).depth_fn()(path),
    {
        let ghost d = self.depth@;
        if !self.parent.contains_key(&path) {
            proof {
                assert forall|y: u64| #[trigger] root_of(self.parent@.insert(path, path), d, y) == root_of(self.parent@, d, y) by {
                    lemma_add_root(self.parent@, d, path, y);
                }
                lemma_add_root(self.parent@, d, path, path);
            }
            self.parent.insert(path, path);
            self.rank.insert(path, 0);
            proof {
                lemma_same_roots_keep_roots_tracked(*old(self), *self, path);
            }
            return path;
        }
        let p = *self.parent.get(&path).unwrap();
        if p != path {
            proof {
                lemma_root_facts(self.parent@, d, path);
            }
            let ghost s0 = *self;
            let root = self.find_mut(p);
            let ghost s1 = *self;
            proof {
                assert(self.depth@ == d);
                assert(self.tracks(path));
                lemma_root_facts(self.parent@, d, path);
                assert(self.root(path) == s0.root(path));
                assert(root == s0.root(p));
                assert(s0.root(path) == s0.root(p));
                assert(root == root_of(self.parent@, d, path));
                assert forall|y: u64| #[trigger] root_of(self.parent@.insert(path, root), d, y) == root_of(self.parent@, d, y) by {
                    lemma_compress(self.parent@, d, path, y);
                }
                lemma_compress(self.parent@, d, path, path);
                lemma_root_facts(s0.parent@, d, path);
                lemma_root_facts(s0.parent@, d, p);
            }
            self.parent.insert(path, root);
            proof {
                assert forall|y: u64| #[trigger] self.root(y) == s0.root(y) by {
                    assert(s1.root(y) == s0.root(y));
                }
                assert forall|y: u64| #[trigger] self.tracks(y) <==> (s0.tracks(y) || y == path || y == root) by {
                    assert(s1.tracks(y) <==> (s0.tracks(y) || y == p || y == root));
                }
                lemma_same_roots_keep_roots_tracked(*old(self), *self, path);
            }
            return root;
        }
        proof {
            lemma_root_facts(self.parent@, d, path);
            lemma_same_roots_keep_roots_tracked(*old(self), *self, path);
        }
        path
    }

    /// Merges the groups of `path1` and `path2` (tracking either first if
    /// needed).  The root of lower rank goes under the other; on equal ranks
    /// the root of `path2` goes under the root of `path1`, whose rank grows
    /// by one (wrapping at `usize::MAX`).
    pub fn union(&mut self, path1: u64, path2: u64)
        requires
            old(self).wf(),
        ensures
            final(self).wf(),
            forall|y: u64|
                #[trigger] final(self).tracks(y) <==> (old(self).tracks(y) || y == path1 || y == path2
                    || y == old(self).root(path1) || y == old(self).root(path2)),
            final(self).root(path1) == union_winner(*old(self), path1, path2),
            forall|y: u64|
                #[trigger] final(self).root(y) == (if old(self).root(y) == old(self).root(path1)
                    || old(self).root(y) == old(self).root(path2) {
                    union_winner(*old(self), path1, path2)
                } else {
                    old(self).root(y)
                }),
            final(self).effective_rank(union_winner(*old(self), path1, path2)) == (if old(self).root(path1)
                != old(self).root(path2) && old(self).effective_rank(old(self).root(path1))
                == old(self).effective_rank(old(self).root(path2)) {
                old(self).effective_rank(old(self).root(path1)).wrapping_add(1)
            } else {
                old(self).effective_rank(union_winner(*old(self), path1, path2))
            }),
            forall|y: u64|
                y != path1 && y != path2 && y != old(self).root(path1) && y != old(self).root(path2)
                    ==> #[trigger] final(self).effective_rank(y) == old(self).effective_rank(y),
            old(self).roots_tracked() ==> final(self).roots_tracked(),
    {
        let ghost s0 = *self;
        let root1 = self.find_mut(path1);
        let ghost s1 = *self;
        let root2 = self.find_mut(path2);
        let ghost s2 = *self;
        proof {
            assert(s2.root(path1) == s1.root(path1));
            assert(root2 == s0.root(path2));
            lemma_root_facts(s2.parent@, s2.depth@, root1);
            lemma_root_facts(s2.parent@, s2.depth@, root2);
            assert(s2.root(root1) == s1.root(root1));
            assert(s1.root(root1) == s0.root(root1));
            lemma_root_facts(s0.parent@, s0.depth@, path1);
            lemma_root_facts(s0.parent@, s0.depth@, path2);
            assert(s2.root(root1) == root1);
            assert(s2.root(root2) == root2);
            assert forall|y: u64| #[trigger] s2.root(y) == s0.root(y) by {
                assert(s1.root(y) == s0.root(y));
            }
            assert forall|y: u64| #[trigger] s2.tracks(y) <==> (s0.tracks(y) || y == path1 || y == path2
                || y == s0.root(path1) || y == s0.root(path2)) by {
                assert(s1.tracks(y) <==> (s0.tracks(y) || y == path1 || y == root1));
            }
            assert(s2.effective_rank(root1) == s0.effective_rank(root1));
            assert(s2.effective_rank(root2) == s0.effective_rank(root2));
            assert forall|y: u64|
                y != path1 && y != path2 && y != s0.root(path1) && y != s0.root(path2)
                    implies #[trigger] s2.effective_rank(y) == s0.effective_rank(y) by {
                assert(s1.effective_rank(y) == s0.effective_rank(y));
            }
        }
        if root1 == root2 {
            return;
        }
        let rank1: usize = match self.rank.get(&root1) {
            Some(r) => *r,
            None => 0,
        };
        let rank2: usize = match self.rank.get(&root2) {
            Some(r) => *r,
            None => 0,
        };
        let ghost d = self.depth@;
        let ghost p = self.parent@;
        proof {
            assert(s1.tracks(root1));
            assert(s2.tracks(root1));
            assert(s2.tracks(root2));
            assert(rank1 == s0.effective_rank(root1));
            assert(rank2 == s0.effective_rank(root2));
        }
        if rank1 < rank2 {
            proof {
                assert forall|y: u64| #[trigger] root_of(p.insert(root1, root2), raise_group(p, d, root1, d(root2) + 1), y)
                    == (if root_of(p, d, y) == root1 { root2 } else { root_of(p, d, y) }) by {
                    lemma_link(p, d, root2, root1, y);
                }
                lemma_link(p, d, root2, root1, root1);
            }
            self.parent.insert(root1, root2);
            self.depth = Ghost(raise_group(p, d, root1, d(root2) + 1));
            proof {
                assert forall|y: u64| #[trigger] self.tracks(y) == s2.tracks(y) by {}
                assert(union_winner(s0, path1, path2) == root2);
                assert forall|y: u64| #[trigger] self.root(y) == (if s0.root(y) == s0.root(path1) || s0.root(y) == s0.root(path2) {
                    union_winner(s0, path1, path2)
                } else {
                    s0.root(y)
                }) by {
                    assert(s2.root(y) == s0.root(y));
                }
            }
        } else {
            if rank1 == rank2 {
                self.rank.insert(root1, rank1.wrapping_add(1));
            }
            proof {
                assert forall|y: u64| #[trigger] root_of(p.insert(root2, root1), raise_group(p, d, root2, d(root1) + 1), y)
                    == (if root_of(p, d, y) == root2 { root1 } else { root_of(p, d, y) }) by {
                    lemma_link(p, d, root1, root2, y);
                }
                lemma_link(p, d, root1, root2, root2);
            }
            self.parent.insert(root2, root1);
            self.depth = Ghost(raise_group(p, d, root2, d(root1) + 1));
            proof {
                assert forall|y: u64| #[trigger] self.tracks(y) == s2.tracks(y) by {}
                assert(union_winner(s0, path1, path2) == root1);
                assert forall|y: u64| #[trigger] self.root(y) == (if s0.root(y) == s0.root(path1) || s0.root(y) == s0.root(path2) {
                    union_winner(s0, path1, path2)
                } else {
                    s0.root(y)
                }) by {
                    assert(s2.root(y) == s0.root(y));
                }
            }
        }
        proof {
            assert forall|y: u64| #[trigger] self.tracks(y) <==> (s0.tracks(y) || y == path1 || y == path2
                || y == s0.root(path1) || y == s0.root(path2)) by {
                assert(s2.tracks(y) <==> (s0.tracks(y) || y == path1 || y == path2
                || y == s0.root(path1) || y == s0.root(path2)));
            }
            if s0.roots_tracked() {
                lemma_union_merged(s0, *self, path1, path2);
                lemma_merged_keeps_roots_tracked(s0, *self, set![path1, path2], union_winner(s0, path1, path2));
            }
        }
    }

    /// Whether `path1` and `path2` are in the same group.
    pub fn is_connected(&self, path1: u64, path2: u64) -> (r: bool)
        requires
            self.wf(),
        ensures
            r == self.same_group(path1, path2),
    {
        self.find(path1) == self.find(path2)
    }

    /// Whether `path1` and `path2` are in the same group, tracking either
    /// first if needed.
    pub fn connected(&mut self, path1: u64, path2: u64) -> (r: bool)
        requires
            old(self).wf(),
        ensures
            final(self).wf(),
            r == old(self).same_group(path1, path2),
            forall|y: u64| #[trigger] final(self).root(y) == old(self).root(y),
            forall|y: u64|
                #[trigger] final(self).tracks(y) <==> (old(self).tracks(y) || y == path1 || y == path2
                    || y == old(self).root(path1) || y == old(self).root(path2)),
            old(self).roots_tracked() ==> final(self).roots_tracked(),
    {
        let ghost s0 = *self;
        let a = self.find_mut(path1);
        let ghost s1 = *self;
        let b = self.find_mut(path2);
        proof {
            assert forall|y: u64| #[trigger] self.root(y) == s0.root(y) by {
                assert(s1.root(y) == s0.root(y));
            }
            assert forall|y: u64| #[trigger] self.tracks(y) <==> (s0.tracks(y) || y == path1 || y == path2
                || y == s0.root(path1) || y == s0.root(path2)) by {
                assert(s1.tracks(y) <==> (s0.tracks(y) || y == path1 || y == a));
            }
        }
        a == b
    }


    /// `z` lies on the walk up the parent links that starts at `y`.
    pub closed spec fn on_walk(&self, y: u64, z: u64) -> bool {
        reaches(self.parent@, self.depth@, y, z)
    }

    /// `rename(old_path, new_path)` would close a cycle of parent links:
    /// `old_path` is not a root, and `new_path`, a different node, lies on the
    /// walk from `old_path`'s parent without being that parent.
    pub open spec fn rename_closes_cycle(&self, old_path: u64, new_path: u64) -> bool {
        let p = self.parent_map();
        &&& p.contains_key(old_path)
        &&& p[old_path] != old_path
        &&& new_path != old_path
        &&& new_path != p[old_path]
        &&& self.on_walk(p[old_path], new_path)
    }

    /// Whether `rename(old_path, new_path)` would close a cycle of parent
    /// links, which `rename` does not allow.
    pub fn rename_would_close_cycle(&self, old_path: u64, new_path: u64) -> (r: bool)
        requires
            self.wf(),
        ensures
            r == self.rename_closes_cycle(old_path, new_path),
    {
        let p0 = match self.parent.get(&old_path) {
            None => {
                return false;
            },
            Some(p) => *p,
        };
        if p0 == old_path || new_path == old_path || new_path == p0 {
            return false;
        }
        let ghost d = self.depth@;
        let mut cur = p0;
        loop
            invariant
                self.wf(),
                d == self.depth@,
                self.parent@.contains_key(old_path),
                p0 == self.parent@[old_path],
                p0 != old_path && new_path != old_path && new_path != p0,
                reaches(self.parent@, d, p0, new_path) == reaches(self.parent@, d, cur, new_path),
            decreases d(cur),
        {
            if cur == new_path {
                return true;
            }
            let next = match self.parent.get(&cur) {
                None => {
                    return false;
                },
                Some(n) => *n,
            };
            if next == cur {
                return false;
            }
            proof {
                assert(d(self.parent@[cur]) < d(cur));
            }
            cur = next;
        }
    }

    /// Links every path other than `old_path` that links to the root
    /// `old_path` to `new_path` instead, makes `new_path` a root, and drops
    /// `old_path`'s link.
    fn relink_children(&mut self, old_path: u64, new_path: u64)
        requires
            old(self).wf(),
            old(self).parent_map().contains_key(old_path),
            old(self).parent_map()[old_path] == old_path,
        ensures
            final(self).wf(),
            final(self).parent_map() == root_renamed(old(self).parent_map(), old_path, new_path),
            final(self).rank_map() == old(self).rank_map(),
    {
        let ghost p = self.parent@;
        let ghost d = self.depth@;
        let keys = keys_of(&self.parent);
        let mut i: usize = 0;
        while i < keys.len()
            invariant
                i <= keys@.len(),
                keys@.to_set() == p.dom(),
                keys@.no_duplicates(),
                self.rank@ == old(self).rank@,
                self.parent@.dom() == p.dom(),
                forall|k: u64|
                    #![trigger self.parent@[k]]
                    p.contains_key(k) ==> self.parent@[k] == (if keys@.take(i as int).contains(k) && k != old_path
                        && p[k] == old_path {
                        new_path
                    } else {
                        p[k]
                    }),
            decreases keys@.len() - i,
        {
            let k = keys[i];
            proof {
                assert(keys@.contains(k));
                assert forall|j: u64| #[trigger] keys@.take(i + 1).contains(j) == (keys@.take(i as int).contains(j)
                    || j == k) by {
                    if keys@.take(i + 1).contains(j) {
                        let x = choose|x: int| 0 <= x < i + 1 && #[trigger] keys@.take(i + 1)[x] == j;
                        if x < i {
                            assert(keys@.take(i as int)[x] == j);
                        }
                    }
                    if keys@.take(i as int).contains(j) {
                        let x = choose|x: int| 0 <= x < i && #[trigger] keys@.take(i as int)[x] == j;
                        assert(keys@.take(i + 1)[x] == j);
                    }
                    if j == k {
                        assert(keys@.take(i + 1)[i as int] == j);
                    }
                }
                assert(!keys@.take(i as int).contains(k)) by {
                    if keys@.take(i as int).contains(k) {
                        let x = choose|x: int| 0 <= x < i && #[trigger] keys@.take(i as int)[x] == k;
                        assert(keys@[x] == keys@[i as int]);
                    }
                }
            }
            let pk = *self.parent.get(&k).unwrap();
            if k != old_path && pk == old_path {
                self.parent.insert(k, new_path);
            }
            i = i + 1;
        }
        proof {
            assert(keys@.take(keys@.len() as int) == keys@);
        }
        self.parent.insert(new_path, new_path);
        self.parent.remove(&old_path);
        let ghost nd = |y: u64| if y == new_path { 0nat } else { d(y) + 1 };
        self.depth = Ghost(nd);
        proof {
            let q = root_renamed(p, old_path, new_path);
            assert forall|k: u64| #[trigger] self.parent@.contains_key(k) == q.contains_key(k) by {
                if k != old_path && k != new_path && p.contains_key(k) {
                    assert(keys@.contains(k));
                }
            }
            assert forall|k: u64| #![trigger self.parent@[k]] self.parent@.contains_key(k) implies self.parent@[k] == q[k] by {
                if k != new_path {
                    assert(keys@.contains(k));
                }
            }
            assert(self.parent@ =~= q);
            assert forall|z: u64| #![trigger q[z]] q.contains_key(z) && q[z] != z implies nd(q[z]) < nd(z) by {
                if z != new_path && p[z] != old_path && p[z] != new_path {
                    assert(d(p[z]) < d(z));
                }
            }
        }
    }

    /// Moves `old_path`'s place to `new_path`.  A root hands its group on:
    /// the paths that linked to it link to `new_path`, which becomes the root
    /// and takes its rank.  A non-root hands its parent link on.  `old_path`
    /// stops being tracked.
    pub fn rename(&mut self, old_path: u64, new_path: u64)
        requires
            old(self).wf(),
            !old(self).rename_closes_cycle(old_path, new_path),
        ensures
            final(self).wf(),
            final(self).parent_map() == renamed_parent(old(self).parent_map(), old_path, new_path),
            final(self).rank_map() == renamed_rank(old(self).parent_map(), old(self).rank_map(), old_path, new_path),
    {
        let ghost p = self.parent@;
        let ghost d = self.depth@;
        match self.parent.get(&old_path) {
            None => {},
            Some(r) => {
                let old_root = *r;
                if old_root == old_path {
                    self.relink_children(old_path, new_path);
                    match self.rank.remove(&old_path) {
                        Some(rank) => {
                            self.rank.insert(new_path, rank);
                        },
                        None => {},
                    }
                } else {
                    if new_path != old_root && new_path != old_path {
                        proof {
                            lemma_relink(p, d, new_path, old_root);
                        }
                        self.parent.insert(new_path, old_root);
                        self.depth = Ghost(raise_walkers(p, d, new_path, d(old_root) + 1));
                    } else {
                        if new_path == old_root {
                            proof {
                                assert(ranked(p.insert(new_path, old_root), d)) by {
                                    let p2 = p.insert(new_path, old_root);
                                    assert forall|z: u64| #![trigger p2[z]] p2.contains_key(z) && p2[z] != z implies d(p2[z]) < d(z) by {
                                        assert(p2[z] == p[z]);
                                    }
                                }
                            }
                        }
                        self.parent.insert(new_path, old_root);
                    }
                }
                proof {
                    lemma_remove_ranked(self.parent@, self.depth@, old_path);
                }
                self.parent.remove(&old_path);
                self.rank.remove(&old_path);
            },
        }
    }


    /// All groups, each as the list of its tracked paths.
    pub fn get_all_groups(&self) -> (groups: Vec<Vec<u64>>)
        requires
            self.wf(),
        ensures
            lists_groups(*self, groups@.map_values(|g: Vec<u64>| g@)),
    {
        let keys = keys_of(&self.parent);
        proof {
            assert forall|x: u64| keys@.contains(x) <==> self.tracks(x) by {
                assert(keys@.to_set().contains(x) == keys@.contains(x));
            }
        }
        let mut roots: Vec<u64> = Vec::new();
        let ghost mut witness: Seq<u64> = Seq::empty();
        let mut i: usize = 0;
        while i < keys.len()
            invariant
                self.wf(),
                i <= keys@.len(),
                forall|x: u64| keys@.contains(x) <==> self.tracks(x),
                roots@.no_duplicates(),
                witness.len() == roots@.len(),
                forall|j: int|
                    0 <= j < roots@.len() ==> self.tracks(#[trigger] witness[j]) && self.root(witness[j]) == roots@[j],
                forall|j: int| 0 <= j < i ==> #[trigger] roots@.contains(self.root(keys@[j])),
            decreases keys@.len() - i,
        {
            let r = self.find(keys[i]);
            let mut seen = false;
            let mut j: usize = 0;
            while j < roots.len()
                invariant
                    j <= roots@.len(),
                    seen <==> roots@.take(j as int).contains(r),
                decreases roots@.len() - j,
            {
                proof {
                    assert(roots@.take(j + 1) == roots@.take(j as int).push(roots@[j as int]));
                    lemma_push_contains(roots@.take(j as int), roots@[j as int], r);
                }
                if roots[j] == r {
                    seen = true;
                }
                j = j + 1;
            }
            proof {
                assert(roots@.take(roots@.len() as int) == roots@);
            }
            if !seen {
                let ghost old_roots = roots@;
                roots.push(r);
                proof {
                    witness = witness.push(keys@[i as int]);
                    assert forall|j: int| 0 <= j < i implies #[trigger] roots@.contains(self.root(keys@[j])) by {
                        lemma_push_contains(old_roots, r, self.root(keys@[j]));
                    }
                    assert(roots@[old_roots.len() as int] == r);
                }
            }
            i = i + 1;
        }
        let mut groups: Vec<Vec<u64>> = Vec::new();
        let mut g: usize = 0;
        while g < roots.len()
            invariant
                self.wf(),
                keys@.no_duplicates(),
                forall|x: u64| keys@.contains(x) <==> self.tracks(x),
                roots@.no_duplicates(),
                witness.len() == roots@.len(),
                forall|j: int|
                    0 <= j < roots@.len() ==> self.tracks(#[trigger] witness[j]) && self.root(witness[j]) == roots@[j],
                forall|j: int| 0 <= j < keys@.len() ==> #[trigger] roots@.contains(self.root(keys@[j])),
                g <= roots@.len(),
                groups@.len() == g,
                forall|k: int| 0 <= k < g ==> #[trigger] groups@[k]@.no_duplicates(),
                forall|k: int, x: u64| 0 <= k < g ==> (#[trigger] groups@[k]@.contains(x) <==> (self.tracks(x) && self.root(x) == roots@[k])),
            decreases roots@.len() - g,
        {
            let members = self.members_with_root(&keys, roots[g]);
            proof {
                assert(members@.contains(witness[g as int]));
            }
            groups.push(members);
            g = g + 1;
        }
        proof {
            let gs = groups@.map_values(|v: Vec<u64>| v@);
            assert forall|k: int| 0 <= k < gs.len() implies #[trigger] gs[k].len() > 0 by {
                assert(gs[k].contains(witness[k]));
            }
            assert forall|k: int| 0 <= k < gs.len() implies self.root(gs[k][0]) == roots@[k] by {
                assert(gs[k].contains(gs[k][0]));
            }
            assert forall|x: u64| self.tracks(x) implies exists|k: int| 0 <= k < gs.len() && #[trigger] gs[k].contains(x) by {
                let j = choose|j: int| 0 <= j < keys@.len() && keys@[j] == x;
                assert(roots@.contains(self.root(keys@[j])));
                let k = choose|k: int| 0 <= k < roots@.len() && roots@[k] == self.root(x);
                assert(gs[k].contains(x));
            }
            assert forall|a: int, b: int|
                0 <= a < gs.len() && 0 <= b < gs.len() && a != b implies self.root(#[trigger] gs[a][0]) != self.root(#[trigger] gs[b][0]) by {
                assert(self.root(gs[a][0]) == roots@[a]);
                assert(self.root(gs[b][0]) == roots@[b]);
            }
        }
        groups
    }


    /// A copy of `self` into which every group of `other` with more than one
    /// path is merged, by uniting each of its paths with its first path.
    pub fn merge(&self, other: &PathUnionFind) -> (result: PathUnionFind)
        requires
            self.wf(),
            other.wf(),
        ensures
            result.wf(),
            forall|x: u64| self.tracks(x) ==> #[trigger] result.tracks(x),
            forall|x: u64, y: u64|
                other.tracks(x) && other.tracks(y) && x != y && #[trigger] other.same_group(x, y) ==> result.tracks(x),
            forall|x: u64| #[trigger] result.tracks(x) ==> merge_may_track(*self, *other, x),
            forall|x: u64, y: u64| #[trigger] self.same_group(x, y) ==> result.same_group(x, y),
            forall|x: u64, y: u64|
                other.tracks(x) && other.tracks(y) && #[trigger] other.same_group(x, y) ==> result.same_group(x, y),
            forall|e: spec_fn(u64, u64) -> bool|
                is_equivalence(e) && groups_within(*self, e) && groups_within(*other, e) ==> #[trigger] groups_within(result, e),
            self.roots_tracked() ==> result.roots_tracked(),
            self.roots_tracked() ==> forall|x: u64| #[trigger] result.tracks(x) ==> merge_tracks_allowed(*self, *other, x),
    {
        let mut result = self.duplicate();
        let groups = other.get_all_groups();
        let ghost gs = groups@.map_values(|v: Vec<u64>| v@);
        proof {
            assert forall|x: u64| #[trigger] result.tracks(x) implies merge_may_track(*self, *other, x) by {}
            assert forall|x: u64| result.tracks(x) implies #[trigger] merge_may_track(*self, *other, result.root(x)) by {
                assert(self.root(x) == result.root(x));
                lemma_root_facts(self.parent@, self.depth@, x);
            }
            assert forall|e: spec_fn(u64, u64) -> bool|
                is_equivalence(e) && groups_within(*self, e) && groups_within(*other, e) implies #[trigger] groups_within(result, e) by {
                assert forall|x: u64, y: u64| #[trigger] result.same_group(x, y) implies e(x, y) by {
                    assert(self.same_group(x, y));
                }
            }
        }
        let mut gi: usize = 0;
        while gi < groups.len()
            invariant
                self.wf(),
                other.wf(),
                result.wf(),
                gs == groups@.map_values(|v: Vec<u64>| v@),
                lists_groups(*other, gs),
                gi <= groups@.len(),
                self.roots_tracked() ==> result.roots_tracked(),
                self.roots_tracked() ==> forall|x: u64| #[trigger] result.tracks(x) ==> merge_tracks_allowed(*self, *other, x),
                forall|x: u64| self.tracks(x) ==> #[trigger] result.tracks(x),
                forall|x: u64| #[trigger] result.tracks(x) ==> merge_may_track(*self, *other, x),
                forall|x: u64| result.tracks(x) ==> #[trigger] merge_may_track(*self, *other, result.root(x)),
                forall|x: u64, y: u64| #[trigger] self.same_group(x, y) ==> result.same_group(x, y),
                forall|j: int, x: u64|
                    0 <= j < gi && gs[j].len() > 1 && #[trigger] gs[j].contains(x) ==> result.tracks(x)
                        && result.same_group(x, gs[j][0]),
                forall|e: spec_fn(u64, u64) -> bool|
                    is_equivalence(e) && groups_within(*self, e) && groups_within(*other, e) ==> #[trigger] groups_within(result, e),
            decreases groups@.len() - gi,
        {
            let len = groups[gi].len();
            if len > 1 {
                let first = groups[gi][0];
                let mut k: usize = 1;
                while k < len
                    invariant
                        self.wf(),
                        other.wf(),
                        result.wf(),
                        gs == groups@.map_values(|v: Vec<u64>| v@),
                        lists_groups(*other, gs),
                        gi < groups@.len(),
                        len == gs[gi as int].len(),
                        len > 1,
                        first == gs[gi as int][0],
                        1 <= k <= len,
                        self.roots_tracked() ==> result.roots_tracked(),
                        self.roots_tracked() ==> forall|x: u64| #[trigger] result.tracks(x) ==> merge_tracks_allowed(*self, *other, x),
                        forall|x: u64| self.tracks(x) ==> #[trigger] result.tracks(x),
                        forall|x: u64| #[trigger] result.tracks(x) ==> merge_may_track(*self, *other, x),
                        forall|x: u64| result.tracks(x) ==> #[trigger] merge_may_track(*self, *other, result.root(x)),
                        forall|x: u64, y: u64| #[trigger] self.same_group(x, y) ==> result.same_group(x, y),
                        forall|j: int, x: u64|
                            0 <= j < gi && gs[j].len() > 1 && #[trigger] gs[j].contains(x) ==> result.tracks(x)
                                && result.same_group(x, gs[j][0]),
                        forall|m: int| 1 <= m < k ==> result.tracks(#[trigger] gs[gi as int][m]) && result.same_group(gs[gi as int][m], first),
                        k > 1 ==> result.tracks(first),
                        forall|e: spec_fn(u64, u64) -> bool|
                            is_equivalence(e) && groups_within(*self, e) && groups_within(*other, e) ==> #[trigger] groups_within(result, e),
                    decreases len - k,
                {
                    let path = groups[gi][k];
                    let ghost before = result;
                    proof {
                        assert(gs[gi as int].contains(first));
                        assert(gs[gi as int].contains(path));
                        if k == 1 {
                            assert(gs[gi as int][0] == first);
                        }
                    }
                    result.union(first, path);
                    proof {
                        if self.roots_tracked() {
                            assert(gs[gi as int][k as int] == path);
                            assert(first != path) by {
                                assert(gs[gi as int].no_duplicates());
                            }
                            assert(other.tracks(first) && other.tracks(path) && other.same_group(first, path));
                            before.lemma_root(first);
                            before.lemma_root(path);
                            assert forall|x: u64| #[trigger] result.tracks(x) implies merge_tracks_allowed(*self, *other, x) by {
                                if !before.tracks(x) {
                                    if before.tracks(first) {
                                        assert(before.tracks(before.root(first)));
                                    }
                                    if before.tracks(path) {
                                        assert(before.tracks(before.root(path)));
                                    }
                                    if x == first {
                                        assert(other.tracks(path));
                                    } else if x == path {
                                        assert(other.tracks(first));
                                    } else if x == before.root(first) {
                                        assert(x == first);
                                    } else {
                                        assert(x == path);
                                    }
                                }
                            }
                        }
                        let w = union_winner(before, first, path);
                        assert forall|x: u64| self.tracks(x) implies #[trigger] result.tracks(x) by {
                            assert(before.tracks(x));
                        }
                        assert forall|x: u64| #[trigger] result.tracks(x) implies merge_may_track(*self, *other, x) by {
                            if !before.tracks(x) && x != first && x != path {
                                if x == before.root(first) {
                                    if before.tracks(first) {
                                        assert(merge_may_track(*self, *other, before.root(first)));
                                    }
                                } else {
                                    if before.tracks(path) {
                                        assert(merge_may_track(*self, *other, before.root(path)));
                                    }
                                }
                            }
                        }
                        assert forall|x: u64| result.tracks(x) implies #[trigger] merge_may_track(*self, *other, result.root(x)) by {
                            if before.root(x) == before.root(first) || before.root(x) == before.root(path) {
                                assert(result.root(x) == w);
                                if before.tracks(first) {
                                    assert(merge_may_track(*self, *other, before.root(first)));
                                }
                                if before.tracks(path) {
                                    assert(merge_may_track(*self, *other, before.root(path)));
                                }
                            } else {
                                assert(before.tracks(x));
                                assert(result.root(x) == before.root(x));
                            }
                        }
                        assert forall|x: u64, y: u64| #[trigger] self.same_group(x, y) implies result.same_group(x, y) by {
                            assert(before.same_group(x, y));
                            assert(result.root(x) == (if before.root(x) == before.root(first) || before.root(x) == before.root(path) { w } else { before.root(x) }));
                            assert(result.root(y) == (if before.root(y) == before.root(first) || before.root(y) == before.root(path) { w } else { before.root(y) }));
                        }
                        assert forall|j: int, x: u64|
                            0 <= j < gi && gs[j].len() > 1 && #[trigger] gs[j].contains(x) implies result.tracks(x)
                                && result.same_group(x, gs[j][0]) by {
                            assert(before.tracks(x) && before.same_group(x, gs[j][0]));
                            assert(result.root(x) == (if before.root(x) == before.root(first) || before.root(x) == before.root(path) { w } else { before.root(x) }));
                            assert(result.root(gs[j][0]) == (if before.root(gs[j][0]) == before.root(first) || before.root(gs[j][0]) == before.root(path) { w } else { before.root(gs[j][0]) }));
                        }
                        assert forall|m: int| 1 <= m < k + 1 implies result.tracks(#[trigger] gs[gi as int][m]) && result.same_group(gs[gi as int][m], first) by {
                            let z = gs[gi as int][m];
                            if m < k {
                                assert(before.same_group(z, first));
                            }
                            assert(result.root(z) == (if before.root(z) == before.root(first) || before.root(z) == before.root(path) { w } else { before.root(z) }));
                            assert(result.root(first) == w);
                        }
                        assert forall|e: spec_fn(u64, u64) -> bool|
                            is_equivalence(e) && groups_within(*self, e) && groups_within(*other, e) implies #[trigger] groups_within(result, e) by {
                            assert(groups_within(before, e));
                            assert(other.same_group(first, path));
                            assert(e(first, path));
                            lemma_union_within(before, result, first, path, w, e);
                        }
                    }
                    k = k + 1;
                }
            }
            proof {
                assert forall|j: int, x: u64|
                    0 <= j < gi + 1 && gs[j].len() > 1 && #[trigger] gs[j].contains(x) implies result.tracks(x)
                        && result.same_group(x, gs[j][0]) by {
                    if j == gi {
                        let m = choose|m: int| 0 <= m < gs[j].len() && gs[j][m] == x;
                        if m > 0 {
                            assert(result.tracks(gs[gi as int][m]));
                        }
                    }
                }
            }
            gi = gi + 1;
        }
        proof {
            assert forall|x: u64, y: u64|
                other.tracks(x) && other.tracks(y) && x != y && #[trigger] other.same_group(x, y) implies result.tracks(x) by {
                let j = choose|j: int| 0 <= j < gs.len() && #[trigger] gs[j].contains(x);
                assert(gs[j].contains(y));
                if gs[j].len() <= 1 {
                    let a = choose|a: int| 0 <= a < gs[j].len() && gs[j][a] == x;
                    let b = choose|b: int| 0 <= b < gs[j].len() && gs[j][b] == y;
                    assert(a == b);
                }
            }
            assert forall|x: u64, y: u64|
                other.tracks(x) && other.tracks(y) && #[trigger] other.same_group(x, y) implies result.same_group(x, y) by {
                let j = choose|j: int| 0 <= j < gs.len() && #[trigger] gs[j].contains(x);
                assert(gs[j].contains(y));
                if gs[j].len() <= 1 {
                    let a = choose|a: int| 0 <= a < gs[j].len() && gs[j][a] == x;
                    let b = choose|b: int| 0 <= b < gs[j].len() && gs[j][b] == y;
                    assert(a == b);
                }
            }
        }
        result
    }

    /// The tracked members of `keys` whose root is `root`, in the order of `keys`.
    fn members_with_root(&self, keys: &Vec<u64>, root: u64) -> (res: Vec<u64>)
        requires
            self.wf(),
            keys@.no_duplicates(),
        ensures
            res@.no_duplicates(),
            forall|x: u64| #[trigger] res@.contains(x) <==> (keys@.contains(x) && self.root(x) == root),
    {
        let mut res: Vec<u64> = Vec::new();
        let mut i: usize = 0;
        while i < keys.len()
            invariant
                self.wf(),
                keys@.no_duplicates(),
                i <= keys@.len(),
                res@.no_duplicates(),
                forall|x: u64| #[trigger] res@.contains(x) <==> (keys@.take(i as int).contains(x) && self.root(x) == root),
            decreases keys@.len() - i,
        {
            let k = keys[i];
            let r = self.find(k);
            proof {
                assert forall|x: u64| keys@.take(i as int).contains(x) implies x != k by {
                    let j = choose|j: int| 0 <= j < i && keys@.take(i as int)[j] == x;
                    assert(keys@[j] == x);
                }
                assert(keys@.take(i + 1) == keys@.take(i as int).push(k));
            }
            let ghost old_res = res@;
            if r == root {
                res.push(k);
                proof {
                    assert forall|x: u64| #[trigger] res@.contains(x) <==> (old_res.contains(x) || x == k) by {
                        if x == k {
                            assert(res@[old_res.len() as int] == k);
                        } else if res@.contains(x) {
                            let j = choose|j: int| 0 <= j < res@.len() && res@[j] == x;
                            assert(old_res[j] == x);
                        } else if old_res.contains(x) {
                            let j = choose|j: int| 0 <= j < old_res.len() && old_res[j] == x;
                            assert(res@[j] == x);
                        }
                    }
                    assert(!old_res.contains(k));
                }
            }
            proof {
                assert forall|x: u64| keys@.take(i + 1).contains(x) <==> (keys@.take(i as int).contains(x) || x == k) by {
                    if x == k {
                        assert(keys@.take(i + 1)[i as int] == k);
                    } else if keys@.take(i + 1).contains(x) {
                        let t = keys@.take(i + 1);
                        let j = choose|j: int| 0 <= j < t.len() && t[j] == x;
                        assert(keys@.take(i as int)[j] == x);
                    } else if keys@.take(i as int).contains(x) {
                        let j = choose|j: int| 0 <= j < i && keys@.take(i as int)[j] == x;
                        assert(keys@.take(i + 1)[j] == x);
                    }
                }
            }
            i = i + 1;
        }
        proof {
            assert(keys@.take(keys@.len() as int) == keys@);
        }
        res
    }

    /// The tracked paths of `path`'s group.
    pub fn find_group(&self, path: u64) -> (group: Vec<u64>)
        requires
            self.wf(),
        ensures
            group@.no_duplicates(),
            forall|x: u64| #[trigger] group@.contains(x) <==> (self.tracks(x) && self.same_group(x, path)),
    {
        let root = self.find(path);
        let keys = keys_of(&self.parent);
        proof {
            assert forall|x: u64| keys@.contains(x) <==> self.tracks(x) by {
                assert(keys@.to_set().contains(x) == keys@.contains(x));
            }
        }
        self.members_with_root(&keys, root)
    }

    /// The tracked paths of `path`'s group.
    pub fn get_group(&self, path: u64) -> (group: Vec<u64>)
        requires
            self.wf(),
        ensures
            group@.no_duplicates(),
            forall|x: u64| #[trigger] group@.contains(x) <==> (self.tracks(x) && self.same_group(x, path)),
    {
        self.find_group(path)
    }

    /// Whether `path` is tracked.
    pub fn contains(&self, path: u64) -> (r: bool)
        ensures
            r == self.tracks(path),
    {
        self.parent.contains_key(&path)
    }

    /// Stops tracking `path`.  Paths whose parent link pointed at it keep
    /// that link, so `path` stays the representative of their group.
    pub fn remove(&mut self, path: u64)
        requires
            old(self).wf(),
        ensures
            final(self).wf(),
            final(self).parent_map() == old(self).parent_map().remove(path),
            final(self).rank_map() == old(self).rank_map().remove(path),
    {
        proof {
            lemma_remove_ranked(self.parent@, self.depth@, path);
        }
        self.parent.remove(&path);
        self.rank.remove(&path);
    }

    /// Stops tracking every path.
    pub fn clear(&mut self)
        ensures
            final(self).wf(),
            final(self).roots_tracked(),
            final(self).parent_map() == Map::<u64, u64>::empty(),
            final(self).rank_map() == Map::<u64, usize>::empty(),
    {
        self.parent.clear();
        self.rank.clear();
    }

    /// Whether no path is tracked.
    pub fn is_empty(&self) -> (r: bool)
        ensures
            r == self.parent_map().is_empty(),
    {
        self.parent.is_empty()
    }

    /// Every tracked path, each once.
    pub fn all_paths(&self) -> (paths: Vec<u64>)
        ensures
            paths@.no_duplicates(),
            paths@.to_set() == self.parent_map().dom(),
    {
        keys_of(&self.parent)
    }

    /// A copy with the same links, ranks and groups.
    pub fn duplicate(&self) -> (c: Self)
        ensures
            c.parent_map() == self.parent_map(),
            c.rank_map() == self.rank_map(),
            c.wf() == self.wf(),
            forall|y: u64| #[trigger] c.root(y) == self.root(y),
            c.roots_tracked() == self.roots_tracked(),
    {
        let c = PathUnionFind { parent: self.parent.clone(), rank: self.rank.clone(), depth: Ghost(self.depth@) };
        proof {
            assert forall|y: u64| #[trigger] c.tracks(y) == self.tracks(y) by {}
            assert forall|y: u64| #[trigger] c.root(y) == self.root(y) by {}
            if self.roots_tracked() {
                assert forall|x: u64| #[trigger] c.tracks(x) implies c.tracks(c.root(x)) by {
                    assert(self.tracks(x));
                    assert(self.tracks(self.root(x)));
                }
            }
            if c.roots_tracked() {
                assert forall|x: u64| #[trigger] self.tracks(x) implies self.tracks(self.root(x)) by {
                    assert(c.tracks(x));
                    assert(c.tracks(c.root(x)));
                }
            }
        }
        c
    }
}

impl Default for PathUnionFind {
    /// An empty structure.
    fn default() -> (uf: Self)
        ensures
            uf.wf(),
            uf.parent_map() == Map::<u64, u64>::empty(),
            uf.rank_map() == Map::<u64, usize>::empty(),
    {
        Self::new()
    }
}


/// After `union(path1, path2)` the two paths are connected, every two paths
/// connected before still are, and two paths are connected exactly when they
/// were, or each was connected to one of `path1` and `path2`.
pub proof fn law_union_connects(before: PathUnionFind, after: PathUnionFind, path1: u64, path2: u64, w: u64)
    requires
        merged_into(before, after, set![path1, path2], w),
    ensures
        after.same_group(path1, path2),
        forall|x: u64, y: u64| #[trigger] before.same_group(x, y) ==> #[trigger] after.same_group(x, y),
        forall|x: u64, y: u64|
            #[trigger] after.same_group(x, y) <==> (before.same_group(x, y) || (touches(before, set![path1, path2], x)
                && touches(before, set![path1, path2], y))),
{
    let m = set![path1, path2];
    assert(m.contains(path1) && m.contains(path2));
    assert(before.same_group(path1, path1) && before.same_group(path2, path2));
    assert(touches(before, m, path1) && touches(before, m, path2));
    assert forall|x: u64, y: u64| #[trigger] after.same_group(x, y) <==> (before.same_group(x, y) || (touches(
        before,
        m,
        x,
    ) && touches(before, m, y))) by {
        if touches(before, m, x) && !touches(before, m, y) {
            let z = choose|z: u64| #[trigger] m.contains(z) && w == before.root(z);
            if before.root(y) == w {
                assert(before.same_group(y, z));
            }
        }
        if !touches(before, m, x) && touches(before, m, y) {
            let z = choose|z: u64| #[trigger] m.contains(z) && w == before.root(z);
            if before.root(x) == w {
                assert(before.same_group(x, z));
            }
        }
        if before.same_group(x, y) && touches(before, m, x) {
            let z = choose|z: u64| #[trigger] m.contains(z) && before.same_group(x, z);
            assert(before.same_group(y, z));
        }
        if before.same_group(x, y) && touches(before, m, y) {
            let z = choose|z: u64| #[trigger] m.contains(z) && before.same_group(y, z);
            assert(before.same_group(x, z));
        }
    }
}

/// The representative of a representative is itself: `find` of what `find`
/// returns gives it back.
pub proof fn law_find_idempotent(uf: PathUnionFind, x: u64)
    requires
        uf.wf(),
    ensures
        uf.root(uf.root(x)) == uf.root(x),
{
    uf.lemma_root(x);
}

/// Being in the same group is an equivalence.
pub proof fn law_same_group_equivalence(uf: PathUnionFind, x: u64, y: u64, z: u64)
    ensures
        uf.same_group(x, x),
        uf.same_group(x, y) ==> uf.same_group(y, x),
        uf.same_group(x, y) && uf.same_group(y, z) ==> uf.same_group(x, z),
{
}


/// After a merge, all of its members are in one group.
pub proof fn lemma_members_connected(before: PathUnionFind, after: PathUnionFind, m: Set<u64>, w: u64, x: u64, y: u64)
    requires
        merged_into(before, after, m, w),
        m.contains(x),
        m.contains(y),
    ensures
        after.same_group(x, y),
{
    assert(before.same_group(x, x) && before.same_group(y, y));
    assert(touches(before, m, x) && touches(before, m, y));
}


/// In a structure whose tracked paths have tracked representatives (as
/// `new`, `union`, `find_mut`, `connected`, `merge` and `clear` keep it),
/// `find` of a tracked path gives a tracked path, and `find` of an untracked
/// path gives the path itself.
pub proof fn law_find_stays_tracked(uf: PathUnionFind, x: u64)
    requires
        uf.wf(),
        uf.roots_tracked(),
    ensures
        uf.tracks(x) ==> uf.tracks(uf.root(x)),
        !uf.tracks(x) ==> uf.root(x) == x,
{
    uf.lemma_root(x);
}

/// In such a structure an untracked path is connected to no other path.
pub proof fn law_untracked_path_is_alone(uf: PathUnionFind, x: u64, y: u64)
    requires
        uf.wf(),
        uf.roots_tracked(),
        !uf.tracks(x),
        x != y,
    ensures
        !uf.same_group(x, y),
{
    uf.lemma_root(x);
    uf.lemma_root(y);
}


/// After `rename(old_path, new_path)` of a path that represents its group,
/// `new_path` represents it: it is tracked, `old_path` no longer is, and every
/// path that linked to `old_path` is in `new_path`'s group.
pub proof fn law_root_rename_hands_group_on(
    before: PathUnionFind,
    after: PathUnionFind,
    old_path: u64,
    new_path: u64,
    member: u64,
)
    requires
        after.wf(),
        before.tracks(old_path),
        before.parent_map()[old_path] == old_path,
        after.parent_map() == renamed_parent(before.parent_map(), old_path, new_path),
        old_path != new_path,
    ensures
        after.tracks(new_path),
        !after.tracks(old_path),
        after.root(new_path) == new_path,
        before.tracks(member) && member != old_path && before.parent_map()[member] == old_path ==> after.same_group(
            member,
            new_path,
        ),
{
    after.lemma_root(new_path);
    after.lemma_root(member);
}

} // verus!
