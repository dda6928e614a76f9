use vstd::prelude::*;
use std::collections::HashMap;
use std::collections::HashSet;
use vstd::std_specs::iter::IteratorSpec;
use crate::analysis::ownership::ownership_state::OwnershipState;
use crate::analysis::ownership::ownership_state::StateSet;
use crate::analysis::ownership::ownership_state::lemma_state_set_finite;
use crate::analysis::ownership::path_uf::PathUnionFind;
use crate::analysis::ownership::path_uf::lists_groups;
use crate::analysis::ownership::path_uf::renamed_parent;
use crate::analysis::ownership::path_uf::renamed_rank;
use crate::analysis::ownership::path_uf::union_winner;
use crate::analysis::ownership::path_uf::merged_into;
use crate::analysis::ownership::path_uf::lemma_union_merged;
use crate::analysis::ownership::path_uf::keys_of;
use crate::analysis::ownership::path_uf::merge_may_track;
use crate::analysis::ownership::path_uf::is_equivalence;
use crate::analysis::ownership::path_uf::groups_within;
use crate::analysis::ownership::report::states_text;
use crate::analysis::ownership::report::states_string;
use crate::analysis::ownership::report::path_text;
use crate::analysis::ownership::report::path_string;
use crate::text::decimal;
use crate::text::decimal_string;
use crate::text::join;
use crate::text::append_joined;
use vstd::string::*;

verus! {

broadcast use vstd::std_specs::hash::group_hash_axioms;

/// A problem found by the ownership check: its message and the paths of the
/// resource it concerns.
pub struct OwnershipCheckError {
    pub message: String,
    pub paths: Vec<u64>,
}

impl OwnershipCheckError {
    pub fn new(message: String, paths: Vec<u64>) -> (e: Self)
        ensures
            e.message@ == message@,
            e.paths@ == paths@,
    {
        Self { message, paths }
    }
}

/// A copy of a set of paths.
pub fn copy_path_set(s: &HashSet<u64>) -> (c: HashSet<u64>)
    ensures
        c@ == s@,
{
    let mut c: HashSet<u64> = HashSet::new();
    let ghost all = s.iter().remaining().unref();
    for x in it: s.iter()
        invariant
            it.seq().unref() == all,
            all.to_set() == s@,
            c@ == all.take(it.index() as int).to_set(),
    {
        proof {
            assert(all.take(it.index() + 1) == all.take(it.index() as int).push(*x));
            all.take(it.index() as int).lemma_push_to_set_commute(*x);
        }
        c.insert(*x);
    }
    proof {
        assert(all.take(all.len() as int) == all);
    }
    c
}

/// The paths in either set.
pub fn union_path_sets(a: &HashSet<u64>, b: &HashSet<u64>) -> (c: HashSet<u64>)
    ensures
        c@ == a@.union(b@),
{
    let mut c = copy_path_set(a);
    let ghost all = b.iter().remaining().unref();
    for x in it: b.iter()
        invariant
            it.seq().unref() == all,
            all.to_set() == b@,
            c@ == a@.union(all.take(it.index() as int).to_set()),
    {
        proof {
            assert(all.take(it.index() + 1) == all.take(it.index() as int).push(*x));
            all.take(it.index() as int).lemma_push_to_set_commute(*x);
        }
        c.insert(*x);
    }
    proof {
        assert(all.take(all.len() as int) == all);
    }
    c
}


/// A set that is not empty has a member.
pub proof fn lemma_nonempty_has_member<A>(s: Set<A>)
    requires
        s != Set::<A>::empty(),
    ensures
        exists|x: A| #[trigger] s.contains(x),
{
    if !(exists|x: A| #[trigger] s.contains(x)) {
        assert(s =~= Set::<A>::empty());
    }
}

/// Two domains hold the same information.
pub open spec fn same_domain(a: OwnershipDomain, b: OwnershipDomain) -> bool {
    &&& a.top_flag() == b.top_flag()
    &&& a.bottom_flag() == b.bottom_flag()
    &&& a.states() == b.states()
    &&& a.shared().parent_map() == b.shared().parent_map()
    &&& a.shared().rank_map() == b.shared().rank_map()
    &&& forall|y: u64| #[trigger] a.shared().root(y) == b.shared().root(y)
    &&& a.dropped() == b.dropped()
    &&& a.originals() == b.originals()
    &&& a.heap_owners() == b.heap_owners()
}

/// The states that the least upper bound gives each path tracked by either
/// domain: the union of its states on both sides.
pub open spec fn lub_states(a: OwnershipDomain, b: OwnershipDomain) -> Map<u64, Set<OwnershipState>> {
    Map::new(
        |p: u64| a.states().contains_key(p) || b.states().contains_key(p),
        |p: u64| a.states_of(p).union(b.states_of(p)),
    )
}

/// `r` is what `a.merge(b)` gives.
pub open spec fn merged_sharing(a: PathUnionFind, b: PathUnionFind, r: PathUnionFind) -> bool {
    &&& r.wf()
    &&& forall|x: u64| a.tracks(x) ==> #[trigger] r.tracks(x)
    &&& forall|x: u64, y: u64| b.tracks(x) && b.tracks(y) && x != y && #[trigger] b.same_group(x, y) ==> r.tracks(x)
    &&& forall|x: u64| #[trigger] r.tracks(x) ==> merge_may_track(a, b, x)
    &&& forall|x: u64, y: u64| #[trigger] a.same_group(x, y) ==> r.same_group(x, y)
    &&& forall|x: u64, y: u64| b.tracks(x) && b.tracks(y) && #[trigger] b.same_group(x, y) ==> r.same_group(x, y)
    &&& forall|e: spec_fn(u64, u64) -> bool|
        is_equivalence(e) && groups_within(a, e) && groups_within(b, e) ==> #[trigger] groups_within(r, e)
}


/// A state set that counts as holding the resource.
pub open spec fn is_active(s: Set<OwnershipState>) -> bool {
    s.contains(OwnershipState::Owned) || s.contains(OwnershipState::Moved) || s.contains(OwnershipState::Dropped)
        || s.contains(OwnershipState::Top)
}

/// A state set that counts as having given the resource up to no one.
pub open spec fn is_passive(s: Set<OwnershipState>) -> bool {
    s.contains(OwnershipState::Forgotten) || s.contains(OwnershipState::ManuallyManaged)
}

/// The paths of `g` whose states are active, in order.
pub open spec fn active_paths(d: OwnershipDomain, g: Seq<u64>) -> Seq<u64>
    decreases g.len(),
{
    if g.len() == 0 {
        Seq::empty()
    } else if is_active(d.states_of(g.last())) {
        active_paths(d, g.drop_last()).push(g.last())
    } else {
        active_paths(d, g.drop_last())
    }
}

/// How many paths of `g` have passive states.
pub open spec fn passive_count(d: OwnershipDomain, g: Seq<u64>) -> nat
    decreases g.len(),
{
    if g.len() == 0 {
        0
    } else if is_passive(d.states_of(g.last())) {
        passive_count(d, g.drop_last()) + 1
    } else {
        passive_count(d, g.drop_last())
    }
}

/// A path and its states as text.
pub open spec fn entry_text(d: OwnershipDomain, names: Map<u64, String>, p: u64) -> Seq<char> {
    path_text(names, p) + " ("@ + states_text(d.states_of(p)) + ")"@
}

/// A path, its states, and whether it owns heap memory, as text.
pub open spec fn heap_entry_text(d: OwnershipDomain, names: Map<u64, String>, p: u64) -> Seq<char> {
    entry_text(d, names, p) + if d.heap_owners().contains(p) {
        " [HEAP]"@
    } else {
        Seq::<char>::empty()
    }
}

/// The message for a lone path whose resource is given up to no one.
pub open spec fn single_leak_message(names: Map<u64, String>, p: u64) -> Seq<char> {
    "[Checker] Possible memory leak: resource at "@ + path_text(names, p) + " is forgotten or manually managed"@
}

/// The message for a group of `n` paths that all gave the resource up.
pub open spec fn group_leak_message(n: nat) -> Seq<char> {
    "[Checker] Possible memory leak: all "@ + decimal(n) + " paths sharing a resource are forgotten or manually managed"@
}

/// The message for heap memory that shares a group with a forgotten path.
pub open spec fn heap_leak_message(entries: Seq<Seq<char>>) -> Seq<char> {
    "[Checker] Possible memory leak: heap resource aliased with forgotten stack resource: ["@ + join(entries, ", "@) + "]"@
}

/// The message for `n` active paths of one resource.
pub open spec fn double_free_message(n: nat, entries: Seq<Seq<char>>) -> Seq<char> {
    "[Checker] Possible double-free: "@ + decimal(n) + " paths own the same resource: ["@ + join(entries, ", "@) + "]"@
}

/// What the ownership check reports for one group of paths sharing a resource.
pub open spec fn group_report(d: OwnershipDomain, names: Map<u64, String>, g: Seq<u64>) -> Option<Seq<char>> {
    if g.len() == 0 {
        None
    } else if g.len() == 1 {
        if is_passive(d.states_of(g[0])) {
            Some(single_leak_message(names, g[0]))
        } else {
            None
        }
    } else {
        let active = active_paths(d, g);
        if active.len() == 0 && passive_count(d, g) > 0 {
            Some(group_leak_message(g.len()))
        } else if active.len() > 1 {
            if (exists|i: int| 0 <= i < g.len() && d.heap_owners().contains(#[trigger] g[i])) && (exists|i: int|
                0 <= i < g.len() && d.states_of(#[trigger] g[i]).contains(OwnershipState::Forgotten)) {
                Some(heap_leak_message(g.map_values(|p: u64| heap_entry_text(d, names, p))))
            } else {
                Some(double_free_message(active.len(), active.map_values(|p: u64| entry_text(d, names, p))))
            }
        } else {
            None
        }
    }
}

/// What the ownership check reports for the groups, in order: a message and
/// the group's paths for each group that has a problem.
pub open spec fn double_free_report(d: OwnershipDomain, names: Map<u64, String>, groups: Seq<Seq<u64>>) -> Seq<(Seq<char>, Seq<u64>)>
    decreases groups.len(),
{
    if groups.len() == 0 {
        Seq::empty()
    } else {
        let prefix = double_free_report(d, names, groups.drop_last());
        match group_report(d, names, groups.last()) {
            Some(m) => prefix.push((m, groups.last())),
            None => prefix,
        }
    }
}

/// The errors as message and paths.
pub open spec fn error_views(errors: Seq<OwnershipCheckError>) -> Seq<(Seq<char>, Seq<u64>)> {
    errors.map_values(|e: OwnershipCheckError| (e.message@, e.paths@))
}

/// A copy of a list of paths.
pub fn copy_paths(v: &Vec<u64>) -> (c: Vec<u64>)
    ensures
        c@ == v@,
{
    let mut c: Vec<u64> = Vec::new();
    let mut i: usize = 0;
    while i < v.len()
        invariant
            i <= v@.len(),
            c@ == v@.take(i as int),
        decreases v@.len() - i,
    {
        c.push(v[i]);
        proof {
            assert(v@.take(i + 1) == v@.take(i as int).push(v@[i as int]));
        }
        i = i + 1;
    }
    proof {
        assert(v@.take(v@.len() as int) == v@);
    }
    c
}

/// An abstract domain that maps memory paths (each named by a `u64`) to
/// their ownership states.
pub struct OwnershipDomain {
    is_top: bool,
    is_bottom: bool,
    state_map: HashMap<u64, StateSet>,
    shared_resources: PathUnionFind,
    dropped_set: HashSet<u64>,
    dropped_originals: HashSet<u64>,
    heap_owner_set: HashSet<u64>,
}

/// The recorded states, as sets.
pub open spec fn state_sets(m: Map<u64, StateSet>) -> Map<u64, Set<OwnershipState>> {
    Map::new(|p: u64| m.contains_key(p), |p: u64| m[p]@)
}

impl OwnershipDomain {
    /// Whether the domain is the top element.
    pub closed spec fn top_flag(&self) -> bool {
        self.is_top
    }

    /// Whether the domain is the bottom element.
    pub closed spec fn bottom_flag(&self) -> bool {
        self.is_bottom
    }

    /// The recorded states of every tracked path.
    pub closed spec fn states(&self) -> Map<u64, Set<OwnershipState>> {
        state_sets(self.state_map@)
    }

    /// Which paths share a resource.
    pub closed spec fn shared(&self) -> PathUnionFind {
        self.shared_resources
    }

    /// The paths marked as dropped.
    pub closed spec fn dropped(&self) -> Set<u64> {
        self.dropped_set@
    }

    /// The dropped paths that first owned their resource.
    pub closed spec fn originals(&self) -> Set<u64> {
        self.dropped_originals@
    }

    /// The paths that own heap memory.
    pub closed spec fn heap_owners(&self) -> Set<u64> {
        self.heap_owner_set@
    }

    /// The states of `path`: its recorded states, or `Owned` alone when it is
    /// not tracked.
    pub open spec fn states_of(&self, path: u64) -> Set<OwnershipState> {
        if self.states().contains_key(path) {
            self.states()[path]
        } else {
            set![OwnershipState::Owned]
        }
    }

    /// The recorded states of `path`, or none when it is not tracked.
    pub open spec fn recorded_or_none(&self, path: u64) -> Set<OwnershipState> {
        if self.states().contains_key(path) {
            self.states()[path]
        } else {
            Set::empty()
        }
    }

    /// The domain is well formed: its sharing structure is, and no tracked
    /// path has an empty set of states.
    pub open spec fn wf(&self) -> bool {
        &&& self.shared().wf()
        &&& forall|p: u64| #[trigger] self.states().contains_key(p) ==> self.states()[p] != Set::<OwnershipState>::empty()
    }


    /// The top element: nothing is known.
    pub fn top() -> (d: Self)
        ensures
            d.wf(),
            d.top_flag() && !d.bottom_flag(),
            d.states() == Map::<u64, Set<OwnershipState>>::empty(),
            d.shared().parent_map() == Map::<u64, u64>::empty(),
            d.dropped() == Set::<u64>::empty(),
            d.originals() == Set::<u64>::empty(),
            d.heap_owners() == Set::<u64>::empty(),
    {
        let d = Self {
            is_top: true,
            is_bottom: false,
            state_map: HashMap::new(),
            shared_resources: PathUnionFind::new(),
            dropped_set: HashSet::new(),
            dropped_originals: HashSet::new(),
            heap_owner_set: HashSet::new(),
        };
        assert(d.states() =~= Map::<u64, Set<OwnershipState>>::empty());
        d
    }

    /// Whether this is the top element.
    pub fn is_top(&self) -> (r: bool)
        ensures
            r == self.top_flag(),
    {
        self.is_top
    }

    /// Makes this the top element; the heap owners are kept.
    pub fn set_to_top(&mut self)
        ensures
            final(self).wf(),
            final(self).top_flag() && !final(self).bottom_flag(),
            final(self).states() == Map::<u64, Set<OwnershipState>>::empty(),
            final(self).shared().parent_map() == Map::<u64, u64>::empty(),
            final(self).dropped() == Set::<u64>::empty(),
            final(self).originals() == Set::<u64>::empty(),
            final(self).heap_owners() == old(self).heap_owners(),
    {
        self.state_map.clear();
        self.dropped_set.clear();
        self.dropped_originals.clear();
        self.shared_resources = PathUnionFind::new();
        self.is_top = true;
        self.is_bottom = false;
        assert(self.states() =~= Map::<u64, Set<OwnershipState>>::empty());
    }

    /// The bottom element: no state is reachable.
    pub fn bottom() -> (d: Self)
        ensures
            d.wf(),
            d.bottom_flag() && !d.top_flag(),
            d.states() == Map::<u64, Set<OwnershipState>>::empty(),
            d.shared().parent_map() == Map::<u64, u64>::empty(),
            d.dropped() == Set::<u64>::empty(),
            d.originals() == Set::<u64>::empty(),
            d.heap_owners() == Set::<u64>::empty(),
    {
        let d = Self {
            is_top: false,
            is_bottom: true,
            state_map: HashMap::new(),
            dropped_set: HashSet::new(),
            shared_resources: PathUnionFind::new(),
            dropped_originals: HashSet::new(),
            heap_owner_set: HashSet::new(),
        };
        assert(d.states() =~= Map::<u64, Set<OwnershipState>>::empty());
        d
    }

    /// Whether this is the bottom element.
    pub fn is_bottom(&self) -> (r: bool)
        ensures
            r == self.bottom_flag(),
    {
        self.is_bottom
    }

    /// Makes this the bottom element; the heap owners are kept.
    pub fn set_to_bottom(&mut self)
        ensures
            final(self).wf(),
            final(self).bottom_flag() && !final(self).top_flag(),
            final(self).states() == Map::<u64, Set<OwnershipState>>::empty(),
            final(self).shared().parent_map() == Map::<u64, u64>::empty(),
            final(self).dropped() == Set::<u64>::empty(),
            final(self).originals() == Set::<u64>::empty(),
            final(self).heap_owners() == old(self).heap_owners(),
    {
        self.state_map.clear();
        self.dropped_set.clear();
        self.dropped_originals.clear();
        self.shared_resources = PathUnionFind::new();
        self.is_bottom = true;
        self.is_top = false;
        assert(self.states() =~= Map::<u64, Set<OwnershipState>>::empty());
    }

    /// Creates a new, empty (bottom) domain.
    pub fn new() -> (d: Self)
        ensures
            d.wf(),
            d.bottom_flag() && !d.top_flag(),
            d.states() == Map::<u64, Set<OwnershipState>>::empty(),
            d.shared().parent_map() == Map::<u64, u64>::empty(),
            d.dropped() == Set::<u64>::empty(),
            d.originals() == Set::<u64>::empty(),
            d.heap_owners() == Set::<u64>::empty(),
    {
        Self::bottom()
    }

    /// Whether `path` may be dropped: none of its states is `Dropped`,
    /// `Moved`, `Forgotten` or `ManuallyManaged`.
    pub fn can_drop(&self, path: u64) -> (r: bool)
        ensures
            r == !(self.states_of(path).contains(OwnershipState::Dropped) || self.states_of(path).contains(
                OwnershipState::Moved,
            ) || self.states_of(path).contains(OwnershipState::Forgotten) || self.states_of(
                path,
            ).contains(OwnershipState::ManuallyManaged)),
    {
        let states = self.get_states(path);
        !states.contains(OwnershipState::Dropped) && !states.contains(OwnershipState::Moved)
            && !states.contains(OwnershipState::Forgotten) && !states.contains(
            OwnershipState::ManuallyManaged,
        )
    }

    /// Whether `path` may be forgotten: none of its states is `Moved`,
    /// `Dropped` or `Forgotten`.
    pub fn can_forget(&self, path: u64) -> (r: bool)
        ensures
            r == !(self.states_of(path).contains(OwnershipState::Moved) || self.states_of(path).contains(
                OwnershipState::Dropped,
            ) || self.states_of(path).contains(OwnershipState::Forgotten)),
    {
        let states = self.get_states(path);
        !states.contains(OwnershipState::Moved) && !states.contains(OwnershipState::Dropped)
            && !states.contains(OwnershipState::Forgotten)
    }

    /// Whether `path` may be used: none of its states is `Moved`, `Dropped`,
    /// `Uinit` or `Forgotten`.
    pub fn can_use(&self, path: u64) -> (r: bool)
        ensures
            r == !(self.states_of(path).contains(OwnershipState::Moved) || self.states_of(path).contains(
                OwnershipState::Dropped,
            ) || self.states_of(path).contains(OwnershipState::Uinit) || self.states_of(path).contains(
                OwnershipState::Forgotten,
            )),
    {
        let states = self.get_states(path);
        !states.contains(OwnershipState::Moved) && !states.contains(OwnershipState::Dropped)
            && !states.contains(OwnershipState::Uinit) && !states.contains(OwnershipState::Forgotten)
    }

    /// Whether `path`, or the root path `root_path` that it is part of, has
    /// the state `Forgotten`.
    pub fn is_forgotten_or_root_forgotten(&self, path: u64, root_path: u64) -> (r: bool)
        ensures
            r == (self.states_of(path).contains(OwnershipState::Forgotten) || self.states_of(
                root_path,
            ).contains(OwnershipState::Forgotten)),
    {
        if self.has_state(path, OwnershipState::Forgotten) {
            return true;
        }
        if root_path != path {
            if self.has_state(root_path, OwnershipState::Forgotten) {
                return true;
            }
        }
        false
    }

    /// Gets the ownership states for a given path: `Owned` alone if the path
    /// is not tracked.
    pub fn get_states(&self, path: u64) -> (r: StateSet)
        ensures
            r@ == self.states_of(path),
    {
        match self.state_map.get(&path) {
            Some(states) => *states,
            None => StateSet::singleton(OwnershipState::Owned),
        }
    }

    /// Checks if a path has a specific state.
    pub fn has_state(&self, path: u64, state: OwnershipState) -> (r: bool)
        ensures
            r == self.states_of(path).contains(state),
    {
        match self.state_map.get(&path) {
            Some(states) => states.contains(state),
            None => state == OwnershipState::Owned,
        }
    }

    /// Adds a state to a path's recorded states (an untracked path starts
    /// with none).
    pub fn add_state(&mut self, path: u64, state: OwnershipState)
        requires
            old(self).wf(),
        ensures
            final(self).wf(),
            final(self).states() == old(self).states().insert(path, old(self).recorded_or_none(path).insert(state)),
            !final(self).top_flag() && !final(self).bottom_flag(),
            final(self).shared() == old(self).shared(),
            final(self).dropped() == old(self).dropped(),
            final(self).originals() == old(self).originals(),
            final(self).heap_owners() == old(self).heap_owners(),
    {
        let mut states = match self.state_map.get(&path) {
            Some(s) => *s,
            None => StateSet::new(),
        };
        states.insert(state);
        self.state_map.insert(path, states);
        self.is_top = false;
        self.is_bottom = false;
        proof {
            assert(self.states() =~= old(self).states().insert(path, old(self).recorded_or_none(path).insert(state)));
            assert(states@.contains(state));
        }
    }

    /// Removes a state from a path's recorded states; a path left with none
    /// stops being tracked.
    pub fn remove_state(&mut self, path: u64, state: OwnershipState)
        requires
            old(self).wf(),
        ensures
            final(self).wf(),
            old(self).states().contains_key(path) && old(self).states()[path].remove(state) != Set::<
                OwnershipState,
            >::empty() ==> final(self).states() == old(self).states().insert(
                path,
                old(self).states()[path].remove(state),
            ),
            old(self).states().contains_key(path) && old(self).states()[path].remove(state) == Set::<
                OwnershipState,
            >::empty() ==> final(self).states() == old(self).states().remove(path),
            !old(self).states().contains_key(path) ==> final(self).states() == old(self).states(),
            final(self).top_flag() == old(self).top_flag(),
            final(self).bottom_flag() == old(self).bottom_flag(),
            final(self).shared() == old(self).shared(),
            final(self).dropped() == old(self).dropped(),
            final(self).originals() == old(self).originals(),
            final(self).heap_owners() == old(self).heap_owners(),
    {
        match self.state_map.get(&path) {
            Some(s) => {
                let mut states = *s;
                states.remove(state);
                if states.is_empty() {
                    self.state_map.remove(&path);
                    assert(self.states() =~= old(self).states().remove(path));
                } else {
                    self.state_map.insert(path, states);
                    assert(self.states() =~= old(self).states().insert(path, old(self).states()[path].remove(state)));
                }
            },
            None => {},
        }
    }

    /// Sets the ownership states for a given path (replaces all existing
    /// states); an empty set stops tracking the path.
    pub fn set_states(&mut self, path: u64, states: StateSet)
        requires
            old(self).wf(),
        ensures
            final(self).wf(),
            states@ == Set::<OwnershipState>::empty() ==> final(self).states() == old(self).states().remove(path),
            states@ != Set::<OwnershipState>::empty() ==> final(self).states() == old(self).states().insert(path, states@),
            !final(self).top_flag() && !final(self).bottom_flag(),
            final(self).shared() == old(self).shared(),
            final(self).dropped() == old(self).dropped(),
            final(self).originals() == old(self).originals(),
            final(self).heap_owners() == old(self).heap_owners(),
    {
        if states.is_empty() {
            self.state_map.remove(&path);
            assert(self.states() =~= old(self).states().remove(path));
        } else {
            self.state_map.insert(path, states);
            assert(self.states() =~= old(self).states().insert(path, states@));
        }
        self.is_top = false;
        self.is_bottom = false;
    }

    /// Adds several states to a path's recorded states (an untracked path
    /// starts with none); adding none changes nothing.
    pub fn add_states(&mut self, path: u64, states: StateSet)
        requires
            old(self).wf(),
        ensures
            final(self).wf(),
            states@ == Set::<OwnershipState>::empty() ==> final(self).states() == old(self).states()
                && final(self).top_flag() == old(self).top_flag() && final(self).bottom_flag() == old(
                self,
            ).bottom_flag(),
            states@ != Set::<OwnershipState>::empty() ==> final(self).states() == old(self).states().insert(
                path,
                old(self).recorded_or_none(path).union(states@),
            ) && !final(self).top_flag() && !final(self).bottom_flag(),
            final(self).shared() == old(self).shared(),
            final(self).dropped() == old(self).dropped(),
            final(self).originals() == old(self).originals(),
            final(self).heap_owners() == old(self).heap_owners(),
    {
        if states.is_empty() {
            return;
        }
        let current = match self.state_map.get(&path) {
            Some(s) => *s,
            None => StateSet::new(),
        };
        let merged = current.union(&states);
        self.state_map.insert(path, merged);
        self.is_top = false;
        self.is_bottom = false;
        proof {
            assert(self.states() =~= old(self).states().insert(path, old(self).recorded_or_none(path).union(states@)));
            if merged@ == Set::<OwnershipState>::empty() {
                assert(states@ =~= Set::<OwnershipState>::empty());
            }
        }
    }

    /// Removes several states from a path's recorded states; a path left
    /// with none stops being tracked.
    pub fn remove_states(&mut self, path: u64, states: &[OwnershipState])
        requires
            old(self).wf(),
        ensures
            final(self).wf(),
            old(self).states().contains_key(path) && old(self).states()[path].difference(states@.to_set())
                != Set::<OwnershipState>::empty() ==> final(self).states() == old(self).states().insert(
                path,
                old(self).states()[path].difference(states@.to_set()),
            ),
            old(self).states().contains_key(path) && old(self).states()[path].difference(states@.to_set())
                == Set::<OwnershipState>::empty() ==> final(self).states() == old(self).states().remove(path),
            !old(self).states().contains_key(path) ==> final(self).states() == old(self).states(),
            final(self).top_flag() == old(self).top_flag(),
            final(self).bottom_flag() == old(self).bottom_flag(),
            final(self).shared() == old(self).shared(),
            final(self).dropped() == old(self).dropped(),
            final(self).originals() == old(self).originals(),
            final(self).heap_owners() == old(self).heap_owners(),
    {
        match self.state_map.get(&path) {
            Some(s) => {
                let mut current = *s;
                let mut i: usize = 0;
                while i < states.len()
                    invariant
                        i <= states@.len(),
                        current@ == old(self).states()[path].difference(states@.take(i as int).to_set()),
                    decreases states@.len() - i,
                {
                    proof {
                        assert(states@.take(i + 1) == states@.take(i as int).push(states@[i as int]));
                        states@.take(i as int).lemma_push_to_set_commute(states@[i as int]);
                    }
                    current.remove(states[i]);
                    proof {
                        assert(current@ =~= old(self).states()[path].difference(states@.take(i + 1).to_set()));
                    }
                    i = i + 1;
                }
                proof {
                    assert(states@.take(states@.len() as int) == states@);
                }
                if current.is_empty() {
                    self.state_map.remove(&path);
                    assert(self.states() =~= old(self).states().remove(path));
                } else {
                    self.state_map.insert(path, current);
                    assert(self.states() =~= old(self).states().insert(path, old(self).states()[path].difference(states@.to_set())));
                }
            },
            None => {},
        }
    }

    /// Sets a single state for a path (replaces all existing states).
    pub fn set_state(&mut self, path: u64, state: OwnershipState)
        requires
            old(self).wf(),
        ensures
            final(self).wf(),
            final(self).states() == old(self).states().insert(path, set![state]),
            !final(self).top_flag() && !final(self).bottom_flag(),
            final(self).shared() == old(self).shared(),
            final(self).dropped() == old(self).dropped(),
            final(self).originals() == old(self).originals(),
            final(self).heap_owners() == old(self).heap_owners(),
    {
        let states = StateSet::singleton(state);
        assert(states@.contains(state));
        self.set_states(path, states);
    }


    /// Moves the state from an old path to a new path: its recorded states,
    /// its dropped marks, and its place among the paths sharing a resource
    /// (when the old path represents its group, the new path takes over as
    /// the representative, with every path linked to it; otherwise the new
    /// path takes over its link).  A rename that would close a cycle of links
    /// is excluded: the structure could then never find a representative
    /// again; `try_rename` tests for it first.
    pub fn rename(&mut self, old_path: u64, new_path: u64)
        requires
            old(self).wf(),
            !old(self).shared().rename_closes_cycle(old_path, new_path),
        ensures
            final(self).wf(),
            final(self).states() == (if old(self).states().contains_key(old_path) {
                old(self).states().remove(old_path).insert(new_path, old(self).states()[old_path])
            } else {
                old(self).states()
            }),
            final(self).dropped() == (if old(self).dropped().contains(old_path) {
                old(self).dropped().remove(old_path).insert(new_path)
            } else {
                old(self).dropped()
            }),
            final(self).originals() == (if old(self).originals().contains(old_path) {
                old(self).originals().remove(old_path).insert(new_path)
            } else {
                old(self).originals()
            }),
            final(self).shared().parent_map() == renamed_parent(old(self).shared().parent_map(), old_path, new_path),
            final(self).shared().rank_map() == renamed_rank(
                old(self).shared().parent_map(),
                old(self).shared().rank_map(),
                old_path,
                new_path,
            ),
            final(self).heap_owners() == old(self).heap_owners(),
            final(self).top_flag() == old(self).top_flag(),
            final(self).bottom_flag() == old(self).bottom_flag(),
    {
        match self.state_map.remove(&old_path) {
            Some(states) => {
                self.state_map.insert(new_path, states);
                assert(self.states() =~= old(self).states().remove(old_path).insert(new_path, old(self).states()[old_path]));
            },
            None => {
                assert(self.states() =~= old(self).states());
            },
        }
        if self.dropped_set.remove(&old_path) {
            self.dropped_set.insert(new_path);
        }
        if self.dropped_originals.remove(&old_path) {
            self.dropped_originals.insert(new_path);
        }
        self.shared_resources.rename(old_path, new_path);
        proof {
            assert forall|p: u64| #[trigger] self.states().contains_key(p) implies self.states()[p] != Set::<OwnershipState>::empty() by {
                if p == new_path && old(self).states().contains_key(old_path) {
                    assert(old(self).states().contains_key(old_path));
                } else {
                    assert(old(self).states().contains_key(p));
                }
            }
        }
    }

    /// Renames as `rename` does, unless the rename would close a cycle of
    /// links among the paths sharing a resource (the old path is linked to a
    /// parent whose walk up reaches the new path); then nothing changes.
    /// Returns whether it renamed.
    pub fn try_rename(&mut self, old_path: u64, new_path: u64) -> (renamed: bool)
        requires
            old(self).wf(),
        ensures
            renamed == !old(self).shared().rename_closes_cycle(old_path, new_path),
            !renamed ==> *final(self) == *old(self),
            renamed ==> final(self).wf(),
            renamed ==> final(self).states() == (if old(self).states().contains_key(old_path) {
                old(self).states().remove(old_path).insert(new_path, old(self).states()[old_path])
            } else {
                old(self).states()
            }),
            renamed ==> final(self).dropped() == (if old(self).dropped().contains(old_path) {
                old(self).dropped().remove(old_path).insert(new_path)
            } else {
                old(self).dropped()
            }),
            renamed ==> final(self).originals() == (if old(self).originals().contains(old_path) {
                old(self).originals().remove(old_path).insert(new_path)
            } else {
                old(self).originals()
            }),
            renamed ==> final(self).shared().parent_map() == renamed_parent(
                old(self).shared().parent_map(),
                old_path,
                new_path,
            ),
            renamed ==> final(self).shared().rank_map() == renamed_rank(
                old(self).shared().parent_map(),
                old(self).shared().rank_map(),
                old_path,
                new_path,
            ),
            renamed ==> final(self).heap_owners() == old(self).heap_owners(),
            renamed ==> final(self).top_flag() == old(self).top_flag(),
            renamed ==> final(self).bottom_flag() == old(self).bottom_flag(),
    {
        if self.shared_resources.rename_would_close_cycle(old_path, new_path) {
            return false;
        }
        self.rename(old_path, new_path);
        true
    }

    /// Copies the state from an existing path to a new path: its recorded
    /// states, its dropped mark, and (when it shares a resource) the
    /// resource, by uniting the two paths.
    pub fn duplicate(&mut self, old_path: u64, new_path: u64)
        requires
            old(self).wf(),
        ensures
            final(self).wf(),
            final(self).states() == (if old(self).states().contains_key(old_path) {
                old(self).states().insert(new_path, old(self).states()[old_path])
            } else {
                old(self).states()
            }),
            final(self).dropped() == (if old(self).dropped().contains(old_path) {
                old(self).dropped().insert(new_path)
            } else {
                old(self).dropped()
            }),
            !old(self).shared().tracks(old_path) ==> final(self).shared() == old(self).shared(),
            old(self).shared().tracks(old_path) ==> {
                &&& forall|y: u64|
                    #[trigger] final(self).shared().tracks(y) <==> (old(self).shared().tracks(y) || y == new_path
                        || y == old(self).shared().root(old_path) || y == old(self).shared().root(new_path))
                &&& forall|y: u64|
                    #[trigger] final(self).shared().root(y) == (if old(self).shared().root(y) == old(
                        self,
                    ).shared().root(old_path) || old(self).shared().root(y) == old(self).shared().root(
                        new_path,
                    ) {
                        union_winner(old(self).shared(), old_path, new_path)
                    } else {
                        old(self).shared().root(y)
                    })
            },
            final(self).originals() == old(self).originals(),
            final(self).heap_owners() == old(self).heap_owners(),
            final(self).top_flag() == old(self).top_flag(),
            final(self).bottom_flag() == old(self).bottom_flag(),
    {
        match self.state_map.get(&old_path) {
            Some(states) => {
                let copied = *states;
                self.state_map.insert(new_path, copied);
                assert(self.states() =~= old(self).states().insert(new_path, old(self).states()[old_path]));
            },
            None => {
                assert(self.states() =~= old(self).states());
            },
        }
        if self.dropped_set.contains(&old_path) {
            self.dropped_set.insert(new_path);
        }
        if self.shared_resources.contains(old_path) {
            let ghost before = self.shared_resources;
            proof {
                before.lemma_root(old_path);
            }
            self.shared_resources.union(old_path, new_path);
            proof {
                let after = self.shared_resources;
                assert forall|y: u64| #[trigger] after.tracks(y) <==> (before.tracks(y) || y == new_path
                    || y == before.root(old_path) || y == before.root(new_path)) by {}
                assert forall|y: u64| #[trigger] after.root(y) == (if before.root(y) == before.root(old_path)
                    || before.root(y) == before.root(new_path) {
                    union_winner(before, old_path, new_path)
                } else {
                    before.root(y)
                }) by {}
            }
        }
        proof {
            assert forall|p: u64| #[trigger] self.states().contains_key(p) implies self.states()[p] != Set::<OwnershipState>::empty() by {
                if p == new_path && old(self).states().contains_key(old_path) {
                    assert(old(self).states().contains_key(old_path));
                } else {
                    assert(old(self).states().contains_key(p));
                }
            }
        }
    }

    /// Removes a path from tracking: its recorded states, its dropped marks
    /// and its place among the paths sharing a resource.
    pub fn forget(&mut self, path: u64)
        requires
            old(self).wf(),
        ensures
            final(self).wf(),
            final(self).states() == old(self).states().remove(path),
            final(self).dropped() == old(self).dropped().remove(path),
            final(self).originals() == old(self).originals().remove(path),
            final(self).shared().parent_map() == old(self).shared().parent_map().remove(path),
            final(self).shared().rank_map() == old(self).shared().rank_map().remove(path),
            final(self).heap_owners() == old(self).heap_owners(),
            final(self).top_flag() == old(self).top_flag(),
            final(self).bottom_flag() == old(self).bottom_flag(),
    {
        self.state_map.remove(&path);
        self.dropped_set.remove(&path);
        self.dropped_originals.remove(&path);
        self.shared_resources.remove(path);
        assert(self.states() =~= old(self).states().remove(path));
    }

    /// A copy with the same flags, states, sharing, dropped marks and heap owners.
    fn copy(&self) -> (c: Self)
        requires
            self.wf(),
        ensures
            c.wf(),
            same_domain(c, *self),
    {
        let c = OwnershipDomain {
            is_top: self.is_top,
            is_bottom: self.is_bottom,
            state_map: self.state_map.clone(),
            shared_resources: self.shared_resources.duplicate(),
            dropped_set: copy_path_set(&self.dropped_set),
            dropped_originals: copy_path_set(&self.dropped_originals),
            heap_owner_set: copy_path_set(&self.heap_owner_set),
        };
        assert(c.states() =~= self.states());
        c
    }

    /// The least upper bound of two domains.  Top absorbs and bottom is
    /// neutral (`self` wins when both apply); otherwise every path tracked by
    /// either side gets the union of its states on both sides, the dropped
    /// marks are united, the sharing of `other` is merged into that of
    /// `self`, and no heap owner is kept.
    pub fn lub(&self, other: &Self) -> (r: Self)
        requires
            self.wf(),
            other.wf(),
        ensures
            r.wf(),
            self.top_flag() || other.bottom_flag() ==> same_domain(r, *self),
            !(self.top_flag() || other.bottom_flag()) && (other.top_flag() || self.bottom_flag()) ==> same_domain(
                r,
                *other,
            ),
            !(self.top_flag() || other.bottom_flag() || other.top_flag() || self.bottom_flag()) ==> {
                &&& !r.top_flag() && !r.bottom_flag()
                &&& r.states() == lub_states(*self, *other)
                &&& r.dropped() == self.dropped().union(other.dropped())
                &&& r.originals() == self.originals().union(other.originals())
                &&& r.heap_owners() == Set::<u64>::empty()
                &&& merged_sharing(self.shared(), other.shared(), r.shared())
            },
    {
        if self.is_top() || other.is_bottom() {
            return self.copy();
        }
        if other.is_top() || self.is_bottom() {
            return other.copy();
        }
        let mut result = OwnershipDomain::bottom();
        let keys1 = keys_of(&self.state_map);
        let keys2 = keys_of(&other.state_map);
        let ghost target = lub_states(*self, *other);
        let mut i: usize = 0;
        while i < keys1.len()
            invariant
                self.wf(),
                other.wf(),
                i <= keys1@.len(),
                keys1@.to_set() == self.state_map@.dom(),
                target == lub_states(*self, *other),
                forall|p: u64| #[trigger] result.states().contains_key(p) <==> keys1@.take(i as int).contains(p),
                forall|p: u64| #[trigger] result.states().contains_key(p) ==> result.states()[p] == target[p],
                result.shared().wf(),
                result.bottom_flag() && !result.top_flag(),
                result.dropped() == Set::<u64>::empty(),
                result.originals() == Set::<u64>::empty(),
                result.heap_owners() == Set::<u64>::empty(),
            decreases keys1@.len() - i,
        {
            let p = keys1[i];
            let merged = self.get_states(p).union(&other.get_states(p));
            let ghost prev = result.states();
            result.state_map.insert(p, merged);
            proof {
                assert(result.states() =~= prev.insert(p, merged@));
                assert(keys1@.take(i + 1) == keys1@.take(i as int).push(p));
                assert forall|q: u64| #[trigger] result.states().contains_key(q) <==> keys1@.take(i + 1).contains(q) by {
                    vstd::seq_lib::lemma_seq_contains_after_push(keys1@.take(i as int), p, q);
                }
                assert(keys1@.to_set().contains(p));
                assert(self.states().contains_key(p));
            }
            i = i + 1;
        }
        proof {
            assert(keys1@.take(keys1@.len() as int) == keys1@);
            assert(keys2@.take(0) =~= Seq::<u64>::empty());
        }
        let mut j: usize = 0;
        while j < keys2.len()
            invariant
                self.wf(),
                other.wf(),
                j <= keys2@.len(),
                keys1@.to_set() == self.state_map@.dom(),
                keys2@.to_set() == other.state_map@.dom(),
                target == lub_states(*self, *other),
                forall|p: u64|
                    #[trigger] result.states().contains_key(p) <==> (keys1@.contains(p) || keys2@.take(j as int).contains(p)),
                forall|p: u64| #[trigger] result.states().contains_key(p) ==> result.states()[p] == target[p],
                result.shared().wf(),
                result.bottom_flag() && !result.top_flag(),
                result.dropped() == Set::<u64>::empty(),
                result.originals() == Set::<u64>::empty(),
                result.heap_owners() == Set::<u64>::empty(),
            decreases keys2@.len() - j,
        {
            let p = keys2[j];
            let merged = self.get_states(p).union(&other.get_states(p));
            let ghost prev = result.states();
            result.state_map.insert(p, merged);
            proof {
                assert(result.states() =~= prev.insert(p, merged@));
                assert(keys2@.take(j + 1) == keys2@.take(j as int).push(p));
                assert forall|q: u64| #[trigger] result.states().contains_key(q) <==> (keys1@.contains(q) || keys2@.take(j + 1).contains(q)) by {
                    vstd::seq_lib::lemma_seq_contains_after_push(keys2@.take(j as int), p, q);
                }
                assert(keys2@.to_set().contains(p));
                assert(other.states().contains_key(p));
            }
            j = j + 1;
        }
        proof {
            assert(keys1@.take(keys1@.len() as int) == keys1@);
            assert(keys2@.take(keys2@.len() as int) == keys2@);
            assert forall|p: u64| #[trigger] result.states().contains_key(p) == target.contains_key(p) by {
                assert(keys1@.to_set().contains(p) == keys1@.contains(p));
                assert(keys2@.to_set().contains(p) == keys2@.contains(p));
            }
            assert(result.states() =~= target);
            assert forall|p: u64| #[trigger] result.states().contains_key(p) implies result.states()[p] != Set::<OwnershipState>::empty() by {
                if self.states().contains_key(p) {
                    lemma_nonempty_has_member(self.states()[p]);
                    let w = choose|s: OwnershipState| #[trigger] self.states()[p].contains(s);
                    assert(target[p].contains(w));
                } else {
                    assert(target[p].contains(OwnershipState::Owned));
                }
            }
        }
        result.dropped_set = union_path_sets(&self.dropped_set, &other.dropped_set);
        result.dropped_originals = union_path_sets(&self.dropped_originals, &other.dropped_originals);
        result.shared_resources = self.shared_resources.merge(&other.shared_resources);
        result.is_bottom = false;
        proof {
            assert(result.states() =~= target);
        }
        result
    }

    /// Widening is the least upper bound.
    pub fn widening_with(&self, other: &Self) -> (r: Self)
        requires
            self.wf(),
            other.wf(),
        ensures
            r.wf(),
            self.top_flag() || other.bottom_flag() ==> same_domain(r, *self),
            !(self.top_flag() || other.bottom_flag()) && (other.top_flag() || self.bottom_flag()) ==> same_domain(
                r,
                *other,
            ),
            !(self.top_flag() || other.bottom_flag() || other.top_flag() || self.bottom_flag()) ==> {
                &&& !r.top_flag() && !r.bottom_flag()
                &&& r.states() == lub_states(*self, *other)
                &&& r.dropped() == self.dropped().union(other.dropped())
                &&& r.originals() == self.originals().union(other.originals())
                &&& r.heap_owners() == Set::<u64>::empty()
                &&& merged_sharing(self.shared(), other.shared(), r.shared())
            },
    {
        self.lub(other)
    }


    /// A path and its states as text.
    fn entry_string(&self, names: &HashMap<u64, String>, p: u64) -> (r: String)
        ensures
            r@ == entry_text(*self, names@, p),
    {
        let mut r = path_string(names, p);
        r.append(" (");
        let states = self.get_states(p);
        let text = states_string(&states);
        r.append(text.as_str());
        r.append(")");
        r
    }

    /// What the ownership check reports for one group.
    pub fn group_message(&self, group: &Vec<u64>, names: &HashMap<u64, String>) -> (r: Option<String>)
        ensures
            match r {
                Some(m) => group_report(*self, names@, group@) == Some(m@),
                None => group_report(*self, names@, group@).is_none(),
            },
    {
        let g = group;
        if g.len() == 0 {
            return None;
        }
        if g.len() == 1 {
            let path = g[0];
            let states = self.get_states(path);
            if states.contains(OwnershipState::Forgotten) || states.contains(OwnershipState::ManuallyManaged) {
                let mut m = String::from_str("[Checker] Possible memory leak: resource at ");
                let name = path_string(names, path);
                m.append(name.as_str());
                m.append(" is forgotten or manually managed");
                return Some(m);
            }
            return None;
        }
        let mut active: Vec<u64> = Vec::new();
        let mut passive: usize = 0;
        let mut i: usize = 0;
        while i < g.len()
            invariant
                i <= g@.len(),
                active@ == active_paths(*self, g@.take(i as int)),
                passive == passive_count(*self, g@.take(i as int)),
                passive <= i,
            decreases g@.len() - i,
        {
            let path = g[i];
            let states = self.get_states(path);
            proof {
                assert(g@.take(i + 1).drop_last() == g@.take(i as int));
                assert(g@.take(i + 1).last() == path);
            }
            if states.contains(OwnershipState::Owned) || states.contains(OwnershipState::Moved)
                || states.contains(OwnershipState::Dropped) || states.contains(OwnershipState::Top) {
                active.push(path);
            }
            if states.contains(OwnershipState::Forgotten) || states.contains(OwnershipState::ManuallyManaged) {
                passive = passive + 1;
            }
            i = i + 1;
        }
        proof {
            assert(g@.take(g@.len() as int) == g@);
        }
        let total = g.len();
        if active.len() == 0 && passive > 0 {
            let mut m = String::from_str("[Checker] Possible memory leak: all ");
            let num = decimal_string(total as u64);
            m.append(num.as_str());
            m.append(" paths sharing a resource are forgotten or manually managed");
            return Some(m);
        }
        if active.len() > 1 {
            let mut has_heap = false;
            let mut has_forgotten = false;
            let mut k: usize = 0;
            while k < g.len()
                invariant
                    k <= g@.len(),
                    has_heap <==> exists|j: int| 0 <= j < k && self.heap_owners().contains(#[trigger] g@[j]),
                    has_forgotten <==> exists|j: int| 0 <= j < k && self.states_of(#[trigger] g@[j]).contains(OwnershipState::Forgotten),
                decreases g@.len() - k,
            {
                if self.heap_owner_set.contains(&g[k]) {
                    has_heap = true;
                }
                if self.has_state(g[k], OwnershipState::Forgotten) {
                    has_forgotten = true;
                }
                k = k + 1;
            }
            if has_heap && has_forgotten {
                let mut entries: Vec<String> = Vec::new();
                let mut k: usize = 0;
                while k < g.len()
                    invariant
                        k <= g@.len(),
                        entries@.map_values(|e: String| e@) == g@.take(k as int).map_values(|p: u64| heap_entry_text(*self, names@, p)),
                    decreases g@.len() - k,
                {
                    let mut e = self.entry_string(names, g[k]);
                    if self.heap_owner_set.contains(&g[k]) {
                        e.append(" [HEAP]");
                    } else {
                        proof {
                            assert(e@ + Seq::<char>::empty() == e@);
                        }
                    }
                    let ghost before = entries@;
                    let ghost ev = e@;
                    proof {
                        assert(ev == heap_entry_text(*self, names@, g@[k as int]));
                    }
                    entries.push(e);
                    proof {
                        assert(g@.take(k + 1) == g@.take(k as int).push(g@[k as int]));
                        assert(before.map_values(|e: String| e@).len() == before.len());
                        assert(g@.take(k as int).map_values(|p: u64| heap_entry_text(*self, names@, p)).len() == k);
                        assert(before.len() == k);
                        assert(entries@.len() == k + 1);
                        assert(entries@[k as int]@ == ev);
                        let lhs = entries@.map_values(|e: String| e@);
                        let rhs = g@.take(k + 1).map_values(|p: u64| heap_entry_text(*self, names@, p));
                        assert forall|j: int| 0 <= j < lhs.len() implies lhs[j] == rhs[j] by {
                            if j < k {
                                assert(entries@[j] == before[j]);
                                assert(before.map_values(|e: String| e@)[j] == g@.take(k as int).map_values(|p: u64| heap_entry_text(*self, names@, p))[j]);
                            } else {
                                assert(entries@[j]@ == ev);
                            }
                        }
                        assert(lhs =~= rhs);
                    }
                    k = k + 1;
                }
                proof {
                    assert(g@.take(g@.len() as int) == g@);
                }
                let mut m = String::from_str(
                    "[Checker] Possible memory leak: heap resource aliased with forgotten stack resource: [",
                );
                append_joined(&mut m, &entries, ", ");
                m.append("]");
                return Some(m);
            } else {
                let mut entries: Vec<String> = Vec::new();
                let mut k: usize = 0;
                while k < active.len()
                    invariant
                        k <= active@.len(),
                        entries@.map_values(|e: String| e@) == active@.take(k as int).map_values(|p: u64| entry_text(*self, names@, p)),
                    decreases active@.len() - k,
                {
                    let e = self.entry_string(names, active[k]);
                    let ghost before = entries@;
                    let ghost ev = e@;
                    entries.push(e);
                    proof {
                        assert(active@.take(k + 1) == active@.take(k as int).push(active@[k as int]));
                        assert(before.map_values(|e: String| e@).len() == before.len());
                        assert(active@.take(k as int).map_values(|p: u64| entry_text(*self, names@, p)).len() == k);
                        assert(before.len() == k);
                        assert(entries@.len() == k + 1);
                        assert(entries@[k as int]@ == ev);
                        let lhs = entries@.map_values(|e: String| e@);
                        let rhs = active@.take(k + 1).map_values(|p: u64| entry_text(*self, names@, p));
                        assert forall|j: int| 0 <= j < lhs.len() implies lhs[j] == rhs[j] by {
                            if j < k {
                                assert(entries@[j] == before[j]);
                                assert(before.map_values(|e: String| e@)[j] == active@.take(k as int).map_values(|p: u64| entry_text(*self, names@, p))[j]);
                            } else {
                                assert(entries@[j]@ == ev);
                            }
                        }
                        assert(lhs =~= rhs);
                    }
                    k = k + 1;
                }
                proof {
                    assert(active@.take(active@.len() as int) == active@);
                }
                let mut m = String::from_str("[Checker] Possible double-free: ");
                let num = decimal_string(active.len() as u64);
                m.append(num.as_str());
                m.append(" paths own the same resource: [");
                append_joined(&mut m, &entries, ", ");
                m.append("]");
                return Some(m);
            }
        }
        None
    }

    /// The problems found in the given groups, in order: for each group with
    /// a problem, its message and its paths.
    pub fn check_groups(&self, groups: &Vec<Vec<u64>>, names: &HashMap<u64, String>) -> (errors: Vec<OwnershipCheckError>)
        ensures
            error_views(errors@) == double_free_report(*self, names@, groups@.map_values(|g: Vec<u64>| g@)),
    {
        let ghost gs = groups@.map_values(|g: Vec<u64>| g@);
        let mut errors: Vec<OwnershipCheckError> = Vec::new();
        let mut i: usize = 0;
        while i < groups.len()
            invariant
                i <= groups@.len(),
                gs == groups@.map_values(|g: Vec<u64>| g@),
                error_views(errors@) == double_free_report(*self, names@, gs.take(i as int)),
            decreases groups@.len() - i,
        {
            let ghost before = errors@;
            proof {
                assert(gs.take(i + 1).drop_last() == gs.take(i as int));
                assert(gs.take(i + 1).last() == groups@[i as int]@);
            }
            match self.group_message(&groups[i], names) {
                Some(m) => {
                    let paths = copy_paths(&groups[i]);
                    errors.push(OwnershipCheckError::new(m, paths));
                    proof {
                        assert(error_views(errors@) =~= error_views(before).push((m@, groups@[i as int]@)));
                    }
                },
                None => {},
            }
            i = i + 1;
        }
        proof {
            assert(gs.take(gs.len() as int) == gs);
        }
        errors
    }

    /// Checks every group of paths sharing a resource for double frees and
    /// leaks.  The groups are visited in the order `get_all_groups` lists
    /// them, which depends on the hash maps' iteration order.
    pub fn check_double_free(&mut self, names: &HashMap<u64, String>) -> (errors: Vec<OwnershipCheckError>)
        requires
            old(self).wf(),
        ensures
            *final(self) == *old(self),
            exists|groups: Seq<Seq<u64>>|
                lists_groups(old(self).shared(), groups) && error_views(errors@) == double_free_report(
                    *old(self),
                    names@,
                    groups,
                ),
    {
        let groups = self.shared_resources.get_all_groups();
        let errors = self.check_groups(&groups, names);
        proof {
            let gs = groups@.map_values(|g: Vec<u64>| g@);
            assert(lists_groups(self.shared(), gs));
        }
        errors
    }

    /// Whether some tracked path has the state `Forgotten`.
    pub fn any_forgotten(&self) -> (r: bool)
        ensures
            r == exists|p: u64|
                self.states().contains_key(p) && #[trigger] self.states()[p].contains(OwnershipState::Forgotten),
    {
        let keys = keys_of(&self.state_map);
        let mut i: usize = 0;
        while i < keys.len()
            invariant
                i <= keys@.len(),
                keys@.to_set() == self.state_map@.dom(),
                forall|j: int| 0 <= j < i ==> !#[trigger] self.states()[keys@[j]].contains(OwnershipState::Forgotten),
            decreases keys@.len() - i,
        {
            let k = keys[i];
            assert(keys@.contains(k));
            match self.state_map.get(&k) {
                Some(states) => {
                    if states.contains(OwnershipState::Forgotten) {
                        assert(self.states().contains_key(k));
                        assert(self.states()[k] == states@);
                        assert(self.states()[k].contains(OwnershipState::Forgotten));
                        return true;
                    }
                },
                None => {},
            }
            i = i + 1;
        }
        proof {
            assert forall|p: u64| self.states().contains_key(p) implies !#[trigger] self.states()[p].contains(
                OwnershipState::Forgotten,
            ) by {
                assert(keys@.to_set().contains(p));
                let j = choose|j: int| 0 <= j < keys@.len() && keys@[j] == p;
            }
        }
        false
    }

    /// The structure of the paths that share a resource.
    pub fn shared_resources(&self) -> (r: &PathUnionFind)
        ensures
            *r == self.shared(),
    {
        &self.shared_resources
    }

    /// Records that `path1` and `path2` share a resource: their groups of the
    /// sharing structure are united.
    pub fn share_resource(&mut self, path1: u64, path2: u64)
        requires
            old(self).wf(),
        ensures
            final(self).wf(),
            merged_into(
                old(self).shared(),
                final(self).shared(),
                set![path1, path2],
                union_winner(old(self).shared(), path1, path2),
            ),
            final(self).states() == old(self).states(),
            final(self).top_flag() == old(self).top_flag(),
            final(self).bottom_flag() == old(self).bottom_flag(),
            final(self).dropped() == old(self).dropped(),
            final(self).originals() == old(self).originals(),
            final(self).heap_owners() == old(self).heap_owners(),
    {
        self.shared_resources.union(path1, path2);
        proof {
            lemma_union_merged(old(self).shared(), self.shared(), path1, path2);
            assert(self.states() =~= old(self).states());
        }
    }

    /// Records that `path` owns heap memory.
    pub fn add_heap_owner(&mut self, path: u64)
        requires
            old(self).wf(),
        ensures
            final(self).wf(),
            final(self).heap_owners() == old(self).heap_owners().insert(path),
            final(self).states() == old(self).states(),
            final(self).top_flag() == old(self).top_flag(),
            final(self).bottom_flag() == old(self).bottom_flag(),
            final(self).shared() == old(self).shared(),
            final(self).dropped() == old(self).dropped(),
            final(self).originals() == old(self).originals(),
    {
        self.heap_owner_set.insert(path);
        assert(self.states() =~= old(self).states());
    }

    /// Marks `path` as dropped.
    pub fn mark_dropped(&mut self, path: u64)
        requires
            old(self).wf(),
        ensures
            final(self).wf(),
            final(self).dropped() == old(self).dropped().insert(path),
            final(self).states() == old(self).states(),
            final(self).top_flag() == old(self).top_flag(),
            final(self).bottom_flag() == old(self).bottom_flag(),
            final(self).shared() == old(self).shared(),
            final(self).originals() == old(self).originals(),
            final(self).heap_owners() == old(self).heap_owners(),
    {
        self.dropped_set.insert(path);
        assert(self.states() =~= old(self).states());
    }

    /// Whether `path` was marked as dropped.
    pub fn is_dropped(&self, path: u64) -> (r: bool)
        ensures
            r == self.dropped().contains(path),
    {
        self.dropped_set.contains(&path)
    }
}

impl Default for OwnershipDomain {
    /// The bottom element.
    fn default() -> (d: Self)
        ensures
            d.wf(),
            d.bottom_flag() && !d.top_flag(),
            d.states() == Map::<u64, Set<OwnershipState>>::empty(),
            d.shared().parent_map() == Map::<u64, u64>::empty(),
            d.dropped() == Set::<u64>::empty(),
            d.originals() == Set::<u64>::empty(),
            d.heap_owners() == Set::<u64>::empty(),
    {
        Self::bottom()
    }
}


/// The least upper bound is an upper bound: every state that a path has on
/// either side it has in the least upper bound.
pub proof fn law_lub_upper_bound(a: OwnershipDomain, b: OwnershipDomain, r: OwnershipDomain, p: u64)
    requires
        a.wf(),
        b.wf(),
        r.states() == lub_states(a, b),
    ensures
        a.states_of(p).subset_of(r.states_of(p)),
        b.states_of(p).subset_of(r.states_of(p)),
{
}

/// The least upper bound does not depend on the order of its arguments.
pub proof fn law_lub_commutes(a: OwnershipDomain, b: OwnershipDomain)
    ensures
        lub_states(a, b) == lub_states(b, a),
{
    assert forall|p: u64| #[trigger] lub_states(a, b).contains_key(p) implies lub_states(a, b)[p] == lub_states(b, a)[p] by {
        assert(a.states_of(p).union(b.states_of(p)) =~= b.states_of(p).union(a.states_of(p)));
    }
    assert(lub_states(a, b) =~= lub_states(b, a));
}

/// The least upper bound of a domain with itself has the domain's states.
pub proof fn law_lub_idempotent(a: OwnershipDomain)
    requires
        a.wf(),
    ensures
        lub_states(a, a) == a.states(),
{
    assert forall|p: u64| #[trigger] lub_states(a, a).contains_key(p) implies lub_states(a, a)[p] == a.states()[p] by {
        assert(a.states_of(p).union(a.states_of(p)) =~= a.states_of(p));
    }
    assert(lub_states(a, a) =~= a.states());
}

/// After `set_state(path, state)`, `state` is the path's only state and no
/// other path's states changed.
pub proof fn law_set_state_reads_back(before: OwnershipDomain, after: OwnershipDomain, path: u64, state: OwnershipState)
    requires
        after.states() == before.states().insert(path, set![state]),
    ensures
        after.states_of(path) == set![state],
        forall|q: u64| q != path ==> #[trigger] after.states_of(q) == before.states_of(q),
{
}

/// After `add_state(path, state)`, the path has `state`, and every state it
/// had recorded before.
pub proof fn law_add_state_reads_back(before: OwnershipDomain, after: OwnershipDomain, path: u64, state: OwnershipState)
    requires
        after.states() == before.states().insert(path, before.recorded_or_none(path).insert(state)),
    ensures
        after.states_of(path).contains(state),
        before.recorded_or_none(path).subset_of(after.states_of(path)),
        forall|q: u64| q != path ==> #[trigger] after.states_of(q) == before.states_of(q),
{
}

/// After `remove_state(path, state)` the path no longer has `state`, unless
/// the path ends up untracked and `state` is `Owned`, which an untracked path
/// has.
pub proof fn law_remove_state_reads_back(
    before: OwnershipDomain,
    after: OwnershipDomain,
    path: u64,
    state: OwnershipState,
)
    requires
        before.wf(),
        before.states().contains_key(path) && before.states()[path].remove(state) != Set::<OwnershipState>::empty()
            ==> after.states() == before.states().insert(path, before.states()[path].remove(state)),
        before.states().contains_key(path) && before.states()[path].remove(state) == Set::<OwnershipState>::empty()
            ==> after.states() == before.states().remove(path),
        !before.states().contains_key(path) ==> after.states() == before.states(),
        state != OwnershipState::Owned,
    ensures
        !after.states_of(path).contains(state),
        forall|q: u64| q != path ==> #[trigger] after.states_of(q) == before.states_of(q),
{
}

/// After `forget(path)` the path is untracked: it reads as `Owned` alone and
/// is not dropped.
pub proof fn law_forget_untracks(before: OwnershipDomain, after: OwnershipDomain, path: u64)
    requires
        after.states() == before.states().remove(path),
        after.dropped() == before.dropped().remove(path),
    ensures
        after.states_of(path) == set![OwnershipState::Owned],
        !after.dropped().contains(path),
        forall|q: u64| q != path ==> #[trigger] after.states_of(q) == before.states_of(q),
{
}

/// After `rename(old_path, new_path)` of a tracked path, the new path has the
/// states that the old one had, and the old one, when it differs, is
/// untracked.
pub proof fn law_rename_moves_states(before: OwnershipDomain, after: OwnershipDomain, old_path: u64, new_path: u64)
    requires
        before.states().contains_key(old_path),
        after.states() == before.states().remove(old_path).insert(new_path, before.states()[old_path]),
    ensures
        after.states_of(new_path) == before.states_of(old_path),
        old_path != new_path ==> after.states_of(old_path) == set![OwnershipState::Owned],
{
}

/// After `duplicate(old_path, new_path)` of a tracked path, the new path has
/// the states of the old one, which keeps them.
pub proof fn law_duplicate_copies_states(before: OwnershipDomain, after: OwnershipDomain, old_path: u64, new_path: u64)
    requires
        before.states().contains_key(old_path),
        after.states() == before.states().insert(new_path, before.states()[old_path]),
    ensures
        after.states_of(new_path) == before.states_of(old_path),
        after.states_of(old_path) == before.states_of(old_path),
{
}

/// After `mark_dropped(path)` the path is dropped.
pub proof fn law_mark_dropped_reads_back(before: OwnershipDomain, after: OwnershipDomain, path: u64)
    requires
        after.dropped() == before.dropped().insert(path),
    ensures
        after.dropped().contains(path),
        forall|q: u64| #[trigger] before.dropped().contains(q) ==> after.dropped().contains(q),
{
}


/// What an operation does to the dropped marks when it keeps `p`'s: it keeps
/// them all, marks `q`, unmarks a `q` other than `p`, or moves the mark of a
/// `q` other than `p` to `r`.  Every operation but `forget(p)`, `rename(p, ..)`,
/// `set_to_top` and `set_to_bottom` does one of these.
pub open spec fn dropped_step(before: OwnershipDomain, after: OwnershipDomain, p: u64, q: u64, r: u64) -> bool {
    after.dropped() == before.dropped() || after.dropped() == before.dropped().insert(q) || (q != p
        && after.dropped() == before.dropped().remove(q)) || (q != p && after.dropped() == (if before.dropped().contains(q) {
        before.dropped().remove(q).insert(r)
    } else {
        before.dropped()
    }))
}

/// An operation that keeps `p`'s dropped mark, as `dropped_step` lists them.
pub open spec fn keeps_dropped_mark(before: OwnershipDomain, after: OwnershipDomain, p: u64) -> bool {
    exists|q: u64, r: u64| #[trigger] dropped_step(before, after, p, q, r)
}

/// A path marked as dropped stays marked through one such operation.
pub proof fn law_dropped_mark_kept(before: OwnershipDomain, after: OwnershipDomain, p: u64, q: u64, r: u64)
    requires
        before.dropped().contains(p),
        dropped_step(before, after, p, q, r),
    ensures
        after.dropped().contains(p),
{
}

/// A path marked as dropped stays marked through any sequence of operations
/// none of which is `forget` of it, `rename` of it, `set_to_top` or
/// `set_to_bottom`: `ds` holds the domain before and after each operation.
pub proof fn law_dropped_mark_survives(ds: Seq<OwnershipDomain>, p: u64)
    requires
        ds.len() > 0,
        ds[0].dropped().contains(p),
        forall|i: int| 0 <= i < ds.len() - 1 ==> keeps_dropped_mark(#[trigger] ds[i], ds[i + 1], p),
    ensures
        ds.last().dropped().contains(p),
    decreases ds.len(),
{
    if ds.len() > 1 {
        let prefix = ds.drop_last();
        assert forall|i: int| 0 <= i < prefix.len() - 1 implies keeps_dropped_mark(#[trigger] prefix[i], prefix[i + 1], p) by {
            assert(prefix[i] == ds[i] && prefix[i + 1] == ds[i + 1]);
        }
        law_dropped_mark_survives(prefix, p);
        let k = ds.len() - 2;
        assert(keeps_dropped_mark(ds[k], ds[k + 1], p));
        let (q, r) = choose|q: u64, r: u64| #[trigger] dropped_step(ds[k], ds[k + 1], p, q, r);
        law_dropped_mark_kept(ds[k], ds[k + 1], p, q, r);
    }
}


/// The paths of the first `k` of `g` whose states hold the resource include
/// the ones at positions `i` and `j` below `k`, and number at least as many of
/// those two.
proof fn lemma_owners_counted(d: OwnershipDomain, g: Seq<u64>, i: int, j: int, k: int)
    requires
        0 <= i < j < g.len(),
        0 <= k <= g.len(),
        is_active(d.states_of(g[i])),
        is_active(d.states_of(g[j])),
    ensures
        active_paths(d, g.take(k)).len() >= (if i < k { 1int } else { 0 }) + (if j < k { 1int } else { 0 }),
        i < k ==> active_paths(d, g.take(k)).contains(g[i]),
        j < k ==> active_paths(d, g.take(k)).contains(g[j]),
    decreases k,
{
    if k > 0 {
        lemma_owners_counted(d, g, i, j, k - 1);
        let t = g.take(k);
        assert(t.drop_last() == g.take(k - 1));
        assert(t.last() == g[k - 1]);
        let prev = active_paths(d, g.take(k - 1));
        if is_active(d.states_of(g[k - 1])) {
            assert(active_paths(d, t) == prev.push(g[k - 1]));
            if i < k - 1 {
                let x = choose|x: int| 0 <= x < prev.len() && prev[x] == g[i];
                assert(prev.push(g[k - 1])[x] == g[i]);
            }
            if j < k - 1 {
                let x = choose|x: int| 0 <= x < prev.len() && prev[x] == g[j];
                assert(prev.push(g[k - 1])[x] == g[j]);
            }
            assert(prev.push(g[k - 1])[prev.len() as int] == g[k - 1]);
        } else {
            assert(i != k - 1 && j != k - 1);
        }
    }
}

/// Two aliases that both still hold a resource are a double free: in a group
/// of paths sharing a resource, where no heap owner is aliased with a
/// forgotten path, two paths each with one of the states `Owned`, `Moved`,
/// `Dropped` or `Top` make the check report a double free that lists both.
/// In particular a dropped path still counts as holding the resource.
pub proof fn law_two_owners_are_a_double_free(d: OwnershipDomain, names: Map<u64, String>, g: Seq<u64>, i: int, j: int)
    requires
        0 <= i < j < g.len(),
        d.states_of(g[i]).contains(OwnershipState::Owned) || d.states_of(g[i]).contains(OwnershipState::Moved)
            || d.states_of(g[i]).contains(OwnershipState::Dropped) || d.states_of(g[i]).contains(OwnershipState::Top),
        d.states_of(g[j]).contains(OwnershipState::Owned) || d.states_of(g[j]).contains(OwnershipState::Moved)
            || d.states_of(g[j]).contains(OwnershipState::Dropped) || d.states_of(g[j]).contains(OwnershipState::Top),
        !((exists|k: int| 0 <= k < g.len() && d.heap_owners().contains(#[trigger] g[k])) && (exists|k: int|
            0 <= k < g.len() && d.states_of(#[trigger] g[k]).contains(OwnershipState::Forgotten))),
    ensures
        exists|n: nat, entries: Seq<Seq<char>>|
            n >= 2 && group_report(d, names, g) == Some(#[trigger] double_free_message(n, entries))
                && entries.contains(entry_text(d, names, g[i])) && entries.contains(entry_text(d, names, g[j])),
{
    lemma_owners_counted(d, g, i, j, g.len() as int);
    assert(g.take(g.len() as int) == g);
    let active = active_paths(d, g);
    let entries = active.map_values(|p: u64| entry_text(d, names, p));
    let x = choose|x: int| 0 <= x < active.len() && active[x] == g[i];
    let y = choose|y: int| 0 <= y < active.len() && active[y] == g[j];
    assert(entries[x] == entry_text(d, names, g[i]));
    assert(entries[y] == entry_text(d, names, g[j]));
    assert(group_report(d, names, g) == Some(double_free_message(active.len(), entries)));
}


/// With no path holding the resource, no path is counted as holding it, and
/// a path that gave it up is counted as such.
proof fn lemma_no_owners_counted(d: OwnershipDomain, g: Seq<u64>)
    requires
        forall|i: int| 0 <= i < g.len() ==> !is_active(d.states_of(#[trigger] g[i])),
    ensures
        active_paths(d, g).len() == 0,
        (exists|i: int| 0 <= i < g.len() && is_passive(d.states_of(#[trigger] g[i]))) ==> passive_count(d, g) > 0,
    decreases g.len(),
{
    if g.len() > 0 {
        let q = g.drop_last();
        assert forall|i: int| 0 <= i < q.len() implies !is_active(d.states_of(#[trigger] q[i])) by {
            assert(q[i] == g[i]);
        }
        lemma_no_owners_counted(d, q);
        assert(!is_active(d.states_of(g[g.len() - 1])));
        if exists|i: int| 0 <= i < g.len() && is_passive(d.states_of(#[trigger] g[i])) {
            let i = choose|i: int| 0 <= i < g.len() && is_passive(d.states_of(#[trigger] g[i]));
            if i < g.len() - 1 {
                assert(q[i] == g[i]);
            }
        }
    }
}

/// A lone path that was forgotten or is manually managed leaks its resource;
/// a lone path in any other state is no problem.
pub proof fn law_lone_given_up_path_leaks(d: OwnershipDomain, names: Map<u64, String>, p: u64)
    ensures
        d.states_of(p).contains(OwnershipState::Forgotten) || d.states_of(p).contains(OwnershipState::ManuallyManaged)
            ==> group_report(d, names, seq![p]) == Some(single_leak_message(names, p)),
        !(d.states_of(p).contains(OwnershipState::Forgotten) || d.states_of(p).contains(OwnershipState::ManuallyManaged))
            ==> group_report(d, names, seq![p]) is None,
{
    assert(seq![p][0] == p);
}

/// A group of two or more paths where none holds the resource (none has the
/// state `Owned`, `Moved`, `Dropped` or `Top`) and some path was forgotten or
/// is manually managed leaks the resource.
pub proof fn law_given_up_group_leaks(d: OwnershipDomain, names: Map<u64, String>, g: Seq<u64>, k: int)
    requires
        g.len() >= 2,
        forall|i: int|
            0 <= i < g.len() ==> !((#[trigger] d.states_of(g[i])).contains(OwnershipState::Owned) || d.states_of(
                g[i],
            ).contains(OwnershipState::Moved) || d.states_of(g[i]).contains(OwnershipState::Dropped) || d.states_of(
                g[i],
            ).contains(OwnershipState::Top)),
        0 <= k < g.len(),
        d.states_of(g[k]).contains(OwnershipState::Forgotten) || d.states_of(g[k]).contains(
            OwnershipState::ManuallyManaged,
        ),
    ensures
        group_report(d, names, g) == Some(group_leak_message(g.len())),
{
    assert forall|i: int| 0 <= i < g.len() implies !is_active(d.states_of(#[trigger] g[i])) by {
        assert(!((d.states_of(g[i])).contains(OwnershipState::Owned) || d.states_of(g[i]).contains(
            OwnershipState::Moved,
        ) || d.states_of(g[i]).contains(OwnershipState::Dropped) || d.states_of(g[i]).contains(OwnershipState::Top)));
    }
    assert(is_passive(d.states_of(g[k])));
    lemma_no_owners_counted(d, g);
}

} // verus!
