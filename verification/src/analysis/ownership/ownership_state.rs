use vstd::prelude::*;

verus! {

/// Represents the ownership state of a resource in the abstract domain.
#[derive(Debug, Clone, Copy, PartialEq, Eq, Hash, Structural)]
pub enum OwnershipState {
    /// The path owns the resource.
    Owned,
    /// The value the path names has been moved out.
    Moved,
    /// The resource has been dropped (destructor called).
    Dropped,
    /// The resource has been explicitly forgotten and is no longer tracked.
    Forgotten,
    /// The resource is wrapped in `ManuallyDrop` and requires manual destruction.
    ManuallyManaged,
    /// Top: unknown state (used in joins and merging)
    Top,
    /// Uninitialized: the resource cannot be accessed.
    Uinit,
}

/// A set of ownership states.
#[derive(Debug, Clone, Copy, PartialEq, Eq, Structural)]
pub struct StateSet {
    owned: bool,
    moved: bool,
    dropped: bool,
    forgotten: bool,
    manually_managed: bool,
    top: bool,
    uinit: bool,
}

impl StateSet {
    /// Whether `s` is a member.
    pub closed spec fn has(self, s: OwnershipState) -> bool {
        match s {
            OwnershipState::Owned => self.owned,
            OwnershipState::Moved => self.moved,
            OwnershipState::Dropped => self.dropped,
            OwnershipState::Forgotten => self.forgotten,
            OwnershipState::ManuallyManaged => self.manually_managed,
            OwnershipState::Top => self.top,
            OwnershipState::Uinit => self.uinit,
        }
    }

    /// The empty set.
    pub fn new() -> (r: Self)
        ensures
            r@ == Set::<OwnershipState>::empty(),
    {
        let r = StateSet {
            owned: false,
            moved: false,
            dropped: false,
            forgotten: false,
            manually_managed: false,
            top: false,
            uinit: false,
        };
        assert(r@ =~= Set::<OwnershipState>::empty());
        r
    }

    /// The set holding `s` alone.
    pub fn singleton(s: OwnershipState) -> (r: Self)
        ensures
            r@ == set![s],
    {
        let mut r = Self::new();
        r.insert(s);
        assert(r@ =~= set![s]);
        r
    }

    /// Whether `s` is a member.
    pub fn contains(&self, s: OwnershipState) -> (r: bool)
        ensures
            r == self@.contains(s),
    {
        match s {
            OwnershipState::Owned => self.owned,
            OwnershipState::Moved => self.moved,
            OwnershipState::Dropped => self.dropped,
            OwnershipState::Forgotten => self.forgotten,
            OwnershipState::ManuallyManaged => self.manually_managed,
            OwnershipState::Top => self.top,
            OwnershipState::Uinit => self.uinit,
        }
    }

    /// Adds `s`; returns whether it was absent.
    pub fn insert(&mut self, s: OwnershipState) -> (added: bool)
        ensures
            final(self)@ == old(self)@.insert(s),
            added == !old(self)@.contains(s),
    {
        let added = !self.contains(s);
        match s {
            OwnershipState::Owned => self.owned = true,
            OwnershipState::Moved => self.moved = true,
            OwnershipState::Dropped => self.dropped = true,
            OwnershipState::Forgotten => self.forgotten = true,
            OwnershipState::ManuallyManaged => self.manually_managed = true,
            OwnershipState::Top => self.top = true,
            OwnershipState::Uinit => self.uinit = true,
        }
        assert(self@ =~= old(self)@.insert(s));
        added
    }

    /// Removes `s`; returns whether it was present.
    pub fn remove(&mut self, s: OwnershipState) -> (removed: bool)
        ensures
            final(self)@ == old(self)@.remove(s),
            removed == old(self)@.contains(s),
    {
        let removed = self.contains(s);
        match s {
            OwnershipState::Owned => self.owned = false,
            OwnershipState::Moved => self.moved = false,
            OwnershipState::Dropped => self.dropped = false,
            OwnershipState::Forgotten => self.forgotten = false,
            OwnershipState::ManuallyManaged => self.manually_managed = false,
            OwnershipState::Top => self.top = false,
            OwnershipState::Uinit => self.uinit = false,
        }
        assert(self@ =~= old(self)@.remove(s));
        removed
    }

    /// The states in either set.
    pub fn union(&self, other: &StateSet) -> (r: StateSet)
        ensures
            r@ == self@.union(other@),
    {
        let r = StateSet {
            owned: self.owned || other.owned,
            moved: self.moved || other.moved,
            dropped: self.dropped || other.dropped,
            forgotten: self.forgotten || other.forgotten,
            manually_managed: self.manually_managed || other.manually_managed,
            top: self.top || other.top,
            uinit: self.uinit || other.uinit,
        };
        assert(r@ =~= self@.union(other@));
        r
    }

    /// Whether the set has no member.
    pub fn is_empty(&self) -> (r: bool)
        ensures
            r == (self@ == Set::<OwnershipState>::empty()),
    {
        let r = !(self.owned || self.moved || self.dropped || self.forgotten || self.manually_managed
            || self.top || self.uinit);
        if !r {
            assert(self@.contains(OwnershipState::Owned) || self@.contains(OwnershipState::Moved)
                || self@.contains(OwnershipState::Dropped) || self@.contains(OwnershipState::Forgotten)
                || self@.contains(OwnershipState::ManuallyManaged) || self@.contains(OwnershipState::Top)
                || self@.contains(OwnershipState::Uinit));
        } else {
            assert(self@ =~= Set::<OwnershipState>::empty());
        }
        r
    }
}

impl View for StateSet {
    type V = Set<OwnershipState>;

    closed spec fn view(&self) -> Set<OwnershipState> {
        Set::new(|s: OwnershipState| self.has(s))
    }
}

/// Every set of ownership states is finite.
pub broadcast proof fn lemma_state_set_finite(s: StateSet)
    ensures
        #[trigger] s@.finite(),
{
    let all = set![
        OwnershipState::Owned,
        OwnershipState::Moved,
        OwnershipState::Dropped,
        OwnershipState::Forgotten,
        OwnershipState::ManuallyManaged,
        OwnershipState::Top,
        OwnershipState::Uinit,
    ];
    assert(s@.subset_of(all));
    vstd::set_lib::lemma_set_subset_finite(all, s@);
}

} // verus!
