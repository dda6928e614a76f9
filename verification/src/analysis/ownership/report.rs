use vstd::prelude::*;
use vstd::string::*;
use crate::analysis::ownership::ownership_state::OwnershipState;
use crate::analysis::ownership::ownership_state::StateSet;
use crate::text::join;
use crate::text::decimal;
use crate::text::decimal_string;
use std::collections::HashMap;
use crate::text::append_joined;

verus! {

broadcast use vstd::std_specs::hash::group_hash_axioms;

/// How a path reads in messages: the text given for it (its debug form), or
/// its number when none is given.
pub open spec fn path_text(names: Map<u64, String>, p: u64) -> Seq<char> {
    if names.contains_key(p) {
        names[p]@
    } else {
        decimal(p as nat)
    }
}

/// How a path reads in messages.
pub fn path_string(names: &HashMap<u64, String>, p: u64) -> (r: String)
    ensures
        r@ == path_text(names@, p),
{
    match names.get(&p) {
        Some(n) => String::from_str(n.as_str()),
        None => decimal_string(p),
    }
}

/// The name of a state, as its `Debug` output spells it.
pub open spec fn state_name(s: OwnershipState) -> Seq<char> {
    match s {
        OwnershipState::Owned => "Owned"@,
        OwnershipState::Moved => "Moved"@,
        OwnershipState::Dropped => "Dropped"@,
        OwnershipState::Forgotten => "Forgotten"@,
        OwnershipState::ManuallyManaged => "ManuallyManaged"@,
        OwnershipState::Top => "Top"@,
        OwnershipState::Uinit => "Uinit"@,
    }
}

/// The states in declaration order.
pub open spec fn state_at(i: int) -> OwnershipState {
    if i == 0 {
        OwnershipState::Owned
    } else if i == 1 {
        OwnershipState::Moved
    } else if i == 2 {
        OwnershipState::Dropped
    } else if i == 3 {
        OwnershipState::Forgotten
    } else if i == 4 {
        OwnershipState::ManuallyManaged
    } else if i == 5 {
        OwnershipState::Top
    } else {
        OwnershipState::Uinit
    }
}

/// The names of the members of `s` among the first `n` states, in
/// declaration order.
pub open spec fn member_names(s: Set<OwnershipState>, n: int) -> Seq<Seq<char>>
    decreases n,
{
    if n <= 0 {
        Seq::empty()
    } else if s.contains(state_at(n - 1)) {
        member_names(s, n - 1).push(state_name(state_at(n - 1)))
    } else {
        member_names(s, n - 1)
    }
}

/// A set of states as text: its members' names in declaration order,
/// separated by `, ` and enclosed in braces.
pub open spec fn states_text(s: Set<OwnershipState>) -> Seq<char> {
    "{"@ + join(member_names(s, 7), ", "@) + "}"@
}

fn state_at_exec(i: usize) -> (s: OwnershipState)
    requires
        i < 7,
    ensures
        s == state_at(i as int),
{
    if i == 0 {
        OwnershipState::Owned
    } else if i == 1 {
        OwnershipState::Moved
    } else if i == 2 {
        OwnershipState::Dropped
    } else if i == 3 {
        OwnershipState::Forgotten
    } else if i == 4 {
        OwnershipState::ManuallyManaged
    } else if i == 5 {
        OwnershipState::Top
    } else {
        OwnershipState::Uinit
    }
}

/// The name of a state.
pub fn state_name_str(s: OwnershipState) -> (r: &'static str)
    ensures
        r@ == state_name(s),
{
    match s {
        OwnershipState::Owned => "Owned",
        OwnershipState::Moved => "Moved",
        OwnershipState::Dropped => "Dropped",
        OwnershipState::Forgotten => "Forgotten",
        OwnershipState::ManuallyManaged => "ManuallyManaged",
        OwnershipState::Top => "Top",
        OwnershipState::Uinit => "Uinit",
    }
}

/// A set of states as text.
pub fn states_string(s: &StateSet) -> (r: String)
    ensures
        r@ == states_text(s@),
{
    let mut names: Vec<String> = Vec::new();
    let mut i: usize = 0;
    while i < 7
        invariant
            i <= 7,
            names@.map_values(|n: String| n@) == member_names(s@, i as int),
        decreases 7 - i,
    {
        let st = state_at_exec(i);
        if s.contains(st) {
            let ghost before = names@;
            names.push(String::from_str(state_name_str(st)));
            proof {
                assert(names@.map_values(|n: String| n@) =~= before.map_values(|n: String| n@).push(state_name(st)));
            }
        }
        i = i + 1;
    }
    let mut r = String::from_str("{");
    append_joined(&mut r, &names, ", ");
    r.append("}");
    r
}

} // verus!
