use vstd::prelude::*;
use vstd::string::*;
use crate::analysis::memory::known_names::KnownNames;
use crate::analysis::ownership::ownership_domain::OwnershipDomain;
use crate::analysis::ownership::ownership_domain::state_sets;
use crate::analysis::ownership::ownership_state::OwnershipState;
use crate::analysis::ownership::ownership_state::StateSet;
use crate::analysis::ownership::path_uf::PathUnionFind;
use crate::analysis::ownership::path_uf::merged_into;
use crate::analysis::ownership::path_uf::touches;
use crate::analysis::ownership::path_uf::lemma_union_merged;
use crate::analysis::ownership::path_uf::lemma_merged_chain;
use crate::analysis::ownership::path_uf::lemma_merged_nothing;
use crate::analysis::ownership::path_uf::union_winner;
use crate::analysis::ownership::path_uf::lemma_members_connected;
use crate::analysis::ownership::report::states_text;
use crate::analysis::ownership::report::states_string;
use crate::analysis::ownership::report::path_text;
use crate::analysis::ownership::report::path_string;
use std::collections::HashMap;
use crate::text::decimal;
use crate::text::decimal_string;
use crate::text::join;
use crate::text::append_joined;

verus! {

/// How a call to a well known function is handled.
#[derive(Clone, Copy, Debug, PartialEq, Eq, Structural)]
pub enum SpecialCall {
    /// `Vec::from_raw_parts`: models the new vector.
    FromRawParts,
    /// `Vec::with_capacity`: models the new vector.
    VecWithCapacity,
    /// `Vec::reserve`: models the grown capacity.
    VecReserve,
    /// `Vec::set_len`: checks the new length.
    VecSetLen,
    /// The verification marker: checks its condition.
    CheckerVerify,
    /// Handled by doing nothing.
    Skip,
    /// `<[T]>::into_vec`: models the vector.
    IntoVec,
    /// `Index::index`: checks the index.
    Index,
    /// Pointer arithmetic in elements: checks the new offset.
    Offset,
    /// Pointer arithmetic in bytes: checks the new offset.
    ByteOffset,
    /// The distance between two pointers.
    OffsetFrom,
    /// `get_unchecked_mut`: checks the index.
    GetUncheckedMut,
    /// `get_unchecked`: checks the index.
    GetUnchecked,
    /// `slice::from_raw_parts`: checks the pointer and length.
    SliceFromRawParts,
    /// `From::from`: models the conversion.
    From,
    /// Handled as an ordinary call.
    Normal,
    /// `ptr::copy` and `copy_nonoverlapping`: checks the bounds.
    Copy,
    /// Reads through a pointer.
    Read,
    /// `mem::forget`: records the forgotten resource.
    Forget,
    /// `MaybeUninit::uninit`: records uninitialized memory.
    MaybeUninitUninit,
    /// `mem::uninitialized`: records uninitialized memory.
    MemUninitialized,
    /// `Box::from_raw`: records the new owner.
    BoxFromRaw,
    /// `str::from_utf8_unchecked`: then handled as an ordinary call.
    FromUtf8Unchecked,
    /// `ManuallyDrop::new`: records the manually managed resource.
    ManuallyDropNew,
    /// `Deref::deref`: follows the reference.
    Deref,
    /// `Box::into_raw`: reported and otherwise skipped.
    BoxIntoRaw,
    /// `Box::leak`: records the leaked resource.
    BoxLeak,
}

/// How a call to a function that is not handled specially is inlined.
#[derive(Clone, Copy, Debug, PartialEq, Eq, Structural)]
pub enum InlinedCall {
    /// An allocation: models the new heap block.
    RustAlloc,
    /// `mem::size_of`: the size of the type.
    SizeOf,
    /// No special result.
    NoResult,
}

/// How a call to the function with the known name `known` is handled.
pub open spec fn special_call_for(known: KnownNames) -> SpecialCall {
    match known {
        KnownNames::VecFromRawParts => SpecialCall::FromRawParts,
        KnownNames::VecWithCapacity => SpecialCall::VecWithCapacity,
        KnownNames::VecReserve => SpecialCall::VecReserve,
        KnownNames::VecSetLen => SpecialCall::VecSetLen,
        KnownNames::CheckerVerify => SpecialCall::CheckerVerify,
        KnownNames::RustDealloc => SpecialCall::Skip,
        KnownNames::StdPanickingBeginPanic | KnownNames::StdPanickingBeginPanicFmt => SpecialCall::Skip,
        KnownNames::StdIntoVec => SpecialCall::IntoVec,
        KnownNames::CoreOpsIndex => SpecialCall::Index,
        KnownNames::StdPtrMutPtrOffset | KnownNames::StdPtrConstPtrOffset | KnownNames::StdPtrMutPtrAdd | KnownNames::StdPtrConstPtrAdd | KnownNames::StdPtrMutPtrSub | KnownNames::StdPtrConstPtrSub | KnownNames::StdPtrConstPtrWrappingOffset | KnownNames::StdPtrMutPtrWrappingOffset | KnownNames::StdPtrMutPtrWrappingAdd | KnownNames::StdPtrConstPtrWrappingAdd | KnownNames::StdPtrMutPtrWrappingSub | KnownNames::StdPtrConstPtrWrappingSub => SpecialCall::Offset,
        KnownNames::StdPtrMutPtrByteOffset | KnownNames::StdPtrConstPtrByteOffset | KnownNames::StdPtrMutPtrByteAdd | KnownNames::StdPtrConstPtrByteAdd | KnownNames::StdPtrMutPtrByteSub | KnownNames::StdPtrConstPtrByteSub | KnownNames::StdPtrConstPtrWrappingByteOffset | KnownNames::StdPtrMutPtrWrappingByteOffset | KnownNames::StdPtrMutPtrWrappingByteAdd | KnownNames::StdPtrConstPtrWrappingByteAdd | KnownNames::StdPtrMutPtrWrappingByteSub | KnownNames::StdPtrConstPtrWrappingByteSub => SpecialCall::ByteOffset,
        KnownNames::StdPtrConstPtrOffsetFrom | KnownNames::StdPtrMutPtrOffsetFrom | KnownNames::StdPtrConstPtrByteOffsetFrom | KnownNames::StdPtrMutPtrByteOffsetFrom => SpecialCall::OffsetFrom,
        KnownNames::StdSliceIndexGetUncheckedMut => SpecialCall::GetUncheckedMut,
        KnownNames::StdSliceIndexGetUnchecked => SpecialCall::GetUnchecked,
        KnownNames::StdSliceFromRawParts => SpecialCall::SliceFromRawParts,
        KnownNames::StdFrom => SpecialCall::From,
        KnownNames::StdAsMutPtr | KnownNames::StdAsPtr => SpecialCall::Normal,
        KnownNames::StdIntrinsicsCopy | KnownNames::StdIntrinsicsCopyNonOverlapping => SpecialCall::Copy,
        KnownNames::StdPtrRead | KnownNames::StdPtrReadUnAligned | KnownNames::StdPtrReadVolatile | KnownNames::StdPtrConstPtrRead | KnownNames::StdPtrMutPtrRead => SpecialCall::Read,
        KnownNames::StdMemForget => SpecialCall::Forget,
        KnownNames::StdMemMaybeUninitUninit => SpecialCall::MaybeUninitUninit,
        KnownNames::StdMemUninitialized => SpecialCall::MemUninitialized,
        KnownNames::StdPtrReplace => SpecialCall::Skip,
        KnownNames::StdPtrSwap | KnownNames::StdPtrSwapNonOverlapping => SpecialCall::Skip,
        KnownNames::StdBoxFromRaw => SpecialCall::BoxFromRaw,
        KnownNames::StdPtrWrite | KnownNames::StdPtrWriteBytes | KnownNames::StdPtrWriteUnAligned | KnownNames::StdPtrWriteVolatile => SpecialCall::Skip,
        KnownNames::StdPtrDropInPlace => SpecialCall::Skip,
        KnownNames::CoreStrConvertsFromUtf8Unchecked => SpecialCall::FromUtf8Unchecked,
        KnownNames::StdMemManuallyDropNew => SpecialCall::ManuallyDropNew,
        KnownNames::CoreOpsDeref => SpecialCall::Deref,
        KnownNames::StdBoxIntoRaw => SpecialCall::BoxIntoRaw,
        KnownNames::StdBoxLeak => SpecialCall::BoxLeak,
        _ => SpecialCall::Normal,
    }
}

/// How a call to the function with the known name `known` is handled: the
/// decision that the call visitor acts on.
pub fn handled_as_special_function_call(known: KnownNames) -> (r: SpecialCall)
    ensures
        r == special_call_for(known),
{
    match known {
        KnownNames::VecFromRawParts => SpecialCall::FromRawParts,
        KnownNames::VecWithCapacity => SpecialCall::VecWithCapacity,
        KnownNames::VecReserve => SpecialCall::VecReserve,
        KnownNames::VecSetLen => SpecialCall::VecSetLen,
        KnownNames::CheckerVerify => SpecialCall::CheckerVerify,
        KnownNames::RustDealloc => SpecialCall::Skip,
        KnownNames::StdPanickingBeginPanic | KnownNames::StdPanickingBeginPanicFmt => SpecialCall::Skip,
        KnownNames::StdIntoVec => SpecialCall::IntoVec,
        KnownNames::CoreOpsIndex => SpecialCall::Index,
        KnownNames::StdPtrMutPtrOffset | KnownNames::StdPtrConstPtrOffset | KnownNames::StdPtrMutPtrAdd | KnownNames::StdPtrConstPtrAdd | KnownNames::StdPtrMutPtrSub | KnownNames::StdPtrConstPtrSub | KnownNames::StdPtrConstPtrWrappingOffset | KnownNames::StdPtrMutPtrWrappingOffset | KnownNames::StdPtrMutPtrWrappingAdd | KnownNames::StdPtrConstPtrWrappingAdd | KnownNames::StdPtrMutPtrWrappingSub | KnownNames::StdPtrConstPtrWrappingSub => SpecialCall::Offset,
        KnownNames::StdPtrMutPtrByteOffset | KnownNames::StdPtrConstPtrByteOffset | KnownNames::StdPtrMutPtrByteAdd | KnownNames::StdPtrConstPtrByteAdd | KnownNames::StdPtrMutPtrByteSub | KnownNames::StdPtrConstPtrByteSub | KnownNames::StdPtrConstPtrWrappingByteOffset | KnownNames::StdPtrMutPtrWrappingByteOffset | KnownNames::StdPtrMutPtrWrappingByteAdd | KnownNames::StdPtrConstPtrWrappingByteAdd | KnownNames::StdPtrMutPtrWrappingByteSub | KnownNames::StdPtrConstPtrWrappingByteSub => SpecialCall::ByteOffset,
        KnownNames::StdPtrConstPtrOffsetFrom | KnownNames::StdPtrMutPtrOffsetFrom | KnownNames::StdPtrConstPtrByteOffsetFrom | KnownNames::StdPtrMutPtrByteOffsetFrom => SpecialCall::OffsetFrom,
        KnownNames::StdSliceIndexGetUncheckedMut => SpecialCall::GetUncheckedMut,
        KnownNames::StdSliceIndexGetUnchecked => SpecialCall::GetUnchecked,
        KnownNames::StdSliceFromRawParts => SpecialCall::SliceFromRawParts,
        KnownNames::StdFrom => SpecialCall::From,
        KnownNames::StdAsMutPtr | KnownNames::StdAsPtr => SpecialCall::Normal,
        KnownNames::StdIntrinsicsCopy | KnownNames::StdIntrinsicsCopyNonOverlapping => SpecialCall::Copy,
        KnownNames::StdPtrRead | KnownNames::StdPtrReadUnAligned | KnownNames::StdPtrReadVolatile | KnownNames::StdPtrConstPtrRead | KnownNames::StdPtrMutPtrRead => SpecialCall::Read,
        KnownNames::StdMemForget => SpecialCall::Forget,
        KnownNames::StdMemMaybeUninitUninit => SpecialCall::MaybeUninitUninit,
        KnownNames::StdMemUninitialized => SpecialCall::MemUninitialized,
        KnownNames::StdPtrReplace => SpecialCall::Skip,
        KnownNames::StdPtrSwap | KnownNames::StdPtrSwapNonOverlapping => SpecialCall::Skip,
        KnownNames::StdBoxFromRaw => SpecialCall::BoxFromRaw,
        KnownNames::StdPtrWrite | KnownNames::StdPtrWriteBytes | KnownNames::StdPtrWriteUnAligned | KnownNames::StdPtrWriteVolatile => SpecialCall::Skip,
        KnownNames::StdPtrDropInPlace => SpecialCall::Skip,
        KnownNames::CoreStrConvertsFromUtf8Unchecked => SpecialCall::FromUtf8Unchecked,
        KnownNames::StdMemManuallyDropNew => SpecialCall::ManuallyDropNew,
        KnownNames::CoreOpsDeref => SpecialCall::Deref,
        KnownNames::StdBoxIntoRaw => SpecialCall::BoxIntoRaw,
        KnownNames::StdBoxLeak => SpecialCall::BoxLeak,
        _ => SpecialCall::Normal,
    }
}

/// The result inlined for an ordinary call to the function with the known
/// name `known`.
pub fn try_to_inline_special_function(known: KnownNames) -> (r: InlinedCall)
    ensures
        r == (match known {
            KnownNames::RustAlloc | KnownNames::RustAllocZeroed => InlinedCall::RustAlloc,
            KnownNames::StdMemSizeOf => InlinedCall::SizeOf,
            _ => InlinedCall::NoResult,
        }),
{
    match known {
        KnownNames::RustAlloc => InlinedCall::RustAlloc,
        KnownNames::RustAllocZeroed => InlinedCall::RustAlloc,
        KnownNames::StdMemSizeOf => InlinedCall::SizeOf,
        _ => InlinedCall::NoResult,
    }
}


/// The set of the first `k` items of `s`.
pub proof fn lemma_take_to_set_step(s: Seq<u64>, k: int)
    requires
        0 <= k < s.len(),
    ensures
        s.take(k + 1).to_set() == s.take(k).to_set().insert(s[k]),
        s.take(0).to_set() == Set::<u64>::empty(),
        s.take(s.len() as int).to_set() == s.to_set(),
{
    assert forall|x: u64| #[trigger] s.take(k + 1).to_set().contains(x) == s.take(k).to_set().insert(s[k]).contains(x) by {
        if s.take(k + 1).contains(x) {
            let i = choose|i: int| 0 <= i < k + 1 && #[trigger] s.take(k + 1)[i] == x;
            if i < k {
                assert(s.take(k)[i] == x);
            }
        }
        if s.take(k).contains(x) {
            let i = choose|i: int| 0 <= i < k && #[trigger] s.take(k)[i] == x;
            assert(s.take(k + 1)[i] == x);
        }
        if x == s[k] {
            assert(s.take(k + 1)[k] == x);
        }
    }
    assert(s.take(k + 1).to_set() =~= s.take(k).to_set().insert(s[k]));
    assert(s.take(0).to_set() =~= Set::<u64>::empty());
    assert(s.take(s.len() as int) == s);
}

/// The call that gives paths up.
#[derive(Clone, Copy, Debug, PartialEq, Eq, Structural)]
pub enum ReleaseKind {
    /// `mem::forget`.
    Forget,
    /// `Box::leak`.
    BoxLeak,
    /// `ManuallyDrop::new`.
    ManuallyDropNew,
}

/// What a call that gives paths up did to the ownership domain.
pub enum ReleaseOutcome {
    /// No path needs dropping: nothing was tracked.
    NothingToTrack,
    /// Every path that needs dropping was marked.
    Applied,
    /// These paths, with their states, forbid the call: no path was marked.
    Rejected(Vec<(u64, StateSet)>),
}

/// The paths that need dropping, in order.
pub open spec fn paths_needing_drop(paths: Seq<u64>, needs_drop: Seq<bool>) -> Seq<u64>
    decreases paths.len(),
{
    if paths.len() == 0 {
        Seq::empty()
    } else {
        let prefix = paths_needing_drop(paths.drop_last(), needs_drop);
        if needs_drop[paths.len() - 1] {
            prefix.push(paths.last())
        } else {
            prefix
        }
    }
}

/// Whether states allow the call: `ManuallyDrop::new` moves the value, so it
/// needs a usable path; the others need a path that may be forgotten.
pub open spec fn release_allowed(kind: ReleaseKind, s: Set<OwnershipState>) -> bool {
    match kind {
        ReleaseKind::ManuallyDropNew => !(s.contains(OwnershipState::Moved) || s.contains(OwnershipState::Dropped)
            || s.contains(OwnershipState::Uinit) || s.contains(OwnershipState::Forgotten)),
        _ => !(s.contains(OwnershipState::Moved) || s.contains(OwnershipState::Dropped) || s.contains(
            OwnershipState::Forgotten,
        )),
    }
}

/// The paths among `ps` whose states forbid the call, in order, each with its
/// states.
pub open spec fn release_violations(d: OwnershipDomain, kind: ReleaseKind, ps: Seq<u64>) -> Seq<(u64, Set<OwnershipState>)>
    decreases ps.len(),
{
    if ps.len() == 0 {
        Seq::empty()
    } else {
        let prefix = release_violations(d, kind, ps.drop_last());
        if release_allowed(kind, d.states_of(ps.last())) {
            prefix
        } else {
            prefix.push((ps.last(), d.states_of(ps.last())))
        }
    }
}

/// The state that a path given up by the call gets.
pub open spec fn release_mark(kind: ReleaseKind) -> OwnershipState {
    match kind {
        ReleaseKind::ManuallyDropNew => OwnershipState::Moved,
        _ => OwnershipState::Forgotten,
    }
}

/// `states` with `s` added to the states of each path of `ps`; a path that is
/// not yet tracked gets `s` alone.
pub open spec fn with_state_added(states: Map<u64, Set<OwnershipState>>, ps: Seq<u64>, s: OwnershipState) -> Map<
    u64,
    Set<OwnershipState>,
> {
    Map::new(
        |p: u64| states.contains_key(p) || ps.contains(p),
        |p: u64|
            if ps.contains(p) {
                (if states.contains_key(p) {
                    states[p]
                } else {
                    Set::empty()
                }).insert(s)
            } else {
                states[p]
            },
    )
}

/// `states` with the states of each path of `ps` replaced by `s` alone.
pub open spec fn with_state_set(states: Map<u64, Set<OwnershipState>>, ps: Seq<u64>, s: OwnershipState) -> Map<
    u64,
    Set<OwnershipState>,
> {
    Map::new(
        |p: u64| states.contains_key(p) || ps.contains(p),
        |p: u64|
            if ps.contains(p) {
                set![s]
            } else {
                states[p]
            },
    )
}

/// Pairs of a path and a set of states, with the sets taken as sets.
pub open spec fn entries_view(v: Seq<(u64, StateSet)>) -> Seq<(u64, Set<OwnershipState>)> {
    v.map_values(|e: (u64, StateSet)| (e.0, e.1@))
}

/// The two domains agree on everything but their states and flags.
pub open spec fn same_but_states(a: OwnershipDomain, b: OwnershipDomain) -> bool {
    &&& a.shared() == b.shared()
    &&& a.dropped() == b.dropped()
    &&& a.originals() == b.originals()
    &&& a.heap_owners() == b.heap_owners()
}

/// The two domains agree on everything but their sharing structure.
pub open spec fn same_but_sharing(a: OwnershipDomain, b: OwnershipDomain) -> bool {
    &&& a.states() == b.states()
    &&& a.top_flag() == b.top_flag()
    &&& a.bottom_flag() == b.bottom_flag()
    &&& a.dropped() == b.dropped()
    &&& a.originals() == b.originals()
    &&& a.heap_owners() == b.heap_owners()
}

fn release_allowed_exec(domain: &OwnershipDomain, kind: ReleaseKind, path: u64) -> (r: bool)
    ensures
        r == release_allowed(kind, domain.states_of(path)),
{
    match kind {
        ReleaseKind::ManuallyDropNew => domain.can_use(path),
        _ => domain.can_forget(path),
    }
}

fn release_mark_exec(kind: ReleaseKind) -> (s: OwnershipState)
    ensures
        s == release_mark(kind),
{
    match kind {
        ReleaseKind::ManuallyDropNew => OwnershipState::Moved,
        _ => OwnershipState::Forgotten,
    }
}

/// The paths that need dropping.
fn select_needing_drop(paths: &Vec<u64>, needs_drop: &Vec<bool>) -> (r: Vec<u64>)
    requires
        paths.len() == needs_drop.len(),
    ensures
        r@ == paths_needing_drop(paths@, needs_drop@),
{
    let mut r: Vec<u64> = Vec::new();
    let mut i: usize = 0;
    while i < paths.len()
        invariant
            i <= paths.len(),
            paths.len() == needs_drop.len(),
            r@ == paths_needing_drop(paths@.take(i as int), needs_drop@),
        decreases paths.len() - i,
    {
        proof {
            assert(paths@.take(i + 1).drop_last() == paths@.take(i as int));
        }
        if needs_drop[i] {
            r.push(paths[i]);
        }
        i = i + 1;
    }
    proof {
        assert(paths@.take(paths.len() as int) == paths@);
    }
    r
}

/// Gives up the paths that need dropping, when all of their states allow it:
/// each then gets the state `release_mark(kind)` added.  When any of them
/// forbids it, nothing is marked and the offending paths are returned.
fn release_paths(domain: &mut OwnershipDomain, kind: ReleaseKind, paths: &Vec<u64>, needs_drop: &Vec<bool>) -> (r: ReleaseOutcome)
    requires
        old(domain).wf(),
        paths.len() == needs_drop.len(),
    ensures
        final(domain).wf(),
        paths_needing_drop(paths@, needs_drop@).len() == 0 ==> r is NothingToTrack,
        paths_needing_drop(paths@, needs_drop@).len() > 0 && release_violations(
            *old(domain),
            kind,
            paths_needing_drop(paths@, needs_drop@),
        ).len() > 0 ==> (r matches ReleaseOutcome::Rejected(v) && entries_view(v@) == release_violations(
            *old(domain),
            kind,
            paths_needing_drop(paths@, needs_drop@),
        )),
        paths_needing_drop(paths@, needs_drop@).len() > 0 && release_violations(
            *old(domain),
            kind,
            paths_needing_drop(paths@, needs_drop@),
        ).len() == 0 ==> r is Applied,
        !(r is Applied) ==> *final(domain) == *old(domain),
        r is Applied ==> final(domain).states() == with_state_added(
            old(domain).states(),
            paths_needing_drop(paths@, needs_drop@),
            release_mark(kind),
        ),
        r is Applied ==> !final(domain).top_flag() && !final(domain).bottom_flag(),
        same_but_states(*final(domain), *old(domain)),
{
    let to_release = select_needing_drop(paths, needs_drop);
    if to_release.len() == 0 {
        return ReleaseOutcome::NothingToTrack;
    }
    let ghost d0 = *domain;
    let mut invalid: Vec<(u64, StateSet)> = Vec::new();
    let mut j: usize = 0;
    while j < to_release.len()
        invariant
            j <= to_release.len(),
            entries_view(invalid@) == release_violations(d0, kind, to_release@.take(j as int)),
            *domain == d0,
        decreases to_release.len() - j,
    {
        let p = to_release[j];
        proof {
            assert(to_release@.take(j + 1).drop_last() == to_release@.take(j as int));
            assert(to_release@.take(j + 1).last() == p);
        }
        if !release_allowed_exec(domain, kind, p) {
            let states = domain.get_states(p);
            let ghost before = invalid@;
            invalid.push((p, states));
            proof {
                assert(entries_view(invalid@) =~= entries_view(before).push((p, states@)));
            }
        }
        j = j + 1;
    }
    proof {
        assert(to_release@.take(to_release.len() as int) == to_release@);
    }
    if invalid.len() > 0 {
        return ReleaseOutcome::Rejected(invalid);
    }
    let mark = release_mark_exec(kind);
    let mut k: usize = 0;
    while k < to_release.len()
        invariant
            k <= to_release.len(),
            to_release@.len() > 0,
            domain.wf(),
            domain.states() == with_state_added(d0.states(), to_release@.take(k as int), mark),
            k > 0 ==> !domain.top_flag() && !domain.bottom_flag(),
            k == 0 ==> *domain == d0,
            same_but_states(*domain, d0),
        decreases to_release.len() - k,
    {
        let p = to_release[k];
        let ghost before = domain.states();
        domain.add_state(p, mark);
        proof {
            let next = with_state_added(d0.states(), to_release@.take(k + 1), mark);
            assert forall|q: u64| #[trigger] to_release@.take(k + 1).contains(q) == (to_release@.take(k as int).contains(q) || q == p) by {
                if to_release@.take(k + 1).contains(q) {
                    let i = choose|i: int| 0 <= i < k + 1 && #[trigger] to_release@.take(k + 1)[i] == q;
                    if i < k {
                        assert(to_release@.take(k as int)[i] == q);
                    }
                }
                if to_release@.take(k as int).contains(q) {
                    let i = choose|i: int| 0 <= i < k && #[trigger] to_release@.take(k as int)[i] == q;
                    assert(to_release@.take(k + 1)[i] == q);
                }
                if q == p {
                    assert(to_release@.take(k + 1)[k as int] == q);
                }
            }
            let rec0 = if d0.states().contains_key(p) {
                d0.states()[p]
            } else {
                Set::<OwnershipState>::empty()
            };
            if to_release@.take(k as int).contains(p) {
                assert(before[p] == rec0.insert(mark));
                assert(rec0.insert(mark).insert(mark) =~= rec0.insert(mark));
            }
            assert(domain.states()[p] == next[p]);
            assert(domain.states() =~= next);
        }
        k = k + 1;
    }
    proof {
        assert(to_release@.take(to_release.len() as int) == to_release@);
    }
    ReleaseOutcome::Applied
}

/// `mem::forget`: the paths that need dropping become `Forgotten`, unless one
/// of them is already moved, dropped or forgotten.
pub fn handle_forget(domain: &mut OwnershipDomain, paths: &Vec<u64>, needs_drop: &Vec<bool>) -> (r: ReleaseOutcome)
    requires
        old(domain).wf(),
        paths.len() == needs_drop.len(),
    ensures
        final(domain).wf(),
        paths_needing_drop(paths@, needs_drop@).len() == 0 ==> r is NothingToTrack,
        paths_needing_drop(paths@, needs_drop@).len() > 0 && release_violations(
            *old(domain),
            ReleaseKind::Forget,
            paths_needing_drop(paths@, needs_drop@),
        ).len() > 0 ==> (r matches ReleaseOutcome::Rejected(v) && entries_view(v@) == release_violations(
            *old(domain),
            ReleaseKind::Forget,
            paths_needing_drop(paths@, needs_drop@),
        )),
        paths_needing_drop(paths@, needs_drop@).len() > 0 && release_violations(
            *old(domain),
            ReleaseKind::Forget,
            paths_needing_drop(paths@, needs_drop@),
        ).len() == 0 ==> r is Applied,
        !(r is Applied) ==> *final(domain) == *old(domain),
        r is Applied ==> final(domain).states() == with_state_added(
            old(domain).states(),
            paths_needing_drop(paths@, needs_drop@),
            OwnershipState::Forgotten,
        ),
        r is Applied ==> !final(domain).top_flag() && !final(domain).bottom_flag(),
        same_but_states(*final(domain), *old(domain)),
{
    release_paths(domain, ReleaseKind::Forget, paths, needs_drop)
}

/// `Box::leak`: the paths that need dropping become `Forgotten`, unless one
/// of them is already moved, dropped or forgotten.
pub fn handle_box_leak(domain: &mut OwnershipDomain, paths: &Vec<u64>, needs_drop: &Vec<bool>) -> (r: ReleaseOutcome)
    requires
        old(domain).wf(),
        paths.len() == needs_drop.len(),
    ensures
        final(domain).wf(),
        paths_needing_drop(paths@, needs_drop@).len() == 0 ==> r is NothingToTrack,
        paths_needing_drop(paths@, needs_drop@).len() > 0 && release_violations(
            *old(domain),
            ReleaseKind::BoxLeak,
            paths_needing_drop(paths@, needs_drop@),
        ).len() > 0 ==> (r matches ReleaseOutcome::Rejected(v) && entries_view(v@) == release_violations(
            *old(domain),
            ReleaseKind::BoxLeak,
            paths_needing_drop(paths@, needs_drop@),
        )),
        paths_needing_drop(paths@, needs_drop@).len() > 0 && release_violations(
            *old(domain),
            ReleaseKind::BoxLeak,
            paths_needing_drop(paths@, needs_drop@),
        ).len() == 0 ==> r is Applied,
        !(r is Applied) ==> *final(domain) == *old(domain),
        r is Applied ==> final(domain).states() == with_state_added(
            old(domain).states(),
            paths_needing_drop(paths@, needs_drop@),
            OwnershipState::Forgotten,
        ),
        r is Applied ==> !final(domain).top_flag() && !final(domain).bottom_flag(),
        same_but_states(*final(domain), *old(domain)),
{
    release_paths(domain, ReleaseKind::BoxLeak, paths, needs_drop)
}

/// `ManuallyDrop::new`: the paths that need dropping become `Moved` and the
/// destination `ManuallyManaged`, unless one of the paths is moved, dropped,
/// uninitialized or forgotten.
pub fn handle_manually_drop_new(
    domain: &mut OwnershipDomain,
    paths: &Vec<u64>,
    needs_drop: &Vec<bool>,
    destination: u64,
) -> (r: ReleaseOutcome)
    requires
        old(domain).wf(),
        paths.len() == needs_drop.len(),
    ensures
        final(domain).wf(),
        paths_needing_drop(paths@, needs_drop@).len() == 0 ==> r is NothingToTrack,
        paths_needing_drop(paths@, needs_drop@).len() > 0 && release_violations(
            *old(domain),
            ReleaseKind::ManuallyDropNew,
            paths_needing_drop(paths@, needs_drop@),
        ).len() > 0 ==> (r matches ReleaseOutcome::Rejected(v) && entries_view(v@) == release_violations(
            *old(domain),
            ReleaseKind::ManuallyDropNew,
            paths_needing_drop(paths@, needs_drop@),
        )),
        paths_needing_drop(paths@, needs_drop@).len() > 0 && release_violations(
            *old(domain),
            ReleaseKind::ManuallyDropNew,
            paths_needing_drop(paths@, needs_drop@),
        ).len() == 0 ==> r is Applied,
        !(r is Applied) ==> *final(domain) == *old(domain),
        r is Applied ==> final(domain).states() == with_state_added(
            old(domain).states(),
            paths_needing_drop(paths@, needs_drop@),
            OwnershipState::Moved,
        ).insert(destination, set![OwnershipState::ManuallyManaged]),
        r is Applied ==> !final(domain).top_flag() && !final(domain).bottom_flag(),
        same_but_states(*final(domain), *old(domain)),
{
    let r = release_paths(domain, ReleaseKind::ManuallyDropNew, paths, needs_drop);
    if let ReleaseOutcome::Applied = r {
        domain.set_state(destination, OwnershipState::ManuallyManaged);
    }
    r
}

/// What a path whose states forbid giving it up reads as: the path, then its
/// states.
pub open spec fn violation_text(names: Map<u64, String>, e: (u64, Set<OwnershipState>)) -> Seq<char> {
    path_text(names, e.0) + " (states: "@ + states_text(e.1) + ")"@
}

/// What the call could not do.
pub open spec fn release_action(kind: ReleaseKind) -> Seq<char> {
    match kind {
        ReleaseKind::Forget => "cannot forget values"@,
        ReleaseKind::BoxLeak => "cannot leak Box"@,
        ReleaseKind::ManuallyDropNew => "cannot create ManuallyDrop"@,
    }
}

/// The warning for a call whose paths' states forbid it.
pub open spec fn release_warning(kind: ReleaseKind, names: Map<u64, String>, bad: Seq<(u64, Set<OwnershipState>)>) -> Seq<char> {
    "[Checker] Possible unsafe error: "@ + release_action(kind) + " - invalid ownership states for "@ + decimal(
        bad.len(),
    ) + " path(s): ["@ + join(bad.map_values(|e: (u64, Set<OwnershipState>)| violation_text(names, e)), ", "@) + "]"@
}

/// The warning for a call whose paths' states forbid it.
pub fn release_warning_text(kind: ReleaseKind, invalid: &Vec<(u64, StateSet)>, names: &HashMap<u64, String>) -> (r: String)
    ensures
        r@ == release_warning(kind, names@, entries_view(invalid@)),
{
    let ghost bad = entries_view(invalid@);
    let mut details: Vec<String> = Vec::new();
    let mut i: usize = 0;
    while i < invalid.len()
        invariant
            i <= invalid.len(),
            bad == entries_view(invalid@),
            details@.map_values(|t: String| t@) == bad.take(i as int).map_values(
                |e: (u64, Set<OwnershipState>)| violation_text(names@, e),
            ),
        decreases invalid.len() - i,
    {
        let (p, states) = invalid[i];
        let mut t = path_string(names, p);
        t.append(" (states: ");
        let st = states_string(&states);
        t.append(st.as_str());
        t.append(")");
        let ghost before = details@;
        details.push(t);
        proof {
            assert(bad[i as int] == (p, states@));
            assert(bad.take(i + 1) == bad.take(i as int).push(bad[i as int]));
            assert(details@.map_values(|t: String| t@) =~= before.map_values(|t: String| t@).push(t@));
            assert(bad.take(i + 1).map_values(|e: (u64, Set<OwnershipState>)| violation_text(names@, e)) =~= bad.take(
                i as int,
            ).map_values(|e: (u64, Set<OwnershipState>)| violation_text(names@, e)).push(violation_text(names@, bad[i as int])));
        }
        i = i + 1;
    }
    proof {
        assert(bad.take(invalid.len() as int) == bad);
    }
    let mut r = String::from_str("[Checker] Possible unsafe error: ");
    match kind {
        ReleaseKind::Forget => r.append("cannot forget values"),
        ReleaseKind::BoxLeak => r.append("cannot leak Box"),
        ReleaseKind::ManuallyDropNew => r.append("cannot create ManuallyDrop"),
    }
    r.append(" - invalid ownership states for ");
    let n = decimal_string(invalid.len() as u64);
    r.append(n.as_str());
    r.append(" path(s): [");
    append_joined(&mut r, &details, ", ");
    r.append("]");
    r
}


/// The dropped marks and heap owners of the two domains agree.
pub open spec fn same_marks(a: OwnershipDomain, b: OwnershipDomain) -> bool {
    &&& a.dropped() == b.dropped()
    &&& a.originals() == b.originals()
    &&& a.heap_owners() == b.heap_owners()
}

/// `after` is `before` with the states of `path` replaced by `s` alone.
pub open spec fn state_set_alone(before: OwnershipDomain, after: OwnershipDomain, path: u64, s: OwnershipState) -> bool {
    &&& after.wf()
    &&& after.states() == before.states().insert(path, set![s])
    &&& !after.top_flag() && !after.bottom_flag()
    &&& same_but_states(after, before)
}

/// Records, in order, that each of `srcs` shares its resource with `dst`.
fn share_with_all(domain: &mut OwnershipDomain, srcs: &Vec<u64>, dst: u64)
    requires
        old(domain).wf(),
    ensures
        final(domain).wf(),
        srcs.len() == 0 ==> final(domain).shared() == old(domain).shared(),
        srcs.len() > 0 ==> merged_into(
            old(domain).shared(),
            final(domain).shared(),
            srcs@.to_set().insert(dst),
            final(domain).shared().root(dst),
        ),
        same_but_sharing(*final(domain), *old(domain)),
{
    let ghost d0 = *domain;
    let ghost mut m: Set<u64> = Set::empty();
    let ghost mut w: u64 = dst;
    proof {
        lemma_merged_nothing(d0.shared(), w);
    }
    let mut i: usize = 0;
    while i < srcs.len()
        invariant
            i <= srcs.len(),
            domain.wf(),
            merged_into(d0.shared(), domain.shared(), m, w),
            m == (if i == 0 {
                Set::<u64>::empty()
            } else {
                srcs@.take(i as int).to_set().insert(dst)
            }),
            i == 0 ==> domain.shared() == d0.shared(),
            same_but_sharing(*domain, d0),
        decreases srcs.len() - i,
    {
        let ghost c = domain.shared();
        let s = srcs[i];
        domain.share_resource(s, dst);
        proof {
            let m2 = set![s, dst];
            let w2 = union_winner(c, s, dst);
            assert(m2.contains(dst));
            if i > 0 {
                assert(m.contains(dst));
            }
            lemma_merged_chain(d0.shared(), c, domain.shared(), m, w, m2, w2);
            lemma_take_to_set_step(srcs@, i as int);
            assert(m + m2 =~= srcs@.take(i + 1).to_set().insert(dst));
            m = m + m2;
            w = w2;
        }
        i = i + 1;
    }
    proof {
        if srcs.len() > 0 {
            lemma_take_to_set_step(srcs@, 0);
            assert(m.contains(dst));
            assert(d0.shared().same_group(dst, dst));
            assert(touches(d0.shared(), m, dst));
        }
    }
}

/// `Box::from_raw`: the new box shares the resource of every path the
/// pointer may point to, and owns it.
pub fn handle_box_from_raw(domain: &mut OwnershipDomain, src_paths: &Vec<u64>, destination: u64)
    requires
        old(domain).wf(),
    ensures
        final(domain).wf(),
        src_paths.len() == 0 ==> final(domain).shared() == old(domain).shared(),
        src_paths.len() > 0 ==> merged_into(
            old(domain).shared(),
            final(domain).shared(),
            src_paths@.to_set().insert(destination),
            final(domain).shared().root(destination),
        ),
        final(domain).states() == old(domain).states().insert(destination, set![OwnershipState::Owned]),
        !final(domain).top_flag() && !final(domain).bottom_flag(),
        same_marks(*final(domain), *old(domain)),
{
    share_with_all(domain, src_paths, destination);
    domain.set_state(destination, OwnershipState::Owned);
}

/// `Vec::from_raw_parts`: the new vector shares the resource of every path
/// the pointer may point to, and owns it.
pub fn handle_from_raw_parts(domain: &mut OwnershipDomain, src_paths: &Vec<u64>, destination: u64)
    requires
        old(domain).wf(),
    ensures
        final(domain).wf(),
        src_paths.len() == 0 ==> final(domain).shared() == old(domain).shared(),
        src_paths.len() > 0 ==> merged_into(
            old(domain).shared(),
            final(domain).shared(),
            src_paths@.to_set().insert(destination),
            final(domain).shared().root(destination),
        ),
        final(domain).states() == old(domain).states().insert(destination, set![OwnershipState::Owned]),
        !final(domain).top_flag() && !final(domain).bottom_flag(),
        same_marks(*final(domain), *old(domain)),
{
    share_with_all(domain, src_paths, destination);
    domain.set_state(destination, OwnershipState::Owned);
}

/// Some tracked path has the state `Forgotten`.  (A path whose root is
/// forgotten counts too, but then the root itself is such a path.)
pub open spec fn forgotten_somewhere(d: OwnershipDomain) -> bool {
    exists|p: u64| d.states().contains_key(p) && #[trigger] d.states()[p].contains(OwnershipState::Forgotten)
}

/// Reading `src` (part of the path `root`; `field` when it names a field of
/// it) reads forgotten memory: `src` or `root` is forgotten, or it is a field
/// access while some path is forgotten.
pub open spec fn reads_forgotten(d: OwnershipDomain, src: u64, root: u64, field: bool) -> bool {
    d.states_of(src).contains(OwnershipState::Forgotten) || d.states_of(root).contains(OwnershipState::Forgotten) || (
    field && forgotten_somewhere(d))
}

/// The sources, in order, whose reading reads forgotten memory.
pub open spec fn forgotten_reads(d: OwnershipDomain, srcs: Seq<u64>, roots: Seq<u64>, fields: Seq<bool>) -> Seq<u64>
    decreases srcs.len(),
{
    if srcs.len() == 0 {
        Seq::empty()
    } else {
        let k = srcs.len() - 1;
        let prefix = forgotten_reads(d, srcs.drop_last(), roots, fields);
        if reads_forgotten(d, srcs[k], roots[k], fields[k]) {
            prefix.push(srcs[k])
        } else {
            prefix
        }
    }
}

/// `ptr::read`: returns the sources that read forgotten memory, each of which
/// deserves a warning.  When the value read needs dropping, the destination
/// then shares the resource of every source and owns it.
pub fn handle_read(
    domain: &mut OwnershipDomain,
    src_paths: &Vec<u64>,
    src_roots: &Vec<u64>,
    field_access: &Vec<bool>,
    destination: u64,
    needs_drop: bool,
) -> (forgotten: Vec<u64>)
    requires
        old(domain).wf(),
        src_roots.len() == src_paths.len(),
        field_access.len() == src_paths.len(),
    ensures
        forgotten@ == forgotten_reads(*old(domain), src_paths@, src_roots@, field_access@),
        final(domain).wf(),
        !needs_drop ==> *final(domain) == *old(domain),
        needs_drop && src_paths.len() == 0 ==> final(domain).shared() == old(domain).shared(),
        needs_drop && src_paths.len() > 0 ==> merged_into(
            old(domain).shared(),
            final(domain).shared(),
            src_paths@.to_set().insert(destination),
            final(domain).shared().root(destination),
        ),
        needs_drop ==> final(domain).states() == old(domain).states().insert(
            destination,
            set![OwnershipState::Owned],
        ),
        needs_drop ==> !final(domain).top_flag() && !final(domain).bottom_flag(),
        same_marks(*final(domain), *old(domain)),
{
    let mut forgotten: Vec<u64> = Vec::new();
    let mut i: usize = 0;
    while i < src_paths.len()
        invariant
            i <= src_paths.len(),
            src_roots.len() == src_paths.len(),
            field_access.len() == src_paths.len(),
            forgotten@ == forgotten_reads(*domain, src_paths@.take(i as int), src_roots@, field_access@),
        decreases src_paths.len() - i,
    {
        let src = src_paths[i];
        let mut is_forgotten = domain.is_forgotten_or_root_forgotten(src, src_roots[i]);
        if !is_forgotten && field_access[i] {
            is_forgotten = domain.any_forgotten();
        }
        proof {
            assert(src_paths@.take(i + 1).drop_last() == src_paths@.take(i as int));
            assert(src_paths@.take(i + 1)[i as int] == src);
        }
        if is_forgotten {
            forgotten.push(src);
        }
        i = i + 1;
    }
    proof {
        assert(src_paths@.take(src_paths.len() as int) == src_paths@);
    }
    if needs_drop {
        share_with_all(domain, src_paths, destination);
        domain.set_state(destination, OwnershipState::Owned);
    }
    forgotten
}

/// `ptr::copy`: when the copied values need dropping, every destination
/// shares the resource of every source, and each destination owns it.
pub fn handle_copy(domain: &mut OwnershipDomain, src_paths: &Vec<u64>, dst_paths: &Vec<u64>, needs_drop: bool)
    requires
        old(domain).wf(),
    ensures
        final(domain).wf(),
        !needs_drop || dst_paths.len() == 0 ==> *final(domain) == *old(domain),
        src_paths.len() == 0 ==> final(domain).shared() == old(domain).shared(),
        needs_drop && src_paths.len() > 0 && dst_paths.len() > 0 ==> merged_into(
            old(domain).shared(),
            final(domain).shared(),
            src_paths@.to_set() + dst_paths@.to_set(),
            final(domain).shared().root(dst_paths@[0]),
        ),
        needs_drop ==> final(domain).states() == with_state_set(
            old(domain).states(),
            dst_paths@,
            OwnershipState::Owned,
        ),
        needs_drop && dst_paths.len() > 0 ==> !final(domain).top_flag() && !final(domain).bottom_flag(),
        same_marks(*final(domain), *old(domain)),
{
    if !needs_drop || dst_paths.len() == 0 {
        return;
    }
    let ghost d0 = *domain;
    let ghost mut m: Set<u64> = Set::empty();
    let ghost mut w: u64 = dst_paths@[0];
    proof {
        lemma_merged_nothing(d0.shared(), w);
    }
    let mut i: usize = 0;
    while i < src_paths.len()
        invariant
            i <= src_paths.len(),
            dst_paths.len() > 0,
            domain.wf(),
            merged_into(d0.shared(), domain.shared(), m, w),
            m == (if i == 0 {
                Set::<u64>::empty()
            } else {
                src_paths@.take(i as int).to_set() + dst_paths@.to_set()
            }),
            i == 0 ==> *domain == d0,
            same_but_sharing(*domain, d0),
        decreases src_paths.len() - i,
    {
        let s = src_paths[i];
        let ghost m_start = m;
        let mut j: usize = 0;
        while j < dst_paths.len()
            invariant
                i < src_paths.len(),
                s == src_paths@[i as int],
                j <= dst_paths.len(),
                dst_paths.len() > 0,
                domain.wf(),
                merged_into(d0.shared(), domain.shared(), m, w),
                m_start == (if i == 0 {
                    Set::<u64>::empty()
                } else {
                    src_paths@.take(i as int).to_set() + dst_paths@.to_set()
                }),
                m == (if j == 0 {
                    m_start
                } else {
                    m_start + set![s] + dst_paths@.take(j as int).to_set()
                }),
                i == 0 && j == 0 ==> *domain == d0,
                same_but_sharing(*domain, d0),
            decreases dst_paths.len() - j,
        {
            let ghost c = domain.shared();
            let t = dst_paths[j];
            domain.share_resource(s, t);
            proof {
                let m2 = set![s, t];
                let w2 = union_winner(c, s, t);
                assert(m2.contains(s) && m2.contains(t));
                if j > 0 {
                    assert(m.contains(s));
                } else if i > 0 {
                    assert(dst_paths@.contains(t)) by {
                        assert(dst_paths@[0] == t);
                    }
                    assert(m.contains(t));
                } else {
                    assert(m == Set::<u64>::empty());
                }
                lemma_merged_chain(d0.shared(), c, domain.shared(), m, w, m2, w2);
                lemma_take_to_set_step(dst_paths@, j as int);
                assert(m + m2 =~= m_start + set![s] + dst_paths@.take(j + 1).to_set());
                m = m + m2;
                w = w2;
            }
            j = j + 1;
        }
        proof {
            lemma_take_to_set_step(dst_paths@, 0);
            lemma_take_to_set_step(src_paths@, i as int);
            assert(m =~= src_paths@.take(i + 1).to_set() + dst_paths@.to_set());
        }
        i = i + 1;
    }
    let ghost d1 = *domain;
    proof {
        if src_paths.len() > 0 {
            lemma_take_to_set_step(src_paths@, 0);
            assert(dst_paths@.contains(dst_paths@[0]));
            assert(m.contains(dst_paths@[0]));
            assert(d0.shared().same_group(dst_paths@[0], dst_paths@[0]));
            assert(touches(d0.shared(), m, dst_paths@[0]));
        }
    }
    let mut k: usize = 0;
    while k < dst_paths.len()
        invariant
            k <= dst_paths.len(),
            dst_paths.len() > 0,
            domain.wf(),
            domain.states() == with_state_set(d0.states(), dst_paths@.take(k as int), OwnershipState::Owned),
            k > 0 ==> !domain.top_flag() && !domain.bottom_flag(),
            domain.shared() == d1.shared(),
            same_marks(*domain, d0),
        decreases dst_paths.len() - k,
    {
        let t = dst_paths[k];
        let ghost before = domain.states();
        domain.set_state(t, OwnershipState::Owned);
        proof {
            let next = with_state_set(d0.states(), dst_paths@.take(k + 1), OwnershipState::Owned);
            assert forall|q: u64| #[trigger] dst_paths@.take(k + 1).contains(q) == (dst_paths@.take(k as int).contains(q)
                || q == t) by {
                if dst_paths@.take(k + 1).contains(q) {
                    let x = choose|x: int| 0 <= x < k + 1 && #[trigger] dst_paths@.take(k + 1)[x] == q;
                    if x < k {
                        assert(dst_paths@.take(k as int)[x] == q);
                    }
                }
                if dst_paths@.take(k as int).contains(q) {
                    let x = choose|x: int| 0 <= x < k && #[trigger] dst_paths@.take(k as int)[x] == q;
                    assert(dst_paths@.take(k + 1)[x] == q);
                }
                if q == t {
                    assert(dst_paths@.take(k + 1)[k as int] == q);
                }
            }
            assert(domain.states() =~= next);
        }
        k = k + 1;
    }
    proof {
        assert(dst_paths@.take(dst_paths.len() as int) == dst_paths@);
    }
}

/// `Vec::set_len`: whether the vector was uninitialized, so that the call
/// exposes uninitialized memory; otherwise the vector becomes uninitialized.
pub fn handle_vec_set_len(domain: &mut OwnershipDomain, vec_path: u64) -> (exposes_uninit: bool)
    requires
        old(domain).wf(),
    ensures
        exposes_uninit == old(domain).states_of(vec_path).contains(OwnershipState::Uinit),
        exposes_uninit ==> *final(domain) == *old(domain),
        !exposes_uninit ==> state_set_alone(*old(domain), *final(domain), vec_path, OwnershipState::Uinit),
{
    let states = domain.get_states(vec_path);
    if states.contains(OwnershipState::Uinit) {
        return true;
    }
    domain.set_state(vec_path, OwnershipState::Uinit);
    false
}

/// `as_ptr` and `as_mut_ptr`: the pointer owns heap memory.
pub fn handle_as_ptr(domain: &mut OwnershipDomain, destination: u64)
    requires
        old(domain).wf(),
    ensures
        final(domain).wf(),
        final(domain).heap_owners() == old(domain).heap_owners().insert(destination),
        final(domain).states() == old(domain).states(),
        final(domain).top_flag() == old(domain).top_flag(),
        final(domain).bottom_flag() == old(domain).bottom_flag(),
        final(domain).shared() == old(domain).shared(),
        final(domain).dropped() == old(domain).dropped(),
        final(domain).originals() == old(domain).originals(),
{
    domain.add_heap_owner(destination);
}

/// `mem::uninitialized`: the destination is uninitialized.
pub fn handle_mem_uninitialized(domain: &mut OwnershipDomain, destination: u64)
    requires
        old(domain).wf(),
    ensures
        state_set_alone(*old(domain), *final(domain), destination, OwnershipState::Uinit),
{
    domain.set_state(destination, OwnershipState::Uinit);
}

/// `MaybeUninit::uninit`: the destination is uninitialized.
pub fn handle_maybe_uninit_uninit(domain: &mut OwnershipDomain, destination: u64)
    requires
        old(domain).wf(),
    ensures
        state_set_alone(*old(domain), *final(domain), destination, OwnershipState::Uinit),
{
    domain.set_state(destination, OwnershipState::Uinit);
}

/// `Vec::with_capacity`: the new vector's contents are uninitialized.
pub fn handle_vec_with_capacity(domain: &mut OwnershipDomain, destination: u64)
    requires
        old(domain).wf(),
    ensures
        state_set_alone(*old(domain), *final(domain), destination, OwnershipState::Uinit),
{
    domain.set_state(destination, OwnershipState::Uinit);
}

/// `Vec::reserve`: the vector's contents may be uninitialized.
pub fn handle_vec_reserve(domain: &mut OwnershipDomain, vec_path: u64)
    requires
        old(domain).wf(),
    ensures
        state_set_alone(*old(domain), *final(domain), vec_path, OwnershipState::Uinit),
{
    domain.set_state(vec_path, OwnershipState::Uinit);
}

/// `slice::from_raw_parts`: the new slice may hold uninitialized memory.
pub fn handle_slice_from_raw_parts(domain: &mut OwnershipDomain, destination: u64)
    requires
        old(domain).wf(),
    ensures
        state_set_alone(*old(domain), *final(domain), destination, OwnershipState::Uinit),
{
    domain.set_state(destination, OwnershipState::Uinit);
}


/// When no path of `ps` allows the call, each of them is reported.
proof fn lemma_all_rejected(d: OwnershipDomain, kind: ReleaseKind, ps: Seq<u64>)
    requires
        forall|i: int| 0 <= i < ps.len() ==> !release_allowed(kind, #[trigger] d.states_of(ps[i])),
    ensures
        release_violations(d, kind, ps).len() == ps.len(),
    decreases ps.len(),
{
    if ps.len() > 0 {
        let q = ps.drop_last();
        assert forall|i: int| 0 <= i < q.len() implies !release_allowed(kind, #[trigger] d.states_of(q[i])) by {
            assert(q[i] == ps[i]);
        }
        lemma_all_rejected(d, kind, q);
        assert(!release_allowed(kind, d.states_of(ps[ps.len() - 1])));
    }
}

/// Paths that `mem::forget` or `Box::leak` gave up cannot be given up again:
/// a second `mem::forget`, `Box::leak` or `ManuallyDrop::new` of them reports
/// every one of them.
pub proof fn law_forgotten_paths_stay_rejected(
    before: OwnershipDomain,
    after: OwnershipDomain,
    ps: Seq<u64>,
    kind: ReleaseKind,
)
    requires
        after.states() == with_state_added(before.states(), ps, OwnershipState::Forgotten),
    ensures
        release_violations(after, kind, ps).len() == ps.len(),
{
    assert forall|i: int| 0 <= i < ps.len() implies !release_allowed(kind, #[trigger] after.states_of(ps[i])) by {
        assert(ps.contains(ps[i]));
        assert(after.states_of(ps[i]).contains(OwnershipState::Forgotten));
    }
    lemma_all_rejected(after, kind, ps);
}

/// Paths that `ManuallyDrop::new` moved into a destination that is not one of
/// them cannot be given up again: a later `mem::forget`, `Box::leak` or
/// `ManuallyDrop::new` of them reports every one of them.
pub proof fn law_moved_paths_stay_rejected(
    before: OwnershipDomain,
    after: OwnershipDomain,
    ps: Seq<u64>,
    destination: u64,
    kind: ReleaseKind,
)
    requires
        after.states() == with_state_added(before.states(), ps, OwnershipState::Moved).insert(
            destination,
            set![OwnershipState::ManuallyManaged],
        ),
        !ps.contains(destination),
    ensures
        release_violations(after, kind, ps).len() == ps.len(),
{
    assert forall|i: int| 0 <= i < ps.len() implies !release_allowed(kind, #[trigger] after.states_of(ps[i])) by {
        assert(ps.contains(ps[i]));
        assert(ps[i] != destination);
        assert(after.states_of(ps[i]).contains(OwnershipState::Moved));
    }
    lemma_all_rejected(after, kind, ps);
}

/// After a `Vec::set_len` that marked the vector uninitialized, a second one
/// exposes uninitialized memory.
pub proof fn law_second_set_len_exposes(before: OwnershipDomain, after: OwnershipDomain, vec_path: u64)
    requires
        state_set_alone(before, after, vec_path, OwnershipState::Uinit),
    ensures
        after.states_of(vec_path).contains(OwnershipState::Uinit),
{
}

/// After `Box::from_raw`, `Vec::from_raw_parts` or a `ptr::read` that needs
/// dropping, the destination shares the resource of every source.
pub proof fn law_adopted_resources_shared(
    before: PathUnionFind,
    after: PathUnionFind,
    srcs: Seq<u64>,
    destination: u64,
    w: u64,
)
    requires
        merged_into(before, after, srcs.to_set().insert(destination), w),
    ensures
        forall|i: int| 0 <= i < srcs.len() ==> after.same_group(#[trigger] srcs[i], destination),
{
    assert forall|i: int| 0 <= i < srcs.len() implies after.same_group(#[trigger] srcs[i], destination) by {
        assert(srcs.contains(srcs[i]));
        lemma_members_connected(before, after, srcs.to_set().insert(destination), w, srcs[i], destination);
    }
}

/// After a `ptr::copy` that needs dropping, every destination shares the
/// resource of every source.
pub proof fn law_copied_resources_shared(
    before: PathUnionFind,
    after: PathUnionFind,
    srcs: Seq<u64>,
    dsts: Seq<u64>,
    w: u64,
)
    requires
        merged_into(before, after, srcs.to_set() + dsts.to_set(), w),
    ensures
        forall|i: int, j: int|
            0 <= i < srcs.len() && 0 <= j < dsts.len() ==> after.same_group(#[trigger] srcs[i], #[trigger] dsts[j]),
{
    assert forall|i: int, j: int| 0 <= i < srcs.len() && 0 <= j < dsts.len() implies after.same_group(
        #[trigger] srcs[i],
        #[trigger] dsts[j],
    ) by {
        assert(srcs.contains(srcs[i]));
        assert(dsts.contains(dsts[j]));
        lemma_members_connected(before, after, srcs.to_set() + dsts.to_set(), w, srcs[i], dsts[j]);
    }
}


/// What checking an assertion found.
#[derive(Clone, Copy, Debug, PartialEq, Eq, Structural)]
pub enum CheckerResult {
    /// The assertion holds.
    Safe,
    /// The assertion fails.
    Unsafe,
    /// The assertion may fail.
    Warning,
}

/// The warning for a checked bound in a function that is `unsafe` or safe,
/// public or private; none when the bound is safe.
pub open spec fn bound_warning(result: CheckerResult, caller_is_unsafe: bool, caller_is_public: bool) -> Option<Seq<char>> {
    let safety = if caller_is_unsafe {
        "\"unsafe\""@
    } else {
        "\"safe\""@
    };
    let vis = if caller_is_public {
        "\"public\""@
    } else {
        "\"private\""@
    };
    match result {
        CheckerResult::Safe => None,
        CheckerResult::Unsafe => Some(
            "[Checker] Provably unsafe error: index out of bound in "@ + safety + " function "@ + vis,
        ),
        CheckerResult::Warning => Some(
            "[Checker] Possible unsafe error: index out of bound in "@ + safety + " function "@ + vis,
        ),
    }
}

/// The warning to emit for a checked bound, given whether the calling
/// function is `unsafe` and whether it is public.
pub fn emit_unsafe_error(result: CheckerResult, caller_is_unsafe: bool, caller_is_public: bool) -> (r: Option<String>)
    ensures
        match r {
            Some(m) => bound_warning(result, caller_is_unsafe, caller_is_public) == Some(m@),
            None => bound_warning(result, caller_is_unsafe, caller_is_public) is None,
        },
{
    let mut m = match result {
        CheckerResult::Safe => {
            return None;
        },
        CheckerResult::Unsafe => String::from_str("[Checker] Provably unsafe error: index out of bound in "),
        CheckerResult::Warning => String::from_str("[Checker] Possible unsafe error: index out of bound in "),
    };
    if caller_is_unsafe {
        m.append("\"unsafe\"");
    } else {
        m.append("\"safe\"");
    }
    m.append(" function ");
    if caller_is_public {
        m.append("\"public\"");
    } else {
        m.append("\"private\"");
    }
    Some(m)
}


/// What the compiler says of the type of a path whose ownership may need
/// tracking.
#[derive(Clone, Copy, Debug, PartialEq, Eq, Structural)]
pub enum DropFacts {
    /// The type has generic parameters or inference variables, or is an array
    /// or a slice; `is_copy` when it is `Copy`.
    Generic { is_copy: bool },
    /// A concrete type: whether it needs dropping, or none when the compiler's
    /// query failed.
    Concrete { needs_drop: Option<bool> },
}

/// Values of the type need dropping: a generic type unless it is `Copy`, a
/// concrete type as the compiler says, and conservatively when it cannot say.
pub open spec fn drop_needed(facts: DropFacts) -> bool {
    match facts {
        DropFacts::Generic { is_copy } => !is_copy,
        DropFacts::Concrete { needs_drop } => match needs_drop {
            Some(b) => b,
            None => true,
        },
    }
}

/// Whether values of a path's type need dropping, and so ownership tracking.
pub fn needs_drop_for_path(facts: DropFacts) -> (r: bool)
    ensures
        r == drop_needed(facts),
{
    match facts {
        DropFacts::Generic { is_copy } => !is_copy,
        DropFacts::Concrete { needs_drop } => match needs_drop {
            Some(b) => b,
            None => true,
        },
    }
}


/// A path at a position where dropping is needed is among the paths to give
/// up, and every path to give up is one at such a position.
proof fn lemma_needing_drop_members(paths: Seq<u64>, needs_drop: Seq<bool>)
    requires
        paths.len() <= needs_drop.len(),
    ensures
        forall|i: int| 0 <= i < paths.len() && needs_drop[i] ==> paths_needing_drop(paths, needs_drop).contains(#[trigger] paths[i]),
        forall|x: u64|
            paths_needing_drop(paths, needs_drop).contains(x) ==> exists|i: int|
                0 <= i < paths.len() && needs_drop[i] && #[trigger] paths[i] == x,
    decreases paths.len(),
{
    if paths.len() > 0 {
        let q = paths.drop_last();
        lemma_needing_drop_members(q, needs_drop);
        let prev = paths_needing_drop(q, needs_drop);
        let k = paths.len() - 1;
        assert forall|i: int| 0 <= i < paths.len() && needs_drop[i] implies paths_needing_drop(paths, needs_drop).contains(
            #[trigger] paths[i],
        ) by {
            if i < k {
                assert(q[i] == paths[i]);
                assert(prev.contains(paths[i]));
                if needs_drop[k] {
                    let x = choose|x: int| 0 <= x < prev.len() && prev[x] == paths[i];
                    assert(prev.push(paths.last())[x] == paths[i]);
                }
            } else {
                assert(prev.push(paths.last())[prev.len() as int] == paths[i]);
            }
        }
        assert forall|x: u64| paths_needing_drop(paths, needs_drop).contains(x) implies exists|i: int|
            0 <= i < paths.len() && needs_drop[i] && #[trigger] paths[i] == x by {
            let t = paths_needing_drop(paths, needs_drop);
            let y = choose|y: int| 0 <= y < t.len() && t[y] == x;
            if y < prev.len() {
                assert(t[y] == prev[y]);
                assert(prev.contains(x));
                let i = choose|i: int| 0 <= i < q.len() && needs_drop[i] && #[trigger] q[i] == x;
                assert(paths[i] == q[i]);
            } else {
                assert(paths[k] == x);
            }
        }
    }
}

/// A path to give up whose states forbid the call is reported, with its
/// states; when none forbids it, nothing is reported.
proof fn lemma_violations_report(d: OwnershipDomain, kind: ReleaseKind, ps: Seq<u64>)
    ensures
        forall|x: u64|
            ps.contains(x) && !release_allowed(kind, d.states_of(x)) ==> #[trigger] release_violations(d, kind, ps).contains(
                (x, d.states_of(x)),
            ),
        (forall|x: u64| ps.contains(x) ==> release_allowed(kind, #[trigger] d.states_of(x))) ==> release_violations(
            d,
            kind,
            ps,
        ).len() == 0,
    decreases ps.len(),
{
    if ps.len() > 0 {
        let q = ps.drop_last();
        lemma_violations_report(d, kind, q);
        let prev = release_violations(d, kind, q);
        assert forall|x: u64| ps.contains(x) && !release_allowed(kind, d.states_of(x)) implies #[trigger] release_violations(
            d,
            kind,
            ps,
        ).contains((x, d.states_of(x))) by {
            let i = choose|i: int| 0 <= i < ps.len() && ps[i] == x;
            if i < ps.len() - 1 {
                assert(q[i] == x);
                assert(q.contains(x));
                assert(prev.contains((x, d.states_of(x))));
                let y = choose|y: int| 0 <= y < prev.len() && prev[y] == (x, d.states_of(x));
                assert(prev.push((ps.last(), d.states_of(ps.last())))[y] == (x, d.states_of(x)));
            } else {
                assert(prev.push((ps.last(), d.states_of(ps.last())))[prev.len() as int] == (x, d.states_of(x)));
            }
        }
        if forall|x: u64| ps.contains(x) ==> release_allowed(kind, #[trigger] d.states_of(x)) {
            assert forall|x: u64| q.contains(x) implies release_allowed(kind, #[trigger] d.states_of(x)) by {
                let i = choose|i: int| 0 <= i < q.len() && q[i] == x;
                assert(ps[i] == x);
            }
            assert(ps.contains(ps.last())) by {
                assert(ps[ps.len() - 1] == ps.last());
            }
        }
    }
}

/// A call that gives paths up is refused when one of the paths that need
/// dropping is moved, dropped or forgotten, or, for `ManuallyDrop::new`,
/// uninitialized: that path is reported with its states, so the call is
/// `Rejected` and the domain stays as it was.
pub proof fn law_release_refuses_gone_paths(
    d: OwnershipDomain,
    kind: ReleaseKind,
    paths: Seq<u64>,
    needs_drop: Seq<bool>,
    i: int,
)
    requires
        paths.len() == needs_drop.len(),
        0 <= i < paths.len(),
        needs_drop[i],
        d.states_of(paths[i]).contains(OwnershipState::Moved) || d.states_of(paths[i]).contains(
            OwnershipState::Dropped,
        ) || d.states_of(paths[i]).contains(OwnershipState::Forgotten) || (kind == ReleaseKind::ManuallyDropNew
            && d.states_of(paths[i]).contains(OwnershipState::Uinit)),
    ensures
        paths_needing_drop(paths, needs_drop).len() > 0,
        release_violations(d, kind, paths_needing_drop(paths, needs_drop)).contains((paths[i], d.states_of(paths[i]))),
        release_violations(d, kind, paths_needing_drop(paths, needs_drop)).len() > 0,
{
    lemma_needing_drop_members(paths, needs_drop);
    let ps = paths_needing_drop(paths, needs_drop);
    assert(ps.contains(paths[i]));
    assert(!release_allowed(kind, d.states_of(paths[i])));
    lemma_violations_report(d, kind, ps);
    assert(release_violations(d, kind, ps).contains((paths[i], d.states_of(paths[i]))));
}

/// A call that gives paths up goes through when none of the paths that need
/// dropping is moved, dropped or forgotten (nor, for `ManuallyDrop::new`,
/// uninitialized): nothing is reported.
pub proof fn law_release_accepts_live_paths(d: OwnershipDomain, kind: ReleaseKind, paths: Seq<u64>, needs_drop: Seq<bool>)
    requires
        paths.len() == needs_drop.len(),
        forall|i: int|
            0 <= i < paths.len() && needs_drop[i] ==> !((#[trigger] d.states_of(paths[i])).contains(OwnershipState::Moved)
                || d.states_of(paths[i]).contains(OwnershipState::Dropped) || d.states_of(paths[i]).contains(
                OwnershipState::Forgotten,
            ) || (kind == ReleaseKind::ManuallyDropNew && d.states_of(paths[i]).contains(OwnershipState::Uinit))),
    ensures
        release_violations(d, kind, paths_needing_drop(paths, needs_drop)).len() == 0,
{
    lemma_needing_drop_members(paths, needs_drop);
    let ps = paths_needing_drop(paths, needs_drop);
    assert forall|x: u64| ps.contains(x) implies release_allowed(kind, #[trigger] d.states_of(x)) by {
        let i = choose|i: int| 0 <= i < paths.len() && needs_drop[i] && #[trigger] paths[i] == x;
        assert(!(d.states_of(paths[i]).contains(OwnershipState::Moved) || d.states_of(paths[i]).contains(
            OwnershipState::Dropped,
        ) || d.states_of(paths[i]).contains(OwnershipState::Forgotten) || (kind == ReleaseKind::ManuallyDropNew
            && d.states_of(paths[i]).contains(OwnershipState::Uinit))));
    }
    lemma_violations_report(d, kind, ps);
}


/// The calls that change who owns a resource are each handled by their own
/// model: `mem::forget`, `Box::leak`, `ManuallyDrop::new`, `Box::from_raw`,
/// `Vec::from_raw_parts`, the pointer reads, `ptr::copy`, `Vec::set_len`,
/// `Vec::with_capacity`, `Vec::reserve`, `MaybeUninit::uninit`,
/// `mem::uninitialized` and `slice::from_raw_parts`; a name that is not known
/// is an ordinary call.
pub proof fn law_ownership_calls_dispatched()
    ensures
        special_call_for(KnownNames::StdMemForget) == SpecialCall::Forget,
        special_call_for(KnownNames::StdBoxLeak) == SpecialCall::BoxLeak,
        special_call_for(KnownNames::StdMemManuallyDropNew) == SpecialCall::ManuallyDropNew,
        special_call_for(KnownNames::StdBoxFromRaw) == SpecialCall::BoxFromRaw,
        special_call_for(KnownNames::VecFromRawParts) == SpecialCall::FromRawParts,
        special_call_for(KnownNames::StdPtrRead) == SpecialCall::Read,
        special_call_for(KnownNames::StdPtrReadUnAligned) == SpecialCall::Read,
        special_call_for(KnownNames::StdPtrReadVolatile) == SpecialCall::Read,
        special_call_for(KnownNames::StdIntrinsicsCopy) == SpecialCall::Copy,
        special_call_for(KnownNames::StdIntrinsicsCopyNonOverlapping) == SpecialCall::Copy,
        special_call_for(KnownNames::VecSetLen) == SpecialCall::VecSetLen,
        special_call_for(KnownNames::VecWithCapacity) == SpecialCall::VecWithCapacity,
        special_call_for(KnownNames::VecReserve) == SpecialCall::VecReserve,
        special_call_for(KnownNames::StdMemMaybeUninitUninit) == SpecialCall::MaybeUninitUninit,
        special_call_for(KnownNames::StdMemUninitialized) == SpecialCall::MemUninitialized,
        special_call_for(KnownNames::StdSliceFromRawParts) == SpecialCall::SliceFromRawParts,
        special_call_for(KnownNames::NotKnown) == SpecialCall::Normal,
{
}

} // verus!
