use std::collections::HashMap;
use checker::analysis::memory::known_names::KnownNames;
use checker::analysis::mir_visitor::call_visitor::emit_unsafe_error;
use checker::analysis::mir_visitor::call_visitor::handle_as_ptr;
use checker::analysis::mir_visitor::call_visitor::handle_box_from_raw;
use checker::analysis::mir_visitor::call_visitor::handle_box_leak;
use checker::analysis::mir_visitor::call_visitor::handle_copy;
use checker::analysis::mir_visitor::call_visitor::handle_forget;
use checker::analysis::mir_visitor::call_visitor::handle_from_raw_parts;
use checker::analysis::mir_visitor::call_visitor::handle_manually_drop_new;
use checker::analysis::mir_visitor::call_visitor::handle_maybe_uninit_uninit;
use checker::analysis::mir_visitor::call_visitor::handle_mem_uninitialized;
use checker::analysis::mir_visitor::call_visitor::handle_read;
use checker::analysis::mir_visitor::call_visitor::handle_slice_from_raw_parts;
use checker::analysis::mir_visitor::call_visitor::handle_vec_reserve;
use checker::analysis::mir_visitor::call_visitor::handle_vec_set_len;
use checker::analysis::mir_visitor::call_visitor::handle_vec_with_capacity;
use checker::analysis::mir_visitor::call_visitor::handled_as_special_function_call;
use checker::analysis::mir_visitor::call_visitor::release_warning_text;
use checker::analysis::mir_visitor::call_visitor::try_to_inline_special_function;
use checker::analysis::mir_visitor::call_visitor::needs_drop_for_path;
use checker::analysis::mir_visitor::call_visitor::CheckerResult;
use checker::analysis::mir_visitor::call_visitor::DropFacts;
use checker::analysis::mir_visitor::call_visitor::InlinedCall;
use checker::analysis::mir_visitor::call_visitor::ReleaseKind;
use checker::analysis::mir_visitor::call_visitor::ReleaseOutcome;
use checker::analysis::mir_visitor::call_visitor::SpecialCall;
use checker::analysis::ownership::ownership_domain::OwnershipDomain;
use checker::analysis::ownership::ownership_state::OwnershipState;
use checker::analysis::ownership::ownership_state::StateSet;

#[test]
fn forget_marks_paths_that_need_dropping() {
    let mut d = OwnershipDomain::new();
    let r = handle_forget(&mut d, &vec![1, 2], &vec![true, false]);
    assert!(matches!(r, ReleaseOutcome::Applied));
    assert!(d.has_state(1, OwnershipState::Forgotten));
    assert!(!d.has_state(2, OwnershipState::Forgotten));
}

#[test]
fn forget_of_nothing_that_needs_dropping_tracks_nothing() {
    let mut d = OwnershipDomain::new();
    let r = handle_forget(&mut d, &vec![1], &vec![false]);
    assert!(matches!(r, ReleaseOutcome::NothingToTrack));
    assert!(d.is_bottom());
}

#[test]
fn forgetting_twice_is_rejected_and_changes_nothing() {
    let mut d = OwnershipDomain::new();
    d.set_state(2, OwnershipState::Owned);
    handle_forget(&mut d, &vec![1], &vec![true]);
    let r = handle_forget(&mut d, &vec![2, 1], &vec![true, true]);
    match r {
        ReleaseOutcome::Rejected(invalid) => {
            assert_eq!(invalid.len(), 1);
            assert_eq!(invalid[0].0, 1);
            assert!(invalid[0].1.contains(OwnershipState::Forgotten));
            assert_eq!(
                release_warning_text(ReleaseKind::Forget, &invalid, &HashMap::new()),
                "[Checker] Possible unsafe error: cannot forget values - invalid ownership states for 1 path(s): [1 (states: {Forgotten})]"
            );
        }
        _ => panic!("expected a rejection"),
    }
    assert!(!d.has_state(2, OwnershipState::Forgotten));
}

#[test]
fn box_leak_of_moved_box_is_rejected() {
    let mut d = OwnershipDomain::new();
    d.set_state(4, OwnershipState::Moved);
    let r = handle_box_leak(&mut d, &vec![4], &vec![true]);
    match r {
        ReleaseOutcome::Rejected(invalid) => {
            assert_eq!(
                release_warning_text(ReleaseKind::BoxLeak, &invalid, &HashMap::new()),
                "[Checker] Possible unsafe error: cannot leak Box - invalid ownership states for 1 path(s): [4 (states: {Moved})]"
            );
        }
        _ => panic!("expected a rejection"),
    }
    assert!(!d.has_state(4, OwnershipState::Forgotten));
}

#[test]
fn box_leak_marks_forgotten() {
    let mut d = OwnershipDomain::new();
    let r = handle_box_leak(&mut d, &vec![6], &vec![true]);
    assert!(matches!(r, ReleaseOutcome::Applied));
    assert!(d.has_state(6, OwnershipState::Forgotten));
}

#[test]
fn manually_drop_new_moves_argument_into_destination() {
    let mut d = OwnershipDomain::new();
    let r = handle_manually_drop_new(&mut d, &vec![1], &vec![true], 2);
    assert!(matches!(r, ReleaseOutcome::Applied));
    assert!(d.has_state(1, OwnershipState::Moved));
    assert!(d.has_state(2, OwnershipState::ManuallyManaged));
    let again = handle_forget(&mut d, &vec![1], &vec![true]);
    assert!(matches!(again, ReleaseOutcome::Rejected(_)));
}

#[test]
fn manually_drop_new_of_uninitialized_value_is_rejected() {
    let mut d = OwnershipDomain::new();
    d.set_state(1, OwnershipState::Uinit);
    let r = handle_manually_drop_new(&mut d, &vec![1], &vec![true], 2);
    match r {
        ReleaseOutcome::Rejected(invalid) => {
            assert_eq!(
                release_warning_text(ReleaseKind::ManuallyDropNew, &invalid, &HashMap::new()),
                "[Checker] Possible unsafe error: cannot create ManuallyDrop - invalid ownership states for 1 path(s): [1 (states: {Uinit})]"
            );
        }
        _ => panic!("expected a rejection"),
    }
    assert!(d.has_state(2, OwnershipState::Owned));
    assert!(!d.has_state(2, OwnershipState::ManuallyManaged));
}

#[test]
fn warning_text_lists_every_invalid_path() {
    let mut a = StateSet::new();
    a.insert(OwnershipState::Moved);
    a.insert(OwnershipState::Dropped);
    let b = StateSet::singleton(OwnershipState::Forgotten);
    assert_eq!(
        release_warning_text(ReleaseKind::Forget, &vec![(12, a), (3, b)], &HashMap::new()),
        "[Checker] Possible unsafe error: cannot forget values - invalid ownership states for 2 path(s): [12 (states: {Moved, Dropped}), 3 (states: {Forgotten})]"
    );
}

#[test]
fn box_from_raw_shares_and_owns() {
    let mut d = OwnershipDomain::new();
    d.set_state(1, OwnershipState::Owned);
    handle_box_from_raw(&mut d, &vec![1], 2);
    assert!(d.shared_resources().is_connected(1, 2));
    assert!(d.has_state(2, OwnershipState::Owned));
    let errors = d.check_double_free(&HashMap::new());
    assert_eq!(errors.len(), 1);
}

#[test]
fn from_raw_parts_shares_with_every_source() {
    let mut d = OwnershipDomain::new();
    handle_from_raw_parts(&mut d, &vec![1, 3], 2);
    assert!(d.shared_resources().is_connected(1, 2));
    assert!(d.shared_resources().is_connected(3, 2));
    assert!(d.has_state(2, OwnershipState::Owned));
}

#[test]
fn from_raw_parts_without_sources_only_owns() {
    let mut d = OwnershipDomain::new();
    handle_from_raw_parts(&mut d, &vec![], 2);
    assert!(d.shared_resources().is_empty());
    assert!(d.has_state(2, OwnershipState::Owned));
}

#[test]
fn read_from_forgotten_path_is_reported() {
    let mut d = OwnershipDomain::new();
    d.set_state(1, OwnershipState::Forgotten);
    let forgotten = handle_read(&mut d, &vec![1, 5], &vec![1, 5], &vec![false, false], 9, false);
    assert_eq!(forgotten, vec![1]);
    assert!(!d.shared_resources().contains(9));
}

#[test]
fn read_of_field_while_something_is_forgotten_is_reported() {
    let mut d = OwnershipDomain::new();
    d.set_state(20, OwnershipState::Forgotten);
    let forgotten = handle_read(&mut d, &vec![5, 6], &vec![5, 6], &vec![true, false], 9, false);
    assert_eq!(forgotten, vec![5]);
}

#[test]
fn read_of_field_of_forgotten_root_is_reported() {
    let mut d = OwnershipDomain::new();
    d.set_state(7, OwnershipState::Forgotten);
    let forgotten = handle_read(&mut d, &vec![8], &vec![7], &vec![false], 9, true);
    assert_eq!(forgotten, vec![8]);
    assert!(d.shared_resources().is_connected(8, 9));
    assert!(d.has_state(9, OwnershipState::Owned));
}

#[test]
fn copy_shares_every_source_with_every_destination() {
    let mut d = OwnershipDomain::new();
    d.set_state(3, OwnershipState::Moved);
    handle_copy(&mut d, &vec![1, 2], &vec![3, 4], true);
    assert!(d.shared_resources().is_connected(1, 3));
    assert!(d.shared_resources().is_connected(2, 4));
    assert!(d.has_state(3, OwnershipState::Owned));
    assert!(!d.has_state(3, OwnershipState::Moved));
    assert!(d.has_state(4, OwnershipState::Owned));
}

#[test]
fn copy_of_values_without_drop_changes_nothing() {
    let mut d = OwnershipDomain::new();
    handle_copy(&mut d, &vec![1], &vec![2], false);
    assert!(d.is_bottom());
    assert!(d.shared_resources().is_empty());
}

#[test]
fn set_len_exposes_uninitialized_memory_the_second_time() {
    let mut d = OwnershipDomain::new();
    assert!(!handle_vec_set_len(&mut d, 1));
    assert!(d.has_state(1, OwnershipState::Uinit));
    assert!(handle_vec_set_len(&mut d, 1));
}

#[test]
fn set_len_after_with_capacity_exposes_uninitialized_memory() {
    let mut d = OwnershipDomain::new();
    handle_vec_with_capacity(&mut d, 1);
    assert!(handle_vec_set_len(&mut d, 1));
    handle_vec_reserve(&mut d, 2);
    assert!(handle_vec_set_len(&mut d, 2));
}

#[test]
fn uninitialized_values_cannot_be_used() {
    let mut d = OwnershipDomain::new();
    handle_mem_uninitialized(&mut d, 1);
    handle_maybe_uninit_uninit(&mut d, 2);
    handle_slice_from_raw_parts(&mut d, 3);
    assert!(!d.can_use(1));
    assert!(!d.can_use(2));
    assert!(!d.can_use(3));
}

#[test]
fn as_ptr_records_heap_owner() {
    let mut d = OwnershipDomain::new();
    d.set_state(1, OwnershipState::Owned);
    d.set_state(2, OwnershipState::Owned);
    d.set_state(3, OwnershipState::Forgotten);
    handle_as_ptr(&mut d, 2);
    assert_eq!(
        d.group_message(&vec![1, 2, 3], &HashMap::new()),
        Some(
            "[Checker] Possible memory leak: heap resource aliased with forgotten stack resource: [1 ({Owned}), 2 ({Owned}) [HEAP], 3 ({Forgotten})]"
                .to_string()
        )
    );
}

#[test]
fn bound_warnings_name_the_caller() {
    assert_eq!(emit_unsafe_error(CheckerResult::Safe, true, true), None);
    assert_eq!(
        emit_unsafe_error(CheckerResult::Unsafe, false, true),
        Some("[Checker] Provably unsafe error: index out of bound in \"safe\" function \"public\"".to_string())
    );
    assert_eq!(
        emit_unsafe_error(CheckerResult::Warning, true, false),
        Some("[Checker] Possible unsafe error: index out of bound in \"unsafe\" function \"private\"".to_string())
    );
}

#[test]
fn special_calls_are_dispatched_by_known_name() {
    assert_eq!(handled_as_special_function_call(KnownNames::StdMemForget), SpecialCall::Forget);
    assert_eq!(handled_as_special_function_call(KnownNames::VecSetLen), SpecialCall::VecSetLen);
    assert_eq!(handled_as_special_function_call(KnownNames::StdMemManuallyDropNew), SpecialCall::ManuallyDropNew);
    assert_eq!(handled_as_special_function_call(KnownNames::NotKnown), SpecialCall::Normal);
}

#[test]
fn inlined_calls_by_known_name() {
    assert_eq!(try_to_inline_special_function(KnownNames::RustAlloc), InlinedCall::RustAlloc);
    assert_eq!(try_to_inline_special_function(KnownNames::StdMemSizeOf), InlinedCall::SizeOf);
    assert_eq!(try_to_inline_special_function(KnownNames::StdMemForget), InlinedCall::NoResult);
}

#[test]
fn drop_needs_follow_type_facts() {
    assert!(!needs_drop_for_path(DropFacts::Generic { is_copy: true }));
    assert!(needs_drop_for_path(DropFacts::Generic { is_copy: false }));
    assert!(needs_drop_for_path(DropFacts::Concrete { needs_drop: Some(true) }));
    assert!(!needs_drop_for_path(DropFacts::Concrete { needs_drop: Some(false) }));
    assert!(needs_drop_for_path(DropFacts::Concrete { needs_drop: None }));
}

#[test]
fn warning_text_prints_paths_by_their_given_text() {
    let mut names = HashMap::new();
    names.insert(7u64, "(*local_3)".to_string());
    let invalid = vec![(7u64, StateSet::singleton(OwnershipState::Moved))];
    assert_eq!(
        release_warning_text(ReleaseKind::BoxLeak, &invalid, &names),
        "[Checker] Possible unsafe error: cannot leak Box - invalid ownership states for 1 path(s): [(*local_3) (states: {Moved})]"
    );
}
