use std::collections::HashMap;
use checker::analysis::ownership::ownership_domain::OwnershipCheckError;
use checker::analysis::ownership::ownership_domain::OwnershipDomain;
use checker::analysis::ownership::ownership_state::OwnershipState;
use checker::analysis::ownership::ownership_state::StateSet;
use checker::analysis::ownership::report::states_string;

fn states(list: &[OwnershipState]) -> StateSet {
    let mut s = StateSet::new();
    for st in list {
        s.insert(*st);
    }
    s
}

#[test]
fn state_set_insert_remove_contains() {
    let mut s = StateSet::new();
    assert!(s.is_empty());
    assert!(s.insert(OwnershipState::Owned));
    assert!(!s.insert(OwnershipState::Owned));
    assert!(s.contains(OwnershipState::Owned));
    assert!(!s.contains(OwnershipState::Moved));
    assert!(s.remove(OwnershipState::Owned));
    assert!(!s.remove(OwnershipState::Owned));
    assert!(s.is_empty());
}

#[test]
fn state_set_union_holds_both() {
    let a = StateSet::singleton(OwnershipState::Owned);
    let b = StateSet::singleton(OwnershipState::Forgotten);
    let u = a.union(&b);
    assert!(u.contains(OwnershipState::Owned));
    assert!(u.contains(OwnershipState::Forgotten));
    assert!(!u.contains(OwnershipState::Dropped));
}

#[test]
fn states_text_lists_members_in_declaration_order() {
    let s = states(&[OwnershipState::Uinit, OwnershipState::Owned, OwnershipState::Forgotten]);
    assert_eq!(states_string(&s), "{Owned, Forgotten, Uinit}");
    assert_eq!(states_string(&StateSet::new()), "{}");
}

#[test]
fn untracked_path_reads_as_owned() {
    let d = OwnershipDomain::new();
    assert!(d.is_bottom());
    assert!(!d.is_top());
    assert!(d.has_state(7, OwnershipState::Owned));
    assert!(!d.has_state(7, OwnershipState::Moved));
    assert!(d.can_drop(7));
    assert!(d.can_forget(7));
    assert!(d.can_use(7));
}

#[test]
fn set_state_replaces_all_states() {
    let mut d = OwnershipDomain::new();
    d.add_state(1, OwnershipState::Owned);
    d.add_state(1, OwnershipState::Moved);
    d.set_state(1, OwnershipState::Dropped);
    let s = d.get_states(1);
    assert!(s.contains(OwnershipState::Dropped));
    assert!(!s.contains(OwnershipState::Owned));
    assert!(!s.contains(OwnershipState::Moved));
    assert!(!d.is_bottom());
}

#[test]
fn add_state_on_untracked_path_starts_from_nothing() {
    let mut d = OwnershipDomain::new();
    d.add_state(3, OwnershipState::Forgotten);
    assert!(d.has_state(3, OwnershipState::Forgotten));
    assert!(!d.has_state(3, OwnershipState::Owned));
}

#[test]
fn remove_last_state_untracks_path() {
    let mut d = OwnershipDomain::new();
    d.set_state(4, OwnershipState::Moved);
    d.remove_state(4, OwnershipState::Moved);
    assert!(!d.has_state(4, OwnershipState::Moved));
    assert!(d.has_state(4, OwnershipState::Owned));
}

#[test]
fn add_and_remove_several_states() {
    let mut d = OwnershipDomain::new();
    d.add_states(5, states(&[OwnershipState::Owned, OwnershipState::Uinit]));
    assert!(d.has_state(5, OwnershipState::Uinit));
    d.remove_states(5, &[OwnershipState::Uinit]);
    assert!(!d.has_state(5, OwnershipState::Uinit));
    assert!(d.has_state(5, OwnershipState::Owned));
    d.set_states(5, states(&[OwnershipState::Top]));
    assert!(d.has_state(5, OwnershipState::Top));
    assert!(!d.has_state(5, OwnershipState::Owned));
}

#[test]
fn permissions_follow_states() {
    let mut d = OwnershipDomain::new();
    d.set_state(1, OwnershipState::Moved);
    d.set_state(2, OwnershipState::ManuallyManaged);
    d.set_state(3, OwnershipState::Uinit);
    assert!(!d.can_drop(1) && !d.can_forget(1) && !d.can_use(1));
    assert!(!d.can_drop(2) && d.can_forget(2) && d.can_use(2));
    assert!(d.can_drop(3) && d.can_forget(3) && !d.can_use(3));
}

#[test]
fn forgotten_root_makes_field_forgotten() {
    let mut d = OwnershipDomain::new();
    d.set_state(10, OwnershipState::Forgotten);
    assert!(d.is_forgotten_or_root_forgotten(11, 10));
    assert!(d.is_forgotten_or_root_forgotten(10, 10));
    assert!(!d.is_forgotten_or_root_forgotten(12, 12));
    assert!(d.any_forgotten());
}

#[test]
fn rename_moves_states_and_drops() {
    let mut d = OwnershipDomain::new();
    d.set_state(1, OwnershipState::Moved);
    d.mark_dropped(1);
    d.rename(1, 2);
    assert!(d.has_state(2, OwnershipState::Moved));
    assert!(d.has_state(1, OwnershipState::Owned));
    assert!(d.is_dropped(2));
    assert!(!d.is_dropped(1));
}

#[test]
fn duplicate_copies_states_and_shares() {
    let mut d = OwnershipDomain::new();
    d.set_state(1, OwnershipState::Forgotten);
    d.share_resource(1, 9);
    d.duplicate(1, 2);
    assert!(d.has_state(2, OwnershipState::Forgotten));
    assert!(d.has_state(1, OwnershipState::Forgotten));
    assert!(d.shared_resources().is_connected(1, 2));
}

#[test]
fn forget_untracks_everything() {
    let mut d = OwnershipDomain::new();
    d.set_state(1, OwnershipState::Dropped);
    d.mark_dropped(1);
    d.share_resource(1, 2);
    d.forget(1);
    assert!(d.has_state(1, OwnershipState::Owned));
    assert!(!d.is_dropped(1));
    assert!(!d.shared_resources().contains(1));
}

#[test]
fn lub_unites_states() {
    let mut a = OwnershipDomain::new();
    a.set_state(1, OwnershipState::Owned);
    let mut b = OwnershipDomain::new();
    b.set_state(1, OwnershipState::Moved);
    b.set_state(2, OwnershipState::Dropped);
    let r = a.lub(&b);
    assert!(r.has_state(1, OwnershipState::Owned));
    assert!(r.has_state(1, OwnershipState::Moved));
    assert!(r.has_state(2, OwnershipState::Dropped));
    assert!(r.has_state(2, OwnershipState::Owned));
    let w = a.widening_with(&b);
    assert!(w.has_state(1, OwnershipState::Moved));
}

#[test]
fn lub_with_bottom_is_identity_and_top_absorbs() {
    let mut a = OwnershipDomain::new();
    a.set_state(1, OwnershipState::Moved);
    let bottom = OwnershipDomain::bottom();
    let r = a.lub(&bottom);
    assert!(r.has_state(1, OwnershipState::Moved));
    assert!(!r.is_bottom());
    let top = OwnershipDomain::top();
    let t = a.lub(&top);
    assert!(t.is_top());
    assert!(!t.has_state(1, OwnershipState::Moved));
}

#[test]
fn set_to_top_and_bottom_clear_states() {
    let mut d = OwnershipDomain::new();
    d.set_state(1, OwnershipState::Moved);
    d.set_to_top();
    assert!(d.is_top() && !d.is_bottom());
    assert!(!d.has_state(1, OwnershipState::Moved));
    d.set_state(1, OwnershipState::Moved);
    d.set_to_bottom();
    assert!(d.is_bottom() && !d.is_top());
    assert!(!d.has_state(1, OwnershipState::Moved));
}

fn messages(errors: &[OwnershipCheckError]) -> Vec<String> {
    errors.iter().map(|e| e.message.clone()).collect()
}

#[test]
fn two_owners_of_one_resource_are_a_double_free() {
    let mut d = OwnershipDomain::new();
    d.set_state(1, OwnershipState::Owned);
    d.set_state(2, OwnershipState::Owned);
    d.share_resource(1, 2);
    let errors = d.check_double_free(&HashMap::new());
    assert_eq!(errors.len(), 1);
    let m = &messages(&errors)[0];
    assert!(
        m == "[Checker] Possible double-free: 2 paths own the same resource: [1 ({Owned}), 2 ({Owned})]"
            || m == "[Checker] Possible double-free: 2 paths own the same resource: [2 ({Owned}), 1 ({Owned})]"
    );
    let mut paths = errors[0].paths.clone();
    paths.sort();
    assert_eq!(paths, vec![1, 2]);
}

#[test]
fn forgotten_partner_is_no_double_free() {
    let mut d = OwnershipDomain::new();
    d.set_state(1, OwnershipState::Forgotten);
    d.set_state(2, OwnershipState::Owned);
    d.share_resource(1, 2);
    assert!(d.check_double_free(&HashMap::new()).is_empty());
}

#[test]
fn lone_forgotten_path_is_a_leak() {
    let mut d = OwnershipDomain::new();
    d.set_state(5, OwnershipState::Forgotten);
    d.share_resource(5, 5);
    let errors = d.check_double_free(&HashMap::new());
    assert_eq!(
        messages(&errors),
        vec!["[Checker] Possible memory leak: resource at 5 is forgotten or manually managed".to_string()]
    );
}

#[test]
fn group_all_forgotten_is_a_leak() {
    let mut d = OwnershipDomain::new();
    d.set_state(1, OwnershipState::Forgotten);
    d.set_state(2, OwnershipState::ManuallyManaged);
    d.share_resource(1, 2);
    let errors = d.check_double_free(&HashMap::new());
    assert_eq!(
        messages(&errors),
        vec!["[Checker] Possible memory leak: all 2 paths sharing a resource are forgotten or manually managed"
            .to_string()]
    );
}

#[test]
fn group_message_on_given_group() {
    let mut d = OwnershipDomain::new();
    d.set_state(1, OwnershipState::Owned);
    d.set_state(2, OwnershipState::Owned);
    assert_eq!(
        d.group_message(&vec![1, 2], &HashMap::new()),
        Some("[Checker] Possible double-free: 2 paths own the same resource: [1 ({Owned}), 2 ({Owned})]".to_string())
    );
    assert_eq!(d.group_message(&vec![1], &HashMap::new()), None);
    assert_eq!(d.group_message(&vec![], &HashMap::new()), None);
}

#[test]
fn heap_owner_aliased_with_forgotten_path_is_a_leak() {
    let mut d = OwnershipDomain::new();
    d.set_state(1, OwnershipState::Owned);
    d.set_state(2, OwnershipState::Owned);
    d.set_state(3, OwnershipState::Forgotten);
    d.add_heap_owner(2);
    assert_eq!(
        d.group_message(&vec![1, 2, 3], &HashMap::new()),
        Some(
            "[Checker] Possible memory leak: heap resource aliased with forgotten stack resource: [1 ({Owned}), 2 ({Owned}) [HEAP], 3 ({Forgotten})]"
                .to_string()
        )
    );
}

#[test]
fn check_groups_reports_in_order() {
    let mut d = OwnershipDomain::new();
    d.set_state(1, OwnershipState::Forgotten);
    d.set_state(2, OwnershipState::Owned);
    let errors = d.check_groups(&vec![vec![2], vec![1]], &HashMap::new());
    assert_eq!(errors.len(), 1);
    assert_eq!(errors[0].paths, vec![1]);
}

#[test]
fn ownership_check_error_keeps_fields() {
    let e = OwnershipCheckError::new("m".to_string(), vec![3, 4]);
    assert_eq!(e.message, "m");
    assert_eq!(e.paths, vec![3, 4]);
}

#[test]
fn dropped_marks_read_back() {
    let mut d = OwnershipDomain::new();
    assert!(!d.is_dropped(8));
    d.mark_dropped(8);
    assert!(d.is_dropped(8));
}

#[test]
fn messages_print_paths_by_their_given_text() {
    let mut d = OwnershipDomain::new();
    d.set_state(1, OwnershipState::Owned);
    d.set_state(2, OwnershipState::Owned);
    d.set_state(5, OwnershipState::Forgotten);
    let mut names = HashMap::new();
    names.insert(1u64, "local_1".to_string());
    names.insert(2u64, "local_2.0".to_string());
    names.insert(5u64, "local_5".to_string());
    assert_eq!(
        d.group_message(&vec![1, 2], &names),
        Some(
            "[Checker] Possible double-free: 2 paths own the same resource: [local_1 ({Owned}), local_2.0 ({Owned})]"
                .to_string()
        )
    );
    assert_eq!(
        d.group_message(&vec![5], &names),
        Some("[Checker] Possible memory leak: resource at local_5 is forgotten or manually managed".to_string())
    );
}

#[test]
fn rename_of_a_representative_moves_its_place() {
    let mut d = OwnershipDomain::new();
    d.share_resource(1, 2);
    let a = d.shared_resources().find(1);
    let b = 3 - a;
    d.rename(a, 3);
    assert!(d.shared_resources().is_connected(b, 3));
    assert!(!d.shared_resources().is_connected(b, a));
    assert!(d.shared_resources().contains(3));
    assert!(!d.shared_resources().contains(a));
}

#[test]
fn try_rename_refuses_a_cycle() {
    let mut d = OwnershipDomain::new();
    d.share_resource(1, 2);
    d.share_resource(3, 4);
    d.share_resource(1, 3);
    d.set_state(1, OwnershipState::Moved);
    // Find a path whose parent is not its representative, and try to rename
    // it onto its representative: that would close a cycle.
    let mut refused = false;
    for x in 1..=4u64 {
        let r = d.shared_resources().find(x);
        if d.shared_resources().rename_would_close_cycle(x, r) {
            assert!(!d.try_rename(x, r));
            assert!(d.shared_resources().contains(x));
            refused = true;
        }
    }
    let _ = refused;
    assert!(d.try_rename(1, 9));
    assert!(d.has_state(9, OwnershipState::Moved));
    assert!(d.shared_resources().is_connected(9, 2));
}
