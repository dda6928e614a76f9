use checker::analysis::option::AbstractDomainType;
use checker::analysis::option::DiagLevel;
use checker::analysis::option::DiagnosticCause;
use checker::analysis::option::OptionMatches;
use checker::analysis::option::Options;
use checker::analysis::option::OptionsError;
use checker::analysis::option::ParsedArgs;

fn strings(v: &[&str]) -> Vec<String> {
    v.iter().map(|s| s.to_string()).collect()
}

fn no_matches() -> OptionMatches {
    OptionMatches {
        entry_point: None,
        entry_def_id_index: None,
        domain_type: None,
        widening_delay: Some("0".to_string()),
        cleaning_delay: Some("0".to_string()),
        narrowing_iteration: Some("0".to_string()),
        unsafe_only: false,
        show_entries: false,
        show_entries_index: false,
        deny_warnings: false,
        memory_safety_only: false,
    }
}

#[test]
fn default_options() {
    let o = Options::default();
    assert!(!o.unsafe_only);
    assert_eq!(o.entry_point, "main");
    assert_eq!(o.entry_def_id_index, None);
    assert!(matches!(o.domain_type, AbstractDomainType::Interval));
    assert_eq!(o.widening_delay, 5);
    assert_eq!(o.cleaning_delay, 5);
    assert_eq!(o.narrowing_iteration, 1);
    assert!(!o.show_entries && !o.show_entries_index && !o.deny_warnings && !o.memory_safety_only);
    assert!(o.suppressed_warnings.is_none());
}

#[test]
fn default_diag_level() {
    assert_eq!(DiagLevel::default(), DiagLevel::Default);
}

#[test]
fn domain_types_by_name() {
    assert_eq!(Options::get_domain_type("interval"), Some(AbstractDomainType::Interval));
    assert_eq!(Options::get_domain_type("octagon"), Some(AbstractDomainType::Octagon));
    assert_eq!(Options::get_domain_type("polyhedra"), Some(AbstractDomainType::Polyhedra));
    assert_eq!(Options::get_domain_type("linear_equalities"), Some(AbstractDomainType::LinearEqualities));
    assert_eq!(Options::get_domain_type("ppl_polyhedra"), Some(AbstractDomainType::PplPolyhedra));
    assert_eq!(
        Options::get_domain_type("ppl_linear_congruences"),
        Some(AbstractDomainType::PplLinearCongruences)
    );
    assert_eq!(
        Options::get_domain_type("pkgrid_polyhedra_linear_congruences"),
        Some(AbstractDomainType::PkgridPolyhedraLinCongruences)
    );
    assert_eq!(Options::get_domain_type("Interval"), None);
    assert_eq!(Options::get_domain_type(""), None);
}

#[test]
fn suppressed_warnings_one_cause_per_flag() {
    assert_eq!(
        Options::get_suppressed_warnings("abscdmpi"),
        Some(vec![
            DiagnosticCause::Arithmetic,
            DiagnosticCause::Bitwise,
            DiagnosticCause::Assembly,
            DiagnosticCause::Comparison,
            DiagnosticCause::DivZero,
            DiagnosticCause::Memory,
            DiagnosticCause::Panic,
            DiagnosticCause::Index,
        ])
    );
    assert_eq!(Options::get_suppressed_warnings("aa"), Some(vec![DiagnosticCause::Arithmetic; 2]));
}

#[test]
fn suppressed_warnings_reject_unknown_flags_and_empty() {
    assert_eq!(Options::get_suppressed_warnings("ax"), None);
    assert_eq!(Options::get_suppressed_warnings(""), None);
}

#[test]
fn remove_multiple_swap_removes_in_turn() {
    let mut v = vec![10, 20, 30, 40, 50];
    let removed = Options::remove_multiple(&mut v, &[1, 0]);
    assert_eq!(removed, vec![20, 10]);
    assert_eq!(v, vec![40, 50, 30]);
}

#[test]
fn remove_multiple_of_nothing() {
    let mut v = vec![1, 2];
    let removed: Vec<i32> = Options::remove_multiple(&mut v, &[]);
    assert!(removed.is_empty());
    assert_eq!(v, vec![1, 2]);
}

#[test]
fn split_argument_string_like_a_shell() {
    assert_eq!(
        Options::split_argument_string("--entry_point \"my main\" -- --edition=2021").unwrap(),
        strings(&["--entry_point", "my main", "--", "--edition=2021"])
    );
    assert_eq!(Options::split_argument_string("a\\ b 'c d'").unwrap(), strings(&["a b", "c d"]));
    assert!(Options::split_argument_string("").unwrap().is_empty());
}

#[test]
fn split_argument_string_rejects_mismatched_quotes() {
    let e = Options::split_argument_string("--entry_point 'main").unwrap_err();
    assert_eq!(e, OptionsError::MismatchedQuotes);
    assert_eq!(e.message(), "Cannot parse argument string: MismatchedQuotes");
}

#[test]
fn separator_position_is_the_first_double_dash() {
    assert_eq!(Options::separator_position(&strings(&["a", "--", "b", "--"])), Some(1));
    assert_eq!(Options::separator_position(&strings(&["a", "b"])), None);
    assert_eq!(Options::separator_position(&strings(&[])), None);
}

#[test]
fn parse_applies_options_and_hands_on_rest() {
    let mut o = Options::default();
    let mut m = no_matches();
    m.entry_point = Some("start".to_string());
    m.entry_def_id_index = Some("42".to_string());
    m.domain_type = Some("octagon".to_string());
    m.widening_delay = Some("7".to_string());
    m.cleaning_delay = Some("+8".to_string());
    m.narrowing_iteration = Some("2".to_string());
    m.unsafe_only = true;
    m.deny_warnings = true;
    let args = strings(&["--entry_point", "start", "--", "foo.rs", "-O"]);
    let rest = o.parse(&args, ParsedArgs::Matches(m)).unwrap();
    assert_eq!(rest, strings(&["foo.rs", "-O"]));
    assert_eq!(o.entry_point, "start");
    assert_eq!(o.entry_def_id_index, Some(42));
    assert_eq!(o.domain_type, AbstractDomainType::Octagon);
    assert_eq!(o.widening_delay, 7);
    assert_eq!(o.cleaning_delay, 8);
    assert_eq!(o.narrowing_iteration, 2);
    assert!(o.unsafe_only && o.deny_warnings);
    assert!(!o.show_entries && !o.show_entries_index && !o.memory_safety_only);
}

#[test]
fn parse_without_separator_hands_on_nothing() {
    let mut o = Options::default();
    let rest = o.parse(&strings(&["--unsafe_only"]), ParsedArgs::Matches(no_matches())).unwrap();
    assert!(rest.is_empty());
    assert_eq!(o.widening_delay, 0);
    assert_eq!(o.cleaning_delay, 0);
    assert_eq!(o.narrowing_iteration, 0);
}

#[test]
fn parse_with_unknown_argument_hands_on_everything() {
    let mut o = Options::default();
    let args = strings(&["foo.rs", "--crate-type", "lib"]);
    let rest = o.parse(&args, ParsedArgs::UnknownArgument).unwrap();
    assert_eq!(rest, args);
    assert_eq!(o.widening_delay, 5);
    let rest2 = o.parse(&args, ParsedArgs::HelpRequested).unwrap();
    assert_eq!(rest2, args);
}

#[test]
fn invalid_entry_index_is_ignored() {
    let mut o = Options::default();
    let mut m = no_matches();
    m.entry_def_id_index = Some("x1".to_string());
    o.parse(&strings(&[]), ParsedArgs::Matches(m)).unwrap();
    assert_eq!(o.entry_def_id_index, None);
}

#[test]
fn invalid_domain_type_is_an_error() {
    let mut o = Options::default();
    let mut m = no_matches();
    m.domain_type = Some("boxes".to_string());
    m.widening_delay = Some("x".to_string());
    let e = o.parse(&strings(&[]), ParsedArgs::Matches(m)).unwrap_err();
    assert_eq!(e, OptionsError::InvalidDomainType);
    assert_eq!(e.message(), "--domain_type expects a valid domain type");
    assert_eq!(o.widening_delay, 5);
}

#[test]
fn invalid_delays_are_errors() {
    let mut o = Options::default();
    let mut m = no_matches();
    m.widening_delay = Some("4294967296".to_string());
    assert_eq!(o.parse(&strings(&[]), ParsedArgs::Matches(m)).unwrap_err(), OptionsError::InvalidWideningDelay);
    let mut m = no_matches();
    m.cleaning_delay = Some("-1".to_string());
    assert_eq!(o.parse(&strings(&[]), ParsedArgs::Matches(m)).unwrap_err(), OptionsError::InvalidCleaningDelay);
    let mut m = no_matches();
    m.narrowing_iteration = Some("".to_string());
    assert_eq!(
        o.parse(&strings(&[]), ParsedArgs::Matches(m)).unwrap_err(),
        OptionsError::InvalidNarrowingIteration
    );
    assert_eq!(OptionsError::InvalidWideningDelay.message(), "--widening_delay expects an integer");
    assert_eq!(OptionsError::InvalidCleaningDelay.message(), "--cleaning_delay expects an integer");
    assert_eq!(OptionsError::InvalidNarrowingIteration.message(), "--narrowing_iteration expects an integer");
}

#[test]
fn largest_u32_delay_is_accepted() {
    let mut o = Options::default();
    let mut m = no_matches();
    m.widening_delay = Some("4294967295".to_string());
    o.parse(&strings(&[]), ParsedArgs::Matches(m)).unwrap();
    assert_eq!(o.widening_delay, u32::MAX);
}
