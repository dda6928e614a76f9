use checker::analysis::analysis_result::AnalysisError;
use checker::analysis::callback::CheckerCallbacks;
use checker::analysis::contain_unsafe::contains_unsafe;
use checker::analysis::contain_unsafe::BodyNode;
use checker::analysis::contain_unsafe::ContainUnsafe;
use checker::analysis::contain_unsafe::ExprFacts;
use checker::analysis::global_context::select_entry_points;
use checker::analysis::global_context::EntrySelection;
use checker::analysis::global_context::FnEntry;
use checker::analysis::global_context::WtoCache;
use checker::analysis::option::Options;
use checker::def_id::DefId;
use checker::driver::rustc_command_line;
use checker::utils::compile_time_sysroot;
use checker::utils::find_sysroot;
use checker::utils::SysrootEnv;

fn entry(index: u32, name: &str, is_fn: bool, unsafe_code: bool) -> FnEntry {
    FnEntry { def_id: DefId { krate: 0, index }, name: name.to_string(), is_fn, contains_unsafe: unsafe_code }
}

fn sample_fns() -> Vec<FnEntry> {
    vec![
        entry(1, "main", true, false),
        entry(2, "helper", true, true),
        entry(3, "CONST", false, true),
        entry(4, "helper", true, false),
        entry(5, "raw", true, true),
    ]
}

#[test]
fn unsafe_only_selects_functions_with_unsafe_code() {
    let mut o = Options::default();
    o.unsafe_only = true;
    match select_entry_points(&o, &sample_fns()) {
        EntrySelection::Analyze(v) => {
            assert_eq!(v, vec![DefId { krate: 0, index: 2 }, DefId { krate: 0, index: 5 }])
        }
        _ => panic!("expected entry points"),
    }
    let safe = vec![entry(1, "main", true, false)];
    assert!(matches!(select_entry_points(&o, &safe), EntrySelection::NoUnsafeFunctions));
}

#[test]
fn show_entries_lists_each_name_once() {
    let mut o = Options::default();
    o.show_entries = true;
    match select_entry_points(&o, &sample_fns()) {
        EntrySelection::ShowNames(v) => assert_eq!(v, vec!["main", "helper", "raw"]),
        _ => panic!("expected names"),
    }
}

#[test]
fn show_entries_index_lists_function_indices() {
    let mut o = Options::default();
    o.show_entries_index = true;
    match select_entry_points(&o, &sample_fns()) {
        EntrySelection::ShowIndices(v) => assert_eq!(v, vec![1, 2, 4, 5]),
        _ => panic!("expected indices"),
    }
}

#[test]
fn entry_point_by_name_takes_the_last_match() {
    let mut o = Options::default();
    o.entry_point = "helper".to_string();
    match select_entry_points(&o, &sample_fns()) {
        EntrySelection::Analyze(v) => assert_eq!(v, vec![DefId { krate: 0, index: 4 }]),
        _ => panic!("expected an entry point"),
    }
}

#[test]
fn entry_point_by_index() {
    let mut o = Options::default();
    o.entry_def_id_index = Some(5);
    match select_entry_points(&o, &sample_fns()) {
        EntrySelection::Analyze(v) => assert_eq!(v, vec![DefId { krate: 0, index: 5 }]),
        _ => panic!("expected an entry point"),
    }
    o.entry_def_id_index = Some(3);
    assert!(matches!(select_entry_points(&o, &sample_fns()), EntrySelection::EntryNotFound));
}

#[test]
fn missing_entry_point_is_reported() {
    let mut o = Options::default();
    o.entry_point = "nothing".to_string();
    assert!(matches!(select_entry_points(&o, &sample_fns()), EntrySelection::EntryNotFound));
}

#[test]
fn wto_cache_reads_back_inserts() {
    let mut c: WtoCache<String> = WtoCache::default();
    let d = DefId { krate: 0, index: 7 };
    assert!(c.get(d).is_none());
    c.insert(d, "order".to_string());
    assert_eq!(c.get(d), Some(&"order".to_string()));
    c.insert(d, "other".to_string());
    assert_eq!(c.get(d), Some(&"other".to_string()));
    assert!(c.get(DefId { krate: 1, index: 7 }).is_none());
}

#[test]
fn unsafe_signature_or_body_is_unsafe_code() {
    assert!(contains_unsafe(true, None));
    assert!(!contains_unsafe(false, None));
    let safe_body = vec![BodyNode::Block(false), BodyNode::Expr(ExprFacts::Other)];
    assert!(!contains_unsafe(false, Some(&safe_body)));
    let unsafe_block = vec![BodyNode::Expr(ExprFacts::Other), BodyNode::Block(true)];
    assert!(contains_unsafe(false, Some(&unsafe_block)));
    let raw_deref = vec![BodyNode::Expr(ExprFacts::Deref { raw_pointer: true })];
    assert!(contains_unsafe(false, Some(&raw_deref)));
    let union_field = vec![BodyNode::Expr(ExprFacts::Field { of_union: true })];
    assert!(contains_unsafe(false, Some(&union_field)));
    let calls = vec![
        BodyNode::Expr(ExprFacts::Call { callee_unsafe: false }),
        BodyNode::Expr(ExprFacts::MethodCall { callee_unsafe: true }),
    ];
    assert!(contains_unsafe(false, Some(&calls)));
}

#[test]
fn checker_resets_between_functions() {
    let mut c = ContainUnsafe::new();
    assert!(c.check_def_id(false, Some(&vec![BodyNode::Block(true)])));
    assert!(!c.check_def_id(false, Some(&vec![BodyNode::Block(false)])));
    c.visit_expr(ExprFacts::Call { callee_unsafe: true });
    assert!(c.check_function(&vec![]));
    c.visit_block(false);
}

#[test]
fn standard_library_sources_are_skipped() {
    let mut c = CheckerCallbacks::new(Options::default());
    assert!(c.source_name.is_empty());
    assert!(!c.skips_source());
    c.source_name = "/rust/src/libcore/lib.rs".to_string();
    assert!(c.skips_source());
    c.source_name = "/home/me/project/src/main.rs".to_string();
    assert!(!c.skips_source());
    c.source_name = "/home/me/macros/src/lib.rs".to_string();
    assert!(c.skips_source());
    c.source_name = "/x/libcore_like/libc/lib.rs".to_string();
    assert!(c.skips_source());
}

fn env(home: Option<&str>, toolchain: Option<&str>, sysroot: Option<&str>) -> SysrootEnv {
    SysrootEnv {
        rustc_stage: false,
        rustup_home: home.map(|s| s.to_string()),
        multirust_home: None,
        rustup_toolchain: toolchain.map(|s| s.to_string()),
        multirust_toolchain: None,
        rust_sysroot: sysroot.map(|s| s.to_string()),
    }
}

#[test]
fn sysroot_from_rustup_toolchain() {
    let e = env(Some("/home/u/.rustup"), Some("nightly"), Some("/opt/rust"));
    assert_eq!(find_sysroot(&e), "/home/u/.rustup/toolchains/nightly");
    assert_eq!(compile_time_sysroot(&e), Some("/home/u/.rustup/toolchains/nightly".to_string()));
}

#[test]
fn sysroot_from_environment_variable() {
    let e = env(Some("/home/u/.rustup"), None, Some("/opt/rust"));
    assert_eq!(find_sysroot(&e), "/opt/rust");
    assert_eq!(compile_time_sysroot(&e), Some("/opt/rust".to_string()));
}

#[test]
fn compile_time_sysroot_uses_multirust_and_stage() {
    let mut e = env(None, Some("stable"), None);
    e.multirust_home = Some("/m".to_string());
    assert_eq!(compile_time_sysroot(&e), Some("/m/toolchains/stable".to_string()));
    e.rustc_stage = true;
    assert_eq!(compile_time_sysroot(&e), None);
}

fn strings(v: &[&str]) -> Vec<String> {
    v.iter().map(|s| s.to_string()).collect()
}

#[test]
fn compiler_command_line_gets_sysroot_and_mir() {
    let e = env(Some("/h"), Some("t"), None);
    let r = rustc_command_line("checker", &strings(&["main.rs"]), &strings(&["--edition=2021"]), &e).unwrap();
    assert_eq!(
        r,
        strings(&["checker", "main.rs", "--edition=2021", "--sysroot", "/h/toolchains/t", "-Z", "always-encode-mir"])
    );
}

#[test]
fn compiler_command_line_keeps_given_sysroot_and_mir_flag() {
    let e = env(None, None, None);
    let r = rustc_command_line(
        "checker",
        &strings(&["main.rs", "--sysroot=/s"]),
        &strings(&["-Zalways-encode-mir"]),
        &e,
    )
    .unwrap();
    assert_eq!(r, strings(&["checker", "main.rs", "--sysroot=/s", "-Zalways-encode-mir"]));
}

#[test]
fn compiler_command_line_for_print_is_left_alone() {
    let e = env(None, None, None);
    let r = rustc_command_line("checker", &strings(&["--print=cfg"]), &strings(&["--extra"]), &e).unwrap();
    assert_eq!(r, strings(&["checker", "--print=cfg"]));
}

#[test]
fn compiler_command_line_without_any_sysroot_is_refused() {
    let e = env(Some("/h"), None, None);
    assert_eq!(rustc_command_line("checker", &strings(&["main.rs"]), &strings(&[]), &e), None);
}

#[test]
fn analysis_error_messages() {
    assert_eq!(AnalysisError::TimeOut.message(), "Analysis timeout");
    assert_eq!(
        AnalysisError::MaxIteration.message(),
        "The fixed-point algorithm reached the maximum iteration, abort"
    );
}
