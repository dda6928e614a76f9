use vstd::prelude::*;
use vstd::string::*;

verus! {

broadcast use vstd::string::group_string_axioms;

/// The build environment that locates the compiler's sysroot: whether the
/// tool is built as part of the compiler (`RUSTC_STAGE`), and the values of
/// `RUSTUP_HOME`, `MULTIRUST_HOME`, `RUSTUP_TOOLCHAIN`, `MULTIRUST_TOOLCHAIN`
/// and `RUST_SYSROOT`.
pub struct SysrootEnv {
    pub rustc_stage: bool,
    pub rustup_home: Option<String>,
    pub multirust_home: Option<String>,
    pub rustup_toolchain: Option<String>,
    pub multirust_toolchain: Option<String>,
    pub rust_sysroot: Option<String>,
}

/// The characters of an optional string.
pub open spec fn opt_view(s: Option<String>) -> Option<Seq<char>> {
    match s {
        Some(v) => Some(v@),
        None => None,
    }
}

/// The first of two optional strings that is given.
pub open spec fn either(a: Option<String>, b: Option<String>) -> Option<Seq<char>> {
    if a is Some {
        opt_view(a)
    } else {
        opt_view(b)
    }
}

/// The sysroot of a toolchain that rustup manages.
pub open spec fn toolchain_dir(home: Seq<char>, toolchain: Seq<char>) -> Seq<char> {
    home + "/toolchains/"@ + toolchain
}

/// The sysroot that the build environment gives, rustup's (or multirust's)
/// toolchain first, `RUST_SYSROOT` otherwise.
pub open spec fn build_sysroot(env: SysrootEnv) -> Option<Seq<char>> {
    let home = either(env.rustup_home, env.multirust_home);
    let toolchain = either(env.rustup_toolchain, env.multirust_toolchain);
    if home is Some && toolchain is Some {
        Some(toolchain_dir(home->0, toolchain->0))
    } else {
        opt_view(env.rust_sysroot)
    }
}

/// The sysroot that rustup's toolchain or `RUST_SYSROOT` gives.
pub open spec fn rustup_sysroot(env: SysrootEnv) -> Option<Seq<char>> {
    if env.rustup_home is Some && env.rustup_toolchain is Some {
        Some(toolchain_dir(env.rustup_home->0@, env.rustup_toolchain->0@))
    } else {
        opt_view(env.rust_sysroot)
    }
}

fn first_given<'a>(a: &'a Option<String>, b: &'a Option<String>) -> (r: Option<&'a String>)
    ensures
        match r {
            Some(s) => either(*a, *b) == Some(s@),
            None => either(*a, *b) is None,
        },
{
    match a {
        Some(s) => Some(s),
        None => match b {
            Some(s) => Some(s),
            None => None,
        },
    }
}

fn join_toolchain(home: &str, toolchain: &str) -> (r: String)
    ensures
        r@ == toolchain_dir(home@, toolchain@),
{
    let mut r = String::from_str(home);
    r.append("/toolchains/");
    r.append(toolchain);
    r
}

/// The default sysroot when no `--sysroot` is given: none when the tool is
/// built as part of the compiler, which then finds its own; otherwise the
/// build environment's.
pub fn compile_time_sysroot(env: &SysrootEnv) -> (r: Option<String>)
    requires
        env.rustc_stage || build_sysroot(*env) is Some,
    ensures
        env.rustc_stage ==> r is None,
        !env.rustc_stage ==> opt_view(r) == build_sysroot(*env),
{
    if env.rustc_stage {
        return None;
    }
    let home = first_given(&env.rustup_home, &env.multirust_home);
    let toolchain = first_given(&env.rustup_toolchain, &env.multirust_toolchain);
    match (home, toolchain) {
        (Some(h), Some(t)) => Some(join_toolchain(h.as_str(), t.as_str())),
        _ => match &env.rust_sysroot {
            Some(s) => Some(String::from_str(s.as_str())),
            None => None,
        },
    }
}

/// The sysroot to hand to the compiler: rustup's toolchain, or
/// `RUST_SYSROOT`.
pub fn find_sysroot(env: &SysrootEnv) -> (r: String)
    requires
        rustup_sysroot(*env) is Some,
    ensures
        r@ == rustup_sysroot(*env)->0,
{
    match (&env.rustup_home, &env.rustup_toolchain) {
        (Some(h), Some(t)) => join_toolchain(h.as_str(), t.as_str()),
        _ => match &env.rust_sysroot {
            Some(s) => String::from_str(s.as_str()),
            None => String::new(),
        },
    }
}

} // verus!
