use vstd::prelude::*;
use vstd::string::*;
use crate::analysis::option::strings_view;
use crate::text::starts_with;
use crate::text::ends_with;
use crate::utils::SysrootEnv;
use crate::utils::rustup_sysroot;
use crate::utils::find_sysroot;

verus! {

broadcast use vstd::string::group_string_axioms;

/// Some argument starts with `p`.
pub open spec fn any_starts_with(args: Seq<Seq<char>>, p: Seq<char>) -> bool {
    exists|i: int| 0 <= i < args.len() && p.is_prefix_of(#[trigger] args[i])
}

/// Some argument ends with `p`.
pub open spec fn any_ends_with(args: Seq<Seq<char>>, p: Seq<char>) -> bool {
    exists|i: int| 0 <= i < args.len() && p.is_suffix_of(#[trigger] args[i])
}

/// The arguments before the environment's are added: the binary's name and
/// the arguments handed on from the command line.
pub open spec fn given_arguments(binary: Seq<char>, forwarded: Seq<Seq<char>>) -> Seq<Seq<char>> {
    seq![binary] + forwarded
}

/// The arguments once the environment's are added.
pub open spec fn with_environment(binary: Seq<char>, forwarded: Seq<Seq<char>>, env_args: Seq<Seq<char>>) -> Seq<
    Seq<char>,
> {
    given_arguments(binary, forwarded) + env_args
}

/// The compiler needs the sysroot from the build environment: no argument asks
/// for `--print=` output and none gives `--sysroot`.
pub open spec fn needs_sysroot(binary: Seq<char>, forwarded: Seq<Seq<char>>, env_args: Seq<Seq<char>>) -> bool {
    !any_starts_with(given_arguments(binary, forwarded), "--print="@) && !any_starts_with(
        with_environment(binary, forwarded, env_args),
        "--sysroot"@,
    )
}

/// The compiler's command line: the binary's name and the arguments handed on
/// from the command line; unless one of those asks for `--print=` output,
/// then the environment's arguments, `--sysroot` and the sysroot unless an
/// argument gives one, and `-Z always-encode-mir` unless an argument ends
/// with `always-encode-mir`.
pub open spec fn compiler_arguments(
    binary: Seq<char>,
    forwarded: Seq<Seq<char>>,
    env_args: Seq<Seq<char>>,
    sysroot: Seq<char>,
) -> Seq<Seq<char>> {
    let given = given_arguments(binary, forwarded);
    if any_starts_with(given, "--print="@) {
        given
    } else {
        let a = with_environment(binary, forwarded, env_args);
        let b = if any_starts_with(a, "--sysroot"@) {
            a
        } else {
            a + seq!["--sysroot"@, sysroot]
        };
        if any_ends_with(b, "always-encode-mir"@) {
            b
        } else {
            b + seq!["-Z"@, "always-encode-mir"@]
        }
    }
}

/// Whether some argument starts with `p`.
fn some_starts_with(args: &Vec<String>, p: &str) -> (r: bool)
    ensures
        r == any_starts_with(strings_view(args@), p@),
{
    let ghost v = strings_view(args@);
    let mut i: usize = 0;
    while i < args.len()
        invariant
            i <= args.len(),
            v == strings_view(args@),
            forall|j: int| 0 <= j < i ==> !p@.is_prefix_of(#[trigger] v[j]),
        decreases args.len() - i,
    {
        if starts_with(args[i].as_str(), p) {
            assert(p@.is_prefix_of(v[i as int]));
            return true;
        }
        i = i + 1;
    }
    false
}

/// Whether some argument ends with `p`.
fn some_ends_with(args: &Vec<String>, p: &str) -> (r: bool)
    ensures
        r == any_ends_with(strings_view(args@), p@),
{
    let ghost v = strings_view(args@);
    let mut i: usize = 0;
    while i < args.len()
        invariant
            i <= args.len(),
            v == strings_view(args@),
            forall|j: int| 0 <= j < i ==> !p@.is_suffix_of(#[trigger] v[j]),
        decreases args.len() - i,
    {
        if ends_with(args[i].as_str(), p) {
            assert(p@.is_suffix_of(v[i as int]));
            return true;
        }
        i = i + 1;
    }
    false
}

/// Appends copies of the strings of `more` to `v`.
fn append_strings(v: &mut Vec<String>, more: &Vec<String>)
    ensures
        strings_view(final(v)@) == strings_view(old(v)@) + strings_view(more@),
{
    let ghost base = strings_view(v@);
    let mut i: usize = 0;
    while i < more.len()
        invariant
            i <= more.len(),
            strings_view(v@) == base + strings_view(more@).take(i as int),
        decreases more.len() - i,
    {
        let ghost before = v@;
        let t = String::from_str(more[i].as_str());
        v.push(t);
        proof {
            assert(strings_view(v@) =~= strings_view(before).push(t@));
            assert(strings_view(more@).take(i + 1) =~= strings_view(more@).take(i as int).push(more@[i as int]@));
        }
        i = i + 1;
    }
    proof {
        assert(strings_view(more@).take(more.len() as int) == strings_view(more@));
    }
}

/// Builds the compiler's command line from the binary's name, the arguments
/// handed on from the command line and those from the environment; none when
/// the compiler needs the sysroot and the build environment gives none.
pub fn rustc_command_line(binary: &str, forwarded: &Vec<String>, env_args: &Vec<String>, env: &SysrootEnv) -> (r: Option<
    Vec<String>,
>)
    ensures
        r is None <==> (needs_sysroot(binary@, strings_view(forwarded@), strings_view(env_args@)) && rustup_sysroot(
            *env,
        ) is None),
        r matches Some(v) ==> strings_view(v@) == compiler_arguments(
            binary@,
            strings_view(forwarded@),
            strings_view(env_args@),
            rustup_sysroot(*env)->0,
        ),
{
    let mut args: Vec<String> = Vec::new();
    args.push(String::from_str(binary));
    append_strings(&mut args, forwarded);
    proof {
        assert(strings_view(args@) =~= given_arguments(binary@, strings_view(forwarded@)));
    }
    if some_starts_with(&args, "--print=") {
        return Some(args);
    }
    append_strings(&mut args, env_args);
    if !some_starts_with(&args, "--sysroot") {
        if !sysroot_known(env) {
            return None;
        }
        let ghost before = strings_view(args@);
        args.push(String::from_str("--sysroot"));
        args.push(find_sysroot(env));
        proof {
            assert(strings_view(args@) =~= before + seq!["--sysroot"@, rustup_sysroot(*env)->0]);
        }
    }
    if !some_ends_with(&args, "always-encode-mir") {
        let ghost before = strings_view(args@);
        args.push(String::from_str("-Z"));
        args.push(String::from_str("always-encode-mir"));
        proof {
            assert(strings_view(args@) =~= before + seq!["-Z"@, "always-encode-mir"@]);
        }
    }
    Some(args)
}

/// Whether the build environment gives a sysroot.
fn sysroot_known(env: &SysrootEnv) -> (r: bool)
    ensures
        r == rustup_sysroot(*env) is Some,
{
    (env.rustup_home.is_some() && env.rustup_toolchain.is_some()) || env.rust_sysroot.is_some()
}

} // verus!
