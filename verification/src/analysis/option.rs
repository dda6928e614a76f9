use vstd::prelude::*;
use vstd::string::*;
use crate::text::chars_of;
use crate::text::decimal_value;
use crate::text::parse_decimal;
use crate::text::same_text;
use crate::text::copy_strings_from;

verus! {

broadcast use vstd::string::group_string_axioms;

/// The kind of problem that a diagnostic reports.
#[derive(Clone, Copy, Debug, PartialEq, Eq, Structural)]
pub enum DiagnosticCause {
    /// Arithmetic overflow.
    Arithmetic,
    /// Bit-wise overflow.
    Bitwise,
    /// Inline assembly.
    Assembly,
    /// Comparison operations.
    Comparison,
    /// Division or remainder by zero.
    DivZero,
    /// Memory-safety issues.
    Memory,
    /// Running into panicking code.
    Panic,
    /// Out-of-bounds access.
    Index,
}

/// The abstract domain that the numerical analysis uses.
#[derive(Clone, Copy, Debug, PartialEq, Eq, Structural)]
pub enum AbstractDomainType {
    Interval,
    Octagon,
    Polyhedra,
    LinearEqualities,
    PplPolyhedra,
    PplLinearCongruences,
    PkgridPolyhedraLinCongruences,
}

/// The options of an analysis run.
#[derive(Debug, Clone)]
pub struct Options {
    pub unsafe_only: bool,
    pub entry_point: String,
    pub entry_def_id_index: Option<u32>,
    pub domain_type: AbstractDomainType,
    pub widening_delay: u32,
    pub cleaning_delay: usize,
    pub narrowing_iteration: u32,
    pub show_entries: bool,
    pub show_entries_index: bool,
    pub deny_warnings: bool,
    pub memory_safety_only: bool,
    pub suppressed_warnings: Option<Vec<DiagnosticCause>>,
}

/// The suppressed warnings, as a sequence.
pub open spec fn causes_view(c: Option<Vec<DiagnosticCause>>) -> Option<Seq<DiagnosticCause>> {
    match c {
        Some(v) => Some(v@),
        None => None,
    }
}

/// `o` holds the default options: entry point `main`, the interval domain,
/// widening and cleaning after 5 iterations, one narrowing iteration, and
/// every flag off.
pub open spec fn is_default_options(o: Options) -> bool {
    &&& !o.unsafe_only
    &&& o.entry_point@ == "main"@
    &&& o.entry_def_id_index is None
    &&& o.domain_type == AbstractDomainType::Interval
    &&& o.widening_delay == 5
    &&& o.cleaning_delay == 5
    &&& o.narrowing_iteration == 1
    &&& !o.show_entries
    &&& !o.show_entries_index
    &&& !o.deny_warnings
    &&& !o.memory_safety_only
    &&& o.suppressed_warnings is None
}

impl Default for Options {
    fn default() -> (o: Self)
        ensures
            is_default_options(o),
    {
        Options {
            unsafe_only: false,
            entry_point: String::from_str("main"),
            entry_def_id_index: None,
            domain_type: AbstractDomainType::Interval,
            widening_delay: 5,
            cleaning_delay: 5,
            narrowing_iteration: 1,
            show_entries: false,
            show_entries_index: false,
            deny_warnings: false,
            memory_safety_only: false,
            suppressed_warnings: None,
        }
    }
}

/// How strictly diagnostics are issued.
#[derive(Clone, Copy, Debug, PartialEq, Eq, Structural, PartialOrd)]
pub enum DiagLevel {
    /// When a function calls a function without a body and with no foreign
    /// function summary, the call is assumed to be correct and any
    /// diagnostics that depend on its result are suppressed.
    Default,
    /// Like `Default`, but emits a diagnostic for a call to a function without
    /// a body and with no foreign function summary.
    Verify,
    /// Like `Verify`, but issues diagnostics when code that is not analyzed
    /// can provide arguments that make the analyzed code go wrong: every
    /// precondition must be explicit.
    Library,
    /// Like `Library`, but carries on analyzing a function after a call to an
    /// incompletely analyzed function.
    Paranoid,
}

impl Default for DiagLevel {
    fn default() -> (l: Self)
        ensures
            l == DiagLevel::Default,
    {
        DiagLevel::Default
    }
}

/// Why the options could not be read.
#[derive(Clone, Copy, Debug, PartialEq, Eq, Structural)]
pub enum OptionsError {
    /// The argument string has a quote that is never closed.
    MismatchedQuotes,
    /// `--domain_type` names no known domain.
    InvalidDomainType,
    /// `--widening_delay` is no `u32`.
    InvalidWideningDelay,
    /// `--cleaning_delay` is no `usize`.
    InvalidCleaningDelay,
    /// `--narrowing_iteration` is no `u32`.
    InvalidNarrowingIteration,
}

/// The message that reports an error.
pub open spec fn error_message(e: OptionsError) -> Seq<char> {
    match e {
        OptionsError::MismatchedQuotes => "Cannot parse argument string: MismatchedQuotes"@,
        OptionsError::InvalidDomainType => "--domain_type expects a valid domain type"@,
        OptionsError::InvalidWideningDelay => "--widening_delay expects an integer"@,
        OptionsError::InvalidCleaningDelay => "--cleaning_delay expects an integer"@,
        OptionsError::InvalidNarrowingIteration => "--narrowing_iteration expects an integer"@,
    }
}

impl OptionsError {
    /// The message that reports this error.
    pub fn message(&self) -> (r: &'static str)
        ensures
            r@ == error_message(*self),
    {
        match self {
            OptionsError::MismatchedQuotes => "Cannot parse argument string: MismatchedQuotes",
            OptionsError::InvalidDomainType => "--domain_type expects a valid domain type",
            OptionsError::InvalidWideningDelay => "--widening_delay expects an integer",
            OptionsError::InvalidCleaningDelay => "--cleaning_delay expects an integer",
            OptionsError::InvalidNarrowingIteration => "--narrowing_iteration expects an integer",
        }
    }
}

/// What the command line parser found among the analysis's own arguments:
/// the value of each option given (a delay that is not given has the value
/// `0`), and which flags were given.
pub struct OptionMatches {
    pub entry_point: Option<String>,
    pub entry_def_id_index: Option<String>,
    pub domain_type: Option<String>,
    pub widening_delay: Option<String>,
    pub cleaning_delay: Option<String>,
    pub narrowing_iteration: Option<String>,
    pub unsafe_only: bool,
    pub show_entries: bool,
    pub show_entries_index: bool,
    pub deny_warnings: bool,
    pub memory_safety_only: bool,
}

/// The outcome of running the command line parser over the analysis's own
/// arguments.
pub enum ParsedArgs {
    /// The arguments were accepted.
    Matches(OptionMatches),
    /// Help was asked for.
    HelpRequested,
    /// An argument is not one of the analysis's own.
    UnknownArgument,
}

#[verifier::external_type_specification]
#[verifier::external_body]
pub struct ExMismatchedQuotes(shellwords::MismatchedQuotes);

/// The words into which `shellwords::split` splits a string, or none when the
/// string has mismatched quotes.
pub uninterp spec fn shell_words(input: Seq<char>) -> Option<Seq<Seq<char>>>;

/// The characters of each string.
pub open spec fn strings_view(v: Seq<String>) -> Seq<Seq<char>> {
    v.map_values(|s: String| s@)
}

/// `shellwords::split`: splits a string into words the way the Bourne shell
/// does (quotes and backslashes are the only metacharacters), failing on a
/// quoted string that is never closed.  The contract names the outcome as a
/// function of the input alone and says nothing more of it.
#[verifier::external_body]
fn shell_split(input: &str) -> (r: Result<Vec<String>, shellwords::MismatchedQuotes>)
    ensures
        match r {
            Ok(words) => shell_words(input@) == Some(strings_view(words@)),
            Err(_) => shell_words(input@) is None,
        },
{
    shellwords::split(input)
}

/// The position of the first `--` among the arguments.
pub open spec fn first_separator(args: Seq<Seq<char>>) -> Option<nat>
    decreases args.len(),
{
    if args.len() == 0 {
        None
    } else {
        match first_separator(args.drop_last()) {
            Some(i) => Some(i),
            None => if args.last() == "--"@ {
                Some((args.len() - 1) as nat)
            } else {
                None
            },
        }
    }
}

/// Where the arguments that are handed on to the compiler start: after the
/// first `--`, or at the end when there is none.
pub open spec fn forwarded_start(args: Seq<Seq<char>>) -> nat {
    match first_separator(args) {
        Some(p) => p + 1,
        None => args.len(),
    }
}

/// The domain that a name selects.
pub open spec fn domain_type_named(s: Seq<char>) -> Option<AbstractDomainType> {
    if s == "interval"@ {
        Some(AbstractDomainType::Interval)
    } else if s == "octagon"@ {
        Some(AbstractDomainType::Octagon)
    } else if s == "polyhedra"@ {
        Some(AbstractDomainType::Polyhedra)
    } else if s == "linear_equalities"@ {
        Some(AbstractDomainType::LinearEqualities)
    } else if s == "ppl_polyhedra"@ {
        Some(AbstractDomainType::PplPolyhedra)
    } else if s == "ppl_linear_congruences"@ {
        Some(AbstractDomainType::PplLinearCongruences)
    } else if s == "pkgrid_polyhedra_linear_congruences"@ {
        Some(AbstractDomainType::PkgridPolyhedraLinCongruences)
    } else {
        None
    }
}

/// The cause that a flag character names.
pub open spec fn cause_for(c: char) -> Option<DiagnosticCause> {
    if c == 'a' {
        Some(DiagnosticCause::Arithmetic)
    } else if c == 'b' {
        Some(DiagnosticCause::Bitwise)
    } else if c == 's' {
        Some(DiagnosticCause::Assembly)
    } else if c == 'c' {
        Some(DiagnosticCause::Comparison)
    } else if c == 'd' {
        Some(DiagnosticCause::DivZero)
    } else if c == 'm' {
        Some(DiagnosticCause::Memory)
    } else if c == 'p' {
        Some(DiagnosticCause::Panic)
    } else if c == 'i' {
        Some(DiagnosticCause::Index)
    } else {
        None
    }
}

/// The causes that a string of flag characters names, one per character:
/// none when it is empty or holds a character that names no cause.
pub open spec fn suppressed_causes(s: Seq<char>) -> Option<Seq<DiagnosticCause>> {
    if s.len() > 0 && (forall|i: int| 0 <= i < s.len() ==> #[trigger] cause_for(s[i]) is Some) {
        Some(s.map_values(|c: char| cause_for(c)->0))
    } else {
        None
    }
}

/// The number that a string holds, when it is one that is at most `max`.
pub open spec fn number_at_most(s: Seq<char>, max: nat) -> Option<nat> {
    match decimal_value(s) {
        Some(v) => if v <= max {
            Some(v)
        } else {
            None
        },
        None => None,
    }
}

/// The first error that the parsed options hold, checked in the order
/// domain type, widening delay, cleaning delay, narrowing iteration.
pub open spec fn matches_error(m: OptionMatches) -> Option<OptionsError> {
    if m.domain_type matches Some(s) && domain_type_named(s@) is None {
        Some(OptionsError::InvalidDomainType)
    } else if m.widening_delay matches Some(s) && number_at_most(s@, u32::MAX as nat) is None {
        Some(OptionsError::InvalidWideningDelay)
    } else if m.cleaning_delay matches Some(s) && number_at_most(s@, usize::MAX as nat) is None {
        Some(OptionsError::InvalidCleaningDelay)
    } else if m.narrowing_iteration matches Some(s) && number_at_most(s@, u32::MAX as nat) is None {
        Some(OptionsError::InvalidNarrowingIteration)
    } else {
        None
    }
}

/// `after` is `before` with the parsed options applied: each option given
/// replaces its field, and each flag given turns its field on.
pub open spec fn applied(before: Options, m: OptionMatches, after: Options) -> bool {
    &&& after.entry_point@ == (match m.entry_point {
        Some(s) => s@,
        None => before.entry_point@,
    })
    &&& after.entry_def_id_index == (match m.entry_def_id_index {
        Some(s) => match number_at_most(s@, u32::MAX as nat) {
            Some(v) => Some(v as u32),
            None => None,
        },
        None => before.entry_def_id_index,
    })
    &&& after.domain_type == (match m.domain_type {
        Some(s) => domain_type_named(s@)->0,
        None => before.domain_type,
    })
    &&& after.widening_delay == (match m.widening_delay {
        Some(s) => number_at_most(s@, u32::MAX as nat)->0 as u32,
        None => before.widening_delay,
    })
    &&& after.cleaning_delay == (match m.cleaning_delay {
        Some(s) => number_at_most(s@, usize::MAX as nat)->0 as usize,
        None => before.cleaning_delay,
    })
    &&& after.narrowing_iteration == (match m.narrowing_iteration {
        Some(s) => number_at_most(s@, u32::MAX as nat)->0 as u32,
        None => before.narrowing_iteration,
    })
    &&& after.unsafe_only == (before.unsafe_only || m.unsafe_only)
    &&& after.show_entries == (before.show_entries || m.show_entries)
    &&& after.show_entries_index == (before.show_entries_index || m.show_entries_index)
    &&& after.deny_warnings == (before.deny_warnings || m.deny_warnings)
    &&& after.memory_safety_only == (before.memory_safety_only || m.memory_safety_only)
    &&& causes_view(after.suppressed_warnings) == causes_view(before.suppressed_warnings)
}

/// The sequence after one `swap_remove` at `i`.
pub open spec fn swap_removed<T>(s: Seq<T>, i: int) -> Seq<T> {
    s.update(i, s.last()).drop_last()
}

/// Removing at each index in turn stays within bounds.
pub open spec fn removals_valid<T>(s: Seq<T>, idx: Seq<usize>) -> bool
    decreases idx.len(),
{
    idx.len() == 0 || (idx[0] < s.len() && removals_valid(swap_removed(s, idx[0] as int), idx.skip(1)))
}

/// The items removed, in order, when removing at each index in turn.
pub open spec fn removed_items<T>(s: Seq<T>, idx: Seq<usize>) -> Seq<T>
    decreases idx.len(),
{
    if idx.len() == 0 {
        Seq::empty()
    } else {
        seq![s[idx[0] as int]] + removed_items(swap_removed(s, idx[0] as int), idx.skip(1))
    }
}

/// What is left after removing at each index in turn.
pub open spec fn remaining_items<T>(s: Seq<T>, idx: Seq<usize>) -> Seq<T>
    decreases idx.len(),
{
    if idx.len() == 0 {
        s
    } else {
        remaining_items(swap_removed(s, idx[0] as int), idx.skip(1))
    }
}

fn cause_for_exec(c: char) -> (r: Option<DiagnosticCause>)
    ensures
        r == cause_for(c),
{
    match c {
        'a' => Some(DiagnosticCause::Arithmetic),
        'b' => Some(DiagnosticCause::Bitwise),
        's' => Some(DiagnosticCause::Assembly),
        'c' => Some(DiagnosticCause::Comparison),
        'd' => Some(DiagnosticCause::DivZero),
        'm' => Some(DiagnosticCause::Memory),
        'p' => Some(DiagnosticCause::Panic),
        'i' => Some(DiagnosticCause::Index),
        _ => None,
    }
}

/// The value of a `u32` option: `current` when it is not given, its number
/// when it holds one that fits, and `err` otherwise.
fn number_field_u32(field: &Option<String>, current: u32, err: OptionsError) -> (r: Result<u32, OptionsError>)
    ensures
        match field {
            Some(s) => match number_at_most(s@, u32::MAX as nat) {
                Some(v) => r == Ok::<u32, OptionsError>(v as u32),
                None => r == Err::<u32, OptionsError>(err),
            },
            None => r == Ok::<u32, OptionsError>(current),
        },
{
    match field {
        Some(s) => match parse_decimal(s.as_str(), 0xffff_ffff) {
            Some(v) => Ok(v as u32),
            None => Err(err),
        },
        None => Ok(current),
    }
}

/// The value of a `usize` option: `current` when it is not given, its number
/// when it holds one that fits, and `err` otherwise.
fn number_field_usize(field: &Option<String>, current: usize, err: OptionsError) -> (r: Result<usize, OptionsError>)
    ensures
        match field {
            Some(s) => match number_at_most(s@, usize::MAX as nat) {
                Some(v) => r == Ok::<usize, OptionsError>(v as usize),
                None => r == Err::<usize, OptionsError>(err),
            },
            None => r == Ok::<usize, OptionsError>(current),
        },
{
    match field {
        Some(s) => match parse_decimal(s.as_str(), usize::MAX as u64) {
            Some(v) => Ok(v as usize),
            None => Err(err),
        },
        None => Ok(current),
    }
}

impl Options {
    /// The value of the domain type option: `current` when it is not given,
    /// the domain it names when it names one, and an error otherwise.
    fn domain_type_field(field: &Option<String>, current: AbstractDomainType) -> (r: Result<AbstractDomainType, OptionsError>)
        ensures
            match field {
                Some(s) => match domain_type_named(s@) {
                    Some(d) => r == Ok::<AbstractDomainType, OptionsError>(d),
                    None => r == Err::<AbstractDomainType, OptionsError>(OptionsError::InvalidDomainType),
                },
                None => r == Ok::<AbstractDomainType, OptionsError>(current),
            },
    {
        match field {
            Some(s) => match Self::get_domain_type(s.as_str()) {
                Some(d) => Ok(d),
                None => Err(OptionsError::InvalidDomainType),
            },
            None => Ok(current),
        }
    }
}

impl Options {
    /// Splits an argument string into arguments the way the Bourne shell
    /// does.
    pub fn split_argument_string(s: &str) -> (r: Result<Vec<String>, OptionsError>)
        ensures
            match r {
                Ok(v) => shell_words(s@) == Some(strings_view(v@)),
                Err(e) => e == OptionsError::MismatchedQuotes && shell_words(s@) is None,
            },
    {
        match shell_split(s) {
            Ok(words) => Ok(words),
            Err(_) => Err(OptionsError::MismatchedQuotes),
        }
    }

    /// The position of the first `--` among the arguments: the analysis's
    /// own arguments come before it.
    pub fn separator_position(args: &Vec<String>) -> (r: Option<usize>)
        ensures
            match r {
                Some(p) => first_separator(strings_view(args@)) == Some(p as nat) && p < args.len(),
                None => first_separator(strings_view(args@)) is None,
            },
    {
        let ghost v = strings_view(args@);
        let mut i: usize = 0;
        while i < args.len()
            invariant
                i <= args.len(),
                v == strings_view(args@),
                first_separator(v.take(i as int)) is None,
            decreases args.len() - i,
        {
            proof {
                assert(v.take(i + 1).drop_last() == v.take(i as int));
                assert(v.take(i + 1).last() == args@[i as int]@);
            }
            if same_text(args[i].as_str(), "--") {
                proof {
                    assert(first_separator(v.take(i + 1)) == Some(i as nat));
                    lemma_first_separator_extends(v, i + 1);
                }
                return Some(i);
            }
            i = i + 1;
        }
        proof {
            assert(v.take(args.len() as int) == v);
        }
        None
    }

    /// Applies the options that the command line parser found, and returns
    /// the arguments that are handed on to the compiler: those after the
    /// first `--`, or none when there is no `--`.  When help was asked for,
    /// or an argument is not one of the analysis's own (possible only without
    /// `--`), nothing is applied and every argument is handed on.  On an
    /// invalid option value nothing is applied.
    pub fn parse(&mut self, args: &Vec<String>, parsed: ParsedArgs) -> (r: Result<Vec<String>, OptionsError>)
        requires
            first_separator(strings_view(args@)) is Some ==> parsed is Matches,
        ensures
            !(parsed is Matches) ==> (r matches Ok(v) && strings_view(v@) == strings_view(args@)),
            !(parsed is Matches) ==> *final(self) == *old(self),
            parsed matches ParsedArgs::Matches(m) ==> (matches_error(m) is Some ==> (r matches Err(e) && Some(e)
                == matches_error(m))),
            parsed matches ParsedArgs::Matches(m) ==> (matches_error(m) is Some ==> *final(self) == *old(self)),
            parsed matches ParsedArgs::Matches(m) ==> (matches_error(m) is None ==> (r matches Ok(v) && strings_view(
                v@,
            ) == strings_view(args@).skip(forwarded_start(strings_view(args@)) as int))),
            parsed matches ParsedArgs::Matches(m) ==> (matches_error(m) is None ==> applied(*old(self), m, *final(self))),
    {
        match parsed {
            ParsedArgs::Matches(m) => {
                let start: usize = match Self::separator_position(args) {
                    Some(p) => p + 1,
                    None => args.len(),
                };
                match self.apply_matches(&m) {
                    Ok(()) => {},
                    Err(e) => {
                        return Err(e);
                    },
                }
                Ok(copy_strings_from(args, start))
            },
            _ => {
                let v = copy_strings_from(args, 0);
                proof {
                    assert(strings_view(args@).skip(0) == strings_view(args@));
                }
                Ok(v)
            },
        }
    }

    /// Applies the options that the command line parser found; on an invalid
    /// value nothing is applied.
    fn apply_matches(&mut self, m: &OptionMatches) -> (r: Result<(), OptionsError>)
        ensures
            matches_error(*m) is Some ==> (r matches Err(e) && Some(e) == matches_error(*m)),
            matches_error(*m) is Some ==> *final(self) == *old(self),
            matches_error(*m) is None ==> r is Ok && applied(*old(self), *m, *final(self)),
    {
        let domain_type = match Self::domain_type_field(&m.domain_type, self.domain_type) {
            Ok(d) => d,
            Err(e) => {
                return Err(e);
            },
        };
        let widening_delay = match number_field_u32(
            &m.widening_delay,
            self.widening_delay,
            OptionsError::InvalidWideningDelay,
        ) {
            Ok(v) => v,
            Err(e) => {
                return Err(e);
            },
        };
        let cleaning_delay = match number_field_usize(
            &m.cleaning_delay,
            self.cleaning_delay,
            OptionsError::InvalidCleaningDelay,
        ) {
            Ok(v) => v,
            Err(e) => {
                return Err(e);
            },
        };
        let narrowing_iteration = match number_field_u32(
            &m.narrowing_iteration,
            self.narrowing_iteration,
            OptionsError::InvalidNarrowingIteration,
        ) {
            Ok(v) => v,
            Err(e) => {
                return Err(e);
            },
        };
        if let Some(s) = &m.entry_point {
            self.entry_point = String::from_str(s.as_str());
        }
        if let Some(s) = &m.entry_def_id_index {
            self.entry_def_id_index = match parse_decimal(s.as_str(), 0xffff_ffff) {
                Some(v) => Some(v as u32),
                None => None,
            };
        }
        self.domain_type = domain_type;
        self.widening_delay = widening_delay;
        self.cleaning_delay = cleaning_delay;
        self.narrowing_iteration = narrowing_iteration;
        if m.unsafe_only {
            self.unsafe_only = true;
        }
        if m.show_entries {
            self.show_entries = true;
        }
        if m.show_entries_index {
            self.show_entries_index = true;
        }
        if m.deny_warnings {
            self.deny_warnings = true;
        }
        if m.memory_safety_only {
            self.memory_safety_only = true;
        }
        Ok(())
    }

    /// The diagnostic causes that a string of flag characters names, one per
    /// character (`a`, `b`, `s`, `c`, `d`, `m`, `p`, `i`); none when the
    /// string is empty or holds another character.
    pub fn get_suppressed_warnings(arg: &str) -> (r: Option<Vec<DiagnosticCause>>)
        ensures
            causes_view(r) == suppressed_causes(arg@),
    {
        let chars = chars_of(arg);
        let mut res: Vec<DiagnosticCause> = Vec::new();
        let mut i: usize = 0;
        while i < chars.len()
            invariant
                i <= chars@.len(),
                chars@ == arg@,
                res@ == chars@.take(i as int).map_values(|c: char| cause_for(c)->0),
                forall|j: int| 0 <= j < i ==> #[trigger] cause_for(chars@[j]) is Some,
            decreases chars@.len() - i,
        {
            match cause_for_exec(chars[i]) {
                Some(cause) => {
                    res.push(cause);
                    proof {
                        assert(chars@.take(i + 1).map_values(|c: char| cause_for(c)->0) =~= chars@.take(
                            i as int,
                        ).map_values(|c: char| cause_for(c)->0).push(cause));
                    }
                },
                None => {
                    return None;
                },
            }
            i = i + 1;
        }
        proof {
            assert(chars@.take(chars@.len() as int) == chars@);
        }
        if res.len() == 0 {
            None
        } else {
            Some(res)
        }
    }

    /// The abstract domain that a name selects.
    pub fn get_domain_type(arg: &str) -> (r: Option<AbstractDomainType>)
        ensures
            r == domain_type_named(arg@),
    {
        if same_text(arg, "interval") {
            Some(AbstractDomainType::Interval)
        } else if same_text(arg, "octagon") {
            Some(AbstractDomainType::Octagon)
        } else if same_text(arg, "polyhedra") {
            Some(AbstractDomainType::Polyhedra)
        } else if same_text(arg, "linear_equalities") {
            Some(AbstractDomainType::LinearEqualities)
        } else if same_text(arg, "ppl_polyhedra") {
            Some(AbstractDomainType::PplPolyhedra)
        } else if same_text(arg, "ppl_linear_congruences") {
            Some(AbstractDomainType::PplLinearCongruences)
        } else if same_text(arg, "pkgrid_polyhedra_linear_congruences") {
            Some(AbstractDomainType::PkgridPolyhedraLinCongruences)
        } else {
            None
        }
    }

    /// Removes the items at the given indices, one after the other, each by
    /// moving the last item into its place; returns the removed items in
    /// order.
    pub fn remove_multiple<T>(source: &mut Vec<T>, indices_to_remove: &[usize]) -> (removed: Vec<T>)
        requires
            removals_valid(old(source)@, indices_to_remove@),
        ensures
            removed@ == removed_items(old(source)@, indices_to_remove@),
            final(source)@ == remaining_items(old(source)@, indices_to_remove@),
    {
        let ghost s0 = source@;
        let ghost idx = indices_to_remove@;
        let mut removed: Vec<T> = Vec::new();
        let mut k: usize = 0;
        proof {
            assert(idx.skip(0) == idx);
            assert(removed@ + removed_items(source@, idx) =~= removed_items(s0, idx));
        }
        while k < indices_to_remove.len()
            invariant
                k <= idx.len(),
                idx == indices_to_remove@,
                removals_valid(source@, idx.skip(k as int)),
                removed@ + removed_items(source@, idx.skip(k as int)) == removed_items(s0, idx),
                remaining_items(source@, idx.skip(k as int)) == remaining_items(s0, idx),
            decreases idx.len() - k,
        {
            let i = indices_to_remove[k];
            let ghost before = source@;
            let ghost rest = idx.skip(k as int);
            proof {
                assert(rest[0] == i);
                assert(rest.skip(1) == idx.skip(k + 1));
            }
            let item = source.swap_remove(i);
            let ghost done = removed@;
            removed.push(item);
            proof {
                assert(source@ == swap_removed(before, i as int));
                assert(removed_items(before, rest) == seq![item] + removed_items(source@, idx.skip(k + 1)));
                assert(removed@ + removed_items(source@, idx.skip(k + 1)) =~= done + removed_items(before, rest));
            }
            k = k + 1;
        }
        proof {
            assert(idx.skip(idx.len() as int) == Seq::<usize>::empty());
            assert(removed@ + Seq::<T>::empty() == removed@);
        }
        removed
    }
}

/// Once a `--` is among the first `k` arguments, it stays the first one.
proof fn lemma_first_separator_extends(v: Seq<Seq<char>>, k: int)
    requires
        0 <= k <= v.len(),
        first_separator(v.take(k)) is Some,
    ensures
        first_separator(v) == first_separator(v.take(k)),
    decreases v.len() - k,
{
    if k < v.len() {
        assert(v.take(k + 1).drop_last() == v.take(k));
        lemma_first_separator_extends(v, k + 1);
    } else {
        assert(v.take(k) == v);
    }
}


/// A successful parse applies what the parser found: each flag given is on
/// afterwards and each flag not given keeps its value; a given entry point
/// replaces the old one; a given delay or iteration count that is a number in
/// range becomes the new value; the suppressed warnings are kept.
pub proof fn law_parse_applies_given_options(before: Options, m: OptionMatches, after: Options)
    requires
        applied(before, m, after),
    ensures
        m.unsafe_only ==> after.unsafe_only,
        m.show_entries ==> after.show_entries,
        m.show_entries_index ==> after.show_entries_index,
        m.deny_warnings ==> after.deny_warnings,
        m.memory_safety_only ==> after.memory_safety_only,
        !m.unsafe_only ==> after.unsafe_only == before.unsafe_only,
        !m.show_entries ==> after.show_entries == before.show_entries,
        !m.show_entries_index ==> after.show_entries_index == before.show_entries_index,
        !m.deny_warnings ==> after.deny_warnings == before.deny_warnings,
        !m.memory_safety_only ==> after.memory_safety_only == before.memory_safety_only,
        m.entry_point matches Some(s) ==> after.entry_point@ == s@,
        m.entry_point is None ==> after.entry_point@ == before.entry_point@,
        m.widening_delay matches Some(s) ==> (decimal_value(s@) matches Some(v) ==> (v <= u32::MAX
            ==> after.widening_delay == v)),
        m.widening_delay is None ==> after.widening_delay == before.widening_delay,
        m.cleaning_delay matches Some(s) ==> (decimal_value(s@) matches Some(v) ==> (v <= usize::MAX
            ==> after.cleaning_delay == v)),
        m.cleaning_delay is None ==> after.cleaning_delay == before.cleaning_delay,
        m.narrowing_iteration matches Some(s) ==> (decimal_value(s@) matches Some(v) ==> (v <= u32::MAX
            ==> after.narrowing_iteration == v)),
        m.narrowing_iteration is None ==> after.narrowing_iteration == before.narrowing_iteration,
        m.entry_def_id_index matches Some(s) ==> (decimal_value(s@) matches Some(v) ==> (v <= u32::MAX
            ==> after.entry_def_id_index == Some(v as u32))),
        m.entry_def_id_index matches Some(s) ==> (decimal_value(s@) is None ==> after.entry_def_id_index is None),
        m.domain_type is None ==> after.domain_type == before.domain_type,
        causes_view(after.suppressed_warnings) == causes_view(before.suppressed_warnings),
{
}

/// The domain names: each of the seven names selects its domain.
pub proof fn law_domain_type_names()
    ensures
        domain_type_named("interval"@) == Some(AbstractDomainType::Interval),
        domain_type_named("octagon"@) == Some(AbstractDomainType::Octagon),
        domain_type_named("polyhedra"@) == Some(AbstractDomainType::Polyhedra),
        domain_type_named("linear_equalities"@) == Some(AbstractDomainType::LinearEqualities),
        domain_type_named("ppl_polyhedra"@) == Some(AbstractDomainType::PplPolyhedra),
        domain_type_named("ppl_linear_congruences"@) == Some(AbstractDomainType::PplLinearCongruences),
        domain_type_named("pkgrid_polyhedra_linear_congruences"@) == Some(
            AbstractDomainType::PkgridPolyhedraLinCongruences,
        ),
{
    reveal_strlit("interval");
    reveal_strlit("octagon");
    reveal_strlit("polyhedra");
    reveal_strlit("linear_equalities");
    reveal_strlit("ppl_polyhedra");
    reveal_strlit("ppl_linear_congruences");
    reveal_strlit("pkgrid_polyhedra_linear_congruences");
    assert("octagon"@ != "interval"@) by {
        assert("octagon"@.len() != "interval"@.len());
    }
    assert("polyhedra"@ != "interval"@) by {
        assert("polyhedra"@.len() != "interval"@.len());
    }
    assert("polyhedra"@ != "octagon"@) by {
        assert("polyhedra"@.len() != "octagon"@.len());
    }
    assert("linear_equalities"@ != "interval"@) by {
        assert("linear_equalities"@.len() != "interval"@.len());
    }
    assert("linear_equalities"@ != "octagon"@) by {
        assert("linear_equalities"@.len() != "octagon"@.len());
    }
    assert("linear_equalities"@ != "polyhedra"@) by {
        assert("linear_equalities"@.len() != "polyhedra"@.len());
    }
    assert("ppl_polyhedra"@ != "interval"@) by {
        assert("ppl_polyhedra"@.len() != "interval"@.len());
    }
    assert("ppl_polyhedra"@ != "octagon"@) by {
        assert("ppl_polyhedra"@.len() != "octagon"@.len());
    }
    assert("ppl_polyhedra"@ != "polyhedra"@) by {
        assert("ppl_polyhedra"@.len() != "polyhedra"@.len());
    }
    assert("ppl_polyhedra"@ != "linear_equalities"@) by {
        assert("ppl_polyhedra"@.len() != "linear_equalities"@.len());
    }
    assert("ppl_linear_congruences"@ != "interval"@) by {
        assert("ppl_linear_congruences"@.len() != "interval"@.len());
    }
    assert("ppl_linear_congruences"@ != "octagon"@) by {
        assert("ppl_linear_congruences"@.len() != "octagon"@.len());
    }
    assert("ppl_linear_congruences"@ != "polyhedra"@) by {
        assert("ppl_linear_congruences"@.len() != "polyhedra"@.len());
    }
    assert("ppl_linear_congruences"@ != "linear_equalities"@) by {
        assert("ppl_linear_congruences"@.len() != "linear_equalities"@.len());
    }
    assert("ppl_linear_congruences"@ != "ppl_polyhedra"@) by {
        assert("ppl_linear_congruences"@.len() != "ppl_polyhedra"@.len());
    }
    assert("pkgrid_polyhedra_linear_congruences"@ != "interval"@) by {
        assert("pkgrid_polyhedra_linear_congruences"@.len() != "interval"@.len());
    }
    assert("pkgrid_polyhedra_linear_congruences"@ != "octagon"@) by {
        assert("pkgrid_polyhedra_linear_congruences"@.len() != "octagon"@.len());
    }
    assert("pkgrid_polyhedra_linear_congruences"@ != "polyhedra"@) by {
        assert("pkgrid_polyhedra_linear_congruences"@.len() != "polyhedra"@.len());
    }
    assert("pkgrid_polyhedra_linear_congruences"@ != "linear_equalities"@) by {
        assert("pkgrid_polyhedra_linear_congruences"@.len() != "linear_equalities"@.len());
    }
    assert("pkgrid_polyhedra_linear_congruences"@ != "ppl_polyhedra"@) by {
        assert("pkgrid_polyhedra_linear_congruences"@.len() != "ppl_polyhedra"@.len());
    }
    assert("pkgrid_polyhedra_linear_congruences"@ != "ppl_linear_congruences"@) by {
        assert("pkgrid_polyhedra_linear_congruences"@.len() != "ppl_linear_congruences"@.len());
    }
}

/// Each flag character names its diagnostic cause: `a` arithmetic, `b`
/// bit-wise, `s` assembly, `c` comparison, `d` division by zero, `m` memory,
/// `p` panic, `i` index; no other character names one.
pub proof fn law_flag_characters(c: char)
    ensures
        cause_for('a') == Some(DiagnosticCause::Arithmetic),
        cause_for('b') == Some(DiagnosticCause::Bitwise),
        cause_for('s') == Some(DiagnosticCause::Assembly),
        cause_for('c') == Some(DiagnosticCause::Comparison),
        cause_for('d') == Some(DiagnosticCause::DivZero),
        cause_for('m') == Some(DiagnosticCause::Memory),
        cause_for('p') == Some(DiagnosticCause::Panic),
        cause_for('i') == Some(DiagnosticCause::Index),
        c != 'a' && c != 'b' && c != 's' && c != 'c' && c != 'd' && c != 'm' && c != 'p' && c != 'i' ==> cause_for(
            c,
        ) is None,
{
}

} // verus!
