use vstd::prelude::*;
use vstd::string::*;
use crate::analysis::option::Options;
use crate::text::contains_text;
use crate::text::has_substring;

verus! {

/// The state that the compiler driver's callbacks carry: the analysis
/// options and the name of the source file being compiled.
pub struct CheckerCallbacks {
    pub analysis_options: Options,
    pub source_name: String,
}

/// A source file that belongs to the standard library or to a macro crate,
/// which the analysis skips.
pub open spec fn skipped_source(name: Seq<char>) -> bool {
    has_substring(name, "/libcore"@) || has_substring(name, "/compiler_builtins"@) || has_substring(
        name,
        "/liballoc"@,
    ) || has_substring(name, "/macro"@) || has_substring(name, "/libc"@)
}

impl CheckerCallbacks {
    /// Callbacks with the given options and no source file yet.
    pub fn new(options: Options) -> (c: Self)
        ensures
            c.analysis_options == options,
            c.source_name@ == Seq::<char>::empty(),
    {
        Self { analysis_options: options, source_name: String::new() }
    }

    /// Whether the analysis skips the source file.
    pub fn skips_source(&self) -> (r: bool)
        ensures
            r == skipped_source(self.source_name@),
    {
        let name = self.source_name.as_str();
        contains_text(name, "/libcore") || contains_text(name, "/compiler_builtins") || contains_text(
            name,
            "/liballoc",
        ) || contains_text(name, "/macro") || contains_text(name, "/libc")
    }
}

} // verus!
