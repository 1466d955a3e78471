//! Pattern rules backed by the `regex` crate.
//!
//! The library never reads a `regex::Regex` directly: compilation and
//! matching go through the two trusted wrappers below, whose contracts
//! speak of the pattern's source text alone.

use vstd::prelude::*;

verus! {

/// `regex::Regex` appears as a field of [`CompiledPattern`]; the
/// library reads it only through the wrappers below.
#[verifier::external_type_specification]
#[verifier::external_body]
pub struct ExRegex(regex::Regex);

/// Whether `regex::Regex::new` accepts `pat` as a pattern; a function
/// of the pattern text alone.
pub uninterp spec fn regex_valid(pat: Seq<char>) -> bool;

/// Whether the expression compiled from `pat` matches anywhere inside
/// `text`; a function of the two character sequences alone.
pub uninterp spec fn regex_match(pat: Seq<char>, text: Seq<char>) -> bool;

/// A pattern rule: the source text it was declared with, paired with
/// the expression compiled from exactly that source.  `compile` is the
/// only constructor, so the pairing always holds.
pub struct CompiledPattern {
    source: String,
    regex: regex::Regex,
}

impl CompiledPattern {
    /// The source text this pattern was compiled from.
    pub closed spec fn src(&self) -> Seq<char> {
        self.source@
    }

    /// Relies on `regex::Regex::new`: succeeds exactly when the source
    /// is a valid regular expression; on failure it returns the
    /// parser's error text.
    #[verifier::external_body]
    pub(crate) fn compile(source: String) -> (r: Result<CompiledPattern, String>)
        ensures
            r is Ok <==> regex_valid(source@),
            r matches Ok(p) ==> p.src() == source@,
    {
        match regex::Regex::new(&source) {
            Ok(regex) => Ok(CompiledPattern { source, regex }),
            Err(e) => Err(e.to_string()),
        }
    }

    /// Relies on `regex::Regex::is_match`: true exactly when the
    /// compiled expression matches somewhere inside `text`.
    #[verifier::external_body]
    pub(crate) fn matches(&self, text: &str) -> (b: bool)
        ensures
            b == regex_match(self.src(), text@),
    {
        self.regex.is_match(text)
    }
}

} // verus!
