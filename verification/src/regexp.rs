//! Compiled regular expressions.  The regex engine itself is an outside
//! collaborator: compilation and matching go through small trusted wrappers,
//! and what a call returns is given a name — a function of the pattern and
//! the haystack alone — that the filter contracts then speak of exactly.

use vstd::prelude::*;

verus! {

#[verifier::external_type_specification]
#[verifier::external_body]
pub struct ExRegex(regex::Regex);

/// What `regex::Regex::new` yields for a pattern: `None` when the pattern
/// compiles, or `Some` of the engine's error message when it does not.
pub uninterp spec fn spec_regex_error(pattern: Seq<char>) -> Option<Seq<char>>;

/// The text of the leftmost match of `pattern` in `hay`, or the empty
/// sequence when there is no match.
pub uninterp spec fn spec_regex_match(pattern: Seq<char>, hay: Seq<char>) -> Seq<char>;

/// `hay` with the leftmost match of `pattern` replaced by `replacement`
/// (with the engine's `$group` expansions applied).
pub uninterp spec fn spec_regex_replace_first(
    pattern: Seq<char>,
    hay: Seq<char>,
    replacement: Seq<char>,
) -> Seq<char>;

/// `hay` with every non-overlapping match of `pattern` replaced by
/// `replacement` (with the engine's `$group` expansions applied).
pub uninterp spec fn spec_regex_replace_all(
    pattern: Seq<char>,
    hay: Seq<char>,
    replacement: Seq<char>,
) -> Seq<char>;

/// A compiled regular expression, together with the pattern it was compiled
/// from.  The compiled engine value is private: every `RegexHolder` is built
/// by `RegexHolder::new`, so its engine always belongs to its pattern.
#[derive(Debug)]
pub struct RegexHolder {
    pattern: String,
    regex: regex::Regex,
}

impl RegexHolder {
    /// The pattern this expression was compiled from.
    pub closed spec fn spec_pattern(self) -> Seq<char> {
        self.pattern@
    }

    /// Compiles `pattern`.
    ///
    /// Relies on `regex::Regex::new`: it compiles the pattern or reports an
    /// error, deterministically in the pattern alone.
    #[verifier::external_body]
    pub fn new(pattern: &str) -> (r: Result<RegexHolder, String>)
        ensures
            r matches Ok(h) ==> h.spec_pattern() == pattern@ && spec_regex_error(pattern@)
                is None,
            r matches Err(m) ==> spec_regex_error(pattern@) == Some(m@),
    {
        match regex::Regex::new(pattern) {
            Ok(regex) => Ok(RegexHolder { pattern: pattern.to_string(), regex }),
            Err(error) => Err(error.to_string()),
        }
    }

    /// The pattern, as written by the user.
    pub fn pattern(&self) -> (s: &str)
        ensures
            s@ == self.spec_pattern(),
    {
        self.pattern.as_str()
    }

    /// The text of the leftmost match in `hay`, or an empty string.
    ///
    /// Relies on `regex::Regex::find`: it returns the leftmost match, a
    /// function of the compiled pattern and the haystack alone.
    #[verifier::external_body]
    pub fn find_match(&self, hay: &str) -> (r: String)
        ensures
            r@ == spec_regex_match(self.spec_pattern(), hay@),
    {
        match self.regex.find(hay) {
            Some(found) => found.as_str().to_string(),
            None => String::new(),
        }
    }

    /// `hay` with the leftmost match replaced by `replacement`.
    ///
    /// Relies on `regex::Regex::replace`: it replaces the leftmost match,
    /// expanding `$group` references in the replacement, a function of the
    /// compiled pattern, the haystack and the replacement alone.
    #[verifier::external_body]
    pub fn replace_first(&self, hay: &str, replacement: &str) -> (r: String)
        ensures
            r@ == spec_regex_replace_first(self.spec_pattern(), hay@, replacement@),
    {
        self.regex.replace(hay, replacement).to_string()
    }

    /// `hay` with every non-overlapping match replaced by `replacement`.
    ///
    /// Relies on `regex::Regex::replace_all`: it replaces every
    /// non-overlapping match, expanding `$group` references in the
    /// replacement, a function of the compiled pattern, the haystack and the
    /// replacement alone.
    #[verifier::external_body]
    pub fn replace_all(&self, hay: &str, replacement: &str) -> (r: String)
        ensures
            r@ == spec_regex_replace_all(self.spec_pattern(), hay@, replacement@),
    {
        self.regex.replace_all(hay, replacement).to_string()
    }
}

impl PartialEq for RegexHolder {
    /// Two compiled expressions are equal when their patterns are.
    fn eq(&self, other: &Self) -> (r: bool) {
        self.pattern == other.pattern
    }
}

impl vstd::std_specs::cmp::PartialEqSpecImpl for RegexHolder {
    open spec fn obeys_eq_spec() -> bool {
        true
    }

    open spec fn eq_spec(&self, other: &Self) -> bool {
        self.spec_pattern() == other.spec_pattern()
    }
}

} // verus!
