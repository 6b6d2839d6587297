//! Regular expressions, held as their source text and compiled by the `regex` crate.

use vstd::prelude::*;

verus! {

/// Whether `regex::Regex::new` accepts `pattern`.
pub uninterp spec fn regex_valid(pattern: Seq<char>) -> bool;

/// Whether the regex compiled from `pattern` matches somewhere in `text`.
pub uninterp spec fn regex_matches(pattern: Seq<char>, text: Seq<char>) -> bool;

/// `text` with every match of the regex compiled from `pattern` removed.
pub uninterp spec fn regex_removed(pattern: Seq<char>, text: Seq<char>) -> Seq<char>;

#[verifier::external_type_specification]
#[verifier::external_body]
pub struct ExRegexError(::regex::Error);

/// Calls `regex::Regex::new`. Claimed: it succeeds exactly when `pattern` is a valid
/// regex (`regex_valid`); the error it returns otherwise is left unstated.
#[verifier::external_body]
fn regex_compile(pattern: &str) -> (r: Result<(), ::regex::Error>)
    ensures
        r is Ok <==> regex_valid(pattern@),
{
    ::regex::Regex::new(pattern).map(|_compiled| ())
}

/// Calls `regex::Regex::is_match` on the regex compiled from `pattern`. Claimed: the
/// answer is `regex_matches(pattern, text)`, a function of the two texts alone.
#[verifier::external_body]
fn regex_is_match(pattern: &str, text: &str) -> (found: bool)
    requires
        regex_valid(pattern@),
    ensures
        found == regex_matches(pattern@, text@),
{
    ::regex::Regex::new(pattern).expect("validated regex").is_match(text)
}

/// Calls `regex::Regex::replace_all` with an empty replacement. Claimed: the result is
/// `regex_removed(pattern, text)`, and, as the crate documents, `text` itself when the
/// regex does not match it.
#[verifier::external_body]
fn regex_remove_all(pattern: &str, text: &str) -> (out: String)
    requires
        regex_valid(pattern@),
    ensures
        out@ == regex_removed(pattern@, text@),
        !regex_matches(pattern@, text@) ==> out@ == text@,
{
    ::regex::Regex::new(pattern).expect("validated regex").replace_all(text, "").into_owned()
}

/// A regular expression known to compile; its view is its source text.
#[derive(Debug)]
pub struct Regex {
    source: String,
}

impl View for Regex {
    type V = Seq<char>;

    closed spec fn view(&self) -> Seq<char> {
        self.source@
    }
}

impl Regex {
    #[verifier::type_invariant]
    closed spec fn compiles(self) -> bool {
        regex_valid(self.source@)
    }

    /// Compiles `pattern`; fails exactly when it is not a valid regex.
    pub fn new(pattern: &str) -> (r: Result<Regex, ::regex::Error>)
        ensures
            r is Ok <==> regex_valid(pattern@),
            r matches Ok(re) ==> re@ == pattern@,
    {
        match regex_compile(pattern) {
            Ok(()) => Ok(Regex { source: pattern.to_owned() }),
            Err(e) => Err(e),
        }
    }

    /// The source text of this regex.
    pub fn as_str(&self) -> (s: &str)
        ensures
            s@ == self@,
    {
        self.source.as_str()
    }

    /// Whether this regex matches somewhere in `text`.
    pub fn is_match(&self, text: &str) -> (found: bool)
        ensures
            found == regex_matches(self@, text@),
    {
        proof {
            use_type_invariant(self);
        }
        regex_is_match(self.source.as_str(), text)
    }

    /// `text` with every match of this regex removed.
    pub fn remove_all(&self, text: &str) -> (out: String)
        ensures
            out@ == regex_removed(self@, text@),
            !regex_matches(self@, text@) ==> out@ == text@,
    {
        proof {
            use_type_invariant(self);
        }
        regex_remove_all(self.source.as_str(), text)
    }
}

impl Clone for Regex {
    fn clone(&self) -> (r: Self)
        ensures
            r@ == self@,
    {
        proof {
            use_type_invariant(self);
        }
        Regex { source: self.source.clone() }
    }
}

} // verus!
