//! Letter cases that identifiers can be converted to, through the `convert_case` crate.

use vstd::prelude::*;
use convert_case::Case as C;
use convert_case::Casing;

verus! {

/// A target case for identifier conversion.
#[derive(Clone, Copy, Debug, PartialEq, Eq, Structural, Hash)]
pub enum Case {
    /// `snake_case`
    Snake,
    /// `UPPER_SNAKE_CASE`
    UpperSnake,
    /// `CONSTANT_CASE`, the same as `UpperSnake`
    Constant,
    /// `Ada_Case`
    Ada,
    /// `kebab-case`
    Kebab,
    /// `UPPER-KEBAB-CASE`
    UpperKebab,
    /// `COBOL-CASE`, the same as `UpperKebab`
    Cobol,
    /// `Train-Case`
    Train,
    /// `flatcase`
    Flat,
    /// `UPPERFLATCASE`
    UpperFlat,
    /// `PascalCase`
    Pascal,
    /// `UpperCamelCase`, the same as `Pascal`
    UpperCamel,
    /// `camelCase`
    Camel,
    /// `lower case`
    Lower,
    /// `UPPER CASE`
    Upper,
    /// `Title Case`
    Title,
    /// `Sentence case`
    Sentence,
}

/// What `convert_case` produces when it converts `text` to `case`.
pub uninterp spec fn case_converted(text: Seq<char>, case: Case) -> Seq<char>;

/// Calls `convert_case::Casing::to_case` with the matching `convert_case::Case`. Claimed: the
/// result is `case_converted(text, case)`, a function of its arguments alone; how words are
/// split and joined is left unstated.
#[verifier::external_body]
pub(crate) fn convert_to_case(text: &str, case: Case) -> (out: String)
    ensures
        out@ == case_converted(text@, case),
{
    let target = match case {
        Case::Snake => C::Snake, Case::UpperSnake => C::UpperSnake, Case::Constant => C::Constant,
        Case::Ada => C::Ada, Case::Kebab => C::Kebab, Case::UpperKebab => C::UpperKebab,
        Case::Cobol => C::Cobol, Case::Train => C::Train, Case::Flat => C::Flat,
        Case::UpperFlat => C::UpperFlat, Case::Pascal => C::Pascal, Case::UpperCamel => C::UpperCamel,
        Case::Camel => C::Camel, Case::Lower => C::Lower, Case::Upper => C::Upper,
        Case::Title => C::Title, Case::Sentence => C::Sentence,
    };
    text.to_case(target)
}

} // verus!
