//! Regular expressions, as the `regex` crate matches them.
//!
//! Nothing here is proved: each function hands its arguments to the crate,
//! and its contract says what the crate's documentation says of the result.
//! What a pattern matches is stated of regular expressions that `Regex::new`
//! and `RegexSet::new` made, since a builder's options change it.

use vstd::prelude::*;

verus! {

/// A compiled regular expression.
#[verifier::external_type_specification]
#[verifier::external_body]
pub struct ExRegex(regex::Regex);

/// A compiled set of regular expressions.
#[verifier::external_type_specification]
#[verifier::external_body]
pub struct ExRegexSet(regex::RegexSet);

/// Why a pattern could not be compiled.
#[verifier::external_type_specification]
#[verifier::external_body]
pub struct ExRegexError(regex::Error);

/// The pattern that a regular expression was compiled from, as
/// `Regex::as_str` gives it.
pub uninterp spec fn regex_source(re: regex::Regex) -> Seq<char>;

/// The patterns that a set was compiled from, in their order, as
/// `RegexSet::patterns` gives them.
pub uninterp spec fn regex_set_sources(set: regex::RegexSet) -> Seq<Seq<char>>;

/// Whether a regular expression is as `Regex::new` makes it: compiled with
/// the options that the crate starts with. A builder can compile the same
/// pattern with other options, and then it matches otherwise.
pub uninterp spec fn regex_plain(re: regex::Regex) -> bool;

/// Whether a set is as `RegexSet::new` makes it: compiled with the options
/// that the crate starts with.
pub uninterp spec fn regex_set_plain(set: regex::RegexSet) -> bool;

/// Whether `Regex::new` accepts a pattern: the pattern is well formed, and
/// what it compiles to is within the size that the crate allows.
pub uninterp spec fn regex_accepts(pattern: Seq<char>) -> bool;

/// Whether `RegexSet::new` accepts some patterns: each is well formed, and
/// what they compile to together is within the size that the crate allows.
pub uninterp spec fn regex_set_accepts(patterns: Seq<Seq<char>>) -> bool;

/// What `Regex::captures` finds in a haystack for a pattern that
/// `Regex::new` compiled: nothing where the pattern matches nowhere, else for
/// each group of the pattern, counted from the whole match at place 0, the
/// text that it captured, if it took part in the match.
pub uninterp spec fn regex_captures(pattern: Seq<char>, haystack: Seq<char>) -> Option<
    Seq<Option<Seq<char>>>,
>;

/// Whether a pattern matches somewhere in a haystack.
pub open spec fn regex_matches(pattern: Seq<char>, haystack: Seq<char>) -> bool {
    regex_captures(pattern, haystack) is Some
}

/// The texts of some captured groups.
pub open spec fn group_texts(groups: Seq<Option<String>>) -> Seq<Option<Seq<char>>> {
    Seq::new(
        groups.len(),
        |i: int|
            match groups[i] {
                Some(text) => Some(text@),
                None => None,
            },
    )
}

/// Calls `Regex::new`. It returns a regular expression exactly where it
/// accepts the pattern, and that one is compiled from the pattern with the
/// options that the crate starts with.
#[verifier::external_body]
pub(crate) fn compile(pattern: &str) -> (compiled: Result<regex::Regex, regex::Error>)
    ensures
        compiled is Ok <==> regex_accepts(pattern@),
        compiled is Ok ==> regex_plain(compiled->Ok_0) && regex_source(compiled->Ok_0)
            == pattern@,
{
    regex::Regex::new(pattern)
}

/// Calls `RegexSet::new`. It returns a set exactly where it accepts the
/// patterns, and that one is compiled from the patterns, in their order, with
/// the options that the crate starts with.
#[verifier::external_body]
pub(crate) fn compile_set(patterns: &Vec<String>) -> (compiled: Result<
    regex::RegexSet,
    regex::Error,
>)
    ensures
        compiled is Ok <==> regex_set_accepts(Seq::new(patterns@.len(), |i: int| patterns@[i]@)),
        compiled is Ok ==> regex_set_plain(compiled->Ok_0) && regex_set_sources(compiled->Ok_0)
            == Seq::new(patterns@.len(), |i: int| patterns@[i]@),
{
    regex::RegexSet::new(patterns)
}

/// Calls `RegexSet::matches` and collects the places of the patterns that
/// match somewhere in the haystack. They come in ascending order. For a set
/// as `RegexSet::new` makes it, a place is among them exactly where `Regex::new`
/// of its pattern would match.
#[verifier::external_body]
pub(crate) fn set_matches(set: &regex::RegexSet, haystack: &str) -> (which: Vec<usize>)
    ensures
        forall|k: int| 0 <= k < which@.len() ==> (#[trigger] which@[k]) < regex_set_sources(*set).len(),
        forall|k: int, l: int| 0 <= k < l < which@.len() ==> which@[k] < which@[l],
        regex_set_plain(*set) ==> forall|i: int|
            0 <= i < regex_set_sources(*set).len() ==> (which@.contains(i as usize)
                <==> regex_matches(#[trigger] regex_set_sources(*set)[i], haystack@)),
{
    set.matches(haystack).into_iter().collect()
}

/// Calls `Regex::captures` and copies the text of each group, which is
/// none for a group that took no part in the match. For a regular expression
/// as `Regex::new` makes it, the result is what the pattern captures in the
/// haystack.
#[verifier::external_body]
pub(crate) fn captures(re: &regex::Regex, haystack: &str) -> (groups: Option<Vec<Option<String>>>)
    ensures
        regex_plain(*re) ==> (groups is Some <==> regex_captures(regex_source(*re), haystack@)
            is Some),
        regex_plain(*re) && groups is Some ==> group_texts(groups->0@) == regex_captures(
            regex_source(*re),
            haystack@,
        )->0,
{
    re.captures(haystack).map(|caps| caps.iter().map(|m| m.map(|m| String::from(m.as_str()))).collect())
}

} // verus!
