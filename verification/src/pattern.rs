//! Regular expressions, matched by a regular-expression engine.

use crate::text::strings_view;
use vstd::prelude::*;

verus! {

/// Whether `pattern` is a regular expression that the engine accepts.
pub uninterp spec fn pattern_compiles(pattern: Seq<char>) -> bool;

/// Whether the regular expression `pattern` matches somewhere in `text`.
pub uninterp spec fn pattern_matches(pattern: Seq<char>, text: Seq<char>) -> bool;

/// The successive non-overlapping matches of the regular expression `pattern` in `text`,
/// from left to right.
pub uninterp spec fn pattern_finds(pattern: Seq<char>, text: Seq<char>) -> Seq<Seq<char>>;

/// Compiles `pattern` with `regex::Regex::new` and tests each of `texts` with
/// `regex::Regex::is_match`. There is a result exactly where the pattern compiles; it
/// holds one flag for each text, in order, and each flag is named by pattern and text.
#[verifier::external_body]
pub(crate) fn match_each(pattern: &str, texts: &Vec<String>) -> (res: Option<Vec<bool>>)
    ensures
        res is Some <==> pattern_compiles(pattern@),
        res matches Some(flags) ==> flags@.len() == texts@.len() && forall|i: int|
            0 <= i < texts@.len() ==> #[trigger] flags@[i] == pattern_matches(
                pattern@,
                texts@[i]@,
            ),
{
    let re = ::regex::Regex::new(pattern).ok()?;
    Some(texts.iter().map(|t| re.is_match(t)).collect())
}

/// Compiles `pattern` with `regex::Regex::new` and collects the text of each match that
/// `regex::Regex::find_iter` yields in `text`. There is a result exactly where the pattern
/// compiles; the matches are named by pattern and text.
#[verifier::external_body]
pub(crate) fn find_all(pattern: &str, text: &str) -> (res: Option<Vec<String>>)
    ensures
        res is Some <==> pattern_compiles(pattern@),
        res matches Some(found) ==> strings_view(found@) == pattern_finds(pattern@, text@),
{
    let re = ::regex::Regex::new(pattern).ok()?;
    Some(re.find_iter(text).map(|m| String::from(m.as_str())).collect())
}

} // verus!
