//! The boundary to the `regex` crate.
//!
//! Nothing in this module is proved. The rest of the crate treats what the engine reports
//! as a list of candidates and checks each one against the document before using it.

use vstd::prelude::*;

verus! {

/// The error of `regex::Regex::new`, carried through unread.
#[verifier::external_type_specification]
#[verifier::external_body]
pub struct ExEngineError(regex::Error);

/// What the engine reports for `pattern` searched in `haystack`.
///
/// `None` when the engine does not compile `pattern`. Otherwise one entry for each
/// successive match, in the order the engine yields them: the byte offsets at which capture
/// group `group` starts and ends in that match, or `None` where the group took no part in it.
pub uninterp spec fn engine_captures(pattern: Seq<char>, group: usize, haystack: Seq<char>) -> Option<
    Seq<Option<(usize, usize)>>,
>;

/// Compiles `pattern` with `regex::Regex::new` and walks `Regex::captures_iter` over
/// `haystack`, reading from each `Captures` the `Match::start` and `Match::end` of
/// `Captures::get(group)`. An error of `Regex::new` is handed on.
///
/// The contract claims only that the outcome is the one [`engine_captures`] names, that is,
/// that it depends on the pattern, the group and the haystack and on nothing else. Which
/// spans are reported is not claimed, nor what the engine's documentation says of every
/// span (that it starts no later than it ends and lies in the haystack on character
/// boundaries): [`crate::extract::select`] tests each span instead.
#[verifier::external_body]
pub(crate) fn captures(pattern: &str, group: usize, haystack: &str) -> (r: Result<
    Vec<Option<(usize, usize)>>,
    regex::Error,
>)
    ensures
        match r {
            Ok(found) => engine_captures(pattern@, group, haystack@) == Some(found@),
            Err(_) => engine_captures(pattern@, group, haystack@) is None,
        },
{
    let compiled = regex::Regex::new(pattern)?;
    let spans = compiled.captures_iter(haystack).map(
        |c| c.get(group).map(|m| (m.start(), m.end())),
    );
    Ok(spans.collect())
}

} // verus!
