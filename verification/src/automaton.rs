//! The compiled automaton and its match iterator, which come from the
//! `aho-corasick` crate. Nothing in this file is proved: each item states what
//! is taken on trust from that crate, and everything else in the library is
//! proved from these statements.

use crate::matches::{is_match_listing, MatchResult};
use vstd::prelude::*;
use vstd::string::StringSliceAdditionalSpecFns;

verus! {

/// `aho_corasick::AhoCorasick`, a compiled automaton. Opaque to the verifier.
#[verifier::external_type_specification]
#[verifier::external_body]
pub struct ExAhoCorasick(aho_corasick::AhoCorasick);

/// `aho_corasick::BuildError`, the reason a pattern list was not compiled.
/// Opaque to the verifier.
#[verifier::external_type_specification]
#[verifier::external_body]
pub struct ExBuildError(aho_corasick::BuildError);

/// `aho_corasick::FindOverlappingIter`, an iterator over the overlapping
/// matches of one automaton in one haystack. Opaque to the verifier.
#[verifier::external_type_specification]
#[verifier::external_body]
pub struct ExFindOverlappingIter<'a, 'h>(aho_corasick::FindOverlappingIter<'a, 'h>);

/// The patterns an automaton was compiled from, in the order they were given,
/// each as its bytes.
pub uninterp spec fn compiled_needles(ac: aho_corasick::AhoCorasick) -> Seq<Seq<u8>>;

/// Whether an automaton was compiled with `MatchKind::Standard` for unanchored
/// searches, the one configuration in which it can be asked for overlapping
/// matches.
pub uninterp spec fn reports_overlaps(ac: aho_corasick::AhoCorasick) -> bool;

/// The matches a match iterator has yet to yield, next one first. The pattern
/// index of each is the pattern's position among the automaton's needles.
pub uninterp spec fn pending_matches(it: aho_corasick::FindOverlappingIter<'_, '_>) -> Seq<
    MatchResult,
>;

/// Whether `AhoCorasickBuilder::build` turns a list of needles down. It does so
/// only when the list is beyond one of its size limits (number of patterns,
/// length of a pattern, number of states), which the bytes alone decide.
pub uninterp spec fn build_refused(needles: Seq<Seq<u8>>) -> bool;

/// The text `BuildError`'s `Display` impl writes for an error.
pub uninterp spec fn build_error_text(e: aho_corasick::BuildError) -> Seq<char>;

/// The bytes of each needle.
pub open spec fn needle_bytes(needles: Seq<&str>) -> Seq<Seq<u8>> {
    Seq::new(needles.len(), |i: int| needles[i].spec_bytes())
}

/// `AhoCorasickBuilder::new().match_kind(MatchKind::Standard).build(..)`.
///
/// Trusted: whether the build succeeds is decided by the needles' bytes alone;
/// an automaton that is returned was compiled from exactly these needles, in
/// this order, with standard match semantics and the default unanchored start.
#[verifier::external_body]
pub(crate) fn build_standard(needles: &Vec<&str>) -> (built: Result<
    aho_corasick::AhoCorasick,
    aho_corasick::BuildError,
>)
    ensures
        built is Err <==> build_refused(needle_bytes(needles@)),
        built matches Ok(ac) ==> compiled_needles(ac) == needle_bytes(needles@)
            && reports_overlaps(ac),
{
    aho_corasick::AhoCorasickBuilder::new().match_kind(aho_corasick::MatchKind::Standard).build(
        needles,
    )
}

/// `BuildError`'s `to_string()`.
///
/// Trusted: the text is the one the error's `Display` impl writes.
#[verifier::external_body]
pub(crate) fn describe_build_error(e: &aho_corasick::BuildError) -> (text: String)
    ensures
        text@ == build_error_text(*e),
{
    e.to_string()
}

/// `AhoCorasick::find_overlapping_iter` on a whole haystack.
///
/// The call panics unless the automaton has standard match semantics, hence
/// the first precondition. The second keeps out automata with an empty
/// needle: the crate adds the empty needles to a state's matches once when it
/// copies the matches of the state's failure state and once more for the state
/// itself, so that it can yield the same empty match twice.
///
/// Trusted: with no empty needle, the iterator yields every occurrence of
/// every needle in the haystack's bytes exactly once, ordered by end, then by
/// start, then by needle index. (After each byte the automaton is in the state
/// of the longest suffix read that begins a needle, and yields that state's
/// matches in the order they are stored: the needles that end in the state, as
/// they were given, then the matches of its failure state, which are shorter.)
#[verifier::external_body]
pub(crate) fn overlapping_matches<'a, 'h>(
    ac: &'a aho_corasick::AhoCorasick,
    haystack: &'h str,
) -> (it: aho_corasick::FindOverlappingIter<'a, 'h>)
    requires
        reports_overlaps(*ac),
        forall|k: int| 0 <= k < compiled_needles(*ac).len() ==> compiled_needles(*ac)[k].len() > 0,
    ensures
        is_match_listing(compiled_needles(*ac), haystack.spec_bytes(), pending_matches(it)),
{
    ac.find_overlapping_iter(haystack)
}

/// `FindOverlappingIter::next`, each match handed out as a [`MatchResult`].
///
/// Trusted: the call yields the first pending match and leaves the others
/// pending, or yields `None` when none is pending.
#[verifier::external_body]
pub(crate) fn next_match(it: &mut aho_corasick::FindOverlappingIter<'_, '_>) -> (found: Option<
    MatchResult,
>)
    ensures
        pending_matches(*old(it)).len() == 0 ==> found is None && pending_matches(*final(it))
            == pending_matches(*old(it)),
        pending_matches(*old(it)).len() > 0 ==> found == Some(pending_matches(*old(it))[0])
            && pending_matches(*final(it)) == pending_matches(*old(it)).drop_first(),
{
    it.next().map(
        |m| MatchResult { pattern_index: m.pattern().as_usize(), start: m.start(), end: m.end() },
    )
}

} // verus!
