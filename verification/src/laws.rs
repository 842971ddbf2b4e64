//! What holds of every search result, proved from the description of a result
//! that [`AhoSearcher::search`] ensures.

use crate::matches::{
    is_match_listing, is_occurrence, lemma_listing_is_unique, reported_before, MatchResult,
};
use crate::searcher::{pattern_bytes, AhoSearcher};
use vstd::prelude::*;

verus! {

/// Every occurrence of every pattern, overlapping ones included, stands in the
/// result at exactly one place, and nothing else stands in it.
pub proof fn lemma_each_occurrence_once(
    patterns: Seq<Seq<u8>>,
    haystack: Seq<u8>,
    out: Seq<MatchResult>,
    m: MatchResult,
)
    requires
        is_match_listing(patterns, haystack, out),
    ensures
        is_occurrence(patterns, haystack, m) ==> exists|i: int|
            0 <= i < out.len() && #[trigger] out[i] == m && forall|j: int|
                0 <= j < out.len() && #[trigger] out[j] == m ==> j == i,
        !is_occurrence(patterns, haystack, m) ==> !out.contains(m),
{
    if is_occurrence(patterns, haystack, m) {
        assert(out.contains(m));
        let i = choose|i: int| 0 <= i < out.len() && out[i] == m;
        assert forall|j: int| 0 <= j < out.len() && #[trigger] out[j] == m implies j == i by {
            if j < i {
                assert(reported_before(out[j], out[i]));
            }
            if i < j {
                assert(reported_before(out[i], out[j]));
            }
        }
        assert(out[i] == m);
    } else {
        if out.contains(m) {
            let i = choose|i: int| 0 <= i < out.len() && out[i] == m;
            assert(is_occurrence(patterns, haystack, out[i]));
        }
    }
}

/// A single empty pattern is found at every offset of the haystack, its end
/// included, and nowhere twice: a haystack of `n` bytes gives `n + 1` matches,
/// the one at place `i` being the empty range at offset `i`.
pub proof fn lemma_empty_pattern_at_every_offset(haystack: Seq<u8>, out: Seq<MatchResult>)
    requires
        haystack.len() <= usize::MAX,
        is_match_listing(seq![Seq::<u8>::empty()], haystack, out),
    ensures
        out.len() == haystack.len() + 1,
        forall|i: int|
            0 <= i < out.len() ==> #[trigger] out[i] == (MatchResult {
                pattern_index: 0,
                start: i as usize,
                end: i as usize,
            }),
{
    let patterns = seq![Seq::<u8>::empty()];
    let rows = Seq::new(
        haystack.len() + 1,
        |i: int| MatchResult { pattern_index: 0, start: i as usize, end: i as usize },
    );
    assert forall|i: int| 0 <= i < rows.len() implies is_occurrence(
        patterns,
        haystack,
        #[trigger] rows[i],
    ) by {
        assert(haystack.subrange(i, i) =~= patterns[0]);
    }
    assert forall|m: MatchResult| #[trigger]
        is_occurrence(patterns, haystack, m) implies rows.contains(m) by {
        assert(haystack.subrange(m.start as int, m.end as int).len() == m.end - m.start);
        assert(rows[m.end as int] == m);
    }
    lemma_listing_is_unique(patterns, haystack, out, rows);
}

/// Searching the same haystack twice with the same searcher gives the same
/// result both times.
pub proof fn lemma_search_repeats(
    searcher: AhoSearcher,
    haystack: Seq<u8>,
    first: Seq<MatchResult>,
    second: Seq<MatchResult>,
)
    requires
        is_match_listing(searcher@, haystack, first),
        is_match_listing(searcher@, haystack, second),
    ensures
        first == second,
{
    lemma_listing_is_unique(searcher@, haystack, first, second);
}

/// Two searchers compiled from the same pattern list give the same result on
/// every haystack.
pub proof fn lemma_same_patterns_same_results(
    patterns: Seq<String>,
    one: AhoSearcher,
    other: AhoSearcher,
    haystack: Seq<u8>,
    from_one: Seq<MatchResult>,
    from_other: Seq<MatchResult>,
)
    requires
        one@ == pattern_bytes(patterns),
        other@ == pattern_bytes(patterns),
        is_match_listing(one@, haystack, from_one),
        is_match_listing(other@, haystack, from_other),
    ensures
        from_one == from_other,
{
    lemma_listing_is_unique(one@, haystack, from_one, from_other);
}

/// With no pattern there is no match, whatever the haystack.
pub proof fn lemma_no_pattern_no_match(haystack: Seq<u8>, out: Seq<MatchResult>)
    requires
        is_match_listing(Seq::<Seq<u8>>::empty(), haystack, out),
    ensures
        out.len() == 0,
{
    if out.len() > 0 {
        assert(is_occurrence(Seq::<Seq<u8>>::empty(), haystack, out[0]));
    }
}

/// A pattern that equals the whole haystack is found exactly once, spanning the
/// haystack from its first byte to its end. Where it is the only pattern, that
/// match is the whole result.
pub proof fn lemma_whole_haystack_pattern(
    patterns: Seq<Seq<u8>>,
    haystack: Seq<u8>,
    out: Seq<MatchResult>,
    p: usize,
)
    requires
        haystack.len() <= usize::MAX,
        (p as int) < patterns.len(),
        patterns[p as int] == haystack,
        is_match_listing(patterns, haystack, out),
    ensures
        out.contains(MatchResult { pattern_index: p, start: 0, end: haystack.len() as usize }),
        forall|i: int|
            0 <= i < out.len() && (#[trigger] out[i]).pattern_index == p ==> out[i] == (
            MatchResult { pattern_index: p, start: 0, end: haystack.len() as usize }),
        patterns.len() == 1 ==> out == seq![
            MatchResult { pattern_index: p, start: 0, end: haystack.len() as usize },
        ],
{
    let whole = MatchResult { pattern_index: p, start: 0, end: haystack.len() as usize };
    assert(is_occurrence(patterns, haystack, whole)) by {
        assert(haystack.subrange(0, haystack.len() as int) =~= haystack);
    }
    assert forall|i: int| 0 <= i < out.len() && (#[trigger] out[i]).pattern_index
        == p implies out[i] == whole by {
        let m = out[i];
        assert(is_occurrence(patterns, haystack, m));
        assert(haystack.subrange(m.start as int, m.end as int).len() == m.end - m.start);
    }
    if patterns.len() == 1 {
        let single = seq![whole];
        assert(single[0] == whole);
        assert forall|m: MatchResult| #[trigger]
            is_occurrence(patterns, haystack, m) implies single.contains(m) by {
            assert(haystack.subrange(m.start as int, m.end as int).len() == m.end - m.start);
            assert(m == whole);
        }
        lemma_listing_is_unique(patterns, haystack, out, single);
    }
}

} // verus!
