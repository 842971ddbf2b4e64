//! Match records and the mathematical description of a search result.
//!
//! A search result is a sequence of [`MatchResult`]s. What that sequence has to be
//! for a given pattern list and haystack is stated here once, over byte sequences,
//! and proved to determine the sequence completely.

use vstd::prelude::*;

verus! {

/// One reported occurrence of a pattern: the pattern's position in the list the
/// searcher was built from, and the half-open byte range `[start, end)` that the
/// occurrence covers in the haystack.
#[derive(Clone, Copy, Debug, PartialEq, Eq, Structural)]
pub struct MatchResult {
    pub pattern_index: usize,
    pub start: usize,
    pub end: usize,
}

/// `m` names a place where one of `patterns` stands in `haystack`, byte for byte.
pub open spec fn is_occurrence(patterns: Seq<Seq<u8>>, haystack: Seq<u8>, m: MatchResult) -> bool {
    &&& (m.pattern_index as int) < patterns.len()
    &&& m.start <= m.end
    &&& (m.end as int) <= haystack.len()
    &&& haystack.subrange(m.start as int, m.end as int) =~= patterns[m.pattern_index as int]
}

/// The order in which matches are reported: by increasing end; among matches
/// that end together the longer one first; among byte-identical patterns the
/// one given earlier first.
pub open spec fn reported_before(a: MatchResult, b: MatchResult) -> bool {
    ||| a.end < b.end
    ||| (a.end == b.end && a.start < b.start)
    ||| (a.end == b.end && a.start == b.start && a.pattern_index < b.pattern_index)
}

/// Every element of `out` comes strictly before each later one.
pub open spec fn in_report_order(out: Seq<MatchResult>) -> bool {
    forall|i: int, j: int|
        0 <= i < j < out.len() ==> reported_before(#[trigger] out[i], #[trigger] out[j])
}

/// `out` is the complete search result for `patterns` in `haystack`: it is in
/// report order (so nothing stands in it twice), and what stands in it are the
/// occurrences, all of them and nothing else.
pub open spec fn is_match_listing(
    patterns: Seq<Seq<u8>>,
    haystack: Seq<u8>,
    out: Seq<MatchResult>,
) -> bool {
    &&& in_report_order(out)
    &&& forall|m: MatchResult|
        #![trigger out.contains(m)]
        #![trigger is_occurrence(patterns, haystack, m)]
        out.contains(m) <==> is_occurrence(patterns, haystack, m)
}

/// The search result for `patterns` in `haystack`, as a value.
/// [`lemma_listing_is_all_matches`] shows that any listing equals it.
pub open spec fn all_matches(patterns: Seq<Seq<u8>>, haystack: Seq<u8>) -> Seq<MatchResult> {
    choose|out: Seq<MatchResult>| is_match_listing(patterns, haystack, out)
}

/// Two sequences in report order that hold the same matches are the same sequence.
pub proof fn lemma_report_order_is_canonical(a: Seq<MatchResult>, b: Seq<MatchResult>)
    requires
        in_report_order(a),
        in_report_order(b),
        forall|m: MatchResult| a.contains(m) <==> b.contains(m),
    ensures
        a == b,
    decreases a.len(),
{
    if a.len() == 0 {
        if b.len() > 0 {
            assert(b.contains(b[0]));
            assert(a.contains(b[0]));
        }
        assert(a =~= b);
    } else {
        let top = a.last();
        assert(a.contains(top));
        assert(b.contains(top));
        let j = choose|j: int| 0 <= j < b.len() && b[j] == top;
        assert(b.contains(b.last()));
        assert(a.contains(b.last()));
        let i = choose|i: int| 0 <= i < a.len() && a[i] == b.last();
        // `top` is the greatest element of both, so it is the last of `b` too.
        assert(j == b.len() - 1) by {
            if j < b.len() - 1 {
                assert(reported_before(b[j], b[b.len() - 1]));
                if i < a.len() - 1 {
                    assert(reported_before(a[i], a[a.len() - 1]));
                }
            }
        }
        let a0 = a.drop_last();
        let b0 = b.drop_last();
        assert forall|m: MatchResult| a0.contains(m) <==> b0.contains(m) by {
            if a0.contains(m) {
                let k = choose|k: int| 0 <= k < a0.len() && a0[k] == m;
                assert(a[k] == m);
                assert(reported_before(a[k], a[a.len() - 1]));
                assert(a.contains(m));
                let l = choose|l: int| 0 <= l < b.len() && b[l] == m;
                assert(l < b.len() - 1);
                assert(b0[l] == m);
            }
            if b0.contains(m) {
                let k = choose|k: int| 0 <= k < b0.len() && b0[k] == m;
                assert(b[k] == m);
                assert(reported_before(b[k], b[b.len() - 1]));
                assert(b.contains(m));
                let l = choose|l: int| 0 <= l < a.len() && a[l] == m;
                assert(l < a.len() - 1);
                assert(a0[l] == m);
            }
        }
        assert(in_report_order(a0)) by {
            assert forall|x: int, y: int| 0 <= x < y < a0.len() implies reported_before(
                #[trigger] a0[x],
                #[trigger] a0[y],
            ) by {
                assert(reported_before(a[x], a[y]));
            }
        }
        assert(in_report_order(b0)) by {
            assert forall|x: int, y: int| 0 <= x < y < b0.len() implies reported_before(
                #[trigger] b0[x],
                #[trigger] b0[y],
            ) by {
                assert(reported_before(b[x], b[y]));
            }
        }
        lemma_report_order_is_canonical(a0, b0);
        assert(a =~= a0.push(top));
        assert(b =~= b0.push(top));
    }
}

/// A match that comes after everything in `out` can be added at its end: the
/// order is kept, and nothing else comes in.
pub proof fn lemma_append_in_order(out: Seq<MatchResult>, x: MatchResult)
    requires
        in_report_order(out),
        forall|m: MatchResult| out.contains(m) ==> reported_before(m, x),
    ensures
        in_report_order(out.push(x)),
        forall|m: MatchResult| #[trigger] out.push(x).contains(m) <==> (out.contains(m) || m == x),
{
    let next = out.push(x);
    assert forall|a: int, b: int| 0 <= a < b < next.len() implies reported_before(
        #[trigger] next[a],
        #[trigger] next[b],
    ) by {
        if b < out.len() {
            assert(reported_before(out[a], out[b]));
        } else {
            assert(out.contains(out[a]));
        }
    }
    assert forall|m: MatchResult| #[trigger] next.contains(m) <==> (out.contains(m) || m == x) by {
        if next.contains(m) {
            let i = choose|i: int| 0 <= i < next.len() && next[i] == m;
            if i < out.len() {
                assert(out[i] == m);
            }
        }
        if out.contains(m) {
            let i = choose|i: int| 0 <= i < out.len() && out[i] == m;
            assert(next[i] == m);
        }
        if m == x {
            assert(next[out.len() as int] == m);
        }
    }
}

/// A pattern list and a haystack have at most one listing.
pub proof fn lemma_listing_is_unique(
    patterns: Seq<Seq<u8>>,
    haystack: Seq<u8>,
    a: Seq<MatchResult>,
    b: Seq<MatchResult>,
)
    requires
        is_match_listing(patterns, haystack, a),
        is_match_listing(patterns, haystack, b),
    ensures
        a == b,
{
    assert forall|m: MatchResult| a.contains(m) <==> b.contains(m) by {
        assert(a.contains(m) <==> is_occurrence(patterns, haystack, m));
        assert(b.contains(m) <==> is_occurrence(patterns, haystack, m));
    }
    lemma_report_order_is_canonical(a, b);
}

/// Any listing is the value that [`all_matches`] names.
pub proof fn lemma_listing_is_all_matches(
    patterns: Seq<Seq<u8>>,
    haystack: Seq<u8>,
    out: Seq<MatchResult>,
)
    requires
        is_match_listing(patterns, haystack, out),
    ensures
        out == all_matches(patterns, haystack),
{
    lemma_listing_is_unique(patterns, haystack, out, all_matches(patterns, haystack));
}

} // verus!
