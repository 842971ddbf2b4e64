//! The searcher: a pattern list compiled once, then searched any number of times.
//!
//! Patterns that hold at least one byte (the needles) are compiled into an
//! automaton. Empty patterns occur at every offset of every haystack; the
//! searcher keeps their indices and reports them itself, in their place among
//! the automaton's matches.

use crate::automaton::{
    build_error_text, build_refused, build_standard, compiled_needles, describe_build_error,
    needle_bytes, next_match, overlapping_matches, pending_matches, reports_overlaps,
};
use crate::error::SearchError;
use crate::matches::{
    all_matches, in_report_order, is_match_listing, is_occurrence, lemma_append_in_order,
    lemma_listing_is_all_matches, reported_before, MatchResult,
};
use vstd::prelude::*;
use vstd::string::StringSliceAdditionalSpecFns;
use vstd::utf8::encode_utf8;

verus! {

/// The UTF-8 bytes of each pattern, in the order the patterns are given.
pub open spec fn pattern_bytes(patterns: Seq<String>) -> Seq<Seq<u8>> {
    Seq::new(patterns.len(), |i: int| encode_utf8(patterns[i]@))
}

/// The patterns that hold at least one byte, in the order they are given.
pub open spec fn needles_of(patterns: Seq<Seq<u8>>) -> Seq<Seq<u8>> {
    patterns.filter(|p: Seq<u8>| p.len() > 0)
}

/// Pattern `i` has its place: among `empties` if it is empty, in `origin` if not.
spec fn is_placed(patterns: Seq<Seq<u8>>, origin: Seq<usize>, empties: Seq<usize>, i: int) -> bool {
    if patterns[i].len() == 0 {
        exists|j: int| 0 <= j < empties.len() && #[trigger] empties[j] == i
    } else {
        exists|k: int| 0 <= k < origin.len() && #[trigger] origin[k] == i
    }
}

/// `origin` and `empties` split the indices of `patterns`: `origin[k]` is the
/// index of the pattern that became needle `k`, `empties` lists the indices of
/// the empty patterns, and both ascend.
spec fn is_split(
    patterns: Seq<Seq<u8>>,
    needles: Seq<Seq<u8>>,
    origin: Seq<usize>,
    empties: Seq<usize>,
) -> bool {
    &&& needles.len() == origin.len()
    &&& forall|k: int|
        0 <= k < origin.len() ==> (#[trigger] origin[k] as int) < patterns.len()
            && patterns[origin[k] as int] == needles[k] && needles[k].len() > 0
    &&& forall|k: int, l: int|
        0 <= k < l < origin.len() ==> #[trigger] origin[k] < #[trigger] origin[l]
    &&& forall|j: int|
        0 <= j < empties.len() ==> (#[trigger] empties[j] as int) < patterns.len()
            && patterns[empties[j] as int].len() == 0
    &&& forall|j: int, l: int|
        0 <= j < l < empties.len() ==> #[trigger] empties[j] < #[trigger] empties[l]
    &&& forall|i: int|
        0 <= i < patterns.len() ==> #[trigger] is_placed(patterns, origin, empties, i)
}

/// A split of a pattern list goes on to the list with one more pattern: the new
/// index joins `origin` if the pattern holds a byte, `empties` if it holds none.
proof fn lemma_split_next(
    patterns: Seq<Seq<u8>>,
    origin: Seq<usize>,
    empties: Seq<usize>,
    next: Seq<u8>,
    i: usize,
)
    requires
        i == patterns.len(),
        is_split(patterns, needles_of(patterns), origin, empties),
    ensures
        next.len() > 0 ==> is_split(
            patterns.push(next),
            needles_of(patterns.push(next)),
            origin.push(i),
            empties,
        ),
        next.len() == 0 ==> is_split(
            patterns.push(next),
            needles_of(patterns.push(next)),
            origin,
            empties.push(i),
        ),
{
    let longer = patterns.push(next);
    patterns.lemma_filter_push(next, |p: Seq<u8>| p.len() > 0);
    let origin1 = if next.len() > 0 {
        origin.push(i)
    } else {
        origin
    };
    let empties1 = if next.len() > 0 {
        empties
    } else {
        empties.push(i)
    };
    assert forall|x: int| 0 <= x < longer.len() implies #[trigger] is_placed(
        longer,
        origin1,
        empties1,
        x,
    ) by {
        if x < i {
            assert(is_placed(patterns, origin, empties, x));
            if patterns[x].len() == 0 {
                let j = choose|j: int| 0 <= j < empties.len() && #[trigger] empties[j] == x;
                assert(empties1[j] == x);
            } else {
                let k = choose|k: int| 0 <= k < origin.len() && #[trigger] origin[k] == x;
                assert(origin1[k] == x);
            }
        } else if next.len() > 0 {
            assert(origin1[origin.len() as int] == x);
        } else {
            assert(empties1[empties.len() as int] == x);
        }
    }
}

/// A match of the automaton, with its needle index replaced by the index of
/// the pattern that the needle came from.
spec fn lift(origin: Seq<usize>, r: MatchResult) -> MatchResult {
    MatchResult { pattern_index: origin[r.pattern_index as int], start: r.start, end: r.end }
}

/// A compiled pattern list. Its view is the list of the patterns' bytes.
pub struct AhoSearcher {
    ac: aho_corasick::AhoCorasick,
    origin: Vec<usize>,
    empties: Vec<usize>,
    patterns: Ghost<Seq<Seq<u8>>>,
}

impl View for AhoSearcher {
    type V = Seq<Seq<u8>>;

    closed spec fn view(&self) -> Seq<Seq<u8>> {
        self.patterns@
    }
}

impl AhoSearcher {
    #[verifier::type_invariant]
    spec fn well_formed(self) -> bool {
        &&& reports_overlaps(self.ac)
        &&& is_split(self.patterns@, compiled_needles(self.ac), self.origin@, self.empties@)
    }

    /// Compiles `patterns` into a searcher.
    ///
    /// Fails exactly when the automaton builder turns the non-empty patterns
    /// down; a searcher that is returned searches for exactly `patterns`.
    pub fn new(patterns: Vec<String>) -> (made: Result<AhoSearcher, SearchError>)
        ensures
            made is Err <==> build_refused(needles_of(pattern_bytes(patterns@))),
            made matches Ok(searcher) ==> searcher@ == pattern_bytes(patterns@),
            made matches Err(e) ==> e is AutomatonBuildFailure,
    {
        let ghost all = pattern_bytes(patterns@);
        let mut needles: Vec<&str> = Vec::new();
        let mut i: usize = 0;
        while i < patterns.len()
            invariant
                i <= patterns.len(),
                all == pattern_bytes(patterns@),
                needle_bytes(needles@) == needles_of(all.take(i as int)),
            decreases patterns.len() - i,
        {
            let pattern = patterns[i].as_str();
            proof {
                assert(all.take(i + 1) =~= all.take(i as int).push(all[i as int]));
                all.take(i as int).lemma_filter_push(all[i as int], |p: Seq<u8>| p.len() > 0);
                assert(needle_bytes(needles@.push(pattern)) =~= needle_bytes(needles@).push(
                    all[i as int],
                ));
            }
            if pattern.as_bytes().len() > 0 {
                needles.push(pattern);
            }
            i += 1;
        }
        proof {
            assert(all.take(i as int) =~= all);
        }
        let built = build_standard(&needles);
        Self::from_build(&patterns, built)
    }

    /// Compiles the pattern list that a decoder read from the caller's input,
    /// or passes on why the decoder could read none.
    ///
    /// Input that is no list of strings yields `InvalidPatternInput` with the
    /// decoder's own words, and no searcher. A list that was read is compiled
    /// as [`AhoSearcher::new`] compiles it.
    pub fn from_decoded(decoded: Result<Vec<String>, String>) -> (made: Result<
        AhoSearcher,
        SearchError,
    >)
        ensures
            decoded matches Err(why) ==> (made matches Err(
                SearchError::InvalidPatternInput { detail },
            ) && detail@ == why@),
            decoded matches Ok(patterns) ==> {
                &&& made is Err <==> build_refused(needles_of(pattern_bytes(patterns@)))
                &&& made matches Ok(searcher) ==> searcher@ == pattern_bytes(patterns@)
                &&& made matches Err(e) ==> e is AutomatonBuildFailure
            },
    {
        match decoded {
            Ok(patterns) => Self::new(patterns),
            Err(why) => Err(SearchError::InvalidPatternInput { detail: why }),
        }
    }

    /// Makes a searcher for `patterns` out of what the automaton builder
    /// returned for them.
    ///
    /// An automaton must be one that `AhoCorasickBuilder` built with
    /// `MatchKind::Standard` from the patterns that are not empty, in their
    /// order; it becomes a searcher for `patterns`. A build error becomes
    /// `AutomatonBuildFailure` with the error's own text.
    pub fn from_build(
        patterns: &Vec<String>,
        built: Result<aho_corasick::AhoCorasick, aho_corasick::BuildError>,
    ) -> (made: Result<AhoSearcher, SearchError>)
        requires
            built matches Ok(ac) ==> reports_overlaps(ac) && compiled_needles(ac) == needles_of(
                pattern_bytes(patterns@),
            ),
        ensures
            built is Ok ==> (made matches Ok(searcher) && searcher@ == pattern_bytes(patterns@)),
            built matches Err(e) ==> (made matches Err(
                SearchError::AutomatonBuildFailure { detail },
            ) && detail@ == build_error_text(e)),
    {
        match built {
            Err(e) => Err(SearchError::AutomatonBuildFailure { detail: describe_build_error(&e) }),
            Ok(ac) => {
                let ghost all = pattern_bytes(patterns@);
                let mut origin: Vec<usize> = Vec::new();
                let mut empties: Vec<usize> = Vec::new();
                let mut i: usize = 0;
                while i < patterns.len()
                    invariant
                        i <= patterns.len(),
                        all == pattern_bytes(patterns@),
                        is_split(
                            all.take(i as int),
                            needles_of(all.take(i as int)),
                            origin@,
                            empties@,
                        ),
                    decreases patterns.len() - i,
                {
                    proof {
                        assert(all.take(i + 1) =~= all.take(i as int).push(all[i as int]));
                        lemma_split_next(all.take(i as int), origin@, empties@, all[i as int], i);
                    }
                    if patterns[i].as_str().as_bytes().len() > 0 {
                        origin.push(i);
                    } else {
                        empties.push(i);
                    }
                    i += 1;
                }
                proof {
                    assert(all.take(i as int) =~= all);
                }
                Ok(AhoSearcher { ac, origin, empties, patterns: Ghost(all) })
            },
        }
    }

    /// Reports every occurrence of every pattern in `haystack`, overlapping ones
    /// included, each exactly once, with byte offsets, in report order.
    pub fn search(&self, haystack: &str) -> (out: Vec<MatchResult>)
        ensures
            is_match_listing(self@, haystack.spec_bytes(), out@),
            out@ == all_matches(self@, haystack.spec_bytes()),
            forall|i: int|
                0 <= i < out.len() ==> (#[trigger] out[i]).end - out[i].start
                    == self@[out[i].pattern_index as int].len(),
    {
        let ghost hay = haystack.spec_bytes();
        let len = haystack.as_bytes().len();
        proof {
            use_type_invariant(self);
            let needles = compiled_needles(self.ac);
            assert forall|k: int| 0 <= k < needles.len() implies needles[k].len() > 0 by {
                assert((self.origin@[k] as int) < self@.len());
            }
        }
        let mut it = overlapping_matches(&self.ac, haystack);
        let ghost raw = pending_matches(it);
        let ghost mut taken: int = 0;
        let mut out: Vec<MatchResult> = Vec::new();
        // The empty matches at every offset below `pos` are in `out`.
        let mut pos: usize = 0;
        loop
            invariant_except_break
                pending_matches(it) == raw.skip(taken),
            invariant
                0 <= taken <= raw.len(),
                pos <= len == hay.len(),
                is_match_listing(compiled_needles(self.ac), hay, raw),
                self.put_out(hay, raw, taken, pos as int, 0, out@),
                taken < raw.len() ==> pos <= raw[taken].end,
            ensures
                taken == raw.len(),
            decreases raw.len() - taken,
        {
            match next_match(&mut it) {
                None => {
                    break ;
                },
                Some(found) => {
                    proof {
                        use_type_invariant(self);
                        assert(raw.contains(raw[taken]));
                        self.lemma_lift(hay, raw[taken]);
                    }
                    self.push_empty_rows(
                        &mut out,
                        pos,
                        found.end,
                        Ghost(hay),
                        Ghost(raw),
                        Ghost(taken),
                    );
                    pos = found.end;
                    proof {
                        self.lemma_pass_on(hay, raw, taken, out@);
                        assert(raw.skip(taken).drop_first() =~= raw.skip(taken + 1));
                        assert(taken + 1 < raw.len() ==> reported_before(
                            raw[taken],
                            raw[taken + 1],
                        ));
                        taken = taken + 1;
                    }
                    out.push(
                        MatchResult {
                            pattern_index: self.origin[found.pattern_index],
                            start: found.start,
                            end: found.end,
                        },
                    );
                },
            }
        }
        self.push_empty_rows(&mut out, pos, len, Ghost(hay), Ghost(raw), Ghost(taken));
        self.push_empty_matches(&mut out, len, Ghost(hay), Ghost(raw), Ghost(taken));
        proof {
            use_type_invariant(self);
            self.lemma_all_put_out(hay, raw, out@);
            lemma_listing_is_all_matches(self@, hay, out@);
            assert forall|i: int| 0 <= i < out.len() implies (#[trigger] out[i]).end
                - out[i].start == self@[out[i].pattern_index as int].len() by {
                assert(out@.contains(out[i]));
                assert(hay.subrange(out[i].start as int, out[i].end as int).len() == out[i].end
                    - out[i].start);
            }
        }
        out
    }

    /// Adds the empty matches at every offset from `from` up to, not including,
    /// `to`. Without an empty pattern there is nothing to add.
    fn push_empty_rows(
        &self,
        out: &mut Vec<MatchResult>,
        from: usize,
        to: usize,
        Ghost(hay): Ghost<Seq<u8>>,
        Ghost(raw): Ghost<Seq<MatchResult>>,
        Ghost(taken): Ghost<int>,
    )
        requires
            from <= to <= hay.len(),
            self.put_out(hay, raw, taken, from as int, 0, old(out)@),
        ensures
            self.put_out(hay, raw, taken, to as int, 0, final(out)@),
    {
        if self.empties.len() == 0 {
            proof {
                use_type_invariant(self);
                self.lemma_rows_without_empties(hay, raw, taken, from as int, to as int, out@);
            }
            return ;
        }
        let mut at: usize = from;
        while at < to
            invariant
                from <= at <= to <= hay.len(),
                self.put_out(hay, raw, taken, at as int, 0, out@),
            decreases to - at,
        {
            self.push_empty_matches(out, at, Ghost(hay), Ghost(raw), Ghost(taken));
            at += 1;
        }
    }

    /// Adds the empty matches at offset `at`, one for each empty pattern, in
    /// the order of the patterns.
    fn push_empty_matches(
        &self,
        out: &mut Vec<MatchResult>,
        at: usize,
        Ghost(hay): Ghost<Seq<u8>>,
        Ghost(raw): Ghost<Seq<MatchResult>>,
        Ghost(taken): Ghost<int>,
    )
        requires
            at <= hay.len(),
            self.put_out(hay, raw, taken, at as int, 0, old(out)@),
        ensures
            self.put_out(hay, raw, taken, at + 1, 0, final(out)@),
    {
        let mut j: usize = 0;
        while j < self.empties.len()
            invariant
                j <= self.empties.len(),
                at <= hay.len(),
                self.put_out(hay, raw, taken, at as int, j as int, out@),
            decreases self.empties.len() - j,
        {
            proof {
                use_type_invariant(self);
                self.lemma_add_empty(hay, raw, taken, at as int, j as int, out@);
            }
            out.push(MatchResult { pattern_index: self.empties[j], start: at, end: at });
            j += 1;
        }
        proof {
            use_type_invariant(self);
            self.lemma_row_done(hay, raw, taken, at as int, out@);
        }
    }

    /// Whether the occurrence `m` has been put out once `taken` matches of the
    /// automaton have been passed on, the empty matches at every offset below
    /// `rows` have been added, and at offset `rows` those of the first `sub`
    /// empty patterns.
    spec fn settled(
        self,
        hay: Seq<u8>,
        raw: Seq<MatchResult>,
        taken: int,
        rows: int,
        sub: int,
        m: MatchResult,
    ) -> bool {
        &&& is_occurrence(self@, hay, m)
        &&& if m.start == m.end {
            m.end < rows || (m.end == rows && exists|j: int|
                0 <= j < sub && #[trigger] self.empties@[j] == m.pattern_index)
        } else {
            exists|q: int| 0 <= q < taken && lift(self.origin@, #[trigger] raw[q]) == m
        }
    }

    /// `out` holds, in report order, exactly the occurrences that are settled,
    /// and the matches of the automaton that were passed on end at `rows` or
    /// below.
    spec fn put_out(
        self,
        hay: Seq<u8>,
        raw: Seq<MatchResult>,
        taken: int,
        rows: int,
        sub: int,
        out: Seq<MatchResult>,
    ) -> bool {
        &&& in_report_order(out)
        &&& forall|m: MatchResult|
            #![trigger out.contains(m)]
            #![trigger self.settled(hay, raw, taken, rows, sub, m)]
            out.contains(m) <==> self.settled(hay, raw, taken, rows, sub, m)
        &&& forall|q: int| 0 <= q < taken ==> (#[trigger] raw[q]).end <= rows
    }

    /// A match of the automaton names, lifted, an occurrence of a pattern that
    /// is not empty.
    proof fn lemma_lift(self, hay: Seq<u8>, r: MatchResult)
        requires
            self.well_formed(),
            is_occurrence(compiled_needles(self.ac), hay, r),
        ensures
            (r.pattern_index as int) < self.origin@.len(),
            is_occurrence(self@, hay, lift(self.origin@, r)),
            r.start < r.end,
    {
        assert(self.origin@[r.pattern_index as int] < self@.len());
        assert(hay.subrange(r.start as int, r.end as int).len() == r.end - r.start);
    }

    /// Every occurrence of a pattern that is not empty is the lift of a match
    /// of the automaton.
    proof fn lemma_unlift(self, hay: Seq<u8>, m: MatchResult) -> (r: MatchResult)
        requires
            self.well_formed(),
            is_occurrence(self@, hay, m),
            m.start < m.end,
        ensures
            is_occurrence(compiled_needles(self.ac), hay, r),
            lift(self.origin@, r) == m,
    {
        let i = m.pattern_index as int;
        assert(hay.subrange(m.start as int, m.end as int).len() == m.end - m.start);
        assert(is_placed(self@, self.origin@, self.empties@, i));
        let k = choose|k: int| 0 <= k < self.origin@.len() && #[trigger] self.origin@[k] == i;
        assert(k < self.origin.len());
        assert(self.origin@[k] == m.pattern_index);
        MatchResult { pattern_index: k as usize, start: m.start, end: m.end }
    }

    /// The next match of the automaton may be put out once the empty matches
    /// below its end have been.
    proof fn lemma_pass_on(
        self,
        hay: Seq<u8>,
        raw: Seq<MatchResult>,
        taken: int,
        out: Seq<MatchResult>,
    )
        requires
            self.well_formed(),
            0 <= taken < raw.len(),
            is_match_listing(compiled_needles(self.ac), hay, raw),
            self.put_out(hay, raw, taken, raw[taken].end as int, 0, out),
        ensures
            self.put_out(
                hay,
                raw,
                taken + 1,
                raw[taken].end as int,
                0,
                out.push(lift(self.origin@, raw[taken])),
            ),
    {
        let x = lift(self.origin@, raw[taken]);
        let rows = raw[taken].end as int;
        assert(raw.contains(raw[taken]));
        self.lemma_lift(hay, raw[taken]);
        assert forall|m: MatchResult| out.contains(m) implies reported_before(m, x) by {
            assert(self.settled(hay, raw, taken, rows, 0, m));
            if m.start != m.end {
                let q = choose|q: int| 0 <= q < taken && lift(self.origin@, #[trigger] raw[q]) == m;
                assert(reported_before(raw[q], raw[taken]));
                assert(raw.contains(raw[q]));
                self.lemma_lift(hay, raw[q]);
            }
        }
        lemma_append_in_order(out, x);
        assert forall|m: MatchResult|
            #![trigger out.push(x).contains(m)]
            #![trigger self.settled(hay, raw, taken + 1, rows, 0, m)]
            out.push(x).contains(m) <==> self.settled(hay, raw, taken + 1, rows, 0, m) by {
            assert(out.contains(m) <==> self.settled(hay, raw, taken, rows, 0, m));
            if self.settled(hay, raw, taken, rows, 0, m) && m.start != m.end {
                let q = choose|q: int| 0 <= q < taken && lift(self.origin@, #[trigger] raw[q]) == m;
                assert(lift(self.origin@, raw[q]) == m);
            }
            if m == x {
                assert(lift(self.origin@, raw[taken]) == m);
            }
            if self.settled(hay, raw, taken + 1, rows, 0, m) && m.start != m.end && m != x {
                let q = choose|q: int|
                    0 <= q < taken + 1 && lift(self.origin@, #[trigger] raw[q]) == m;
                assert(lift(self.origin@, raw[q]) == m);
            }
        }
    }

    /// The empty match of the next empty pattern may be put out at `rows`.
    proof fn lemma_add_empty(
        self,
        hay: Seq<u8>,
        raw: Seq<MatchResult>,
        taken: int,
        rows: int,
        sub: int,
        out: Seq<MatchResult>,
    )
        requires
            self.well_formed(),
            0 <= rows <= hay.len(),
            rows <= usize::MAX,
            0 <= sub < self.empties@.len(),
            self.put_out(hay, raw, taken, rows, sub, out),
        ensures
            self.put_out(
                hay,
                raw,
                taken,
                rows,
                sub + 1,
                out.push(
                    MatchResult {
                        pattern_index: self.empties@[sub],
                        start: rows as usize,
                        end: rows as usize,
                    },
                ),
            ),
    {
        let x = MatchResult {
            pattern_index: self.empties@[sub],
            start: rows as usize,
            end: rows as usize,
        };
        assert(is_occurrence(self@, hay, x)) by {
            assert((self.empties@[sub] as int) < self@.len());
            assert(hay.subrange(rows, rows) =~= self@[self.empties@[sub] as int]);
        }
        assert forall|m: MatchResult| out.contains(m) implies reported_before(m, x) by {
            assert(self.settled(hay, raw, taken, rows, sub, m));
            if m.start == m.end && m.end == rows {
                let j = choose|j: int|
                    0 <= j < sub && #[trigger] self.empties@[j] == m.pattern_index;
                assert(self.empties@[j] < self.empties@[sub]);
            }
            if m.start != m.end {
                let q = choose|q: int| 0 <= q < taken && lift(self.origin@, #[trigger] raw[q]) == m;
                assert(raw[q].end <= rows);
            }
        }
        lemma_append_in_order(out, x);
        assert forall|m: MatchResult|
            #![trigger out.push(x).contains(m)]
            #![trigger self.settled(hay, raw, taken, rows, sub + 1, m)]
            out.push(x).contains(m) <==> self.settled(hay, raw, taken, rows, sub + 1, m) by {
            assert(out.contains(m) <==> self.settled(hay, raw, taken, rows, sub, m));
            if self.settled(hay, raw, taken, rows, sub, m) && m.start == m.end && m.end == rows {
                let j = choose|j: int|
                    0 <= j < sub && #[trigger] self.empties@[j] == m.pattern_index;
                assert(self.empties@[j] == m.pattern_index);
            }
            if m == x {
                assert(self.empties@[sub] == m.pattern_index);
            }
            if self.settled(hay, raw, taken, rows, sub + 1, m) && m.start == m.end && m.end == rows
                && m != x {
                let j = choose|j: int|
                    0 <= j < sub + 1 && #[trigger] self.empties@[j] == m.pattern_index;
                assert(self.empties@[j] == m.pattern_index);
            }
        }
    }

    /// Once every empty pattern has its match at `rows`, the empty matches up
    /// to and including `rows` are all put out.
    proof fn lemma_row_done(
        self,
        hay: Seq<u8>,
        raw: Seq<MatchResult>,
        taken: int,
        rows: int,
        out: Seq<MatchResult>,
    )
        requires
            self.well_formed(),
            self.put_out(hay, raw, taken, rows, self.empties@.len() as int, out),
        ensures
            self.put_out(hay, raw, taken, rows + 1, 0, out),
    {
        let full = self.empties@.len() as int;
        assert forall|m: MatchResult|
            #![trigger out.contains(m)]
            #![trigger self.settled(hay, raw, taken, rows + 1, 0, m)]
            out.contains(m) <==> self.settled(hay, raw, taken, rows + 1, 0, m) by {
            assert(out.contains(m) <==> self.settled(hay, raw, taken, rows, full, m));
            if is_occurrence(self@, hay, m) && m.start == m.end && m.end == rows {
                let i = m.pattern_index as int;
                assert(hay.subrange(m.start as int, m.end as int).len() == 0);
                assert(is_placed(self@, self.origin@, self.empties@, i));
                let j = choose|j: int|
                    0 <= j < self.empties@.len() && #[trigger] self.empties@[j] == i;
                assert(self.empties@[j] == m.pattern_index);
            }
        }
    }

    /// Without an empty pattern no offset has an empty match to wait for.
    proof fn lemma_rows_without_empties(
        self,
        hay: Seq<u8>,
        raw: Seq<MatchResult>,
        taken: int,
        from: int,
        to: int,
        out: Seq<MatchResult>,
    )
        requires
            self.well_formed(),
            self.empties@.len() == 0,
            from <= to,
            self.put_out(hay, raw, taken, from, 0, out),
        ensures
            self.put_out(hay, raw, taken, to, 0, out),
    {
        assert forall|m: MatchResult|
            #![trigger out.contains(m)]
            #![trigger self.settled(hay, raw, taken, to, 0, m)]
            out.contains(m) <==> self.settled(hay, raw, taken, to, 0, m) by {
            assert(out.contains(m) <==> self.settled(hay, raw, taken, from, 0, m));
            if is_occurrence(self@, hay, m) && m.start == m.end {
                assert(hay.subrange(m.start as int, m.end as int).len() == 0);
                assert(is_placed(self@, self.origin@, self.empties@, m.pattern_index as int));
            }
        }
    }

    /// When the automaton has no match left and the empty matches at every
    /// offset of the haystack are put out, the result is complete.
    proof fn lemma_all_put_out(self, hay: Seq<u8>, raw: Seq<MatchResult>, out: Seq<MatchResult>)
        requires
            self.well_formed(),
            is_match_listing(compiled_needles(self.ac), hay, raw),
            self.put_out(hay, raw, raw.len() as int, hay.len() as int + 1, 0, out),
        ensures
            is_match_listing(self@, hay, out),
    {
        let taken = raw.len() as int;
        let rows = hay.len() as int + 1;
        assert forall|m: MatchResult|
            #![trigger out.contains(m)]
            #![trigger is_occurrence(self@, hay, m)]
            out.contains(m) <==> is_occurrence(self@, hay, m) by {
            assert(out.contains(m) <==> self.settled(hay, raw, taken, rows, 0, m));
            if is_occurrence(self@, hay, m) {
                if m.start < m.end {
                    let r = self.lemma_unlift(hay, m);
                    assert(raw.contains(r));
                    let q = choose|q: int| 0 <= q < raw.len() && raw[q] == r;
                    assert(lift(self.origin@, raw[q]) == m);
                    assert(self.settled(hay, raw, taken, rows, 0, m));
                } else {
                    assert(m.end < rows);
                    assert(self.settled(hay, raw, taken, rows, 0, m));
                }
            }
        }
    }
}

} // verus!
