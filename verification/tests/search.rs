use aho_search::{AhoSearcher, MatchResult};

fn searcher(patterns: &[&str]) -> AhoSearcher {
    let owned: Vec<String> = patterns.iter().map(|p| p.to_string()).collect();
    match AhoSearcher::new(owned) {
        Ok(s) => s,
        Err(e) => panic!("patterns {:?} were not compiled: {}", patterns, e.message()),
    }
}

fn hit(pattern_index: usize, start: usize, end: usize) -> MatchResult {
    MatchResult { pattern_index, start, end }
}

/// Every place where a pattern stands in the haystack, found by comparing bytes,
/// in report order.
fn by_hand(patterns: &[&str], haystack: &str) -> Vec<MatchResult> {
    let h = haystack.as_bytes();
    let mut found = Vec::new();
    for end in 0..=h.len() {
        for start in 0..=end {
            for (i, p) in patterns.iter().enumerate() {
                if &h[start..end] == p.as_bytes() {
                    found.push(hit(i, start, end));
                }
            }
        }
    }
    found
}

#[test]
fn ushers_yields_she_he_hers() {
    let s = searcher(&["he", "she", "his", "hers"]);
    assert_eq!(s.search("ushers"), vec![hit(1, 1, 4), hit(0, 2, 4), hit(3, 2, 6)]);
}

#[test]
fn single_empty_pattern_matches_at_every_offset() {
    let s = searcher(&[""]);
    assert_eq!(s.search("abc"), vec![hit(0, 0, 0), hit(0, 1, 1), hit(0, 2, 2), hit(0, 3, 3)]);
    let long = "x".repeat(1000);
    let found = s.search(&long);
    assert_eq!(found.len(), 1001);
    for (i, m) in found.iter().enumerate() {
        assert_eq!(*m, hit(0, i, i));
    }
}

#[test]
fn single_empty_pattern_in_empty_haystack() {
    let s = searcher(&[""]);
    assert_eq!(s.search(""), vec![hit(0, 0, 0)]);
}

#[test]
fn searching_twice_gives_the_same_result() {
    let s = searcher(&["ab", "ba", "", "aba"]);
    let first = s.search("abababa");
    let second = s.search("abababa");
    assert_eq!(first, second);
    assert_eq!(first, by_hand(&["ab", "ba", "", "aba"], "abababa"));
}

#[test]
fn searching_does_not_depend_on_earlier_searches() {
    let s = searcher(&["he", "she", "his", "hers"]);
    let before = s.search("ushers");
    let _ = s.search("his hers she");
    assert_eq!(s.search("ushers"), before);
}

#[test]
fn two_builds_from_one_list_agree_on_every_haystack() {
    let patterns = ["he", "she", "his", "hers", "", "s"];
    let one = searcher(&patterns);
    let other = searcher(&patterns);
    for haystack in ["", "ushers", "his hers she", "sssss", "h", "hehehe", "shers and his"] {
        assert_eq!(one.search(haystack), other.search(haystack));
    }
}

#[test]
fn no_patterns_no_matches() {
    let s = searcher(&[]);
    assert_eq!(s.search(""), vec![]);
    assert_eq!(s.search("anything at all"), vec![]);
}

#[test]
fn pattern_equal_to_haystack_matches_once() {
    let s = searcher(&["haystack"]);
    assert_eq!(s.search("haystack"), vec![hit(0, 0, 8)]);
    let t = searcher(&["b", "abc", "c"]);
    let found = t.search("abc");
    let whole: Vec<&MatchResult> = found.iter().filter(|m| m.pattern_index == 1).collect();
    assert_eq!(whole, vec![&hit(1, 0, 3)]);
}

#[test]
fn overlapping_and_nested_matches_are_all_reported() {
    let s = searcher(&["abcd", "bcd", "cd", "b"]);
    assert_eq!(s.search("abcd"), vec![hit(3, 1, 2), hit(0, 0, 4), hit(1, 1, 4), hit(2, 2, 4)]);
    let t = searcher(&["append", "appendage", "app"]);
    assert_eq!(
        t.search("append the app to the appendage"),
        vec![
            hit(2, 0, 3),
            hit(0, 0, 6),
            hit(2, 11, 14),
            hit(2, 22, 25),
            hit(0, 22, 28),
            hit(1, 22, 31),
        ]
    );
    let u = searcher(&["ab", "ba"]);
    assert_eq!(
        u.search("abababa"),
        vec![hit(0, 0, 2), hit(1, 1, 3), hit(0, 2, 4), hit(1, 3, 5), hit(0, 4, 6), hit(1, 5, 7)]
    );
}

#[test]
fn matches_that_end_together_come_longest_first() {
    let s = searcher(&["bcd", "cd", "b", "abcd"]);
    assert_eq!(s.search("abcd"), vec![hit(2, 1, 2), hit(3, 0, 4), hit(0, 1, 4), hit(1, 2, 4)]);
}

#[test]
fn identical_patterns_are_reported_separately_in_list_order() {
    let s = searcher(&["foo", "foo"]);
    assert_eq!(s.search("foobarfoo"), vec![hit(0, 0, 3), hit(1, 0, 3), hit(0, 6, 9), hit(1, 6, 9)]);
    let t = searcher(&["a", "a", "aa", "a"]);
    assert_eq!(
        t.search("aa"),
        vec![hit(0, 0, 1), hit(1, 0, 1), hit(3, 0, 1), hit(2, 0, 2), hit(0, 1, 2), hit(1, 1, 2), hit(3, 1, 2)]
    );
}

#[test]
fn empty_pattern_beside_longer_patterns_is_reported_once_per_offset() {
    let s = searcher(&["", "abc"]);
    assert_eq!(
        s.search("abc"),
        vec![hit(0, 0, 0), hit(0, 1, 1), hit(0, 2, 2), hit(1, 0, 3), hit(0, 3, 3)]
    );
    let t = searcher(&["", "ab"]);
    assert_eq!(t.search("ab"), vec![hit(0, 0, 0), hit(0, 1, 1), hit(1, 0, 2), hit(0, 2, 2)]);
}

#[test]
fn pattern_indices_are_positions_in_the_given_list() {
    let s = searcher(&["a", "", "ab", ""]);
    assert_eq!(
        s.search("ab"),
        vec![
            hit(1, 0, 0),
            hit(3, 0, 0),
            hit(0, 0, 1),
            hit(1, 1, 1),
            hit(3, 1, 1),
            hit(2, 0, 2),
            hit(1, 2, 2),
            hit(3, 2, 2),
        ]
    );
    let t = searcher(&["", "", "a"]);
    assert_eq!(
        t.search("a"),
        vec![hit(0, 0, 0), hit(1, 0, 0), hit(2, 0, 1), hit(0, 1, 1), hit(1, 1, 1)]
    );
}

#[test]
fn offsets_count_bytes_not_characters() {
    let s = searcher(&["é", "©"]);
    assert_eq!(s.search("aéé"), vec![hit(0, 1, 3), hit(0, 3, 5)]);
    let t = searcher(&["日本", "本語", "語"]);
    assert_eq!(t.search("日本語"), vec![hit(0, 0, 6), hit(1, 3, 9), hit(2, 6, 9)]);
}

#[test]
fn haystack_without_any_pattern_gives_nothing() {
    let s = searcher(&["needle", "pin"]);
    assert_eq!(s.search("a stack of hay"), vec![]);
    assert_eq!(s.search(""), vec![]);
}

#[test]
fn every_occurrence_is_reported_exactly_once() {
    let lists: [&[&str]; 6] = [
        &["a", "ab", "bab", "b", "abab"],
        &["", "a", "aa", "aaa"],
        &["ab", "", "ab", "b", ""],
        &["abc", "bc", "c", "", "abcabc"],
        &["x"],
        &["aaaa", "aa", "a", "aaa"],
    ];
    let haystacks = ["", "a", "ab", "abab", "aaaa", "abcabc", "babab", "xaxbxc", "aaaaaaaa"];
    for patterns in lists.iter() {
        let s = searcher(patterns);
        for haystack in haystacks.iter() {
            let found = s.search(haystack);
            assert_eq!(found, by_hand(patterns, haystack), "{:?} in {:?}", patterns, haystack);
            for (i, m) in found.iter().enumerate() {
                assert_eq!(m.end - m.start, patterns[m.pattern_index].len());
                assert_eq!(&haystack.as_bytes()[m.start..m.end], patterns[m.pattern_index].as_bytes());
                for later in found[i + 1..].iter() {
                    assert_ne!(m, later);
                }
            }
        }
    }
}

#[test]
fn matches_come_by_increasing_end() {
    let s = searcher(&["he", "she", "his", "hers", "", "s", "rs"]);
    let found = s.search("his hers ushers she");
    for pair in found.windows(2) {
        assert!(pair[0].end <= pair[1].end);
        if pair[0].end == pair[1].end {
            assert!(pair[0].start <= pair[1].start);
        }
    }
}

#[test]
fn many_patterns_are_searched_together() {
    let words: Vec<String> = (0..300).map(|i| format!("w{}.", i)).collect();
    let s = AhoSearcher::new(words.clone()).unwrap();
    let found = s.search("w7.w299.w12.");
    assert_eq!(found, vec![hit(7, 0, 3), hit(299, 3, 8), hit(12, 8, 12)]);
}

/// A small generator of repeatable pseudo-random numbers.
fn step(state: &mut u64) -> u64 {
    *state = state.wrapping_mul(6364136223846793005).wrapping_add(1442695040888963407);
    *state >> 33
}

fn word(state: &mut u64, letters: &[char], longest: u64) -> String {
    let len = step(state) % (longest + 1);
    (0..len).map(|_| letters[(step(state) % letters.len() as u64) as usize]).collect()
}

fn agrees_with_search_by_hand(seed: u64, letters: &[char], lists: usize, most: u64, longest: u64) {
    let mut state = seed;
    for _ in 0..lists {
        let count = step(&mut state) % (most + 1);
        let owned: Vec<String> = (0..count).map(|_| word(&mut state, letters, longest)).collect();
        let patterns: Vec<&str> = owned.iter().map(|p| p.as_str()).collect();
        let s = searcher(&patterns);
        for _ in 0..4 {
            let haystack = word(&mut state, letters, 40);
            assert_eq!(
                s.search(&haystack),
                by_hand(&patterns, &haystack),
                "{:?} in {:?}",
                patterns,
                haystack
            );
        }
    }
}

#[test]
fn small_lists_over_two_letters_agree_with_search_by_hand() {
    agrees_with_search_by_hand(1, &['a', 'b'], 300, 6, 5);
}

#[test]
fn lists_over_mixed_letters_agree_with_search_by_hand() {
    agrees_with_search_by_hand(2, &['a', 'b', 'c', 'é', '語', 'z'], 200, 12, 4);
}

#[test]
fn long_lists_agree_with_search_by_hand() {
    agrees_with_search_by_hand(3, &['a', 'b', 'c'], 10, 400, 6);
}
