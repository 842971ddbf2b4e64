use aho_corasick::{AhoCorasickBuilder, MatchKind};
use aho_search::{AhoSearcher, MatchResult, SearchError};

fn strings(patterns: &[&str]) -> Vec<String> {
    patterns.iter().map(|p| p.to_string()).collect()
}

/// A pattern one byte longer than the longest the automaton builder takes.
fn oversized_pattern() -> String {
    String::from_utf8(vec![0u8; 2147483647]).unwrap()
}

#[test]
fn input_that_is_no_string_list_yields_invalid_pattern_input() {
    let made = AhoSearcher::from_decoded(Err(String::from("invalid type: integer `7`, expected a string")));
    match made {
        Err(e) => assert_eq!(
            e,
            SearchError::InvalidPatternInput {
                detail: String::from("invalid type: integer `7`, expected a string"),
            }
        ),
        Ok(_) => panic!("a searcher was made from input that could not be read"),
    }
}

#[test]
fn decoded_list_is_compiled() {
    let s = AhoSearcher::from_decoded(Ok(strings(&["he", "she", "his", "hers"]))).unwrap();
    assert_eq!(
        s.search("ushers"),
        vec![
            MatchResult { pattern_index: 1, start: 1, end: 4 },
            MatchResult { pattern_index: 0, start: 2, end: 4 },
            MatchResult { pattern_index: 3, start: 2, end: 6 },
        ]
    );
}

#[test]
fn ordinary_lists_are_compiled() {
    assert!(AhoSearcher::new(strings(&[])).is_ok());
    assert!(AhoSearcher::new(strings(&[""])).is_ok());
    assert!(AhoSearcher::new(strings(&["", ""])).is_ok());
    assert!(AhoSearcher::new(strings(&["a", "a", "b"])).is_ok());
}

#[test]
fn oversized_pattern_yields_automaton_build_failure() {
    let made = AhoSearcher::new(vec![String::from("ok"), oversized_pattern()]);
    match made {
        Err(e) => {
            assert_eq!(
                e,
                SearchError::AutomatonBuildFailure {
                    detail: String::from(
                        "pattern 1 with length 2147483647 exceeds the maximum pattern length of 2147483646"
                    ),
                }
            );
            assert_eq!(
                e.message(),
                "构建 AhoCorasick 失败：pattern 1 with length 2147483647 exceeds the maximum pattern length of 2147483646"
            );
        }
        Ok(_) => panic!("a pattern beyond the builder's limit was compiled"),
    }
}

#[test]
fn needle_index_in_a_build_error_counts_needles() {
    let made = AhoSearcher::new(vec![String::new(), oversized_pattern()]);
    match made {
        Err(SearchError::AutomatonBuildFailure { detail }) => assert_eq!(
            detail,
            "pattern 0 with length 2147483647 exceeds the maximum pattern length of 2147483646"
        ),
        _ => panic!("expected a build failure"),
    }
}

#[test]
fn from_build_wraps_an_automaton_of_the_needles() {
    let patterns = strings(&["", "abc", "", "bc"]);
    let built = AhoCorasickBuilder::new().match_kind(MatchKind::Standard).build(["abc", "bc"]);
    let s = AhoSearcher::from_build(&patterns, built).unwrap();
    assert_eq!(
        s.search("abc"),
        vec![
            MatchResult { pattern_index: 0, start: 0, end: 0 },
            MatchResult { pattern_index: 2, start: 0, end: 0 },
            MatchResult { pattern_index: 0, start: 1, end: 1 },
            MatchResult { pattern_index: 2, start: 1, end: 1 },
            MatchResult { pattern_index: 0, start: 2, end: 2 },
            MatchResult { pattern_index: 2, start: 2, end: 2 },
            MatchResult { pattern_index: 1, start: 0, end: 3 },
            MatchResult { pattern_index: 3, start: 1, end: 3 },
            MatchResult { pattern_index: 0, start: 3, end: 3 },
            MatchResult { pattern_index: 2, start: 3, end: 3 },
        ]
    );
}

#[test]
fn from_build_passes_a_build_error_on() {
    let big = oversized_pattern();
    let built = AhoCorasickBuilder::new().match_kind(MatchKind::Standard).build([big.as_str()]);
    let text = match &built {
        Err(e) => e.to_string(),
        Ok(_) => panic!("the builder took a pattern beyond its limit"),
    };
    let made = AhoSearcher::from_build(&vec![big], built);
    match made {
        Err(e) => assert_eq!(e, SearchError::AutomatonBuildFailure { detail: text }),
        Ok(_) => panic!("a searcher was made from a build error"),
    }
}

#[test]
fn each_error_has_its_message() {
    let invalid = SearchError::InvalidPatternInput { detail: String::from("expected a sequence") };
    assert_eq!(invalid.message(), "初始化失败：需要一个字符串数组。 expected a sequence");
    let build = SearchError::AutomatonBuildFailure { detail: String::from("too many states") };
    assert_eq!(build.message(), "构建 AhoCorasick 失败：too many states");
    let encoding = SearchError::ResultEncodingFailure { detail: String::from("not representable") };
    assert_eq!(encoding.message(), "序列化匹配结果失败：not representable");
    let bare = SearchError::ResultEncodingFailure { detail: String::new() };
    assert_eq!(bare.message(), "序列化匹配结果失败：");
}
