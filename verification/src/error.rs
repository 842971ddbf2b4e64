//! The failures a caller can be handed, and the text shown for each.

use vstd::prelude::*;
use vstd::string::StringExecFns;

verus! {

/// Why no searcher, or no result, could be handed over. Each kind carries the
/// detail that the failing step reported.
#[derive(Debug, PartialEq, Eq)]
pub enum SearchError {
    /// The input could not be read as a list of strings.
    InvalidPatternInput { detail: String },
    /// The pattern list is beyond what an automaton can be compiled from.
    AutomatonBuildFailure { detail: String },
    /// The match records could not be turned into the caller's representation.
    ResultEncodingFailure { detail: String },
}

impl SearchError {
    /// The detail that the failing step reported.
    pub open spec fn detail(self) -> Seq<char> {
        match self {
            SearchError::InvalidPatternInput { detail } => detail@,
            SearchError::AutomatonBuildFailure { detail } => detail@,
            SearchError::ResultEncodingFailure { detail } => detail@,
        }
    }

    /// The fixed text that opens the message of each kind.
    pub open spec fn headline(self) -> Seq<char> {
        match self {
            SearchError::InvalidPatternInput { .. } => "初始化失败：需要一个字符串数组。 "@,
            SearchError::AutomatonBuildFailure { .. } => "构建 AhoCorasick 失败："@,
            SearchError::ResultEncodingFailure { .. } => "序列化匹配结果失败："@,
        }
    }

    /// The message for this error: the headline of its kind, then the detail.
    pub fn message(&self) -> (text: String)
        ensures
            text@ == self.headline() + self.detail(),
    {
        match self {
            SearchError::InvalidPatternInput { detail } => {
                String::from_str("初始化失败：需要一个字符串数组。 ").concat(detail.as_str())
            },
            SearchError::AutomatonBuildFailure { detail } => {
                String::from_str("构建 AhoCorasick 失败：").concat(detail.as_str())
            },
            SearchError::ResultEncodingFailure { detail } => {
                String::from_str("序列化匹配结果失败：").concat(detail.as_str())
            },
        }
    }
}

} // verus!
