//! Regular expressions of the Markdown and HTML clean-up, and how their matches
//! split a text.
use vstd::prelude::*;

verus! {

/// A Markdown link or image: the bracketed label (group 1, with an optional `!`),
/// then the target in parentheses (group 2), then an optional title.
pub const MARKDOWN_LINK_PATTERN: &'static str = r"(?P<p>!?\[.*?])\((?P<u>[^ )]+)(?:\s+.*?)?\)";

/// An HTML attribute with a quoted value; its name is group 1.
pub const HTML_ATTRIBUTE_PATTERN: &'static str = r#"(\w+)=["'][^"']*["']"#;

/// An attribute with an empty value, with the white space before or after it.
pub const EMPTY_ATTRIBUTE_PATTERN: &'static str = r#"\s+\w+=""|\w+=""\s+"#;

/// The patterns that this library matches with.
pub open spec fn known_pattern(p: Seq<char>) -> bool {
    p == MARKDOWN_LINK_PATTERN@ || p == HTML_ATTRIBUTE_PATTERN@ || p == EMPTY_ATTRIBUTE_PATTERN@
}

/// One match of a pattern in a text.
pub struct RegexMatch {
    /// The text between the end of the previous match (or the start) and this one.
    pub before: String,
    /// The text of the whole match.
    pub whole: String,
    /// The capture groups from group 1 on; `None` for a group that took no part.
    pub groups: Vec<Option<String>>,
}

/// A text split by the matches of a pattern.
pub struct RegexSplit {
    pub matches: Vec<RegexMatch>,
    /// The text after the last match.
    pub tail: String,
}

/// The view of one match: before, whole, groups.
pub type MatchView = (Seq<char>, Seq<char>, Seq<Option<Seq<char>>>);

impl RegexMatch {
    pub open spec fn view(&self) -> MatchView {
        (self.before@, self.whole@, self.groups@.map_values(|g: Option<String>| crate::web::opt_view(g)))
    }
}

impl RegexSplit {
    pub open spec fn view(&self) -> (Seq<MatchView>, Seq<char>) {
        (self.matches@.map_values(|m: RegexMatch| m.view()), self.tail@)
    }
}

/// The leftmost-first, non-overlapping matches of `pattern` in `text` that the
/// `regex` crate finds (`Regex::captures_iter`), as the pieces of `text` they leave.
pub uninterp spec fn regex_split(pattern: Seq<char>, text: Seq<char>) -> (Seq<MatchView>, Seq<char>);

/// The text that the matches `ms` cover together with the text before each.
pub open spec fn covered(ms: Seq<MatchView>) -> Seq<char>
    decreases ms.len(),
{
    if ms.len() == 0 {
        seq![]
    } else {
        ms[0].0 + ms[0].1 + covered(ms.skip(1))
    }
}

/// `Regex::new(pattern)` and `Regex::captures_iter` on `text`, each match taken
/// apart into plain strings. The matches are named `regex_split`; the `regex`
/// crate documents that they partition `text` in order, which is stated.
#[verifier::external_body]
pub(crate) fn split_by_pattern(pattern: &str, text: &str) -> (r: RegexSplit)
    requires
        known_pattern(pattern@),
    ensures
        r.view() == regex_split(pattern@, text@),
        covered(r.view().0) + r.view().1 == text@,
{
    let re = regex::Regex::new(pattern).unwrap();
    let (mut matches, mut last) = (Vec::new(), 0);
    for caps in re.captures_iter(text) {
        let m = caps.get(0).unwrap();
        let groups = caps.iter().skip(1).map(|g| g.map(|x| x.as_str().to_string())).collect();
        let before = text[last..m.start()].to_string();
        matches.push(RegexMatch { before, whole: m.as_str().to_string(), groups });
        last = m.end();
    }
    RegexSplit { matches, tail: text[last..].to_string() }
}

} // verus!
