use vstd::prelude::*;

verus! {

/// What the regular expression `pattern` matches first in `text`, when that
/// match sits at the start of `text`.
pub uninterp spec fn anchored_match(pattern: Seq<char>, text: Seq<char>) -> Option<Seq<char>>;

/// A pattern that can only match at the start of a text: it begins with `^`,
/// which no repetition follows, and holds no alternation.
pub open spec fn is_anchored(pattern: Seq<char>) -> bool {
    &&& pattern.len() > 1
    &&& pattern[0] == '^'
    &&& pattern[1] != '*' && pattern[1] != '+' && pattern[1] != '?' && pattern[1] != '{'
    &&& forall|i: int| 0 <= i < pattern.len() ==> pattern[i] != '|'
}

/// Relies on `regex::Regex::new` and `regex::Regex::find`: compiles `pattern`
/// and returns the text of the leftmost-first match in `text` together with
/// what follows it. Without multi-line mode `^` matches only at the start of
/// the haystack, so for an anchored pattern the match is a prefix of `text`.
/// A pattern that does not compile matches nothing.
#[verifier::external_body]
pub(crate) fn find_anchored(pattern: &str, text: &str) -> (r: Option<(String, String)>)
    requires
        is_anchored(pattern@),
    ensures
        r is None <==> anchored_match(pattern@, text@) is None,
        r matches Some((m, rest)) ==> anchored_match(pattern@, text@) == Some(m@) && text@ == m@
            + rest@,
{
    match regex::Regex::new(pattern) {
        Ok(re) => match re.find(text) {
            Some(m) => Some((m.as_str().to_string(), text[m.end()..].to_string())),
            None => None,
        },
        Err(_) => None,
    }
}

} // verus!
