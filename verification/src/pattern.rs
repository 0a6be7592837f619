use vstd::prelude::*;
use crate::text::opt_view;

verus! {

/// `regex::Regex`, carried through the library as an opaque value.
#[verifier::external_type_specification]
#[verifier::external_body]
pub struct ExRegex(regex::Regex);

/// Whether `regex::Regex::new` accepts the pattern.
pub uninterp spec fn regex_valid(pattern: Seq<char>) -> bool;

/// What `Regex::is_match` answers for a valid pattern and a text.
pub uninterp spec fn regex_matches(pattern: Seq<char>, text: Seq<char>) -> bool;

/// What `Regex::replace_all` gives for a valid pattern, a text and a replacement.
pub uninterp spec fn regex_replaced(pattern: Seq<char>, text: Seq<char>, rep: Seq<char>) -> Seq<char>;

/// What `Regex::captures` gives for a valid pattern and a text: the whole
/// leftmost match and the text of group 1 (when it took part), or nothing.
pub uninterp spec fn regex_capture(pattern: Seq<char>, text: Seq<char>) -> Option<(Seq<char>, Option<Seq<char>>)>;

/// A compiled regular expression together with its source text.
pub struct Pattern {
    source: String,
    re: regex::Regex,
}

impl View for Pattern {
    type V = Seq<char>;

    closed spec fn view(&self) -> Seq<char> {
        self.source@
    }
}

impl Pattern {
    /// `regex::Regex::new`: compiles the pattern; `None` exactly when the
    /// regex crate rejects it.
    #[verifier::external_body]
    pub(crate) fn compile(pattern: &str) -> (r: Option<Pattern>)
        ensures
            r is Some <==> regex_valid(pattern@),
            r matches Some(p) ==> p@ == pattern@,
    {
        match regex::Regex::new(pattern) {
            Ok(re) => Some(Pattern { source: pattern.to_string(), re }),
            Err(_) => None,
        }
    }

    /// `Regex::is_match`: whether the pattern matches somewhere in `text`.
    #[verifier::external_body]
    pub(crate) fn is_match(&self, text: &str) -> (r: bool)
        ensures
            r == regex_matches(self@, text@),
    {
        self.re.is_match(text)
    }

    /// `Regex::replace_all`: every non-overlapping match replaced by `rep`.
    #[verifier::external_body]
    pub(crate) fn replace_all(&self, text: &str, rep: &str) -> (r: String)
        ensures
            r@ == regex_replaced(self@, text@, rep@),
    {
        self.re.replace_all(text, rep).into_owned()
    }

    /// `Regex::captures`: the leftmost match and its first group.
    #[verifier::external_body]
    pub(crate) fn captures(&self, text: &str) -> (r: Option<(String, Option<String>)>)
        ensures
            r matches Some(c) ==> regex_capture(self@, text@) == Some((c.0@, opt_view(c.1))),
            r is None ==> regex_capture(self@, text@) is None,
    {
        match self.re.captures(text) {
            Some(c) => Some((c[0].to_string(), c.get(1).map(|m| m.as_str().to_string()))),
            None => None,
        }
    }
}

/// The answer of `Regex::new(pattern)` followed by `is_match(text)`, with
/// `None` for a pattern the regex crate rejects.
pub open spec fn match_result(pattern: Seq<char>, text: Seq<char>) -> Option<bool> {
    if regex_valid(pattern) {
        Some(regex_matches(pattern, text))
    } else {
        None
    }
}

/// Compiles `pattern` and tests it on `text`.
pub fn match_text(pattern: &str, text: &str) -> (r: Option<bool>)
    ensures
        r == match_result(pattern@, text@),
{
    match Pattern::compile(pattern) {
        Some(p) => Some(p.is_match(text)),
        None => None,
    }
}

} // verus!
