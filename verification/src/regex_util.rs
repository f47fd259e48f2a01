//! Regular expressions through the `regex` crate.
use vstd::prelude::*;

verus! {

/// Whether `regex::Regex::new` accepts the pattern.
pub uninterp spec fn regex_valid(pattern: Seq<char>) -> bool;

/// The capture groups of each successive non-overlapping match of the pattern
/// in the text (`Regex::captures_iter`), group 0 being the whole match; a
/// group that did not take part is `None`.
pub uninterp spec fn regex_captures(pattern: Seq<char>, text: Seq<char>) -> Seq<Seq<Option<Seq<char>>>>;

/// `Regex::replace_all` with a replacement string (where `$n` / `${name}`
/// refer to groups).
pub uninterp spec fn regex_replace(pattern: Seq<char>, text: Seq<char>, replacement: Seq<char>) -> Seq<char>;

/// A compiled regular expression, kept with its pattern.
pub struct ParsedRegex {
    re: regex::Regex,
    pattern: String,
}

#[verifier::external_type_specification]
#[verifier::external_body]
pub struct ExRegex(regex::Regex);

impl View for ParsedRegex {
    type V = Seq<char>;

    closed spec fn view(&self) -> Seq<char> {
        self.pattern@
    }
}

/// `regex::Regex::new`: the compiled pattern, when it is valid.
#[verifier::external_body]
pub(crate) fn regex_new(pattern: &str) -> (r: Option<ParsedRegex>)
    ensures
        r is Some <==> regex_valid(pattern@),
        r matches Some(x) ==> x@ == pattern@,
{
    match regex::Regex::new(pattern) {
        Ok(re) => Some(ParsedRegex { re, pattern: pattern.to_owned() }),
        Err(_) => None,
    }
}

/// The view of captured groups.
pub open spec fn caps_view(c: Seq<Vec<Option<String>>>) -> Seq<Seq<Option<Seq<char>>>> {
    c.map_values(|g: Vec<Option<String>>| g@.map_values(|o: Option<String>| crate::text::opt_str(o)))
}

/// `Regex::captures_iter`: the groups of every match, in order.
#[verifier::external_body]
pub(crate) fn captures_all(re: &ParsedRegex, text: &str) -> (r: Vec<Vec<Option<String>>>)
    ensures
        caps_view(r@) == regex_captures(re@, text@),
{
    re.re.captures_iter(text).map(|c| c.iter().map(|m| m.map(|m| m.as_str().to_owned())).collect()).collect()
}

/// `Regex::replace_all`.
#[verifier::external_body]
pub(crate) fn replace_all_regex(re: &ParsedRegex, text: &str, replacement: &str) -> (r: String)
    ensures
        r@ == regex_replace(re@, text@, replacement@),
{
    re.re.replace_all(text, replacement).into_owned()
}

} // verus!
