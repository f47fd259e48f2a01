//! URLs: resolving links against a base URL (through the `url` crate) and
//! form-encoding a search keyword.
use vstd::prelude::*;
use crate::text::{trim, trim_str};
use vstd::string::StringSliceAdditionalSpecFns;

verus! {

/// Whether `url::Url::parse` accepts the text.
pub uninterp spec fn url_parses(s: Seq<char>) -> bool;

/// The serialization of `link` resolved against the URL parsed from `base`
/// (`url::Url::join`), when the join succeeds.
pub uninterp spec fn url_join_spec(base: Seq<char>, link: Seq<char>) -> Option<Seq<char>>;

/// A URL parsed from a text, kept with the text it was parsed from.
pub struct ParsedUrl {
    url: url::Url,
    source: String,
}

#[verifier::external_type_specification]
#[verifier::external_body]
pub struct ExUrl(url::Url);

impl View for ParsedUrl {
    type V = Seq<char>;

    closed spec fn view(&self) -> Seq<char> {
        self.source@
    }
}

/// `url::Url::parse`: the URL, when the text is an absolute URL.
#[verifier::external_body]
fn url_parse(s: &str) -> (r: Option<ParsedUrl>)
    ensures
        r is Some <==> url_parses(s@),
        r matches Some(u) ==> u@ == s@,
{
    match url::Url::parse(s) {
        Ok(u) => Some(ParsedUrl { url: u, source: s.to_owned() }),
        Err(_) => None,
    }
}

/// `url::Url::join`: `link` resolved against the URL, serialized. The
/// serialization of a parsed URL starts with its scheme and `:`, so it is
/// never empty.
#[verifier::external_body]
fn url_join(base: &ParsedUrl, link: &str) -> (r: Option<String>)
    ensures
        match r {
            Some(s) => url_join_spec(base@, link@) == Some(s@),
            None => url_join_spec(base@, link@) is None,
        },
        r matches Some(s) ==> s@.len() > 0,
{
    match base.url.join(link) {
        Ok(u) => Some(u.as_str().to_owned()),
        Err(_) => None,
    }
}

/// A link resolved against a base URL: `None` when the link is blank, the base
/// is not a URL, or the join fails.
pub open spec fn resolve_spec(base: Seq<char>, link: Seq<char>) -> Option<Seq<char>> {
    let l = trim(link);
    if l.len() == 0 || !url_parses(base) {
        None
    } else {
        url_join_spec(base, l)
    }
}

/// Resolves `link` (trimmed) against the URL `base`; a resolved URL is never
/// empty.
pub fn resolve_url(base: &str, link: &str) -> (r: Option<String>)
    ensures
        crate::text::opt_str(r) == resolve_spec(base@, link@),
        r matches Some(s) ==> s@.len() > 0,
{
    let l = trim_str(link);
    if l.as_str().is_empty() {
        return None;
    }
    match url_parse(base) {
        Some(b) => url_join(&b, l.as_str()),
        None => None,
    }
}

/// Bytes that form-encoding leaves as they are.
pub open spec fn form_unchanged(b: u8) -> bool {
    b == 0x2a || b == 0x2d || b == 0x2e || (0x30 <= b && b <= 0x39) || (0x41 <= b && b <= 0x5a)
        || b == 0x5f || (0x61 <= b && b <= 0x7a)
}

/// Uppercase hexadecimal digit.
pub open spec fn upper_hex(d: int) -> char {
    if d < 10 {
        ('0' as int + d) as char
    } else {
        ('A' as int + d - 10) as char
    }
}

/// The form encoding of one byte.
pub open spec fn form_byte(b: u8) -> Seq<char> {
    if form_unchanged(b) {
        seq![b as char]
    } else if b == 0x20 {
        seq!['+']
    } else {
        seq!['%', upper_hex(b as int / 16), upper_hex(b as int % 16)]
    }
}

/// `application/x-www-form-urlencoded` byte serialization.
pub open spec fn form_encode(bytes: Seq<u8>) -> Seq<char>
    decreases bytes.len(),
{
    if bytes.len() == 0 {
        Seq::empty()
    } else {
        form_encode(bytes.drop_last()) + form_byte(bytes.last())
    }
}

/// `form_urlencoded::byte_serialize` of the text's UTF-8 bytes, collected:
/// `*-._`, digits and ASCII letters are kept, a space becomes `+`, every other
/// byte becomes `%XX` with uppercase hexadecimal digits.
#[verifier::external_body]
pub(crate) fn form_urlencode(s: &str) -> (r: String)
    ensures
        r@ == form_encode(s.spec_bytes()),
{
    url::form_urlencoded::byte_serialize(s.as_bytes()).collect()
}

} // verus!
