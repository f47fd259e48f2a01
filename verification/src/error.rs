//! The library's error: a message that says what failed.
use vstd::prelude::*;

verus! {

/// An error with its message.
#[derive(Debug, Clone)]
pub struct ReaderError {
    pub message: String,
}

impl ReaderError {
    /// An error with the given message.
    pub fn new(message: &str) -> (e: ReaderError)
        ensures
            e.message@ == message@,
    {
        ReaderError { message: message.to_owned() }
    }

    /// An error whose message is `prefix` followed by `detail`.
    pub fn with_detail(prefix: &str, detail: &str) -> (e: ReaderError)
        ensures
            e.message@ == prefix@ + detail@,
    {
        let mut m = prefix.to_owned();
        m.append(detail);
        ReaderError { message: m }
    }

    /// The message.
    pub fn to_string(&self) -> (s: String)
        ensures
            s@ == self.message@,
    {
        self.message.clone()
    }
}


/// `format!("{:?}", o)` of an optional string: `None`, or `Some("...")` with
/// the text escaped as `str`'s `Debug` escapes it.
pub uninterp spec fn debug_opt(o: Option<Seq<char>>) -> Seq<char>;

/// The `Debug` text of an optional string (`format!("{:?}", o)`).
#[verifier::external_body]
pub(crate) fn debug_of(o: &Option<String>) -> (r: String)
    ensures
        r@ == debug_opt(crate::text::opt_str(*o)),
        o is None ==> r@ == "None"@,
{
    format!("{:?}", o)
}

} // verus!
