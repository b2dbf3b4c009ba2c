//! Regular expressions, through the `regex` crate.

use vstd::prelude::*;

verus! {

/// What compiling a pattern with `regex::Regex::new` and matching it
/// against a text with `is_match` gives: whether some part of the text
/// matches, or the text of the compile error.
pub uninterp spec fn regex_match(pattern: Seq<char>, text: Seq<char>) -> Result<bool, Seq<char>>;

/// Compiles `pattern` with `regex::Regex::new` and asks `is_match` whether
/// some part of `text` matches; a pattern that does not compile gives its
/// error's text.
#[verifier::external_body]
pub(crate) fn regex_is_match(pattern: &str, text: &str) -> (r: Result<bool, String>)
    ensures
        match r {
            Ok(b) => regex_match(pattern@, text@) == Ok::<bool, Seq<char>>(b),
            Err(e) => regex_match(pattern@, text@) == Err::<bool, Seq<char>>(e@),
        },
{
    match regex::Regex::new(pattern) {
        Ok(re) => Ok(re.is_match(text)),
        Err(e) => Err(e.to_string()),
    }
}


/// What compiling a pattern with `regex::Regex::new` and calling
/// `replace_all` on a text with a replacement gives: the new text, or the
/// text of the compile error.
pub uninterp spec fn regex_replaced(pattern: Seq<char>, text: Seq<char>, replacement: Seq<char>) -> Result<
    Seq<char>,
    Seq<char>,
>;

/// Compiles `pattern` with `regex::Regex::new` and replaces every match in
/// `text` with `replacement` (`$name` expanding capture groups), as
/// `Regex::replace_all` does; a pattern that does not compile gives its
/// error's text.
#[verifier::external_body]
pub(crate) fn regex_replace_all(pattern: &str, text: &str, replacement: &str) -> (r: Result<String, String>)
    ensures
        match r {
            Ok(s) => regex_replaced(pattern@, text@, replacement@) == Ok::<Seq<char>, Seq<char>>(s@),
            Err(e) => regex_replaced(pattern@, text@, replacement@) == Err::<Seq<char>, Seq<char>>(e@),
        },
{
    match regex::Regex::new(pattern) {
        Ok(re) => Ok(re.replace_all(text, replacement).into_owned()),
        Err(e) => Err(e.to_string()),
    }
}

} // verus!
