//! The one outside call the filter's logic makes: undoing markup escapes in
//! stimulus text before it is compared with the exclusion words.

use vstd::prelude::*;

verus! {

/// What undoing the markup escapes of `text` yields: `Some` of the text with
/// every entity reference replaced by the characters it stands for, when all
/// references are well formed; `None` otherwise. The value is fixed by the
/// characters of `text` alone.
pub uninterp spec fn unescaped(text: Seq<char>) -> Option<Seq<char>>;

/// Relies on `quick_xml::escape::unescape`: replaces the markup entity
/// references (`&...;`) in a text by their characters, and fails on a
/// malformed or unknown reference. The result depends on the input text
/// alone.
#[verifier::external_body]
pub(crate) fn unescape_text(text: &str) -> (r: Option<String>)
    ensures
        r is Some <==> unescaped(text@) is Some,
        r matches Some(t) ==> Some(t@) == unescaped(text@),
{
    match quick_xml::escape::unescape(text) {
        Ok(u) => Some(u.into_owned()),
        Err(_) => None,
    }
}

} // verus!
