use vstd::prelude::*;
use crate::vars::opt_view;

verus! {

/// The text that percent-decoding `s` gives, or `None` when the decoded
/// bytes are not UTF-8.
pub uninterp spec fn percent_decoded(s: Seq<char>) -> Option<Seq<char>>;

/// Relies on `percent_encoding::percent_decode_str` followed by
/// `decode_utf8`: each `%` with two hex digits becomes that byte, every other
/// byte is kept, and the result is refused when it is not UTF-8. Text with
/// no `%` therefore comes back unchanged.
#[verifier::external_body]
pub(crate) fn decode_percent(s: &str) -> (r: Option<String>)
    ensures
        opt_view(r) == percent_decoded(s@),
        !s@.contains('%') ==> opt_view(r) == Some(s@),
{
    percent_encoding::percent_decode_str(s).decode_utf8().ok().map(|c| c.into_owned())
}

} // verus!
