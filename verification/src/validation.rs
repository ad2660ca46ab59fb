//! The checks that a value has to pass before it is made.

use vstd::prelude::*;

verus! {

/// What is wrong with `text` as an absolute URL, in the words of the URL
/// parser, or nothing where it is one.
pub uninterp spec fn url_fault_of(text: Seq<char>) -> Option<Seq<char>>;

/// Asks `Url::parse` of reqwest whether `text` is an absolute URL, and hands
/// back the parser's complaint where it is not. The complaint depends on the
/// text alone.
#[verifier::external_body]
pub(crate) fn url_fault(text: &str) -> (fault: Option<String>)
    ensures
        fault.deep_view() == url_fault_of(text@),
{
    match reqwest::Url::parse(text) {
        Ok(_) => None,
        Err(error) => Some(error.to_string()),
    }
}

} // verus!
