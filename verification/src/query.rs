//! The query string of a wire request, written and read through
//! `serde_urlencoded` in the `application/x-www-form-urlencoded` format.
//!
//! The exact text the form codec produces is not restated here; it is given
//! a name (`form_encoded`), and the trusted wrappers state what the callers
//! rely on: that writing a list of string pairs succeeds and that parsing
//! the written text restores exactly the pairs, in order.

use vstd::prelude::*;

verus! {

pub uninterp spec fn form_encoded(m: Seq<(Seq<char>, Seq<char>)>) -> Seq<char>;

pub uninterp spec fn form_parsed(s: Seq<char>) -> Option<Seq<(Seq<char>, Seq<char>)>>;

/// Relies on `serde_urlencoded::to_string` applied to a list of string
/// pairs: writing string pairs in the form-urlencoded format cannot fail,
/// and parsing the written text back (`serde_urlencoded::from_str`) restores
/// exactly the pairs that were written, in order.
#[verifier::external_body]
pub(crate) fn form_encode_pairs(pairs: &Vec<(String, String)>) -> (r: String)
    ensures
        r@ == form_encoded(pairs.deep_view()),
        form_parsed(r@) == Some(pairs.deep_view()),
{
    serde_urlencoded::to_string(pairs).expect("writing string pairs cannot fail")
}

/// Relies on `serde_urlencoded::from_str`: parses a query string into its
/// key/value pairs, in order.
#[verifier::external_body]
pub(crate) fn form_decode_pairs(s: &str) -> (r: Option<Vec<(String, String)>>)
    ensures
        match r {
            Some(v) => form_parsed(s@) == Some(v.deep_view()),
            None => form_parsed(s@) is None,
        },
{
    serde_urlencoded::from_str::<Vec<(String, String)>>(s).ok()
}

} // verus!
