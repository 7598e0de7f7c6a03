//! The JSON bodies of wire messages, written and read through `serde_json`.
//!
//! The exact byte strings that the JSON codec produces are not restated
//! here; they are given names (`json_obj`, `json_str`), and the trusted
//! wrappers state only what the callers rely on: that writing succeeds and
//! that parsing the written bytes finds the members that were written.

use vstd::prelude::*;
use crate::strings::{distinct_seqs, lookup};

verus! {

/// The keys of a pair list, in order.
pub open spec fn keys_of(m: Seq<(Seq<char>, Seq<char>)>) -> Seq<Seq<char>> {
    Seq::new(m.len(), |i: int| m[i].0)
}

pub uninterp spec fn json_obj(m: Seq<(Seq<char>, Seq<char>)>) -> Seq<u8>;

pub uninterp spec fn json_obj_parsed(b: Seq<u8>) -> Option<Seq<(Seq<char>, Seq<char>)>>;

pub uninterp spec fn json_str(s: Seq<char>) -> Seq<u8>;

pub uninterp spec fn json_str_parsed(b: Seq<u8>) -> Option<Seq<char>>;

/// Relies on `serde_json::to_vec` applied to a `serde_json::Map` of string
/// members: writing a JSON object of string members under distinct keys
/// cannot fail, and parsing the written bytes back (`serde_json::from_slice`)
/// finds a member list with the same value for every key.
#[verifier::external_body]
pub(crate) fn json_encode_object(pairs: &Vec<(String, String)>) -> (r: Vec<u8>)
    requires
        distinct_seqs(keys_of(pairs.deep_view())),
    ensures
        r@ == json_obj(pairs.deep_view()),
        json_obj_parsed(r@) is Some,
        forall|k: Seq<char>|
            lookup(json_obj_parsed(r@).unwrap(), k) == lookup(pairs.deep_view(), k),
{
    let mut m = serde_json::Map::new();
    for (k, v) in pairs.iter() {
        m.insert(k.clone(), serde_json::Value::String(v.clone()));
    }
    serde_json::to_vec(&m).expect("writing a JSON object of strings cannot fail")
}

/// Relies on `serde_json::from_slice`: parses the bytes as a JSON object and
/// hands back its members in the parser's order; bytes that are not a JSON
/// object, or an object with a member that is not a JSON string, are
/// rejected.
#[verifier::external_body]
pub(crate) fn json_decode_object(b: &Vec<u8>) -> (r: Option<Vec<(String, String)>>)
    ensures
        match r {
            Some(v) => json_obj_parsed(b@) == Some(v.deep_view()),
            None => json_obj_parsed(b@) is None,
        },
{
    let m: serde_json::Map<String, serde_json::Value> =
        match serde_json::from_slice(b.as_slice()) {
            Ok(m) => m,
            Err(_) => return None,
        };
    let mut out: Vec<(String, String)> = Vec::new();
    for (k, v) in m {
        match v {
            serde_json::Value::String(s) => out.push((k, s)),
            _ => return None,
        }
    }
    Some(out)
}

/// Relies on `serde_json::to_vec` applied to a string: writing a single JSON
/// string cannot fail, and parsing the written bytes back restores the
/// string.
#[verifier::external_body]
pub(crate) fn json_encode_string(s: &String) -> (r: Vec<u8>)
    ensures
        r@ == json_str(s@),
        json_str_parsed(r@) == Some(s@),
{
    serde_json::to_vec(s).expect("writing a JSON string cannot fail")
}

/// Relies on `serde_json::from_slice`: parses the bytes as a single JSON
/// string.
#[verifier::external_body]
pub(crate) fn json_decode_string(b: &Vec<u8>) -> (r: Option<String>)
    ensures
        match r {
            Some(t) => json_str_parsed(b@) == Some(t@),
            None => json_str_parsed(b@) is None,
        },
{
    serde_json::from_slice::<String>(b.as_slice()).ok()
}

} // verus!
