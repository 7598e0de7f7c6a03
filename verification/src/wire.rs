//! Raw HTTP messages as the codec sees them: a method, a URI split into
//! path and query string, an ordered list of headers, and a body of bytes.
//!
//! Header names are matched byte-exact; the boundary that converts from a
//! real HTTP library is expected to hand them over lowercased, which the
//! usual HTTP types already guarantee.

use vstd::prelude::*;
use vstd::string::StringExecFns;
use crate::metadata::Method;

verus! {

/// The mathematical value of a [`WireRequest`].
#[verifier::ext_equal]
pub ghost struct WireRequestV {
    pub method: Method,
    pub path: Seq<char>,
    pub query: Seq<char>,
    pub headers: Seq<(Seq<char>, Seq<char>)>,
    pub body: Seq<u8>,
}

/// A raw HTTP request.
#[derive(Clone, Debug)]
pub struct WireRequest {
    /// The request method.
    pub method: Method,
    /// The path part of the URI, with percent-encoded segments.
    pub path: String,
    /// The query string, form-encoded, without the leading `?`; empty when
    /// the endpoint places nothing in the query.
    pub query: String,
    /// The headers, as name/value pairs in order.
    pub headers: Vec<(String, String)>,
    /// The body bytes.
    pub body: Vec<u8>,
}

impl View for WireRequest {
    type V = WireRequestV;

    open spec fn view(&self) -> WireRequestV {
        WireRequestV {
            method: self.method,
            path: self.path@,
            query: self.query@,
            headers: self.headers.deep_view(),
            body: self.body@,
        }
    }
}

impl WireRequest {
    /// The request URI: the path, then `?` and the query string when the
    /// query string is not empty.
    pub fn uri(&self) -> (r: String)
        ensures
            r@ == self.path@ + (if self.query@.len() == 0 {
                Seq::<char>::empty()
            } else {
                seq!['?'] + self.query@
            }),
    {
        let mut r = String::new();
        r.append(self.path.as_str());
        if !self.query.as_str().is_empty() {
            proof {
                reveal_strlit("?");
                assert("?"@ =~= seq!['?']);
            }
            r.append("?");
            r.append(self.query.as_str());
            proof {
                assert(r@ =~= self.path@ + (seq!['?'] + self.query@));
            }
        } else {
            proof {
                assert(r@ =~= self.path@ + Seq::<char>::empty());
            }
        }
        r
    }
}

/// The mathematical value of a [`WireResponse`].
#[verifier::ext_equal]
pub ghost struct WireResponseV {
    pub status: u16,
    pub headers: Seq<(Seq<char>, Seq<char>)>,
    pub body: Seq<u8>,
}

/// A raw HTTP response.
#[derive(Clone, Debug)]
pub struct WireResponse {
    /// The status code.
    pub status: u16,
    /// The headers, as name/value pairs in order.
    pub headers: Vec<(String, String)>,
    /// The body bytes.
    pub body: Vec<u8>,
}

impl View for WireResponse {
    type V = WireResponseV;

    open spec fn view(&self) -> WireResponseV {
        WireResponseV { status: self.status, headers: self.headers.deep_view(), body: self.body@ }
    }
}

} // verus!
