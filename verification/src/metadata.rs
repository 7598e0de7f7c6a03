//! The immutable descriptor of one endpoint's wire contract.

use vstd::prelude::*;

verus! {

/// One wire HTTP method.
#[derive(Clone, Copy, Debug, PartialEq, Eq, Structural)]
pub enum Method {
    Get,
    Head,
    Post,
    Put,
    Delete,
    Options,
    Patch,
}

/// The method's name on the wire.
pub open spec fn method_name(m: Method) -> Seq<char> {
    match m {
        Method::Get => "GET"@,
        Method::Head => "HEAD"@,
        Method::Post => "POST"@,
        Method::Put => "PUT"@,
        Method::Delete => "DELETE"@,
        Method::Options => "OPTIONS"@,
        Method::Patch => "PATCH"@,
    }
}

impl Method {
    /// Returns the method's name on the wire.
    pub fn name(&self) -> (r: &'static str)
        ensures
            r@ == method_name(*self),
    {
        match self {
            Method::Get => "GET",
            Method::Head => "HEAD",
            Method::Post => "POST",
            Method::Put => "PUT",
            Method::Delete => "DELETE",
            Method::Options => "OPTIONS",
            Method::Patch => "PATCH",
        }
    }
}

/// Metadata about an API endpoint.
///
/// The path is a URL path template: segments that start with `:` are
/// placeholders, substituted in declaration order with the request's
/// path-placed field values when a request is encoded. The two boolean
/// flags are informational to callers and servers; the codec does not
/// enforce them.
#[derive(Clone, Debug)]
pub struct Metadata {
    /// A human-readable description of the endpoint.
    pub description: String,
    /// The HTTP method used by this endpoint.
    pub method: Method,
    /// A unique identifier for this endpoint.
    pub name: String,
    /// The path of this endpoint's URL, with variable names where path
    /// parameters should be filled in during a request.
    pub path: String,
    /// Whether or not this endpoint is rate limited by the server.
    pub rate_limited: bool,
    /// Whether or not the server requires an authenticated user for this
    /// endpoint.
    pub requires_authentication: bool,
}

} // verus!
