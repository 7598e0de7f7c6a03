//! The failure taxonomy of the conversion engine: a value that cannot
//! become a valid wire message, a wire message that does not match the
//! expected shape (always carrying the offending message), and an
//! application-level rejection reported by the remote side.

use vstd::prelude::*;
use vstd::string::StringExecFns;
use crate::json::{json_decode_object, json_obj_parsed};
use crate::strings::{lookup, lookup_pair};
use crate::wire::{WireRequest, WireResponse};

verus! {

/// An error code reported by a Matrix server: one of the known codes, or
/// any other code, kept verbatim, so that decoding never fails merely
/// because the server knows a newer code.
#[derive(Clone, Debug, PartialEq, Eq)]
pub enum MatrixErrorKind {
    Forbidden,
    UnknownToken,
    MissingToken,
    BadJson,
    NotJson,
    NotFound,
    LimitExceeded,
    Unknown,
    Unrecognized,
    Unauthorized,
    UserInUse,
    InvalidUsername,
    RoomInUse,
    InvalidRoomState,
    ThreepidInUse,
    ThreepidNotFound,
    ThreepidAuthFailed,
    ThreepidDenied,
    ServerNotTrusted,
    UnsupportedRoomVersion,
    IncompatibleRoomVersion,
    BadState,
    GuestAccessForbidden,
    CaptchaNeeded,
    CaptchaInvalid,
    MissingParam,
    InvalidParam,
    TooLarge,
    Exclusive,
    /// A code outside the known set, kept verbatim.
    Custom(String),
}

/// The wire code of an error kind.
pub open spec fn kind_code(k: MatrixErrorKind) -> Seq<char> {
    match k {
        MatrixErrorKind::Forbidden => "M_FORBIDDEN"@,
        MatrixErrorKind::UnknownToken => "M_UNKNOWN_TOKEN"@,
        MatrixErrorKind::MissingToken => "M_MISSING_TOKEN"@,
        MatrixErrorKind::BadJson => "M_BAD_JSON"@,
        MatrixErrorKind::NotJson => "M_NOT_JSON"@,
        MatrixErrorKind::NotFound => "M_NOT_FOUND"@,
        MatrixErrorKind::LimitExceeded => "M_LIMIT_EXCEEDED"@,
        MatrixErrorKind::Unknown => "M_UNKNOWN"@,
        MatrixErrorKind::Unrecognized => "M_UNRECOGNIZED"@,
        MatrixErrorKind::Unauthorized => "M_UNAUTHORIZED"@,
        MatrixErrorKind::UserInUse => "M_USER_IN_USE"@,
        MatrixErrorKind::InvalidUsername => "M_INVALID_USERNAME"@,
        MatrixErrorKind::RoomInUse => "M_ROOM_IN_USE"@,
        MatrixErrorKind::InvalidRoomState => "M_INVALID_ROOM_STATE"@,
        MatrixErrorKind::ThreepidInUse => "M_THREEPID_IN_USE"@,
        MatrixErrorKind::ThreepidNotFound => "M_THREEPID_NOT_FOUND"@,
        MatrixErrorKind::ThreepidAuthFailed => "M_THREEPID_AUTH_FAILED"@,
        MatrixErrorKind::ThreepidDenied => "M_THREEPID_DENIED"@,
        MatrixErrorKind::ServerNotTrusted => "M_SERVER_NOT_TRUSTED"@,
        MatrixErrorKind::UnsupportedRoomVersion => "M_UNSUPPORTED_ROOM_VERSION"@,
        MatrixErrorKind::IncompatibleRoomVersion => "M_INCOMPATIBLE_ROOM_VERSION"@,
        MatrixErrorKind::BadState => "M_BAD_STATE"@,
        MatrixErrorKind::GuestAccessForbidden => "M_GUEST_ACCESS_FORBIDDEN"@,
        MatrixErrorKind::CaptchaNeeded => "M_CAPTCHA_NEEDED"@,
        MatrixErrorKind::CaptchaInvalid => "M_CAPTCHA_INVALID"@,
        MatrixErrorKind::MissingParam => "M_MISSING_PARAM"@,
        MatrixErrorKind::InvalidParam => "M_INVALID_PARAM"@,
        MatrixErrorKind::TooLarge => "M_TOO_LARGE"@,
        MatrixErrorKind::Exclusive => "M_EXCLUSIVE"@,
        MatrixErrorKind::Custom(s) => s@,
    }
}

/// Whether a wire code belongs to the known set.
pub open spec fn is_known_code(c: Seq<char>) -> bool {
    ||| c == "M_FORBIDDEN"@
    ||| c == "M_UNKNOWN_TOKEN"@
    ||| c == "M_MISSING_TOKEN"@
    ||| c == "M_BAD_JSON"@
    ||| c == "M_NOT_JSON"@
    ||| c == "M_NOT_FOUND"@
    ||| c == "M_LIMIT_EXCEEDED"@
    ||| c == "M_UNKNOWN"@
    ||| c == "M_UNRECOGNIZED"@
    ||| c == "M_UNAUTHORIZED"@
    ||| c == "M_USER_IN_USE"@
    ||| c == "M_INVALID_USERNAME"@
    ||| c == "M_ROOM_IN_USE"@
    ||| c == "M_INVALID_ROOM_STATE"@
    ||| c == "M_THREEPID_IN_USE"@
    ||| c == "M_THREEPID_NOT_FOUND"@
    ||| c == "M_THREEPID_AUTH_FAILED"@
    ||| c == "M_THREEPID_DENIED"@
    ||| c == "M_SERVER_NOT_TRUSTED"@
    ||| c == "M_UNSUPPORTED_ROOM_VERSION"@
    ||| c == "M_INCOMPATIBLE_ROOM_VERSION"@
    ||| c == "M_BAD_STATE"@
    ||| c == "M_GUEST_ACCESS_FORBIDDEN"@
    ||| c == "M_CAPTCHA_NEEDED"@
    ||| c == "M_CAPTCHA_INVALID"@
    ||| c == "M_MISSING_PARAM"@
    ||| c == "M_INVALID_PARAM"@
    ||| c == "M_TOO_LARGE"@
    ||| c == "M_EXCLUSIVE"@
}

/// Reports whether the string equals the literal.
fn code_eq(code: &String, lit: &str) -> (r: bool)
    ensures
        r == (code@ == lit@),
{
    *code == lit.to_owned()
}

impl MatrixErrorKind {
    /// Returns the kind's wire code.
    pub fn code_string(&self) -> (r: String)
        ensures
            r@ == kind_code(*self),
    {
        match self {
            MatrixErrorKind::Forbidden => "M_FORBIDDEN".to_owned(),
            MatrixErrorKind::UnknownToken => "M_UNKNOWN_TOKEN".to_owned(),
            MatrixErrorKind::MissingToken => "M_MISSING_TOKEN".to_owned(),
            MatrixErrorKind::BadJson => "M_BAD_JSON".to_owned(),
            MatrixErrorKind::NotJson => "M_NOT_JSON".to_owned(),
            MatrixErrorKind::NotFound => "M_NOT_FOUND".to_owned(),
            MatrixErrorKind::LimitExceeded => "M_LIMIT_EXCEEDED".to_owned(),
            MatrixErrorKind::Unknown => "M_UNKNOWN".to_owned(),
            MatrixErrorKind::Unrecognized => "M_UNRECOGNIZED".to_owned(),
            MatrixErrorKind::Unauthorized => "M_UNAUTHORIZED".to_owned(),
            MatrixErrorKind::UserInUse => "M_USER_IN_USE".to_owned(),
            MatrixErrorKind::InvalidUsername => "M_INVALID_USERNAME".to_owned(),
            MatrixErrorKind::RoomInUse => "M_ROOM_IN_USE".to_owned(),
            MatrixErrorKind::InvalidRoomState => "M_INVALID_ROOM_STATE".to_owned(),
            MatrixErrorKind::ThreepidInUse => "M_THREEPID_IN_USE".to_owned(),
            MatrixErrorKind::ThreepidNotFound => "M_THREEPID_NOT_FOUND".to_owned(),
            MatrixErrorKind::ThreepidAuthFailed => "M_THREEPID_AUTH_FAILED".to_owned(),
            MatrixErrorKind::ThreepidDenied => "M_THREEPID_DENIED".to_owned(),
            MatrixErrorKind::ServerNotTrusted => "M_SERVER_NOT_TRUSTED".to_owned(),
            MatrixErrorKind::UnsupportedRoomVersion => "M_UNSUPPORTED_ROOM_VERSION".to_owned(),
            MatrixErrorKind::IncompatibleRoomVersion => "M_INCOMPATIBLE_ROOM_VERSION".to_owned(),
            MatrixErrorKind::BadState => "M_BAD_STATE".to_owned(),
            MatrixErrorKind::GuestAccessForbidden => "M_GUEST_ACCESS_FORBIDDEN".to_owned(),
            MatrixErrorKind::CaptchaNeeded => "M_CAPTCHA_NEEDED".to_owned(),
            MatrixErrorKind::CaptchaInvalid => "M_CAPTCHA_INVALID".to_owned(),
            MatrixErrorKind::MissingParam => "M_MISSING_PARAM".to_owned(),
            MatrixErrorKind::InvalidParam => "M_INVALID_PARAM".to_owned(),
            MatrixErrorKind::TooLarge => "M_TOO_LARGE".to_owned(),
            MatrixErrorKind::Exclusive => "M_EXCLUSIVE".to_owned(),
            MatrixErrorKind::Custom(s) => s.clone(),
        }
    }

    /// Classifies a wire code: a known code becomes its kind, any other
    /// code becomes `Custom`, carrying the code verbatim.
    pub fn from_code(code: &String) -> (r: MatrixErrorKind)
        ensures
            kind_code(r) == code@,
            (r is Custom) <==> !is_known_code(code@),
    {
        if code_eq(code, "M_FORBIDDEN") {
            MatrixErrorKind::Forbidden
        } else if code_eq(code, "M_UNKNOWN_TOKEN") {
            MatrixErrorKind::UnknownToken
        } else if code_eq(code, "M_MISSING_TOKEN") {
            MatrixErrorKind::MissingToken
        } else if code_eq(code, "M_BAD_JSON") {
            MatrixErrorKind::BadJson
        } else if code_eq(code, "M_NOT_JSON") {
            MatrixErrorKind::NotJson
        } else if code_eq(code, "M_NOT_FOUND") {
            MatrixErrorKind::NotFound
        } else if code_eq(code, "M_LIMIT_EXCEEDED") {
            MatrixErrorKind::LimitExceeded
        } else if code_eq(code, "M_UNKNOWN") {
            MatrixErrorKind::Unknown
        } else if code_eq(code, "M_UNRECOGNIZED") {
            MatrixErrorKind::Unrecognized
        } else if code_eq(code, "M_UNAUTHORIZED") {
            MatrixErrorKind::Unauthorized
        } else if code_eq(code, "M_USER_IN_USE") {
            MatrixErrorKind::UserInUse
        } else if code_eq(code, "M_INVALID_USERNAME") {
            MatrixErrorKind::InvalidUsername
        } else if code_eq(code, "M_ROOM_IN_USE") {
            MatrixErrorKind::RoomInUse
        } else if code_eq(code, "M_INVALID_ROOM_STATE") {
            MatrixErrorKind::InvalidRoomState
        } else if code_eq(code, "M_THREEPID_IN_USE") {
            MatrixErrorKind::ThreepidInUse
        } else if code_eq(code, "M_THREEPID_NOT_FOUND") {
            MatrixErrorKind::ThreepidNotFound
        } else if code_eq(code, "M_THREEPID_AUTH_FAILED") {
            MatrixErrorKind::ThreepidAuthFailed
        } else if code_eq(code, "M_THREEPID_DENIED") {
            MatrixErrorKind::ThreepidDenied
        } else if code_eq(code, "M_SERVER_NOT_TRUSTED") {
            MatrixErrorKind::ServerNotTrusted
        } else if code_eq(code, "M_UNSUPPORTED_ROOM_VERSION") {
            MatrixErrorKind::UnsupportedRoomVersion
        } else if code_eq(code, "M_INCOMPATIBLE_ROOM_VERSION") {
            MatrixErrorKind::IncompatibleRoomVersion
        } else if code_eq(code, "M_BAD_STATE") {
            MatrixErrorKind::BadState
        } else if code_eq(code, "M_GUEST_ACCESS_FORBIDDEN") {
            MatrixErrorKind::GuestAccessForbidden
        } else if code_eq(code, "M_CAPTCHA_NEEDED") {
            MatrixErrorKind::CaptchaNeeded
        } else if code_eq(code, "M_CAPTCHA_INVALID") {
            MatrixErrorKind::CaptchaInvalid
        } else if code_eq(code, "M_MISSING_PARAM") {
            MatrixErrorKind::MissingParam
        } else if code_eq(code, "M_INVALID_PARAM") {
            MatrixErrorKind::InvalidParam
        } else if code_eq(code, "M_TOO_LARGE") {
            MatrixErrorKind::TooLarge
        } else if code_eq(code, "M_EXCLUSIVE") {
            MatrixErrorKind::Exclusive
        } else {
            MatrixErrorKind::Custom(code.clone())
        }
    }
}

// The kind already carries the `Custom` case for codes it does not know,
// so it is its own receiving shape.
impl crate::Outgoing for MatrixErrorKind {
    type Incoming = MatrixErrorKind;
}

/// A structured application error reported by a Matrix server: the error
/// code, the human-readable message, and the HTTP status code, which
/// travels out of band in the status line, never inside the JSON body.
#[derive(Clone, Debug)]
pub struct MatrixError {
    /// The error code.
    pub kind: MatrixErrorKind,
    /// The HTTP status code.
    pub status_code: u16,
    /// A human-readable error message.
    pub message: String,
}

impl crate::Outgoing for MatrixError {
    type Incoming = MatrixError;
}

/// The `errcode` and `error` members of an application error body, when the
/// body parses as a JSON object that has both.
pub open spec fn parsed_error_parts(body: Seq<u8>) -> Option<(Seq<char>, Seq<char>)> {
    match json_obj_parsed(body) {
        Some(m) => match (lookup(m, "errcode"@), lookup(m, "error"@)) {
            (Some(c), Some(msg)) => Some((c, msg)),
            _ => None,
        },
        None => None,
    }
}

/// A non-success response, captured verbatim, together with the structured
/// application error parsed from its body when the body has the expected
/// shape. When it does not, the status and raw body still tell the caller
/// what the server said.
#[derive(Clone, Debug)]
pub struct ServerError {
    /// The response's status code.
    pub status_code: u16,
    /// The response's raw body bytes.
    pub body: Vec<u8>,
    /// The structured application error, when the body parses.
    pub error: Option<MatrixError>,
}

impl ServerError {
    /// Captures a non-success response. The structured error is filled in
    /// exactly when the body is a JSON object of string members holding
    /// both `errcode` and `error`; an unknown `errcode` still parses, as
    /// the `Custom` kind.
    pub fn new(response: &WireResponse) -> (r: ServerError)
        ensures
            r.status_code == response.status,
            r.body@ == response.body@,
            match parsed_error_parts(response.body@) {
                Some(p) => match r.error {
                    Some(me) => kind_code(me.kind) == p.0 && ((me.kind is Custom) <==> !is_known_code(
                        p.0,
                    )) && me.message@ == p.1 && me.status_code == response.status,
                    None => false,
                },
                None => r.error is None,
            },
    {
        let parsed = json_decode_object(&response.body);
        let error = match parsed {
            Some(m) => {
                let code = lookup_pair(&m, &"errcode".to_owned());
                let msg = lookup_pair(&m, &"error".to_owned());
                match (code, msg) {
                    (Some(c), Some(message)) => Some(
                        MatrixError {
                            kind: MatrixErrorKind::from_code(&c),
                            status_code: response.status,
                            message,
                        },
                    ),
                    _ => None,
                }
            },
            None => None,
        };
        ServerError { status_code: response.status, body: response.body.clone(), error }
    }
}

impl MatrixError {
    /// Builds the wire response for a server-side rejection: the recorded
    /// status code in the status line, a JSON content type, and the
    /// `{errcode, error}` JSON body. Capturing the result again restores
    /// the code and the message.
    pub fn to_response(&self) -> (r: WireResponse)
        ensures
            r.status == self.status_code,
            r.headers.deep_view() == seq![("content-type"@, "application/json"@)],
            parsed_error_parts(r.body@) == Some((kind_code(self.kind), self.message@)),
    {
        let mut pairs: Vec<(String, String)> = Vec::new();
        pairs.push(("errcode".to_owned(), self.kind.code_string()));
        pairs.push(("error".to_owned(), self.message.clone()));
        proof {
            reveal_strlit("errcode");
            reveal_strlit("error");
            assert("errcode"@.len() == 7);
            assert("error"@.len() == 5);
            assert(pairs.deep_view() =~= seq![
                ("errcode"@, kind_code(self.kind)),
                ("error"@, self.message@),
            ]);
            assert(crate::json::keys_of(pairs.deep_view()) =~= seq!["errcode"@, "error"@]);
            assert(crate::strings::distinct_seqs(crate::json::keys_of(pairs.deep_view())));
        }
        let body = crate::json::json_encode_object(&pairs);
        proof {
            let m = pairs.deep_view();
            assert(lookup(m, "errcode"@) == Some(kind_code(self.kind)));
            assert("errcode"@ != "error"@);
            assert(m[0].0 == "errcode"@);
            assert(m.drop_first() =~= seq![("error"@, self.message@)]);
            assert(lookup(m, "error"@) == lookup(m.drop_first(), "error"@));
            assert(seq![("error"@, self.message@)][0].0 == "error"@);
            assert(lookup(m.drop_first(), "error"@) == Some(self.message@));
        }
        let mut headers: Vec<(String, String)> = Vec::new();
        headers.push(("content-type".to_owned(), "application/json".to_owned()));
        proof {
            assert(headers.deep_view() =~= seq![("content-type"@, "application/json"@)]);
        }
        WireResponse { status: self.status_code, headers, body }
    }
}

/// A typed value could not become a valid wire message. Fatal to the one
/// call that raised it; nothing is retried.
#[derive(Clone, Debug)]
pub enum IntoHttpError {
    /// The named header field holds a value that is not a legal HTTP
    /// header value.
    InvalidHeaderValue(String),
}

/// Why a received wire message did not match the expected shape.
#[derive(Clone, Copy, Debug, PartialEq, Eq, Structural)]
pub enum DeserializationReason {
    /// The path holds no segment at a placeholder's position.
    MissingPathSegment,
    /// A path segment could not be percent-decoded.
    InvalidPathSegment,
    /// The query string could not be parsed.
    InvalidQuery,
    /// A required query field is missing.
    MissingQueryField,
    /// A required header is missing.
    MissingHeader,
    /// The body is not the expected JSON shape.
    InvalidBody,
    /// The body object misses a required member.
    MissingBodyField,
}

/// A wire request that did not match the expected shape, kept verbatim for
/// diagnostics.
#[derive(Clone, Debug)]
pub struct RequestDeserializationError {
    /// The offending request, unchanged.
    pub request: WireRequest,
    /// What did not match.
    pub reason: DeserializationReason,
}

/// A wire request could not be decoded into a typed value.
#[derive(Clone, Debug)]
pub enum FromHttpRequestError {
    /// The request did not match the expected shape.
    Deserialization(RequestDeserializationError),
}

/// A wire response that did not match the expected shape, kept verbatim for
/// diagnostics.
#[derive(Clone, Debug)]
pub struct ResponseDeserializationError {
    /// The offending response, unchanged.
    pub response: WireResponse,
    /// What did not match.
    pub reason: DeserializationReason,
}

/// A wire response could not be decoded into a typed value.
#[derive(Clone, Debug)]
pub enum FromHttpResponseError {
    /// The response did not match the expected shape.
    Deserialization(ResponseDeserializationError),
    /// The server reported a failure status; the response is captured in
    /// the carried [`ServerError`].
    Http(ServerError),
}

} // verus!
