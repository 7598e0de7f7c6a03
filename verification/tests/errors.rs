use ruma_api::codec::{decode_request, decode_response, encode_request, Endpoint, Request};
use ruma_api::error::{DeserializationReason, FromHttpRequestError, FromHttpResponseError,
    IntoHttpError, MatrixError, MatrixErrorKind, ServerError};
use ruma_api::metadata::{Metadata, Method};
use ruma_api::schema::{FieldSpec, Placement, Schema, SchemaError};
use ruma_api::wire::{WireRequest, WireResponse};

fn field(name: &str, placement: Placement) -> FieldSpec {
    FieldSpec { name: name.to_owned(), placement }
}

fn metadata(path: &str) -> Metadata {
    Metadata {
        description: "test endpoint".to_owned(),
        method: Method::Get,
        name: "test".to_owned(),
        path: path.to_owned(),
        rate_limited: false,
        requires_authentication: false,
    }
}

fn endpoint(path: &str, req: Vec<FieldSpec>, resp: Vec<FieldSpec>) -> Endpoint {
    let request_schema = Schema::new(req).expect("request schema");
    let response_schema = Schema::new(resp).expect("response schema");
    Endpoint::new(metadata(path), request_schema, response_schema).expect("binding")
}

fn body_endpoint() -> Endpoint {
    endpoint("/x", vec![field("k", Placement::Body)], vec![])
}

fn decode_body_failure(body: Vec<u8>) -> FromHttpRequestError {
    let ep = body_endpoint();
    let wire = WireRequest {
        method: Method::Get,
        path: "/x".to_owned(),
        query: String::new(),
        headers: vec![],
        body,
    };
    decode_request(&ep, wire).expect_err("must fail")
}

#[test]
fn body_exclusivity_is_rejected_at_construction() {
    let r = Schema::new(vec![
        field("whole", Placement::NewtypeBody),
        field("part", Placement::Body),
    ]);
    assert_eq!(r.expect_err("must be rejected"), SchemaError::BodyConflict);
    let r2 = Schema::new(vec![
        field("whole", Placement::RawBody),
        field("part", Placement::Body),
    ]);
    assert_eq!(r2.expect_err("must be rejected"), SchemaError::BodyConflict);
    let r3 = Schema::new(vec![
        field("whole", Placement::RawBody),
        field("other", Placement::NewtypeBody),
    ]);
    assert_eq!(r3.expect_err("must be rejected"), SchemaError::BodyConflict);
}

#[test]
fn query_map_beside_query_is_rejected() {
    let r = Schema::new(vec![
        field("one", Placement::Query),
        field("all", Placement::QueryMap),
    ]);
    assert_eq!(r.expect_err("must be rejected"), SchemaError::QueryConflict);
}

#[test]
fn duplicate_field_names_are_rejected() {
    let r = Schema::new(vec![field("x", Placement::Body), field("x", Placement::Query)]);
    assert_eq!(r.expect_err("must be rejected"), SchemaError::DuplicateFieldName);
}

#[test]
fn duplicate_header_names_are_rejected() {
    let r = Schema::new(vec![
        field("a", Placement::Header("x-one".to_owned())),
        field("b", Placement::Header("x-one".to_owned())),
    ]);
    assert_eq!(r.expect_err("must be rejected"), SchemaError::DuplicateHeaderName);
}

#[test]
fn placeholder_mismatch_is_rejected_at_binding() {
    let request_schema = Schema::new(vec![field("a", Placement::Path)]).expect("schema");
    let response_schema = Schema::new(vec![]).expect("schema");
    let r = Endpoint::new(metadata("/no/placeholders"), request_schema, response_schema);
    assert_eq!(r.expect_err("must be rejected"), SchemaError::PlaceholderMismatch);
}

#[test]
fn response_schema_with_query_is_rejected() {
    let request_schema = Schema::new(vec![]).expect("schema");
    let response_schema = Schema::new(vec![field("q", Placement::Query)]).expect("schema");
    let r = Endpoint::new(metadata("/x"), request_schema, response_schema);
    assert_eq!(r.expect_err("must be rejected"), SchemaError::ResponsePlacement);
}

#[test]
fn invalid_header_value_fails_encoding() {
    let ep = endpoint("/x", vec![field("h", Placement::Header("x-h".to_owned()))], vec![]);
    let req = Request {
        path_args: vec![],
        query_args: vec![],
        query_map: None,
        header_args: vec!["bad\nvalue".to_owned()],
        body_args: vec![],
        newtype_body: None,
        raw_body: None,
    };
    let e = encode_request(&ep, &req).expect_err("must fail");
    let IntoHttpError::InvalidHeaderValue(name) = e;
    assert_eq!(name, "x-h");
}

#[test]
fn malformed_body_error_carries_original_bytes() {
    for body in [
        b"{\"k\":\"v".to_vec(),
        vec![],
        vec![0xffu8, 0xfe, 0x00, 0x01],
        b"[1,2,3]".to_vec(),
        b"{\"k\":7}".to_vec(),
    ] {
        let FromHttpRequestError::Deserialization(d) = decode_body_failure(body.clone());
        assert_eq!(d.request.body, body);
        assert_eq!(d.reason, DeserializationReason::InvalidBody);
    }
}

#[test]
fn missing_body_member_is_an_error() {
    let FromHttpRequestError::Deserialization(d) =
        decode_body_failure(b"{\"other\":\"v\"}".to_vec());
    assert_eq!(d.reason, DeserializationReason::MissingBodyField);
}

#[test]
fn missing_header_is_an_error() {
    let ep = endpoint("/x", vec![field("h", Placement::Header("x-h".to_owned()))], vec![]);
    let wire = WireRequest {
        method: Method::Get,
        path: "/x".to_owned(),
        query: String::new(),
        headers: vec![("other".to_owned(), "v".to_owned())],
        body: b"{}".to_vec(),
    };
    let FromHttpRequestError::Deserialization(d) =
        decode_request(&ep, wire).expect_err("must fail");
    assert_eq!(d.reason, DeserializationReason::MissingHeader);
}

#[test]
fn missing_path_segment_is_an_error() {
    let ep = endpoint("/a/:x/:y", vec![
        field("x", Placement::Path),
        field("y", Placement::Path),
    ], vec![]);
    let wire = WireRequest {
        method: Method::Get,
        path: "/a/only".to_owned(),
        query: String::new(),
        headers: vec![],
        body: b"{}".to_vec(),
    };
    let FromHttpRequestError::Deserialization(d) =
        decode_request(&ep, wire).expect_err("must fail");
    assert_eq!(d.reason, DeserializationReason::MissingPathSegment);
}

#[test]
fn status_branching_success_and_failure() {
    let ep = endpoint("/x", vec![], vec![field("value", Placement::Body)]);
    let ok = WireResponse {
        status: 200,
        headers: vec![],
        body: b"{\"value\":\"yes\"}".to_vec(),
    };
    let resp = decode_response(&ep, ok).expect("success decode");
    assert_eq!(resp.body_args, vec!["yes".to_owned()]);

    let forbidden = WireResponse {
        status: 403,
        headers: vec![],
        body: b"{\"errcode\":\"M_FORBIDDEN\",\"error\":\"no\"}".to_vec(),
    };
    let e = decode_response(&ep, forbidden).expect_err("must fail");
    match e {
        FromHttpResponseError::Http(se) => {
            assert_eq!(se.status_code, 403);
            let me = se.error.expect("structured error");
            assert_eq!(me.kind, MatrixErrorKind::Forbidden);
            assert_eq!(me.message, "no");
            assert_eq!(me.status_code, 403);
        },
        FromHttpResponseError::Deserialization(_) => panic!("wrong error arm"),
    }
}

#[test]
fn unknown_errcode_decodes_to_custom_kind() {
    let resp = WireResponse {
        status: 400,
        headers: vec![],
        body: b"{\"errcode\":\"M_SOME_FUTURE_CODE\",\"error\":\"later\"}".to_vec(),
    };
    let se = ServerError::new(&resp);
    let me = se.error.expect("structured error");
    assert_eq!(me.kind, MatrixErrorKind::Custom("M_SOME_FUTURE_CODE".to_owned()));
    assert_eq!(me.message, "later");
    assert_eq!(me.status_code, 400);
}

#[test]
fn unparsable_error_body_still_carries_status_and_bytes() {
    let resp = WireResponse {
        status: 502,
        headers: vec![],
        body: b"<html>bad gateway</html>".to_vec(),
    };
    let se = ServerError::new(&resp);
    assert!(se.error.is_none());
    assert_eq!(se.status_code, 502);
    assert_eq!(se.body, b"<html>bad gateway</html>".to_vec());
}

#[test]
fn matrix_error_encodes_to_wire_response() {
    let me = MatrixError {
        kind: MatrixErrorKind::LimitExceeded,
        status_code: 429,
        message: "slow down".to_owned(),
    };
    let wire = me.to_response();
    assert_eq!(wire.status, 429);
    assert_eq!(wire.headers, vec![(
        "content-type".to_owned(),
        "application/json".to_owned(),
    )]);
    assert_eq!(wire.body, b"{\"errcode\":\"M_LIMIT_EXCEEDED\",\"error\":\"slow down\"}".to_vec());
}

#[test]
fn every_known_code_round_trips_through_its_kind() {
    for code in [
        "M_FORBIDDEN", "M_UNKNOWN_TOKEN", "M_MISSING_TOKEN", "M_BAD_JSON", "M_NOT_JSON",
        "M_NOT_FOUND", "M_LIMIT_EXCEEDED", "M_UNKNOWN", "M_UNRECOGNIZED", "M_UNAUTHORIZED",
        "M_USER_IN_USE", "M_INVALID_USERNAME", "M_ROOM_IN_USE", "M_INVALID_ROOM_STATE",
        "M_THREEPID_IN_USE", "M_THREEPID_NOT_FOUND", "M_THREEPID_AUTH_FAILED",
        "M_THREEPID_DENIED", "M_SERVER_NOT_TRUSTED", "M_UNSUPPORTED_ROOM_VERSION",
        "M_INCOMPATIBLE_ROOM_VERSION", "M_BAD_STATE", "M_GUEST_ACCESS_FORBIDDEN",
        "M_CAPTCHA_NEEDED", "M_CAPTCHA_INVALID", "M_MISSING_PARAM", "M_INVALID_PARAM",
        "M_TOO_LARGE", "M_EXCLUSIVE",
    ] {
        let kind = MatrixErrorKind::from_code(&code.to_owned());
        assert!(!matches!(kind, MatrixErrorKind::Custom(_)), "{code} must be known");
        assert_eq!(kind.code_string(), code);
    }
}

#[test]
fn stray_percent_in_path_segment_is_an_error() {
    let ep = endpoint("/user/:name", vec![field("name", Placement::Path)], vec![]);
    let wire = WireRequest {
        method: Method::Get,
        path: "/user/bad%2".to_owned(),
        query: String::new(),
        headers: vec![],
        body: b"{}".to_vec(),
    };
    let FromHttpRequestError::Deserialization(d) =
        decode_request(&ep, wire).expect_err("must fail");
    assert_eq!(d.reason, DeserializationReason::InvalidPathSegment);
}
