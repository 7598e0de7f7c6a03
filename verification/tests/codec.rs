use ruma_api::codec::{decode_request, decode_response, encode_request, encode_response, Endpoint,
    Request, Response};
use ruma_api::metadata::{Metadata, Method};
use ruma_api::schema::{FieldSpec, Placement, Schema};
use ruma_api::wire::WireRequest;

fn field(name: &str, placement: Placement) -> FieldSpec {
    FieldSpec { name: name.to_owned(), placement }
}

fn metadata(method: Method, path: &str) -> Metadata {
    Metadata {
        description: "test endpoint".to_owned(),
        method,
        name: "test".to_owned(),
        path: path.to_owned(),
        rate_limited: false,
        requires_authentication: false,
    }
}

fn endpoint(method: Method, path: &str, req: Vec<FieldSpec>, resp: Vec<FieldSpec>) -> Endpoint {
    let request_schema = Schema::new(req).expect("request schema");
    let response_schema = Schema::new(resp).expect("response schema");
    Endpoint::new(metadata(method, path), request_schema, response_schema).expect("binding")
}

fn empty_request() -> Request {
    Request {
        path_args: vec![],
        query_args: vec![],
        query_map: None,
        header_args: vec![],
        body_args: vec![],
        newtype_body: None,
        raw_body: None,
    }
}

#[test]
fn example_end_to_end() {
    let ep = endpoint(
        Method::Put,
        "/_matrix/client/r0/directory/room/:room_alias",
        vec![field("room_id", Placement::Body), field("room_alias", Placement::Path)],
        vec![],
    );
    let mut req = empty_request();
    req.path_args = vec!["#foo:example.org".to_owned()];
    req.body_args = vec!["!abc:example.org".to_owned()];
    let wire = encode_request(&ep, &req).expect("encode");
    assert!(matches!(wire.method, Method::Put));
    assert_eq!(wire.path, "/_matrix/client/r0/directory/room/%23foo%3Aexample.org");
    assert_eq!(wire.query, "");
    assert_eq!(wire.body, b"{\"room_id\":\"!abc:example.org\"}".to_vec());
    let back = decode_request(&ep, wire).expect("decode");
    assert_eq!(back.path_args, req.path_args);
    assert_eq!(back.body_args, req.body_args);
    assert_eq!(back.query_args, req.query_args);
    assert_eq!(back.header_args, req.header_args);
    assert!(back.query_map.is_none());
    assert!(back.newtype_body.is_none());
    assert!(back.raw_body.is_none());
}

#[test]
fn round_trip_all_placements() {
    let ep = endpoint(
        Method::Post,
        "/api/:id/items",
        vec![
            field("token", Placement::Header("authorization".to_owned())),
            field("id", Placement::Path),
            field("limit", Placement::Query),
            field("since", Placement::Query),
            field("title", Placement::Body),
            field("note", Placement::Body),
        ],
        vec![],
    );
    let req = Request {
        path_args: vec!["item one/two".to_owned()],
        query_args: vec!["10".to_owned(), "a b&c=d".to_owned()],
        query_map: None,
        header_args: vec!["Bearer some-token".to_owned()],
        body_args: vec!["a title".to_owned(), "a note".to_owned()],
        newtype_body: None,
        raw_body: None,
    };
    let wire = encode_request(&ep, &req).expect("encode");
    assert_eq!(wire.path, "/api/item%20one%2Ftwo/items");
    assert_eq!(wire.query, "limit=10&since=a+b%26c%3Dd");
    assert_eq!(wire.headers, vec![(
        "authorization".to_owned(),
        "Bearer some-token".to_owned(),
    )]);
    let back = decode_request(&ep, wire).expect("decode");
    assert_eq!(back.path_args, req.path_args);
    assert_eq!(back.query_args, req.query_args);
    assert_eq!(back.header_args, req.header_args);
    assert_eq!(back.body_args, req.body_args);
}

#[test]
fn round_trip_newtype_body() {
    let ep = endpoint(
        Method::Put,
        "/data",
        vec![field("payload", Placement::NewtypeBody)],
        vec![],
    );
    let mut req = empty_request();
    req.newtype_body = Some("just a \"string\" body".to_owned());
    let wire = encode_request(&ep, &req).expect("encode");
    assert_eq!(wire.body, b"\"just a \\\"string\\\" body\"".to_vec());
    let back = decode_request(&ep, wire).expect("decode");
    assert_eq!(back.newtype_body, req.newtype_body);
}

#[test]
fn round_trip_raw_body() {
    let ep = endpoint(Method::Put, "/upload", vec![field("file", Placement::RawBody)], vec![]);
    let mut req = empty_request();
    req.raw_body = Some(vec![0u8, 159, 146, 150, 255]);
    let wire = encode_request(&ep, &req).expect("encode");
    assert_eq!(wire.body, vec![0u8, 159, 146, 150, 255]);
    let back = decode_request(&ep, wire).expect("decode");
    assert_eq!(back.raw_body, req.raw_body);
}

#[test]
fn round_trip_query_map() {
    let ep = endpoint(Method::Get, "/search", vec![field("filters", Placement::QueryMap)], vec![]);
    let mut req = empty_request();
    req.query_map = Some(vec![
        ("b".to_owned(), "2".to_owned()),
        ("a".to_owned(), "1".to_owned()),
        ("a".to_owned(), "3".to_owned()),
    ]);
    let wire = encode_request(&ep, &req).expect("encode");
    assert_eq!(wire.query, "b=2&a=1&a=3");
    let back = decode_request(&ep, wire).expect("decode");
    assert_eq!(back.query_map, req.query_map);
}

#[test]
fn path_substitution_two_placeholders() {
    let ep = endpoint(
        Method::Get,
        "/x/:a/:b",
        vec![
            field("other", Placement::Body),
            field("a_field", Placement::Path),
            field("b_field", Placement::Path),
        ],
        vec![],
    );
    let mut req = empty_request();
    req.path_args = vec!["first".to_owned(), "second".to_owned()];
    req.body_args = vec!["ignored".to_owned()];
    let wire = encode_request(&ep, &req).expect("encode");
    let segments: Vec<&str> = wire.path.split('/').collect();
    assert_eq!(segments, vec!["", "x", "first", "second"]);
}

#[test]
fn response_round_trip_with_header() {
    let ep = endpoint(
        Method::Get,
        "/thing",
        vec![],
        vec![
            field("content_type", Placement::Header("content-type".to_owned())),
            field("value", Placement::Body),
        ],
    );
    let resp = Response {
        header_args: vec!["text/plain".to_owned()],
        body_args: vec!["hello".to_owned()],
        newtype_body: None,
        raw_body: None,
    };
    let wire = encode_response(&ep, &resp).expect("encode");
    assert_eq!(wire.status, 200);
    assert_eq!(wire.body, b"{\"value\":\"hello\"}".to_vec());
    let back = decode_response(&ep, wire).expect("decode");
    assert_eq!(back.header_args, resp.header_args);
    assert_eq!(back.body_args, resp.body_args);
}

#[test]
fn empty_response_encodes_minimal_json_body() {
    let ep = endpoint(Method::Put, "/ack", vec![], vec![]);
    let resp = Response {
        header_args: vec![],
        body_args: vec![],
        newtype_body: None,
        raw_body: None,
    };
    let wire = encode_response(&ep, &resp).expect("encode");
    assert_eq!(wire.body, b"{}".to_vec());
    assert_eq!(wire.headers, vec![(
        "content-type".to_owned(),
        "application/json".to_owned(),
    )]);
}

#[test]
fn decode_ignores_extra_query_and_body_members() {
    let ep = endpoint(
        Method::Get,
        "/q",
        vec![field("wanted", Placement::Query), field("kept", Placement::Body)],
        vec![],
    );
    let wire = WireRequest {
        method: Method::Get,
        path: "/q".to_owned(),
        query: "extra=1&wanted=yes".to_owned(),
        headers: vec![],
        body: b"{\"kept\":\"v\",\"other\":\"w\"}".to_vec(),
    };
    let back = decode_request(&ep, wire).expect("decode");
    assert_eq!(back.query_args, vec!["yes".to_owned()]);
    assert_eq!(back.body_args, vec!["v".to_owned()]);
}

#[test]
fn method_names() {
    assert_eq!(Method::Get.name(), "GET");
    assert_eq!(Method::Put.name(), "PUT");
    assert_eq!(Method::Post.name(), "POST");
    assert_eq!(Method::Delete.name(), "DELETE");
}

#[test]
fn uri_joins_path_and_query() {
    let ep = endpoint(Method::Get, "/search", vec![field("q", Placement::Query)], vec![]);
    let mut req = empty_request();
    req.query_args = vec!["hello world".to_owned()];
    let wire = encode_request(&ep, &req).expect("encode");
    assert_eq!(wire.uri(), "/search?q=hello+world");

    let ep2 = endpoint(Method::Get, "/plain", vec![], vec![]);
    let wire2 = encode_request(&ep2, &empty_request()).expect("encode");
    assert_eq!(wire2.uri(), "/plain");
}

#[test]
fn round_trip_unicode_path_value() {
    let ep = endpoint(Method::Get, "/user/:name", vec![field("name", Placement::Path)], vec![]);
    let mut req = empty_request();
    req.path_args = vec!["héllo wörld".to_owned()];
    let wire = encode_request(&ep, &req).expect("encode");
    assert_eq!(wire.path, "/user/h%C3%A9llo%20w%C3%B6rld");
    let back = decode_request(&ep, wire).expect("decode");
    assert_eq!(back.path_args, vec!["héllo wörld".to_owned()]);
}
