//! The conversion engine: encodes a typed request or response into a wire
//! message and decodes a wire message back, driven by an endpoint's
//! [`Metadata`] and placement [`Schema`].
//!
//! A typed value is carried generically, grouped by placement: the values
//! of the `Path` fields in declaration order, of the `Query` fields, the
//! `QueryMap` collection, the `Header` fields, the `Body` fields, and the
//! body override, matching the groups the schema precomputes. Every encode
//! function's contract also states that decoding its output restores the
//! value: the round trip is a theorem, not a convention.

use vstd::prelude::*;
use vstd::string::{StringSliceAdditionalSpecFns, StrSliceExecFns, StringExecFns};
use crate::error::{DeserializationReason, FromHttpRequestError, FromHttpResponseError,
    IntoHttpError, RequestDeserializationError, ResponseDeserializationError, ServerError,
    parsed_error_parts, kind_code, is_known_code};
use crate::json::{json_decode_object, json_decode_string, json_encode_object,
    json_encode_string, json_obj, json_obj_parsed, json_str, json_str_parsed, keys_of};
use crate::metadata::Metadata;
use crate::pct::{lemma_pct_chars_no_slash, lemma_pct_round_trip, pct_chars, pct_dec_str,
    percent_decode_component, percent_encode_component};
use crate::query::{form_decode_pairs, form_encode_pairs, form_encoded, form_parsed};
use crate::schema::{BodyKind, Schema, SchemaError, spec_body_kind, spec_body_names,
    spec_header_names, spec_path_count, spec_query_map_count, spec_query_names, valid_fields};
use crate::strings::{distinct_seqs, join_slashes, join_seq, lemma_lookup_zip, lemma_split_join,
    lemma_split_len, lemma_split_sep_free, lookup, lookup_pair, sep_free, split_seq,
    split_slashes, zip_pairs};
use crate::wire::{WireRequest, WireRequestV, WireResponse, WireResponseV};

verus! {

// ---------------------------------------------------------------------------
// Typed values, grouped by placement
// ---------------------------------------------------------------------------

/// The mathematical value of a [`Request`].
#[verifier::ext_equal]
pub ghost struct RequestV {
    pub path_args: Seq<Seq<char>>,
    pub query_args: Seq<Seq<char>>,
    pub query_map: Option<Seq<(Seq<char>, Seq<char>)>>,
    pub header_args: Seq<Seq<char>>,
    pub body_args: Seq<Seq<char>>,
    pub newtype_body: Option<Seq<char>>,
    pub raw_body: Option<Seq<u8>>,
}

/// A typed request, grouped by placement: each group lists the values of
/// the fields with that placement, in the schema's declaration order.
#[derive(Clone, Debug)]
pub struct Request {
    /// The values of the `Path` fields, in declaration order.
    pub path_args: Vec<String>,
    /// The values of the `Query` fields, in declaration order.
    pub query_args: Vec<String>,
    /// The pairs of the `QueryMap` field, when the schema has one.
    pub query_map: Option<Vec<(String, String)>>,
    /// The values of the `Header` fields, in declaration order.
    pub header_args: Vec<String>,
    /// The values of the `Body` fields, in declaration order.
    pub body_args: Vec<String>,
    /// The value of the `NewtypeBody` field, when the schema has one.
    pub newtype_body: Option<String>,
    /// The bytes of the `RawBody` field, when the schema has one.
    pub raw_body: Option<Vec<u8>>,
}

impl View for Request {
    type V = RequestV;

    open spec fn view(&self) -> RequestV {
        RequestV {
            path_args: self.path_args.deep_view(),
            query_args: self.query_args.deep_view(),
            query_map: match self.query_map {
                Some(m) => Some(m.deep_view()),
                None => None,
            },
            header_args: self.header_args.deep_view(),
            body_args: self.body_args.deep_view(),
            newtype_body: match self.newtype_body {
                Some(s) => Some(s@),
                None => None,
            },
            raw_body: match self.raw_body {
                Some(b) => Some(b@),
                None => None,
            },
        }
    }
}

impl crate::Outgoing for Request {
    type Incoming = Request;
}

/// The mathematical value of a [`Response`].
#[verifier::ext_equal]
pub ghost struct ResponseV {
    pub header_args: Seq<Seq<char>>,
    pub body_args: Seq<Seq<char>>,
    pub newtype_body: Option<Seq<char>>,
    pub raw_body: Option<Seq<u8>>,
}

/// A typed response, grouped by placement. Responses place fields in
/// headers and the body only, never in the path or query.
#[derive(Clone, Debug)]
pub struct Response {
    /// The values of the `Header` fields, in declaration order.
    pub header_args: Vec<String>,
    /// The values of the `Body` fields, in declaration order.
    pub body_args: Vec<String>,
    /// The value of the `NewtypeBody` field, when the schema has one.
    pub newtype_body: Option<String>,
    /// The bytes of the `RawBody` field, when the schema has one.
    pub raw_body: Option<Vec<u8>>,
}

impl View for Response {
    type V = ResponseV;

    open spec fn view(&self) -> ResponseV {
        ResponseV {
            header_args: self.header_args.deep_view(),
            body_args: self.body_args.deep_view(),
            newtype_body: match self.newtype_body {
                Some(s) => Some(s@),
                None => None,
            },
            raw_body: match self.raw_body {
                Some(b) => Some(b@),
                None => None,
            },
        }
    }
}

impl crate::Outgoing for Response {
    type Incoming = Response;
}

/// The request's groups agree in size and presence with the schema.
pub open spec fn req_valid(s: Schema, r: RequestV) -> bool {
    &&& r.path_args.len() == spec_path_count(s.fields@)
    &&& r.query_args.len() == spec_query_names(s.fields@).len()
    &&& (r.query_map is Some <==> spec_query_map_count(s.fields@) == 1)
    &&& r.header_args.len() == spec_header_names(s.fields@).len()
    &&& r.body_args.len() == spec_body_names(s.fields@).len()
    &&& (r.newtype_body is Some <==> spec_body_kind(s.fields@) is Newtype)
    &&& (r.raw_body is Some <==> spec_body_kind(s.fields@) is Raw)
}

/// The response's groups agree in size and presence with the schema.
pub open spec fn resp_valid(s: Schema, r: ResponseV) -> bool {
    &&& r.header_args.len() == spec_header_names(s.fields@).len()
    &&& r.body_args.len() == spec_body_names(s.fields@).len()
    &&& (r.newtype_body is Some <==> spec_body_kind(s.fields@) is Newtype)
    &&& (r.raw_body is Some <==> spec_body_kind(s.fields@) is Raw)
}

// ---------------------------------------------------------------------------
// Path templates and placeholder substitution
// ---------------------------------------------------------------------------

/// A template segment that starts with `:` is a placeholder.
pub open spec fn is_placeholder(seg: Seq<char>) -> bool {
    seg.len() > 0 && seg[0] == ':'
}

/// The positions of the placeholders among the template segments, counted
/// from `off`.
pub open spec fn ppos(t: Seq<Seq<char>>, off: int) -> Seq<int>
    decreases t.len(),
{
    if t.len() == 0 {
        Seq::<int>::empty()
    } else {
        (if is_placeholder(t[0]) {
            seq![off]
        } else {
            Seq::<int>::empty()
        }) + ppos(t.drop_first(), off + 1)
    }
}

/// Shifting the starting offset shifts every position by the same amount.
pub proof fn lemma_ppos_shift(t: Seq<Seq<char>>, off: int)
    ensures
        ppos(t, off).len() == ppos(t, 0).len(),
        forall|k: int|
            0 <= k < ppos(t, 0).len() ==> #[trigger] ppos(t, off)[k] == ppos(t, 0)[k] + off,
        forall|k: int| 0 <= k < ppos(t, 0).len() ==> 0 <= #[trigger] ppos(t, 0)[k] < t.len(),
    decreases t.len(),
{
    if t.len() == 0 {
    } else {
        lemma_ppos_shift(t.drop_first(), off + 1);
        lemma_ppos_shift(t.drop_first(), 1);
    }
}

/// The template with each placeholder, in order, replaced by the next
/// value; other segments are kept.
pub open spec fn spec_subst(t: Seq<Seq<char>>, vals: Seq<Seq<char>>) -> Seq<Seq<char>>
    decreases t.len(),
{
    if t.len() == 0 {
        Seq::<Seq<char>>::empty()
    } else if is_placeholder(t[0]) {
        seq![
            if vals.len() > 0 {
                vals[0]
            } else {
                Seq::<char>::empty()
            },
        ] + spec_subst(t.drop_first(), vals.drop_first())
    } else {
        seq![t[0]] + spec_subst(t.drop_first(), vals)
    }
}

/// Substitution keeps the number of segments, puts the `k`-th value at the
/// `k`-th placeholder's position, and keeps every other segment.
pub proof fn lemma_subst(t: Seq<Seq<char>>, vals: Seq<Seq<char>>)
    requires
        vals.len() == ppos(t, 0).len(),
    ensures
        spec_subst(t, vals).len() == t.len(),
        forall|k: int|
            0 <= k < vals.len() ==> 0 <= ppos(t, 0)[k] < t.len() && #[trigger] spec_subst(t, vals)[
                ppos(t, 0)[k]
            ] == vals[k],
        forall|j: int|
            0 <= j < t.len() && !is_placeholder(t[j]) ==> #[trigger] spec_subst(t, vals)[j] == t[j],
        forall|j: int|
            0 <= j < t.len() && is_placeholder(t[j]) ==> exists|k: int|
                0 <= k < vals.len() && ppos(t, 0)[k] == j,
    decreases t.len(),
{
    lemma_ppos_shift(t, 0);
    if t.len() == 0 {
    } else {
        let t2 = t.drop_first();
        lemma_ppos_shift(t2, 1);
        if is_placeholder(t[0]) {
            assert(ppos(t, 0) =~= seq![0int] + ppos(t2, 1));
            assert(ppos(t2, 1).len() == ppos(t2, 0).len());
            lemma_subst(t2, vals.drop_first());
            let s = spec_subst(t, vals);
            let s2 = spec_subst(t2, vals.drop_first());
            assert(s =~= seq![vals[0]] + s2);
            assert forall|k: int| 0 <= k < vals.len() implies 0 <= ppos(t, 0)[k] < t.len()
                && #[trigger] s[ppos(t, 0)[k]] == vals[k] by {
                if k == 0 {
                    assert(ppos(t, 0)[0] == 0);
                } else {
                    assert(ppos(t, 0)[k] == ppos(t2, 1)[k - 1]);
                    assert(ppos(t2, 1)[k - 1] == ppos(t2, 0)[k - 1] + 1);
                    assert(vals.drop_first()[k - 1] == vals[k]);
                    assert(s[ppos(t2, 0)[k - 1] + 1] == s2[ppos(t2, 0)[k - 1]]);
                }
            }
            assert forall|j: int| 0 <= j < t.len() && is_placeholder(t[j]) implies exists|k: int|
                0 <= k < vals.len() && ppos(t, 0)[k] == j by {
                if j == 0 {
                    assert(ppos(t, 0)[0] == 0);
                } else {
                    assert(is_placeholder(t2[j - 1]));
                    let k2 = choose|k2: int|
                        0 <= k2 < vals.drop_first().len() && ppos(t2, 0)[k2] == j - 1;
                    assert(ppos(t, 0)[k2 + 1] == ppos(t2, 1)[k2]);
                    assert(ppos(t2, 1)[k2] == ppos(t2, 0)[k2] + 1);
                }
            }
        } else {
            assert(ppos(t, 0) =~= ppos(t2, 1));
            lemma_subst(t2, vals);
            let s = spec_subst(t, vals);
            let s2 = spec_subst(t2, vals);
            assert(s =~= seq![t[0]] + s2);
            assert forall|k: int| 0 <= k < vals.len() implies 0 <= ppos(t, 0)[k] < t.len()
                && #[trigger] s[ppos(t, 0)[k]] == vals[k] by {
                assert(ppos(t, 0)[k] == ppos(t2, 1)[k]);
                assert(ppos(t2, 1)[k] == ppos(t2, 0)[k] + 1);
                assert(s[ppos(t2, 0)[k] + 1] == s2[ppos(t2, 0)[k]]);
            }
            assert forall|j: int| 0 <= j < t.len() && is_placeholder(t[j]) implies exists|k: int|
                0 <= k < vals.len() && ppos(t, 0)[k] == j by {
                assert(is_placeholder(t2[j - 1]));
                let k2 = choose|k2: int| 0 <= k2 < vals.len() && ppos(t2, 0)[k2] == j - 1;
                assert(ppos(t, 0)[k2] == ppos(t2, 1)[k2]);
            }
        }
    }
}

// ---------------------------------------------------------------------------
// The endpoint: one metadata value bound to a request and a response schema
// ---------------------------------------------------------------------------

/// Why a binding was rejected, or accepted: the first failed check.
pub open spec fn binding_check(metadata: Metadata, req_s: Schema, resp_s: Schema) -> Option<
    SchemaError,
> {
    if ppos(split_seq(metadata.path@, '/'), 0).len() != spec_path_count(req_s.fields@) {
        Some(SchemaError::PlaceholderMismatch)
    } else if spec_path_count(resp_s.fields@) != 0 || spec_query_names(resp_s.fields@).len() != 0
        || spec_query_map_count(resp_s.fields@) != 0 {
        Some(SchemaError::ResponsePlacement)
    } else {
        None
    }
}

/// One API endpoint: metadata bound to a request schema and a response
/// schema, with the path template parsed into segments once.
#[derive(Clone, Debug)]
pub struct Endpoint {
    /// The endpoint's metadata.
    pub metadata: Metadata,
    /// The placement table of the request type.
    pub request_schema: Schema,
    /// The placement table of the response type.
    pub response_schema: Schema,
    /// The template's segments, split on `/`.
    pub template: Vec<String>,
    /// The positions of the placeholders among the segments, in order.
    pub positions: Vec<usize>,
}

impl Endpoint {
    /// The schemas are valid, the template agrees with the metadata's path,
    /// the placeholders agree with the request schema's path fields, and
    /// the response schema places nothing in the path or query.
    pub open spec fn wf(self) -> bool {
        &&& self.request_schema.wf()
        &&& self.response_schema.wf()
        &&& self.template.deep_view() == split_seq(self.metadata.path@, '/')
        &&& self.positions@.len() == ppos(self.template.deep_view(), 0).len()
        &&& forall|k: int|
            0 <= k < self.positions@.len() ==> #[trigger] self.positions@[k] as int == ppos(
                self.template.deep_view(),
                0,
            )[k]
        &&& binding_check(self.metadata, self.request_schema, self.response_schema) is None
    }

    /// Binds metadata to a request and a response schema. The binding is
    /// rejected when the template's placeholder count differs from the
    /// request schema's number of path fields — a schema-authoring bug that
    /// fails loudly here rather than mis-binding segments — or when the
    /// response schema places a field in the path or query.
    pub fn new(metadata: Metadata, request_schema: Schema, response_schema: Schema) -> (r: Result<
        Endpoint,
        SchemaError,
    >)
        requires
            request_schema.wf(),
            response_schema.wf(),
        ensures
            match r {
                Ok(ep) => {
                    &&& binding_check(metadata, request_schema, response_schema) is None
                    &&& ep.wf()
                    &&& ep.metadata == metadata
                    &&& ep.request_schema == request_schema
                    &&& ep.response_schema == response_schema
                },
                Err(e) => binding_check(metadata, request_schema, response_schema) == Some(e),
            },
    {
        proof {
            reveal_strlit(":");
        }
        let template = split_slashes(metadata.path.as_str());
        let ghost t = template.deep_view();
        let mut positions: Vec<usize> = Vec::new();
        let mut i: usize = 0;
        proof {
            assert(t.skip(0) =~= t);
            assert(positions@.map_values(|p: usize| p as int) + ppos(t, 0) =~= ppos(t, 0));
        }
        while i < template.len()
            invariant
                0 <= i <= template.len(),
                t == template.deep_view(),
                ppos(t, 0) == positions@.map_values(|p: usize| p as int) + ppos(
                    t.skip(i as int),
                    i as int,
                ),
                forall|k: int| 0 <= k < positions@.len() ==> #[trigger] positions@[k] < i,
            decreases template.len() - i,
        {
            proof {
                assert(t.skip(i as int)[0] == t[i as int]);
                assert(t.skip(i as int).drop_first() =~= t.skip(i as int + 1));
                assert(t[i as int] == template@[i as int]@);
            }
            let seg = &template[i];
            let ghost old_p = positions@;
            if seg.as_str().unicode_len() > 0 && seg.as_str().get_char(0) == ':' {
                positions.push(i);
                proof {
                    assert(is_placeholder(t[i as int]));
                    assert(positions@.map_values(|p: usize| p as int) =~= old_p.map_values(
                        |p: usize| p as int,
                    ) + seq![i as int]);
                    assert(old_p.map_values(|p: usize| p as int) + (seq![i as int] + ppos(
                        t.skip(i as int + 1),
                        i as int + 1,
                    )) =~= positions@.map_values(|p: usize| p as int) + ppos(
                        t.skip(i as int + 1),
                        i as int + 1,
                    ));
                }
            } else {
                proof {
                    assert(!is_placeholder(t[i as int]));
                    assert(old_p.map_values(|p: usize| p as int) + (Seq::<int>::empty() + ppos(
                        t.skip(i as int + 1),
                        i as int + 1,
                    )) =~= positions@.map_values(|p: usize| p as int) + ppos(
                        t.skip(i as int + 1),
                        i as int + 1,
                    ));
                }
            }
            i += 1;
        }
        proof {
            assert(t.skip(template.len() as int) =~= Seq::<Seq<char>>::empty());
            assert(positions@.map_values(|p: usize| p as int) + Seq::<int>::empty()
                =~= positions@.map_values(|p: usize| p as int));
            assert(ppos(t, 0) =~= positions@.map_values(|p: usize| p as int));
        }
        if positions.len() != request_schema.path_count {
            return Err(SchemaError::PlaceholderMismatch);
        }
        if response_schema.path_count != 0 || response_schema.query_names.len() != 0
            || response_schema.has_query_map {
            return Err(SchemaError::ResponsePlacement);
        }
        proof {
            crate::schema::lemma_counts_nonneg(response_schema.fields@);
            assert(spec_query_map_count(response_schema.fields@) == 0);
            assert(forall|k: int|
                0 <= k < positions@.len() ==> #[trigger] positions@[k] as int == positions@.map_values(
                    |p: usize| p as int,
                )[k]);
        }
        Ok(Endpoint { metadata, request_schema, response_schema, template, positions })
    }
}

// ---------------------------------------------------------------------------
// The encode and decode mappings, as mathematics
// ---------------------------------------------------------------------------

/// Whether the schema places anything in the query string.
pub open spec fn spec_has_query(s: Schema) -> bool {
    spec_query_names(s.fields@).len() > 0 || spec_query_map_count(s.fields@) == 1
}

/// The query pairs of a request: one per `Query` field in order, then the
/// `QueryMap` collection.
pub open spec fn spec_query_pairs(s: Schema, r: RequestV) -> Seq<(Seq<char>, Seq<char>)> {
    zip_pairs(spec_query_names(s.fields@), r.query_args) + (match r.query_map {
        Some(m) => m,
        None => Seq::<(Seq<char>, Seq<char>)>::empty(),
    })
}

/// The body bytes of a value: the raw bytes, the newtype value JSON-encoded
/// alone, or the JSON object of the `Body` fields.
pub open spec fn spec_body_bytes(
    s: Schema,
    body_args: Seq<Seq<char>>,
    newtype_body: Option<Seq<char>>,
    raw_body: Option<Seq<u8>>,
) -> Seq<u8> {
    match spec_body_kind(s.fields@) {
        BodyKind::Raw => raw_body.unwrap(),
        BodyKind::Newtype => json_str(newtype_body.unwrap()),
        BodyKind::Flat => json_obj(zip_pairs(spec_body_names(s.fields@), body_args)),
    }
}

/// A legal HTTP header value: visible ASCII, space, or horizontal tab.
pub open spec fn valid_header_value(s: Seq<char>) -> bool {
    forall|i: int| 0 <= i < s.len() ==> s[i] == '\t' || (' ' <= s[i] && s[i] <= '~')
}

/// All header values of the group are legal.
pub open spec fn valid_header_values(args: Seq<Seq<char>>) -> bool {
    forall|j: int| 0 <= j < args.len() ==> valid_header_value(#[trigger] args[j])
}

/// The wire request that a typed request encodes to.
pub open spec fn spec_encode_request(ep: Endpoint, r: RequestV) -> WireRequestV {
    WireRequestV {
        method: ep.metadata.method,
        path: join_seq(
            spec_subst(
                ep.template.deep_view(),
                Seq::new(r.path_args.len(), |k: int| pct_chars(r.path_args[k])),
            ),
            '/',
        ),
        query: if spec_has_query(ep.request_schema) {
            form_encoded(spec_query_pairs(ep.request_schema, r))
        } else {
            Seq::<char>::empty()
        },
        headers: zip_pairs(spec_header_names(ep.request_schema.fields@), r.header_args),
        body: spec_body_bytes(ep.request_schema, r.body_args, r.newtype_body, r.raw_body),
    }
}

/// The value found for each name, when every name is found.
pub open spec fn spec_lookup_all(
    names: Seq<Seq<char>>,
    pairs: Seq<(Seq<char>, Seq<char>)>,
) -> Option<Seq<Seq<char>>> {
    if forall|j: int| 0 <= j < names.len() ==> lookup(pairs, #[trigger] names[j]) is Some {
        Some(Seq::new(names.len(), |j: int| lookup(pairs, names[j]).unwrap()))
    } else {
        None
    }
}

/// The path values recovered from the split wire path: the segment at each
/// placeholder's position, percent-decoded.
pub open spec fn spec_decode_path_args(t: Seq<Seq<char>>, segs: Seq<Seq<char>>) -> Option<
    Seq<Seq<char>>,
> {
    let pp = ppos(t, 0);
    if forall|k: int|
        0 <= k < pp.len() ==> 0 <= pp[k] < segs.len() && pct_dec_str(
            #[trigger] segs[pp[k]],
        ) is Some {
        Some(Seq::new(pp.len(), |k: int| pct_dec_str(segs[pp[k]]).unwrap()))
    } else {
        None
    }
}

/// The query groups recovered from the wire query string.
pub open spec fn spec_decode_query(s: Schema, q: Seq<char>) -> Option<
    (Seq<Seq<char>>, Option<Seq<(Seq<char>, Seq<char>)>>),
> {
    if !spec_has_query(s) {
        Some((Seq::<Seq<char>>::empty(), None))
    } else {
        match form_parsed(q) {
            None => None,
            Some(qp) => match spec_lookup_all(spec_query_names(s.fields@), qp) {
                None => None,
                Some(args) => Some(
                    (
                        args,
                        if spec_query_map_count(s.fields@) == 1 {
                            Some(qp)
                        } else {
                            None
                        },
                    ),
                ),
            },
        }
    }
}

/// The body groups recovered from the wire body bytes.
pub open spec fn spec_decode_body(s: Schema, b: Seq<u8>) -> Option<
    (Seq<Seq<char>>, Option<Seq<char>>, Option<Seq<u8>>),
> {
    match spec_body_kind(s.fields@) {
        BodyKind::Raw => Some((Seq::<Seq<char>>::empty(), None, Some(b))),
        BodyKind::Newtype => match json_str_parsed(b) {
            Some(v) => Some((Seq::<Seq<char>>::empty(), Some(v), None)),
            None => None,
        },
        BodyKind::Flat => match json_obj_parsed(b) {
            Some(m) => match spec_lookup_all(spec_body_names(s.fields@), m) {
                Some(args) => Some((args, None, None)),
                None => None,
            },
            None => None,
        },
    }
}

/// The typed request that a wire request decodes to, when every placement
/// can be recovered.
pub open spec fn spec_decode_request(ep: Endpoint, w: WireRequestV) -> Option<RequestV> {
    let segs = split_seq(w.path, '/');
    match (
        spec_decode_path_args(ep.template.deep_view(), segs),
        spec_decode_query(ep.request_schema, w.query),
        spec_decode_headers(ep.request_schema, w.headers),
        spec_decode_body(ep.request_schema, w.body),
    ) {
        (Some(pa), Some(q), Some(ha), Some(b)) => Some(
            RequestV {
                path_args: pa,
                query_args: q.0,
                query_map: q.1,
                header_args: ha,
                body_args: b.0,
                newtype_body: b.1,
                raw_body: b.2,
            },
        ),
        _ => None,
    }
}

/// The header values recovered from the wire headers.
pub open spec fn spec_decode_headers(
    s: Schema,
    hs: Seq<(Seq<char>, Seq<char>)>,
) -> Option<Seq<Seq<char>>> {
    spec_lookup_all(spec_header_names(s.fields@), hs)
}

/// The headers of an encoded response: the `Header` fields, then a JSON
/// content type unless the body is raw bytes.
pub open spec fn spec_response_headers(s: Schema, header_args: Seq<Seq<char>>) -> Seq<
    (Seq<char>, Seq<char>),
> {
    zip_pairs(spec_header_names(s.fields@), header_args) + (if spec_body_kind(s.fields@) is Raw {
        Seq::<(Seq<char>, Seq<char>)>::empty()
    } else {
        seq![("content-type"@, "application/json"@)]
    })
}

/// The wire response that a typed response encodes to. The success status
/// is implied; the server's handling layer may replace it.
pub open spec fn spec_encode_response(ep: Endpoint, r: ResponseV) -> WireResponseV {
    WireResponseV {
        status: 200,
        headers: spec_response_headers(ep.response_schema, r.header_args),
        body: spec_body_bytes(ep.response_schema, r.body_args, r.newtype_body, r.raw_body),
    }
}

/// The typed response that a success wire response decodes to.
pub open spec fn spec_decode_response_success(ep: Endpoint, w: WireResponseV) -> Option<ResponseV> {
    match (
        spec_decode_headers(ep.response_schema, w.headers),
        spec_decode_body(ep.response_schema, w.body),
    ) {
        (Some(ha), Some(b)) => Some(
            ResponseV { header_args: ha, body_args: b.0, newtype_body: b.1, raw_body: b.2 },
        ),
        _ => None,
    }
}

// ---------------------------------------------------------------------------
// Shared helpers
// ---------------------------------------------------------------------------

/// The value of an optional string.
pub open spec fn opt_str_view(o: Option<String>) -> Option<Seq<char>> {
    match o {
        Some(s) => Some(s@),
        None => None,
    }
}

/// The value of an optional byte vector.
pub open spec fn opt_bytes_view(o: Option<Vec<u8>>) -> Option<Seq<u8>> {
    match o {
        Some(b) => Some(b@),
        None => None,
    }
}

/// Pairs each name with the value at the same position.
fn build_pairs(names: &Vec<String>, vals: &Vec<String>) -> (r: Vec<(String, String)>)
    requires
        names.len() == vals.len(),
    ensures
        r.deep_view() == zip_pairs(names.deep_view(), vals.deep_view()),
{
    let mut r: Vec<(String, String)> = Vec::new();
    let mut j: usize = 0;
    while j < names.len()
        invariant
            0 <= j <= names.len(),
            names.len() == vals.len(),
            r.len() == j,
            forall|p: int|
                0 <= p < j ==> #[trigger] r.deep_view()[p] == (
                    names.deep_view()[p],
                    vals.deep_view()[p],
                ),
        decreases names.len() - j,
    {
        let ghost old_dv = r.deep_view();
        r.push((names[j].clone(), vals[j].clone()));
        proof {
            assert(forall|p: int| 0 <= p < j ==> #[trigger] r.deep_view()[p] == old_dv[p]);
            assert(r.deep_view()[j as int] == (names@[j as int]@, vals@[j as int]@));
        }
        j += 1;
    }
    proof {
        assert(r.deep_view() =~= zip_pairs(names.deep_view(), vals.deep_view()));
    }
    r
}

/// Reports whether the string is a legal HTTP header value.
fn check_header_value(s: &String) -> (r: bool)
    ensures
        r == valid_header_value(s@),
{
    let n = s.as_str().unicode_len();
    let mut i: usize = 0;
    while i < n
        invariant
            0 <= i <= n,
            n == s@.len(),
            forall|p: int| 0 <= p < i ==> s@[p] == '\t' || (' ' <= s@[p] && s@[p] <= '~'),
        decreases n - i,
    {
        let c = s.as_str().get_char(i);
        if !(c == '\t' || (' ' <= c && c <= '~')) {
            return false;
        }
        i += 1;
    }
    true
}

/// Finds the value of every name in the pair list, in the names' order.
fn lookup_all(names: &Vec<String>, pairs: &Vec<(String, String)>) -> (r: Option<Vec<String>>)
    ensures
        match r {
            Some(v) => spec_lookup_all(names.deep_view(), pairs.deep_view()) == Some(v.deep_view()),
            None => spec_lookup_all(names.deep_view(), pairs.deep_view()) is None,
        },
{
    let ghost ns = names.deep_view();
    let ghost ps = pairs.deep_view();
    let mut out: Vec<String> = Vec::new();
    let mut j: usize = 0;
    while j < names.len()
        invariant
            0 <= j <= names.len(),
            ns == names.deep_view(),
            ps == pairs.deep_view(),
            out.len() == j,
            forall|p: int|
                0 <= p < j ==> lookup(ps, #[trigger] ns[p]) is Some && out.deep_view()[p] == lookup(
                    ps,
                    ns[p],
                ).unwrap(),
        decreases names.len() - j,
    {
        proof {
            assert(ns[j as int] == names@[j as int]@);
        }
        match lookup_pair(pairs, &names[j]) {
            Some(v) => {
                out.push(v);
                proof {
                    assert(out.deep_view()[j as int] == lookup(ps, ns[j as int]).unwrap());
                }
            },
            None => {
                proof {
                    assert(lookup(ps, ns[j as int]) is None);
                }
                return None;
            },
        }
        j += 1;
    }
    proof {
        assert(out.deep_view() =~= Seq::new(ns.len(), |p: int| lookup(ps, ns[p]).unwrap()));
    }
    Some(out)
}

/// Encodes the body groups into the wire body bytes. The contract also
/// states that decoding the bytes restores the groups.
fn encode_body_parts(
    schema: &Schema,
    body_args: &Vec<String>,
    newtype_body: &Option<String>,
    raw_body: &Option<Vec<u8>>,
) -> (r: Vec<u8>)
    requires
        schema.wf(),
        body_args.deep_view().len() == spec_body_names(schema.fields@).len(),
        (newtype_body is Some <==> spec_body_kind(schema.fields@) is Newtype),
        (raw_body is Some <==> spec_body_kind(schema.fields@) is Raw),
    ensures
        r@ == spec_body_bytes(
            *schema,
            body_args.deep_view(),
            opt_str_view(*newtype_body),
            opt_bytes_view(*raw_body),
        ),
        spec_decode_body(*schema, r@) == Some(
            (body_args.deep_view(), opt_str_view(*newtype_body), opt_bytes_view(*raw_body)),
        ),
{
    proof {
        crate::schema::lemma_counts_nonneg(schema.fields@);
    }
    match schema.body_kind {
        BodyKind::Raw => {
            match raw_body {
                Some(b) => {
                    proof {
                        assert(body_args.deep_view() =~= Seq::<Seq<char>>::empty());
                    }
                    b.clone()
                },
                None => {
                    proof {
                        assert(false);
                    }
                    Vec::new()
                },
            }
        },
        BodyKind::Newtype => {
            match newtype_body {
                Some(s) => {
                    let r = json_encode_string(s);
                    proof {
                        assert(body_args.deep_view() =~= Seq::<Seq<char>>::empty());
                    }
                    r
                },
                None => {
                    proof {
                        assert(false);
                    }
                    Vec::new()
                },
            }
        },
        BodyKind::Flat => {
            let pairs = build_pairs(&schema.body_names, body_args);
            proof {
                assert(keys_of(pairs.deep_view()) =~= spec_body_names(schema.fields@));
            }
            let r = json_encode_object(&pairs);
            proof {
                let names = spec_body_names(schema.fields@);
                let m = json_obj_parsed(r@).unwrap();
                assert forall|j: int| 0 <= j < names.len() implies lookup(
                    m,
                    #[trigger] names[j],
                ) is Some && lookup(m, names[j]).unwrap() == body_args.deep_view()[j] by {
                    lemma_lookup_zip(names, body_args.deep_view(), j);
                    assert(lookup(m, names[j]) == lookup(pairs.deep_view(), names[j]));
                }
                assert(spec_lookup_all(names, m) == Some(
                    Seq::new(names.len(), |j: int| lookup(m, names[j]).unwrap()),
                ));
                assert(Seq::new(names.len(), |j: int| lookup(m, names[j]).unwrap())
                    =~= body_args.deep_view());
            }
            r
        },
    }
}

/// Decodes the wire body bytes into the body groups.
fn decode_body_parts(schema: &Schema, body: &Vec<u8>) -> (r: Result<
    (Vec<String>, Option<String>, Option<Vec<u8>>),
    DeserializationReason,
>)
    requires
        schema.wf(),
    ensures
        match r {
            Ok(p) => spec_decode_body(*schema, body@) == Some(
                (p.0.deep_view(), opt_str_view(p.1), opt_bytes_view(p.2)),
            ),
            Err(_) => spec_decode_body(*schema, body@) is None,
        },
{
    proof {
        crate::schema::lemma_counts_nonneg(schema.fields@);
    }
    match schema.body_kind {
        BodyKind::Raw => {
            let out: Vec<String> = Vec::new();
            proof {
                assert(out.deep_view() =~= Seq::<Seq<char>>::empty());
            }
            Ok((out, None, Some(body.clone())))
        },
        BodyKind::Newtype => {
            match json_decode_string(body) {
                Some(s) => {
                    let out: Vec<String> = Vec::new();
                    proof {
                        assert(out.deep_view() =~= Seq::<Seq<char>>::empty());
                    }
                    Ok((out, Some(s), None))
                },
                None => Err(DeserializationReason::InvalidBody),
            }
        },
        BodyKind::Flat => {
            match json_decode_object(body) {
                None => Err(DeserializationReason::InvalidBody),
                Some(m) => {
                    match lookup_all(&schema.body_names, &m) {
                        Some(args) => Ok((args, None, None)),
                        None => Err(DeserializationReason::MissingBodyField),
                    }
                },
            }
        },
    }
}

/// The wire path of an encoded request splits back into exactly the
/// substituted template segments.
pub proof fn lemma_encoded_path(ep: Endpoint, r: RequestV)
    requires
        ep.wf(),
        req_valid(ep.request_schema, r),
    ensures
        ({
            let t = ep.template.deep_view();
            let evals = Seq::new(r.path_args.len(), |k: int| pct_chars(r.path_args[k]));
            split_seq(spec_encode_request(ep, r).path, '/') == spec_subst(t, evals)
        }),
{
    let t = ep.template.deep_view();
    let evals = Seq::new(r.path_args.len(), |k: int| pct_chars(r.path_args[k]));
    assert(ppos(t, 0).len() == spec_path_count(ep.request_schema.fields@));
    lemma_subst(t, evals);
    lemma_split_len(ep.metadata.path@, '/');
    lemma_split_sep_free(ep.metadata.path@, '/');
    let s = spec_subst(t, evals);
    assert forall|j: int| 0 <= j < s.len() implies sep_free(#[trigger] s[j], '/') by {
        if is_placeholder(t[j]) {
            let k = choose|k: int| 0 <= k < evals.len() && ppos(t, 0)[k] == j;
            assert(s[j] == evals[k]);
            lemma_pct_chars_no_slash(r.path_args[k]);
        } else {
            assert(s[j] == t[j]);
        }
    }
    lemma_split_join(s, '/');
}

// ---------------------------------------------------------------------------
// The four conversions
// ---------------------------------------------------------------------------

/// Encodes a typed request into a wire request under the endpoint's
/// metadata and request schema.
///
/// Succeeds exactly when every header value is legal, and then produces
/// exactly the wire request of [`spec_encode_request`]; decoding that wire
/// request restores the typed request — the round trip holds by contract.
pub fn encode_request(ep: &Endpoint, req: &Request) -> (r: Result<WireRequest, IntoHttpError>)
    requires
        ep.wf(),
        req_valid(ep.request_schema, req@),
    ensures
        match r {
            Ok(w) => {
                &&& valid_header_values(req@.header_args)
                &&& w@ == spec_encode_request(*ep, req@)
                &&& spec_decode_request(*ep, w@) == Some(req@)
            },
            Err(e) => {
                &&& !valid_header_values(req@.header_args)
                &&& match e {
                    IntoHttpError::InvalidHeaderValue(name) => exists|j: int|
                        0 <= j < req@.header_args.len() && !valid_header_value(
                            #[trigger] req@.header_args[j],
                        ) && name@ == spec_header_names(ep.request_schema.fields@)[j],
                }
            },
        },
{
    let ghost t = ep.template.deep_view();
    // headers are validated first: the only way encoding can fail
    let mut j: usize = 0;
    while j < req.header_args.len()
        invariant
            0 <= j <= req.header_args.len(),
            ep.wf(),
            req_valid(ep.request_schema, req@),
            forall|p: int| 0 <= p < j ==> valid_header_value(#[trigger] req@.header_args[p]),
        decreases req.header_args.len() - j,
    {
        proof {
            assert(req@.header_args[j as int] == req.header_args@[j as int]@);
        }
        if !check_header_value(&req.header_args[j]) {
            proof {
                assert(!valid_header_value(req@.header_args[j as int]));
            }
            return Err(IntoHttpError::InvalidHeaderValue(ep.request_schema.header_names[j].clone()));
        }
        j += 1;
    }
    // path: substitute the placeholders with the percent-encoded values
    let mut evals: Vec<String> = Vec::new();
    let mut k: usize = 0;
    while k < req.path_args.len()
        invariant
            0 <= k <= req.path_args.len(),
            ep.wf(),
            req_valid(ep.request_schema, req@),
            evals.len() == k,
            forall|p: int|
                0 <= p < k ==> #[trigger] evals.deep_view()[p] == pct_chars(req@.path_args[p]),
        decreases req.path_args.len() - k,
    {
        proof {
            assert(req@.path_args[k as int] == req.path_args@[k as int]@);
        }
        let e = percent_encode_component(req.path_args[k].as_str());
        let ghost old_dv = evals.deep_view();
        evals.push(e);
        proof {
            assert(forall|p: int| 0 <= p < k ==> #[trigger] evals.deep_view()[p] == old_dv[p]);
            assert(evals.deep_view()[k as int] == pct_chars(req@.path_args[k as int]));
        }
        k += 1;
    }
    let ghost vals = Seq::new(req@.path_args.len(), |x: int| pct_chars(req@.path_args[x]));
    proof {
        assert(evals.deep_view() =~= vals);
        lemma_ppos_shift(t, 0);
        assert(ppos(t, 0).len() == vals.len());
        assert(t.skip(0) =~= t);
        assert(vals.skip(0) =~= vals);
    }
    let mut segs: Vec<String> = Vec::new();
    let mut i: usize = 0;
    let mut kk: usize = 0;
    proof {
        assert(segs.deep_view() + spec_subst(t, vals) =~= spec_subst(t, vals));
    }
    while i < ep.template.len()
        invariant
            0 <= i <= ep.template.len(),
            0 <= kk <= vals.len(),
            t == ep.template.deep_view(),
            vals == evals.deep_view(),
            evals.len() == vals.len(),
            ppos(t.skip(i as int), 0).len() == vals.len() - kk,
            spec_subst(t, vals) == segs.deep_view() + spec_subst(
                t.skip(i as int),
                vals.skip(kk as int),
            ),
        decreases ep.template.len() - i,
    {
        proof {
            reveal_strlit(":");
            assert(t.skip(i as int)[0] == t[i as int]);
            assert(t.skip(i as int).drop_first() =~= t.skip(i as int + 1));
            assert(t[i as int] == ep.template@[i as int]@);
            lemma_ppos_shift(t.skip(i as int + 1), 1);
        }
        let seg = &ep.template[i];
        let ghost old_segs = segs.deep_view();
        if seg.as_str().unicode_len() > 0 && seg.as_str().get_char(0) == ':' {
            proof {
                assert(is_placeholder(t[i as int]));
                assert(ppos(t.skip(i as int), 0) =~= seq![0int] + ppos(t.skip(i as int + 1), 1));
                assert(kk < vals.len());
                assert(vals.skip(kk as int)[0] == vals[kk as int]);
                assert(vals.skip(kk as int).drop_first() =~= vals.skip(kk as int + 1));
            }
            segs.push(evals[kk].clone());
            proof {
                assert(segs.deep_view() =~= old_segs + seq![vals[kk as int]]);
                assert(old_segs + (seq![vals[kk as int]] + spec_subst(
                    t.skip(i as int + 1),
                    vals.skip(kk as int + 1),
                )) =~= segs.deep_view() + spec_subst(t.skip(i as int + 1), vals.skip(kk as int + 1)));
            }
            kk += 1;
        } else {
            proof {
                assert(!is_placeholder(t[i as int]));
                assert(ppos(t.skip(i as int), 0) =~= ppos(t.skip(i as int + 1), 1));
            }
            segs.push(seg.clone());
            proof {
                assert(segs.deep_view() =~= old_segs + seq![t[i as int]]);
                assert(old_segs + (seq![t[i as int]] + spec_subst(
                    t.skip(i as int + 1),
                    vals.skip(kk as int),
                )) =~= segs.deep_view() + spec_subst(t.skip(i as int + 1), vals.skip(kk as int)));
            }
        }
        i += 1;
    }
    proof {
        assert(t.skip(ep.template.len() as int) =~= Seq::<Seq<char>>::empty());
        assert(segs.deep_view() + Seq::<Seq<char>>::empty() =~= segs.deep_view());
        assert(segs.deep_view() =~= spec_subst(t, vals));
        lemma_subst(t, vals);
        lemma_split_len(ep.metadata.path@, '/');
        assert(segs.len() >= 1);
    }
    let path = join_slashes(&segs);
    // query: the named pairs, then the map's pairs
    let mut qpairs = build_pairs(&ep.request_schema.query_names, &req.query_args);
    let ghost zipped = zip_pairs(spec_query_names(ep.request_schema.fields@), req@.query_args);
    proof {
        assert(qpairs.deep_view() =~= zipped);
    }
    match &req.query_map {
        Some(m) => {
            let mut q: usize = 0;
            while q < m.len()
                invariant
                    0 <= q <= m.len(),
                    zipped == zip_pairs(
                        spec_query_names(ep.request_schema.fields@),
                        req@.query_args,
                    ),
                    qpairs.deep_view() == zipped + m.deep_view().take(q as int),
                decreases m.len() - q,
            {
                let ghost old_q = qpairs.deep_view();
                qpairs.push((m[q].0.clone(), m[q].1.clone()));
                proof {
                    assert(qpairs.deep_view() =~= old_q + seq![m.deep_view()[q as int]]);
                    assert(zipped + m.deep_view().take(q as int + 1) =~= (zipped
                        + m.deep_view().take(q as int)) + seq![m.deep_view()[q as int]]);
                }
                q += 1;
            }
            proof {
                assert(m.deep_view().take(m.len() as int) =~= m.deep_view());
            }
        },
        None => {
            proof {
                assert(zipped + Seq::<(Seq<char>, Seq<char>)>::empty() =~= zipped);
            }
        },
    }
    proof {
        assert(qpairs.deep_view() =~= spec_query_pairs(ep.request_schema, req@));
    }
    let has_query = ep.request_schema.query_names.len() > 0 || ep.request_schema.has_query_map;
    let query = if has_query {
        form_encode_pairs(&qpairs)
    } else {
        String::new()
    };
    proof {
        assert(has_query == spec_has_query(ep.request_schema));
    }
    // headers
    let headers = build_pairs(&ep.request_schema.header_names, &req.header_args);
    // body
    let body = encode_body_parts(
        &ep.request_schema,
        &req.body_args,
        &req.newtype_body,
        &req.raw_body,
    );
    let w = WireRequest { method: ep.metadata.method, path, query, headers, body };
    proof {
        assert(w@.path =~= join_seq(spec_subst(t, vals), '/'));
        assert(w@ =~~= spec_encode_request(*ep, req@));
        // decoding the encoded request restores the request
        lemma_encoded_path(*ep, req@);
        let segs2 = split_seq(w@.path, '/');
        assert(segs2 == spec_subst(t, vals));
        let pp = ppos(t, 0);
        assert forall|x: int| 0 <= x < pp.len() implies 0 <= pp[x] < segs2.len() && pct_dec_str(
            #[trigger] segs2[pp[x]],
        ) == Some(req@.path_args[x]) by {
            assert(segs2[pp[x]] == vals[x]);
            lemma_pct_round_trip(req@.path_args[x]);
        }
        assert(spec_decode_path_args(t, segs2) == Some(
            Seq::new(pp.len(), |x: int| pct_dec_str(segs2[pp[x]]).unwrap()),
        ));
        assert(Seq::new(pp.len(), |x: int| pct_dec_str(segs2[pp[x]]).unwrap())
            =~= req@.path_args);
        // query round trip
        let qnames = spec_query_names(ep.request_schema.fields@);
        if spec_has_query(ep.request_schema) {
            assert(form_parsed(w@.query) == Some(qpairs.deep_view()));
            let qp = qpairs.deep_view();
            assert forall|x: int| 0 <= x < qnames.len() implies lookup(
                qp,
                #[trigger] qnames[x],
            ) == Some(req@.query_args[x]) by {
                lemma_lookup_zip(qnames, req@.query_args, x);
                crate::strings::lemma_lookup_append(
                    zipped,
                    match req@.query_map {
                        Some(m) => m,
                        None => Seq::<(Seq<char>, Seq<char>)>::empty(),
                    },
                    qnames[x],
                );
            }
            assert(spec_lookup_all(qnames, qp) == Some(
                Seq::new(qnames.len(), |x: int| lookup(qp, qnames[x]).unwrap()),
            ));
            assert(Seq::new(qnames.len(), |x: int| lookup(qp, qnames[x]).unwrap())
                =~= req@.query_args);
            if spec_query_map_count(ep.request_schema.fields@) == 1 {
                assert(qnames.len() == 0);
                assert(zipped =~= Seq::<(Seq<char>, Seq<char>)>::empty());
                assert(qp =~= req@.query_map.unwrap());
            }
            assert(spec_decode_query(ep.request_schema, w@.query) == Some(
                (req@.query_args, req@.query_map),
            ));
        } else {
            assert(req@.query_args =~= Seq::<Seq<char>>::empty());
            assert(spec_decode_query(ep.request_schema, w@.query) == Some(
                (req@.query_args, req@.query_map),
            ));
        }
        // header round trip
        let hnames = spec_header_names(ep.request_schema.fields@);
        assert forall|x: int| 0 <= x < hnames.len() implies lookup(
            w@.headers,
            #[trigger] hnames[x],
        ) == Some(req@.header_args[x]) by {
            lemma_lookup_zip(hnames, req@.header_args, x);
        }
        assert(spec_decode_headers(ep.request_schema, w@.headers) == Some(
            Seq::new(hnames.len(), |x: int| lookup(w@.headers, hnames[x]).unwrap()),
        ));
        assert(Seq::new(hnames.len(), |x: int| lookup(w@.headers, hnames[x]).unwrap())
            =~= req@.header_args);
        // assemble
        assert(spec_decode_request(*ep, w@) == Some(
            RequestV {
                path_args: req@.path_args,
                query_args: req@.query_args,
                query_map: req@.query_map,
                header_args: req@.header_args,
                body_args: req@.body_args,
                newtype_body: req@.newtype_body,
                raw_body: req@.raw_body,
            },
        ));
        assert(RequestV {
            path_args: req@.path_args,
            query_args: req@.query_args,
            query_map: req@.query_map,
            header_args: req@.header_args,
            body_args: req@.body_args,
            newtype_body: req@.newtype_body,
            raw_body: req@.raw_body,
        } =~~= req@);
    }
    Ok(w)
}

/// Decodes a wire request into a typed request under the endpoint's
/// request schema, the server-side direction.
///
/// Succeeds exactly when every placement can be recovered, and then
/// produces exactly the value of [`spec_decode_request`]; any wire request
/// that does not match the expected shape — a missing path segment, an
/// unparsable segment or query, a missing field, or a malformed body —
/// yields an error carrying the offending request verbatim, never a panic.
pub fn decode_request(ep: &Endpoint, request: WireRequest) -> (r: Result<
    Request,
    FromHttpRequestError,
>)
    requires
        ep.wf(),
    ensures
        match r {
            Ok(req) => spec_decode_request(*ep, request@) == Some(req@),
            Err(e) => match e {
                FromHttpRequestError::Deserialization(d) => spec_decode_request(
                    *ep,
                    request@,
                ) is None && d.request == request,
            },
        },
{
    let ghost wv = request@;
    let ghost t = ep.template.deep_view();
    let ghost pp = ppos(t, 0);
    let segs = split_slashes(request.path.as_str());
    let mut path_args: Vec<String> = Vec::new();
    let mut k: usize = 0;
    while k < ep.positions.len()
        invariant
            0 <= k <= ep.positions.len(),
            ep.wf(),
            t == ep.template.deep_view(),
            pp == ppos(t, 0),
            wv == request@,
            segs.deep_view() == split_seq(wv.path, '/'),
            path_args.len() == k,
            forall|p: int|
                0 <= p < k ==> 0 <= pp[p] < segs.deep_view().len() && pct_dec_str(
                    #[trigger] segs.deep_view()[pp[p]],
                ) is Some && path_args.deep_view()[p] == pct_dec_str(
                    segs.deep_view()[pp[p]],
                ).unwrap(),
        decreases ep.positions.len() - k,
    {
        proof {
            assert(ep.positions@[k as int] as int == pp[k as int]);
        }
        let j = ep.positions[k];
        if j >= segs.len() {
            proof {
                assert(!(0 <= pp[k as int] < segs.deep_view().len()));
                assert(spec_decode_path_args(t, split_seq(wv.path, '/')) is None);
            }
            return Err(
                FromHttpRequestError::Deserialization(
                    RequestDeserializationError {
                        request,
                        reason: DeserializationReason::MissingPathSegment,
                    },
                ),
            );
        }
        proof {
            assert(segs.deep_view()[j as int] == segs@[j as int]@);
        }
        match percent_decode_component(segs[j].as_str()) {
            Some(v) => {
                let ghost old_dv = path_args.deep_view();
                path_args.push(v);
                proof {
                    assert(forall|p: int|
                        0 <= p < k ==> #[trigger] path_args.deep_view()[p] == old_dv[p]);
                    assert(path_args.deep_view()[k as int] == pct_dec_str(
                        segs.deep_view()[pp[k as int]],
                    ).unwrap());
                }
            },
            None => {
                proof {
                    assert(pct_dec_str(segs.deep_view()[pp[k as int]]) is None);
                    assert(spec_decode_path_args(t, split_seq(wv.path, '/')) is None);
                }
                return Err(
                    FromHttpRequestError::Deserialization(
                        RequestDeserializationError {
                            request,
                            reason: DeserializationReason::InvalidPathSegment,
                        },
                    ),
                );
            },
        }
        k += 1;
    }
    proof {
        assert(spec_decode_path_args(t, split_seq(wv.path, '/')) == Some(
            Seq::new(pp.len(), |p: int| pct_dec_str(split_seq(wv.path, '/')[pp[p]]).unwrap()),
        ));
        assert(Seq::new(pp.len(), |p: int| pct_dec_str(split_seq(wv.path, '/')[pp[p]]).unwrap())
            =~= path_args.deep_view());
    }
    // query
    let has_query = ep.request_schema.query_names.len() > 0 || ep.request_schema.has_query_map;
    proof {
        assert(has_query == spec_has_query(ep.request_schema));
    }
    let mut query_args: Vec<String> = Vec::new();
    let mut query_map: Option<Vec<(String, String)>> = None;
    if has_query {
        match form_decode_pairs(request.query.as_str()) {
            None => {
                return Err(
                    FromHttpRequestError::Deserialization(
                        RequestDeserializationError {
                            request,
                            reason: DeserializationReason::InvalidQuery,
                        },
                    ),
                );
            },
            Some(qp) => {
                match lookup_all(&ep.request_schema.query_names, &qp) {
                    None => {
                        return Err(
                            FromHttpRequestError::Deserialization(
                                RequestDeserializationError {
                                    request,
                                    reason: DeserializationReason::MissingQueryField,
                                },
                            ),
                        );
                    },
                    Some(args) => {
                        query_args = args;
                        if ep.request_schema.has_query_map {
                            query_map = Some(qp);
                        }
                    },
                }
            },
        }
    } else {
        proof {
            assert(query_args.deep_view() =~= Seq::<Seq<char>>::empty());
        }
    }
    let ghost qmv = match &query_map {
        Some(m) => Some(m.deep_view()),
        None => None,
    };
    proof {
        assert(spec_decode_query(ep.request_schema, wv.query) == Some(
            (query_args.deep_view(), qmv),
        ));
    }
    // headers
    let header_args = match lookup_all(&ep.request_schema.header_names, &request.headers) {
        Some(v) => v,
        None => {
            return Err(
                FromHttpRequestError::Deserialization(
                    RequestDeserializationError {
                        request,
                        reason: DeserializationReason::MissingHeader,
                    },
                ),
            );
        },
    };
    // body
    let (body_args, newtype_body, raw_body) = match decode_body_parts(
        &ep.request_schema,
        &request.body,
    ) {
        Ok(p) => p,
        Err(reason) => {
            return Err(
                FromHttpRequestError::Deserialization(
                    RequestDeserializationError { request, reason },
                ),
            );
        },
    };
    let req = Request {
        path_args,
        query_args,
        query_map,
        header_args,
        body_args,
        newtype_body,
        raw_body,
    };
    proof {
        assert(spec_decode_request(*ep, wv) == Some(
            RequestV {
                path_args: req@.path_args,
                query_args: req@.query_args,
                query_map: req@.query_map,
                header_args: req@.header_args,
                body_args: req@.body_args,
                newtype_body: req@.newtype_body,
                raw_body: req@.raw_body,
            },
        ));
        assert(RequestV {
            path_args: req@.path_args,
            query_args: req@.query_args,
            query_map: req@.query_map,
            header_args: req@.header_args,
            body_args: req@.body_args,
            newtype_body: req@.newtype_body,
            raw_body: req@.raw_body,
        } =~~= req@);
    }
    Ok(req)
}

/// Encodes a typed response into a wire response under the endpoint's
/// response schema, the server-side direction. The status is the implied
/// success status; error responses are built from a
/// [`crate::error::MatrixError`] instead.
///
/// Succeeds exactly when every header value is legal; a response with no
/// body fields still encodes the minimal JSON object body, with a JSON
/// content type, and decoding the result restores the typed response.
pub fn encode_response(ep: &Endpoint, resp: &Response) -> (r: Result<WireResponse, IntoHttpError>)
    requires
        ep.wf(),
        resp_valid(ep.response_schema, resp@),
    ensures
        match r {
            Ok(w) => {
                &&& valid_header_values(resp@.header_args)
                &&& w@ == spec_encode_response(*ep, resp@)
                &&& w@.status < 400
                &&& spec_decode_response_success(*ep, w@) == Some(resp@)
            },
            Err(e) => {
                &&& !valid_header_values(resp@.header_args)
                &&& match e {
                    IntoHttpError::InvalidHeaderValue(name) => exists|j: int|
                        0 <= j < resp@.header_args.len() && !valid_header_value(
                            #[trigger] resp@.header_args[j],
                        ) && name@ == spec_header_names(ep.response_schema.fields@)[j],
                }
            },
        },
{
    let mut j: usize = 0;
    while j < resp.header_args.len()
        invariant
            0 <= j <= resp.header_args.len(),
            ep.wf(),
            resp_valid(ep.response_schema, resp@),
            forall|p: int| 0 <= p < j ==> valid_header_value(#[trigger] resp@.header_args[p]),
        decreases resp.header_args.len() - j,
    {
        proof {
            assert(resp@.header_args[j as int] == resp.header_args@[j as int]@);
        }
        if !check_header_value(&resp.header_args[j]) {
            proof {
                assert(!valid_header_value(resp@.header_args[j as int]));
            }
            return Err(
                IntoHttpError::InvalidHeaderValue(ep.response_schema.header_names[j].clone()),
            );
        }
        j += 1;
    }
    let mut headers = build_pairs(&ep.response_schema.header_names, &resp.header_args);
    let ghost zipped = zip_pairs(spec_header_names(ep.response_schema.fields@), resp@.header_args);
    let is_raw = match ep.response_schema.body_kind {
        BodyKind::Raw => true,
        _ => false,
    };
    if !is_raw {
        let ghost old_h = headers.deep_view();
        headers.push(("content-type".to_owned(), "application/json".to_owned()));
        proof {
            assert(headers.deep_view() =~= old_h + seq![("content-type"@, "application/json"@)]);
        }
    }
    proof {
        assert(headers.deep_view() =~= spec_response_headers(
            ep.response_schema,
            resp@.header_args,
        ));
    }
    let body = encode_body_parts(
        &ep.response_schema,
        &resp.body_args,
        &resp.newtype_body,
        &resp.raw_body,
    );
    let w = WireResponse { status: 200, headers, body };
    proof {
        assert(w@ =~~= spec_encode_response(*ep, resp@));
        let hnames = spec_header_names(ep.response_schema.fields@);
        assert forall|x: int| 0 <= x < hnames.len() implies lookup(
            w@.headers,
            #[trigger] hnames[x],
        ) == Some(resp@.header_args[x]) by {
            lemma_lookup_zip(hnames, resp@.header_args, x);
            crate::strings::lemma_lookup_append(
                zipped,
                if spec_body_kind(ep.response_schema.fields@) is Raw {
                    Seq::<(Seq<char>, Seq<char>)>::empty()
                } else {
                    seq![("content-type"@, "application/json"@)]
                },
                hnames[x],
            );
        }
        assert(spec_decode_headers(ep.response_schema, w@.headers) == Some(
            Seq::new(hnames.len(), |x: int| lookup(w@.headers, hnames[x]).unwrap()),
        ));
        assert(Seq::new(hnames.len(), |x: int| lookup(w@.headers, hnames[x]).unwrap())
            =~= resp@.header_args);
        assert(spec_decode_response_success(*ep, w@) == Some(
            ResponseV {
                header_args: resp@.header_args,
                body_args: resp@.body_args,
                newtype_body: resp@.newtype_body,
                raw_body: resp@.raw_body,
            },
        ));
        assert(ResponseV {
            header_args: resp@.header_args,
            body_args: resp@.body_args,
            newtype_body: resp@.newtype_body,
            raw_body: resp@.raw_body,
        } =~~= resp@);
    }
    Ok(w)
}

/// Decodes a wire response, the client-side direction.
///
/// A status below 400 is success: the response's own placements are
/// decoded symmetrically to the server side, to exactly the value of
/// [`spec_decode_response_success`]. A status of 400 or above is never
/// decoded as a response: it becomes a [`ServerError`] that carries the
/// status and raw body verbatim, with the structured application error
/// filled in exactly when the body has the `{errcode, error}` shape.
pub fn decode_response(ep: &Endpoint, response: WireResponse) -> (r: Result<
    Response,
    FromHttpResponseError,
>)
    requires
        ep.wf(),
    ensures
        match r {
            Ok(resp) => response@.status < 400 && spec_decode_response_success(*ep, response@)
                == Some(resp@),
            Err(e) => match e {
                FromHttpResponseError::Http(se) => {
                    &&& response@.status >= 400
                    &&& se.status_code == response@.status
                    &&& se.body@ == response@.body
                    &&& match parsed_error_parts(response@.body) {
                        Some(p) => se.error matches Some(me) && kind_code(me.kind) == p.0 && ((
                        me.kind is Custom) <==> !is_known_code(p.0)) && me.message@ == p.1
                            && me.status_code == response@.status,
                        None => se.error is None,
                    }
                },
                FromHttpResponseError::Deserialization(d) => {
                    &&& response@.status < 400
                    &&& spec_decode_response_success(*ep, response@) is None
                    &&& d.response == response
                },
            },
        },
{
    if response.status >= 400 {
        let se = ServerError::new(&response);
        return Err(FromHttpResponseError::Http(se));
    }
    let ghost wv = response@;
    let header_args = match lookup_all(&ep.response_schema.header_names, &response.headers) {
        Some(v) => v,
        None => {
            return Err(
                FromHttpResponseError::Deserialization(
                    ResponseDeserializationError {
                        response,
                        reason: DeserializationReason::MissingHeader,
                    },
                ),
            );
        },
    };
    let (body_args, newtype_body, raw_body) = match decode_body_parts(
        &ep.response_schema,
        &response.body,
    ) {
        Ok(p) => p,
        Err(reason) => {
            return Err(
                FromHttpResponseError::Deserialization(
                    ResponseDeserializationError { response, reason },
                ),
            );
        },
    };
    let resp = Response { header_args, body_args, newtype_body, raw_body };
    proof {
        assert(spec_decode_response_success(*ep, wv) == Some(
            ResponseV {
                header_args: resp@.header_args,
                body_args: resp@.body_args,
                newtype_body: resp@.newtype_body,
                raw_body: resp@.raw_body,
            },
        ));
        assert(ResponseV {
            header_args: resp@.header_args,
            body_args: resp@.body_args,
            newtype_body: resp@.newtype_body,
            raw_body: resp@.raw_body,
        } =~~= resp@);
    }
    Ok(resp)
}

/// Path substitution order: in the encoded wire path, split on `/`, the
/// segment at the `k`-th placeholder's position is exactly the
/// percent-encoding of the `k`-th path value. With a template of two
/// placeholders `:a/:b`, the first placeholder's slot holds the first path
/// value and the second the second, wherever the request's other fields
/// stand.
pub proof fn lemma_path_substitution_order(ep: Endpoint, r: RequestV, k: int)
    requires
        ep.wf(),
        req_valid(ep.request_schema, r),
        0 <= k < r.path_args.len(),
    ensures
        ({
            let segs = split_seq(spec_encode_request(ep, r).path, '/');
            let pp = ppos(ep.template.deep_view(), 0);
            &&& segs.len() == ep.template.deep_view().len()
            &&& 0 <= pp[k] < segs.len()
            &&& segs[pp[k]] == pct_chars(r.path_args[k])
        }),
{
    lemma_encoded_path(ep, r);
    let t = ep.template.deep_view();
    let evals = Seq::new(r.path_args.len(), |x: int| pct_chars(r.path_args[x]));
    assert(ppos(t, 0).len() == evals.len());
    lemma_subst(t, evals);
    let segs = split_seq(spec_encode_request(ep, r).path, '/');
    assert(segs == spec_subst(t, evals));
    let pp = ppos(t, 0);
    assert(segs[pp[k]] == evals[k]);
    assert(evals[k] == pct_chars(r.path_args[k]));
}

} // verus!
