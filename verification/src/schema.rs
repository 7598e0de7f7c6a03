//! The declarative table that assigns every field of a request or response
//! a placement on the wire, with its construction-time validation.

use vstd::prelude::*;
use crate::strings::{all_distinct, distinct_seqs};

verus! {

/// Where one field's value appears in a wire message. Exactly one placement
/// is assigned per field.
#[derive(Clone, Debug)]
pub enum Placement {
    /// Substituted into the URL path, placeholder by placeholder, in
    /// declaration order.
    Path,
    /// One key/value pair of the query string, under the field's name.
    Query,
    /// An ordered collection of key/value pairs merged into the query
    /// string; at most one per struct, and not beside `Query` fields.
    QueryMap,
    /// One HTTP header with the given (lowercase) wire name.
    Header(String),
    /// The whole message body is this one field's value, JSON-encoded
    /// alone; at most one per struct and exclusive with `Body` and
    /// `RawBody`.
    NewtypeBody,
    /// The whole message body is this one field's bytes, untouched.
    RawBody,
    /// One named member of the single JSON object that forms the body.
    Body,
}

/// One field of the table: a name and a placement.
#[derive(Clone, Debug)]
pub struct FieldSpec {
    /// The field's name; for `Query` and `Body` fields also its wire name.
    pub name: String,
    /// Where the field's value is placed.
    pub placement: Placement,
}

/// How the message body is formed.
#[derive(Clone, Copy, Debug, PartialEq, Eq, Structural)]
pub enum BodyKind {
    /// A JSON object holding the `Body` fields as members.
    Flat,
    /// The single `NewtypeBody` field, JSON-encoded alone.
    Newtype,
    /// The single `RawBody` field's bytes, untouched.
    Raw,
}

/// Why a table was rejected at construction time.
#[derive(Clone, Copy, Debug, PartialEq, Eq, Structural)]
pub enum SchemaError {
    /// More than one body override, or an override beside `Body` fields.
    BodyConflict,
    /// More than one `QueryMap`, or a `QueryMap` beside `Query` fields.
    QueryConflict,
    /// Two fields share a name.
    DuplicateFieldName,
    /// Two header fields share a wire name.
    DuplicateHeaderName,
    /// The path template's placeholder count differs from the number of
    /// path-placed fields.
    PlaceholderMismatch,
    /// A response schema holds a `Path`, `Query` or `QueryMap` field.
    ResponsePlacement,
}

/// The number of `Path` fields, in declaration order.
pub open spec fn spec_path_count(fs: Seq<FieldSpec>) -> int
    decreases fs.len(),
{
    if fs.len() == 0 {
        0
    } else {
        (if fs[0].placement is Path {
            1int
        } else {
            0int
        }) + spec_path_count(fs.drop_first())
    }
}

/// The names of the `Query` fields, in declaration order.
pub open spec fn spec_query_names(fs: Seq<FieldSpec>) -> Seq<Seq<char>>
    decreases fs.len(),
{
    if fs.len() == 0 {
        Seq::<Seq<char>>::empty()
    } else {
        (if fs[0].placement is Query {
            seq![fs[0].name@]
        } else {
            Seq::<Seq<char>>::empty()
        }) + spec_query_names(fs.drop_first())
    }
}

/// The wire names of the `Header` fields, in declaration order.
pub open spec fn spec_header_names(fs: Seq<FieldSpec>) -> Seq<Seq<char>>
    decreases fs.len(),
{
    if fs.len() == 0 {
        Seq::<Seq<char>>::empty()
    } else {
        (match fs[0].placement {
            Placement::Header(h) => seq![h@],
            _ => Seq::<Seq<char>>::empty(),
        }) + spec_header_names(fs.drop_first())
    }
}

/// The names of the `Body` fields, in declaration order.
pub open spec fn spec_body_names(fs: Seq<FieldSpec>) -> Seq<Seq<char>>
    decreases fs.len(),
{
    if fs.len() == 0 {
        Seq::<Seq<char>>::empty()
    } else {
        (if fs[0].placement is Body {
            seq![fs[0].name@]
        } else {
            Seq::<Seq<char>>::empty()
        }) + spec_body_names(fs.drop_first())
    }
}

/// The number of `QueryMap` fields.
pub open spec fn spec_query_map_count(fs: Seq<FieldSpec>) -> int
    decreases fs.len(),
{
    if fs.len() == 0 {
        0
    } else {
        (if fs[0].placement is QueryMap {
            1int
        } else {
            0int
        }) + spec_query_map_count(fs.drop_first())
    }
}

/// The number of `NewtypeBody` fields.
pub open spec fn spec_newtype_count(fs: Seq<FieldSpec>) -> int
    decreases fs.len(),
{
    if fs.len() == 0 {
        0
    } else {
        (if fs[0].placement is NewtypeBody {
            1int
        } else {
            0int
        }) + spec_newtype_count(fs.drop_first())
    }
}

/// The number of `RawBody` fields.
pub open spec fn spec_raw_count(fs: Seq<FieldSpec>) -> int
    decreases fs.len(),
{
    if fs.len() == 0 {
        0
    } else {
        (if fs[0].placement is RawBody {
            1int
        } else {
            0int
        }) + spec_raw_count(fs.drop_first())
    }
}

/// All field names, in declaration order.
pub open spec fn names_of(fs: Seq<FieldSpec>) -> Seq<Seq<char>> {
    Seq::new(fs.len(), |i: int| fs[i].name@)
}

/// The first reason to reject the table, if any, in the order the checks
/// are made.
pub open spec fn schema_check(fs: Seq<FieldSpec>) -> Option<SchemaError> {
    if spec_newtype_count(fs) + spec_raw_count(fs) > 1 || (spec_newtype_count(fs)
        + spec_raw_count(fs) == 1 && spec_body_names(fs).len() > 0) {
        Some(SchemaError::BodyConflict)
    } else if spec_query_map_count(fs) > 1 || (spec_query_map_count(fs) == 1
        && spec_query_names(fs).len() > 0) {
        Some(SchemaError::QueryConflict)
    } else if !distinct_seqs(names_of(fs)) || !distinct_seqs(spec_query_names(fs))
        || !distinct_seqs(spec_body_names(fs)) {
        Some(SchemaError::DuplicateFieldName)
    } else if !distinct_seqs(spec_header_names(fs)) {
        Some(SchemaError::DuplicateHeaderName)
    } else {
        None
    }
}

/// Holds when the table passes every construction-time check.
pub open spec fn valid_fields(fs: Seq<FieldSpec>) -> bool {
    schema_check(fs) is None
}

/// Every placement count is a sum of zeros and ones.
pub proof fn lemma_counts_nonneg(fs: Seq<FieldSpec>)
    ensures
        spec_path_count(fs) >= 0,
        spec_query_map_count(fs) >= 0,
        spec_newtype_count(fs) >= 0,
        spec_raw_count(fs) >= 0,
    decreases fs.len(),
{
    if fs.len() == 0 {
    } else {
        lemma_counts_nonneg(fs.drop_first());
    }
}

/// The body kind that a valid table implies.
pub open spec fn spec_body_kind(fs: Seq<FieldSpec>) -> BodyKind {
    if spec_newtype_count(fs) == 1 {
        BodyKind::Newtype
    } else if spec_raw_count(fs) == 1 {
        BodyKind::Raw
    } else {
        BodyKind::Flat
    }
}

/// A validated placement table, with the per-placement groups precomputed.
#[derive(Clone, Debug)]
pub struct Schema {
    /// The fields, in declaration order.
    pub fields: Vec<FieldSpec>,
    /// The number of `Path` fields.
    pub path_count: usize,
    /// The names of the `Query` fields, in order.
    pub query_names: Vec<String>,
    /// Whether the table holds a `QueryMap` field.
    pub has_query_map: bool,
    /// The wire names of the `Header` fields, in order.
    pub header_names: Vec<String>,
    /// The names of the `Body` fields, in order.
    pub body_names: Vec<String>,
    /// How the message body is formed.
    pub body_kind: BodyKind,
}

impl Schema {
    /// The precomputed groups agree with the fields, which pass every check.
    pub open spec fn wf(self) -> bool {
        &&& valid_fields(self.fields@)
        &&& self.path_count as int == spec_path_count(self.fields@)
        &&& self.query_names.deep_view() == spec_query_names(self.fields@)
        &&& self.has_query_map == (spec_query_map_count(self.fields@) == 1)
        &&& self.header_names.deep_view() == spec_header_names(self.fields@)
        &&& self.body_names.deep_view() == spec_body_names(self.fields@)
        &&& self.body_kind == spec_body_kind(self.fields@)
    }

    /// Validates a placement table. Rejected tables report the first
    /// violated rule: a second body override or an override beside `Body`
    /// fields, a second `QueryMap` or one beside `Query` fields, a repeated
    /// field name, or a repeated header name.
    pub fn new(fields: Vec<FieldSpec>) -> (r: Result<Schema, SchemaError>)
        ensures
            match r {
                Ok(s) => valid_fields(fields@) && s.wf() && s.fields@ == fields@,
                Err(e) => schema_check(fields@) == Some(e),
            },
    {
        let ghost whole = fields@;
        let mut path_count: usize = 0;
        let mut query_names: Vec<String> = Vec::new();
        let mut query_map_count: usize = 0;
        let mut newtype_count: usize = 0;
        let mut raw_count: usize = 0;
        let mut header_names: Vec<String> = Vec::new();
        let mut body_names: Vec<String> = Vec::new();
        let mut all_names: Vec<String> = Vec::new();
        let mut i: usize = 0;
        proof {
            assert(whole.skip(0) =~= whole);
            assert(query_names.deep_view() + spec_query_names(whole) =~= spec_query_names(whole));
            assert(header_names.deep_view() + spec_header_names(whole) =~= spec_header_names(
                whole,
            ));
            assert(body_names.deep_view() + spec_body_names(whole) =~= spec_body_names(whole));
            assert(all_names.deep_view() =~= names_of(whole).take(0));
        }
        while i < fields.len()
            invariant
                0 <= i <= fields.len(),
                whole == fields@,
                path_count <= i && query_map_count <= i && newtype_count <= i && raw_count <= i,
                spec_path_count(whole) == path_count + spec_path_count(whole.skip(i as int)),
                spec_query_map_count(whole) == query_map_count + spec_query_map_count(
                    whole.skip(i as int),
                ),
                spec_newtype_count(whole) == newtype_count + spec_newtype_count(
                    whole.skip(i as int),
                ),
                spec_raw_count(whole) == raw_count + spec_raw_count(whole.skip(i as int)),
                spec_query_names(whole) == query_names.deep_view() + spec_query_names(
                    whole.skip(i as int),
                ),
                spec_header_names(whole) == header_names.deep_view() + spec_header_names(
                    whole.skip(i as int),
                ),
                spec_body_names(whole) == body_names.deep_view() + spec_body_names(
                    whole.skip(i as int),
                ),
                all_names.deep_view() == names_of(whole).take(i as int),
            decreases fields.len() - i,
        {
            proof {
                assert(whole.skip(i as int)[0] == whole[i as int]);
                assert(whole.skip(i as int).drop_first() =~= whole.skip(i as int + 1));
            }
            let ghost old_q = query_names.deep_view();
            let ghost old_h = header_names.deep_view();
            let ghost old_b = body_names.deep_view();
            let ghost old_a = all_names.deep_view();
            match &fields[i].placement {
                Placement::Path => {
                    path_count += 1;
                },
                Placement::Query => {
                    query_names.push(fields[i].name.clone());
                    proof {
                        assert(query_names.deep_view() =~= old_q + seq![whole[i as int].name@]);
                        assert(old_q + (seq![whole[i as int].name@] + spec_query_names(
                            whole.skip(i as int + 1),
                        )) =~= query_names.deep_view() + spec_query_names(whole.skip(i as int + 1)));
                    }
                },
                Placement::QueryMap => {
                    query_map_count += 1;
                },
                Placement::Header(h) => {
                    let hc = h.clone();
                    header_names.push(hc);
                    proof {
                        assert(header_names.deep_view() =~= old_h + seq![
                            match whole[i as int].placement {
                                Placement::Header(n) => n@,
                                _ => Seq::<char>::empty(),
                            },
                        ]);
                        assert(old_h + (seq![
                            match whole[i as int].placement {
                                Placement::Header(n) => n@,
                                _ => Seq::<char>::empty(),
                            },
                        ] + spec_header_names(whole.skip(i as int + 1))) =~= header_names.deep_view()
                            + spec_header_names(whole.skip(i as int + 1)));
                    }
                },
                Placement::NewtypeBody => {
                    newtype_count += 1;
                },
                Placement::RawBody => {
                    raw_count += 1;
                },
                Placement::Body => {
                    body_names.push(fields[i].name.clone());
                    proof {
                        assert(body_names.deep_view() =~= old_b + seq![whole[i as int].name@]);
                        assert(old_b + (seq![whole[i as int].name@] + spec_body_names(
                            whole.skip(i as int + 1),
                        )) =~= body_names.deep_view() + spec_body_names(whole.skip(i as int + 1)));
                    }
                },
            }
            all_names.push(fields[i].name.clone());
            proof {
                assert(all_names.deep_view() =~= old_a + seq![whole[i as int].name@]);
                assert(all_names.deep_view() =~= names_of(whole).take(i as int + 1));
                assert(query_names.deep_view() + (Seq::<Seq<char>>::empty() + spec_query_names(
                    whole.skip(i as int + 1),
                )) =~= query_names.deep_view() + spec_query_names(whole.skip(i as int + 1)));
                assert(header_names.deep_view() + (Seq::<Seq<char>>::empty() + spec_header_names(
                    whole.skip(i as int + 1),
                )) =~= header_names.deep_view() + spec_header_names(whole.skip(i as int + 1)));
                assert(body_names.deep_view() + (Seq::<Seq<char>>::empty() + spec_body_names(
                    whole.skip(i as int + 1),
                )) =~= body_names.deep_view() + spec_body_names(whole.skip(i as int + 1)));
            }
            i += 1;
        }
        proof {
            assert(whole.skip(whole.len() as int) =~= Seq::<FieldSpec>::empty());
            assert(query_names.deep_view() + Seq::<Seq<char>>::empty() =~= query_names.deep_view());
            assert(header_names.deep_view() + Seq::<Seq<char>>::empty()
                =~= header_names.deep_view());
            assert(body_names.deep_view() + Seq::<Seq<char>>::empty() =~= body_names.deep_view());
            assert(names_of(whole).take(whole.len() as int) =~= names_of(whole));
        }
        let overrides_many = newtype_count > 1 || raw_count > 1 || (newtype_count == 1 && raw_count
            == 1);
        let overrides_one = (newtype_count == 1 && raw_count == 0) || (newtype_count == 0
            && raw_count == 1);
        if overrides_many || (overrides_one && body_names.len() > 0) {
            return Err(SchemaError::BodyConflict);
        }
        if query_map_count > 1 || (query_map_count == 1 && query_names.len() > 0) {
            return Err(SchemaError::QueryConflict);
        }
        if !all_distinct(&all_names) || !all_distinct(&query_names) || !all_distinct(&body_names) {
            return Err(SchemaError::DuplicateFieldName);
        }
        if !all_distinct(&header_names) {
            return Err(SchemaError::DuplicateHeaderName);
        }
        let body_kind = if newtype_count == 1 {
            BodyKind::Newtype
        } else if raw_count == 1 {
            BodyKind::Raw
        } else {
            BodyKind::Flat
        };
        let has_query_map = query_map_count == 1;
        Ok(
            Schema {
                fields,
                path_count,
                query_names,
                has_query_map,
                header_names,
                body_names,
                body_kind,
            },
        )
    }
}

} // verus!
