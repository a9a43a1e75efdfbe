//! The definition query: its request and reply shapes, the normalizer
//! that folds the server's heterogeneous reply forms into one list of
//! targets, and the bounded retry policy for transiently empty results.

use vstd::prelude::*;
use vstd::string::*;
use crate::json::{obj_get, get_field, JsonValue};

verus! {

/// How many attempts a definition query makes while results stay empty.
pub const MAX_RETRIES: u32 = 3;

/// Milliseconds the driver waits between two such attempts.
pub const RETRY_DELAY_MS: u64 = 150;

/// A position query: document and zero-based position.
#[derive(Debug)]
pub struct DefinitionRequest {
    /// file scheme URI of the document
    pub uri: String,
    /// Zero-based line index
    pub line: u32,
    /// Zero-based character index
    pub character: u32,
}

#[derive(Debug)]
pub struct DefinitionResponse {
    pub targets: Vec<DefinitionTarget>,
}

#[derive(Debug)]
pub struct DefinitionTarget {
    pub uri: String,
    pub range: TextRange,
}

#[derive(Clone, Copy, Debug, PartialEq, Eq, Structural)]
pub struct TextRange {
    pub start_line: u32,
    pub start_character: u32,
    pub end_line: u32,
    pub end_character: u32,
}

pub struct DefinitionTool;

/// Why a reply failed to normalize; each names the first offending shape
/// found, scanning targets in order and each target's fields in the order
/// uri, range, start, end, and each boundary's line then character.
#[derive(Clone, Copy, Debug, PartialEq, Eq, Structural)]
pub enum NormalizeError {
    /// The reply is neither null, a list, nor an object.
    UnexpectedFormat,
    /// A list element is not an object.
    EntryNotObject,
    /// An entry has neither a `uri` nor a `targetUri` field.
    MissingTargetFields,
    /// The entry's uri field is not a string.
    UriNotString,
    /// The entry has no range field.
    RangeMissing,
    /// The range is not an object.
    RangeNotObject,
    /// The range has no `start` object.
    StartMissing,
    /// The range has no `end` object.
    EndMissing,
    /// A boundary's `line` or `character` is missing, not an unsigned
    /// integer, or too large for a 32-bit coordinate.
    CoordNotUnsigned,
}

/// A normalized target over plain values.
pub struct SpecTarget {
    pub uri: Seq<char>,
    pub range: TextRange,
}

pub open spec fn target_view(t: DefinitionTarget) -> SpecTarget {
    SpecTarget { uri: t.uri@, range: t.range }
}

pub open spec fn targets_view(ts: Seq<DefinitionTarget>) -> Seq<SpecTarget> {
    ts.map_values(|t: DefinitionTarget| target_view(t))
}

/// A coordinate taken from a boundary object: an unsigned 32-bit
/// integer, copied exactly; anything else — and in particular a value the
/// target type cannot hold — is an error, never clamped or truncated.
pub open spec fn coord_of(v: JsonValue) -> Result<u32, NormalizeError> {
    if v is Int && 0 <= v->Int_0 <= u32::MAX {
        Ok(v->Int_0 as u32)
    } else {
        Err(NormalizeError::CoordNotUnsigned)
    }
}

/// The named coordinate of a boundary object.
pub open spec fn field_coord(b: JsonValue, name: Seq<char>) -> Result<u32, NormalizeError> {
    if !(b is Object) {
        Err(NormalizeError::CoordNotUnsigned)
    } else {
        match obj_get(b->Object_0@, name) {
            None => Err(NormalizeError::CoordNotUnsigned),
            Some(c) => coord_of(c),
        }
    }
}

/// A range object: `start` and `end` boundaries, each with unsigned
/// integer `line` and `character`.
pub open spec fn range_of(v: JsonValue) -> Result<TextRange, NormalizeError> {
    if !(v is Object) {
        Err(NormalizeError::RangeNotObject)
    } else {
        let f = v->Object_0@;
        match obj_get(f, "start"@) {
            None => Err(NormalizeError::StartMissing),
            Some(start) => match obj_get(f, "end"@) {
                None => Err(NormalizeError::EndMissing),
                Some(end) => match field_coord(start, "line"@) {
                    Err(e) => Err(e),
                    Ok(sl) => match field_coord(start, "character"@) {
                        Err(e) => Err(e),
                        Ok(sc) => match field_coord(end, "line"@) {
                            Err(e) => Err(e),
                            Ok(el) => match field_coord(end, "character"@) {
                                Err(e) => Err(e),
                                Ok(ec) => Ok(TextRange {
                                    start_line: sl,
                                    start_character: sc,
                                    end_line: el,
                                    end_character: ec,
                                }),
                            },
                        },
                    },
                },
            },
        }
    }
}

/// One reply entry: a location (`uri` with `range`) or a location link
/// (`targetUri` with `targetRange`), both normalized to the same target
/// shape.
pub open spec fn location_of(v: JsonValue) -> Result<SpecTarget, NormalizeError> {
    if !(v is Object) {
        Err(NormalizeError::EntryNotObject)
    } else {
        let f = v->Object_0@;
        if obj_get(f, "uri"@) is Some {
            location_fields_of(f, "uri"@, "range"@)
        } else if obj_get(f, "targetUri"@) is Some {
            location_fields_of(f, "targetUri"@, "targetRange"@)
        } else {
            Err(NormalizeError::MissingTargetFields)
        }
    }
}

/// The target read from an entry's given uri and range field names.
pub open spec fn location_fields_of(
    f: Seq<(String, JsonValue)>,
    uri_name: Seq<char>,
    range_name: Seq<char>,
) -> Result<SpecTarget, NormalizeError> {
    match obj_get(f, uri_name) {
        None => Err(NormalizeError::UriNotString),
        Some(u) => if !(u is Str) {
            Err(NormalizeError::UriNotString)
        } else {
            match obj_get(f, range_name) {
                None => Err(NormalizeError::RangeMissing),
                Some(r) => match range_of(r) {
                    Err(e) => Err(e),
                    Ok(tr) => Ok(SpecTarget { uri: u->Str_0@, range: tr }),
                },
            }
        },
    }
}

/// The whole reply normalized: null is the empty list, a list is
/// normalized element by element stopping at the first bad entry, a
/// single object is a one-element list, anything else is an error.
pub open spec fn normalize_spec(v: JsonValue) -> Result<Seq<SpecTarget>, NormalizeError> {
    if v is Null {
        Ok(Seq::empty())
    } else if v is Array {
        normalize_list(v->Array_0@)
    } else if v is Object {
        match location_of(v) {
            Err(e) => Err(e),
            Ok(t) => Ok(seq![t]),
        }
    } else {
        Err(NormalizeError::UnexpectedFormat)
    }
}

pub open spec fn normalize_list(elems: Seq<JsonValue>) -> Result<Seq<SpecTarget>, NormalizeError>
    decreases elems.len(),
{
    if elems.len() == 0 {
        Ok(Seq::empty())
    } else {
        match location_of(elems[0]) {
            Err(e) => Err(e),
            Ok(t) => match normalize_list(elems.drop_first()) {
                Err(e) => Err(e),
                Ok(rest) => Ok(seq![t] + rest),
            },
        }
    }
}

/// Reads one unsigned 32-bit coordinate, as `coord_of` describes.
fn get_coord(b: &JsonValue, name: &str) -> (r: Result<u32, NormalizeError>)
    ensures
        r == field_coord(*b, name@),
{
    match b {
        JsonValue::Object(f) => match get_field(f, name) {
            None => Err(NormalizeError::CoordNotUnsigned),
            Some(c) => match c {
                JsonValue::Int(i) => {
                    if 0 <= *i && *i <= u32::MAX as i128 {
                        Ok(*i as u32)
                    } else {
                        Err(NormalizeError::CoordNotUnsigned)
                    }
                },
                _ => Err(NormalizeError::CoordNotUnsigned),
            },
        },
        _ => Err(NormalizeError::CoordNotUnsigned),
    }
}

/// Parses a range object, as `range_of` describes.
fn parse_range(v: &JsonValue) -> (r: Result<TextRange, NormalizeError>)
    ensures
        r == range_of(*v),
{
    match v {
        JsonValue::Object(f) => {
            let start = match get_field(f, "start") {
                None => {
                    return Err(NormalizeError::StartMissing);
                },
                Some(s) => s,
            };
            let end = match get_field(f, "end") {
                None => {
                    return Err(NormalizeError::EndMissing);
                },
                Some(e) => e,
            };
            let sl = match get_coord(start, "line") {
                Err(e) => {
                    return Err(e);
                },
                Ok(c) => c,
            };
            let sc = match get_coord(start, "character") {
                Err(e) => {
                    return Err(e);
                },
                Ok(c) => c,
            };
            let el = match get_coord(end, "line") {
                Err(e) => {
                    return Err(e);
                },
                Ok(c) => c,
            };
            let ec = match get_coord(end, "character") {
                Err(e) => {
                    return Err(e);
                },
                Ok(c) => c,
            };
            Ok(TextRange { start_line: sl, start_character: sc, end_line: el, end_character: ec })
        },
        _ => Err(NormalizeError::RangeNotObject),
    }
}

/// Converts one reply entry, as `location_of` describes.
fn convert_location(v: &JsonValue) -> (r: Result<DefinitionTarget, NormalizeError>)
    ensures
        match r {
            Ok(t) => location_of(*v) == Ok::<SpecTarget, NormalizeError>(target_view(t)),
            Err(e) => location_of(*v) == Err::<SpecTarget, NormalizeError>(e),
        },
{
    match v {
        JsonValue::Object(f) => {
            if get_field(f, "uri").is_some() {
                convert_location_fields(f, "uri", "range")
            } else if get_field(f, "targetUri").is_some() {
                convert_location_fields(f, "targetUri", "targetRange")
            } else {
                Err(NormalizeError::MissingTargetFields)
            }
        },
        _ => Err(NormalizeError::EntryNotObject),
    }
}

/// Converts an entry's given uri and range fields, as
/// `location_fields_of` describes.
fn convert_location_fields(
    f: &Vec<(String, JsonValue)>,
    uri_name: &str,
    range_name: &str,
) -> (r: Result<DefinitionTarget, NormalizeError>)
    ensures
        match r {
            Ok(t) => location_fields_of(f@, uri_name@, range_name@) == Ok::<
                SpecTarget,
                NormalizeError,
            >(target_view(t)),
            Err(e) => location_fields_of(f@, uri_name@, range_name@) == Err::<
                SpecTarget,
                NormalizeError,
            >(e),
        },
{
    let u = match get_field(f, uri_name) {
        None => {
            return Err(NormalizeError::UriNotString);
        },
        Some(u) => u,
    };
    let uri: String = match u {
        JsonValue::Str(s) => s.clone(),
        _ => {
            return Err(NormalizeError::UriNotString);
        },
    };
    let rv = match get_field(f, range_name) {
        None => {
            return Err(NormalizeError::RangeMissing);
        },
        Some(r) => r,
    };
    match parse_range(rv) {
        Err(e) => Err(e),
        Ok(range) => Ok(DefinitionTarget { uri, range }),
    }
}

/// Normalizes a raw definition reply into the one target-list shape, as
/// `normalize_spec` describes.
pub fn normalize_targets(value: &JsonValue) -> (r: Result<Vec<DefinitionTarget>, NormalizeError>)
    ensures
        match r {
            Ok(ts) => normalize_spec(*value) == Ok::<Seq<SpecTarget>, NormalizeError>(
                targets_view(ts@),
            ),
            Err(e) => normalize_spec(*value) == Err::<Seq<SpecTarget>, NormalizeError>(e),
        },
{
    match value {
        JsonValue::Null => {
            let ts: Vec<DefinitionTarget> = Vec::new();
            proof {
                assert(targets_view(ts@) =~= Seq::<SpecTarget>::empty());
            }
            Ok(ts)
        },
        JsonValue::Array(elems) => {
            let mut out: Vec<DefinitionTarget> = Vec::new();
            let mut i: usize = 0;
            proof {
                assert(elems@.skip(0) =~= elems@);
                assert(targets_view(out@) =~= Seq::<SpecTarget>::empty());
            }
            while i < elems.len()
                invariant
                    0 <= i <= elems@.len(),
                    value is Array && value->Array_0@ == elems@,
                    normalize_list(elems@) == (match normalize_list(elems@.skip(i as int)) {
                        Ok(rest) => Ok::<Seq<SpecTarget>, NormalizeError>(
                            targets_view(out@) + rest,
                        ),
                        Err(e) => Err(e),
                    }),
                decreases elems@.len() - i,
            {
                let ghost pre = elems@.skip(i as int);
                proof {
                    assert(pre[0] == elems@[i as int]);
                    assert(pre.drop_first() =~= elems@.skip(i + 1));
                }
                match convert_location(&elems[i]) {
                    Err(e) => {
                        proof {
                            assert(normalize_list(pre) == Err::<Seq<SpecTarget>, NormalizeError>(
                                e,
                            ));
                        }
                        return Err(e);
                    },
                    Ok(t) => {
                        let ghost out0 = out@;
                        out.push(t);
                        proof {
                            assert(targets_view(out@) =~= targets_view(out0).push(target_view(t)));
                            assert forall|rest: Seq<SpecTarget>|
                                targets_view(out0) + (seq![target_view(t)] + rest) =~= targets_view(
                                    out@,
                                ) + rest by {}
                        }
                    },
                }
                i = i + 1;
            }
            proof {
                assert(elems@.skip(elems@.len() as int) =~= Seq::<JsonValue>::empty());
                assert(normalize_list(Seq::<JsonValue>::empty()) == Ok::<
                    Seq<SpecTarget>,
                    NormalizeError,
                >(Seq::empty()));
                assert(targets_view(out@) + Seq::<SpecTarget>::empty() =~= targets_view(out@));
            }
            Ok(out)
        },
        JsonValue::Object(_) => {
            match convert_location(value) {
                Err(e) => Err(e),
                Ok(t) => {
                    let mut ts: Vec<DefinitionTarget> = Vec::new();
                    ts.push(t);
                    proof {
                        assert(targets_view(ts@) =~= seq![target_view(t)]);
                    }
                    Ok(ts)
                },
            }
        },
        _ => Err(NormalizeError::UnexpectedFormat),
    }
}

/// The retry policy over the raw replies of the successive attempts: the
/// first reply whose normalized list is non-empty settles the call; a
/// reply that fails to normalize aborts it; when every reply normalized
/// to the empty list, the empty list is the (valid) outcome.
pub open spec fn retry_outcome(replies: Seq<JsonValue>) -> Result<Seq<SpecTarget>, NormalizeError>
    decreases replies.len(),
{
    if replies.len() == 0 {
        Ok(Seq::empty())
    } else {
        match normalize_spec(replies[0]) {
            Err(e) => Err(e),
            Ok(ts) => if ts.len() > 0 {
                Ok(ts)
            } else {
                retry_outcome(replies.drop_first())
            },
        }
    }
}

/// Runs the retry policy on the replies the attempts returned, in order;
/// the driver makes up to `MAX_RETRIES` attempts, waiting
/// `RETRY_DELAY_MS` between them.
pub fn execute_on_replies(replies: Vec<JsonValue>) -> (r: Result<
    Vec<DefinitionTarget>,
    NormalizeError,
>)
    ensures
        match r {
            Ok(ts) => retry_outcome(replies@) == Ok::<Seq<SpecTarget>, NormalizeError>(
                targets_view(ts@),
            ),
            Err(e) => retry_outcome(replies@) == Err::<Seq<SpecTarget>, NormalizeError>(e),
        },
{
    let ghost orig = replies@;
    let mut rest = replies;
    while rest.len() != 0
        invariant
            orig == replies@,
            retry_outcome(orig) == retry_outcome(rest@),
        decreases rest@.len(),
    {
        let ghost before = rest@;
        let raw = rest.remove(0);
        proof {
            assert(before.remove(0) =~= before.drop_first());
            assert(before[0] == raw);
        }
        match normalize_targets(&raw) {
            Err(e) => {
                proof {
                    assert(retry_outcome(before) == Err::<Seq<SpecTarget>, NormalizeError>(e));
                }
                return Err(e);
            },
            Ok(ts) => {
                if ts.len() > 0 {
                    proof {
                        assert(targets_view(ts@).len() == ts@.len());
                        assert(retry_outcome(before) == Ok::<Seq<SpecTarget>, NormalizeError>(
                            targets_view(ts@),
                        ));
                    }
                    return Ok(ts);
                }
                proof {
                    assert(targets_view(ts@).len() == 0);
                }
            },
        }
    }
    let empty: Vec<DefinitionTarget> = Vec::new();
    proof {
        assert(targets_view(empty@) =~= Seq::<SpecTarget>::empty());
    }
    Ok(empty)
}

/// The position query's parameters: the document and the zero-based
/// position.
pub fn definition_params(uri: &str, line: u32, character: u32) -> (r: JsonValue)
    ensures
        r matches JsonValue::Object(f) && {
            &&& f@.len() == 2
            &&& f@[0].0@ == "textDocument"@ && (f@[0].1 matches JsonValue::Object(d) && d@.len()
                == 1 && d@[0].0@ == "uri"@ && (d@[0].1 matches JsonValue::Str(v) && v@ == uri@))
            &&& f@[1].0@ == "position"@ && (f@[1].1 matches JsonValue::Object(p) && {
                &&& p@.len() == 2
                &&& p@[0].0@ == "line"@ && p@[0].1 == JsonValue::Int(line as i128)
                &&& p@[1].0@ == "character"@ && p@[1].1 == JsonValue::Int(character as i128)
            })
        },
{
    let mut d: Vec<(String, JsonValue)> = Vec::new();
    d.push((String::from_str("uri"), JsonValue::Str(uri.to_owned())));
    let mut p: Vec<(String, JsonValue)> = Vec::new();
    p.push((String::from_str("line"), JsonValue::Int(line as i128)));
    p.push((String::from_str("character"), JsonValue::Int(character as i128)));
    let mut f: Vec<(String, JsonValue)> = Vec::new();
    f.push((String::from_str("textDocument"), JsonValue::Object(d)));
    f.push((String::from_str("position"), JsonValue::Object(p)));
    JsonValue::Object(f)
}

/// One property of the input schema: a type and a description.
pub open spec fn schema_property(v: JsonValue, ty: Seq<char>, descr: Seq<char>) -> bool {
    v matches JsonValue::Object(p) && {
        &&& p@.len() == 2
        &&& p@[0].0@ == "type"@ && (p@[0].1 matches JsonValue::Str(s) && s@ == ty)
        &&& p@[1].0@ == "description"@ && (p@[1].1 matches JsonValue::Str(s) && s@ == descr)
    }
}

/// The input schema of the definition query: an object of `uri`, `line`
/// and `character`, all three required.
pub open spec fn schema_shape(v: JsonValue) -> bool {
    v matches JsonValue::Object(f) && {
        &&& f@.len() == 3
        &&& f@[0].0@ == "type"@ && (f@[0].1 matches JsonValue::Str(s) && s@ == "object"@)
        &&& f@[1].0@ == "properties"@ && (f@[1].1 matches JsonValue::Object(p) && {
            &&& p@.len() == 3
            &&& p@[0].0@ == "uri"@ && schema_property(
                p@[0].1,
                "string"@,
                "file:// URI of the document"@,
            )
            &&& p@[1].0@ == "line"@ && schema_property(
                p@[1].1,
                "integer"@,
                "Zero-based line index"@,
            )
            &&& p@[2].0@ == "character"@ && schema_property(
                p@[2].1,
                "integer"@,
                "Zero-based character index"@,
            )
        })
        &&& f@[2].0@ == "required"@ && (f@[2].1 matches JsonValue::Array(rq) && {
            &&& rq@.len() == 3
            &&& (rq@[0] matches JsonValue::Str(s) && s@ == "uri"@)
            &&& (rq@[1] matches JsonValue::Str(s) && s@ == "line"@)
            &&& (rq@[2] matches JsonValue::Str(s) && s@ == "character"@)
        })
    }
}

fn schema_property_value(ty: &str, descr: &str) -> (r: JsonValue)
    ensures
        schema_property(r, ty@, descr@),
{
    let mut p: Vec<(String, JsonValue)> = Vec::new();
    p.push((String::from_str("type"), JsonValue::Str(ty.to_owned())));
    p.push((String::from_str("description"), JsonValue::Str(descr.to_owned())));
    JsonValue::Object(p)
}

impl DefinitionTool {
    pub fn new() -> (t: DefinitionTool) {
        DefinitionTool
    }

    pub fn description() -> (r: &'static str)
        ensures
            r@ == "Return LSP-backed jump-to-definition targets for a given URI and position"@,
    {
        "Return LSP-backed jump-to-definition targets for a given URI and position"
    }

    /// The input schema the tool is registered with.
    pub fn schema() -> (r: JsonValue)
        ensures
            schema_shape(r),
    {
        let mut p: Vec<(String, JsonValue)> = Vec::new();
        p.push((String::from_str("uri"), schema_property_value("string", "file:// URI of the document")));
        p.push((String::from_str("line"), schema_property_value("integer", "Zero-based line index")));
        p.push((
            String::from_str("character"),
            schema_property_value("integer", "Zero-based character index"),
        ));
        let mut rq: Vec<JsonValue> = Vec::new();
        rq.push(JsonValue::Str(String::from_str("uri")));
        rq.push(JsonValue::Str(String::from_str("line")));
        rq.push(JsonValue::Str(String::from_str("character")));
        let mut f: Vec<(String, JsonValue)> = Vec::new();
        f.push((String::from_str("type"), JsonValue::Str(String::from_str("object"))));
        f.push((String::from_str("properties"), JsonValue::Object(p)));
        f.push((String::from_str("required"), JsonValue::Array(rq)));
        JsonValue::Object(f)
    }

    /// The tool's registration entry: name, description, input schema.
    pub fn descriptor() -> (r: JsonValue)
        ensures
            r matches JsonValue::Object(f) && {
                &&& f@.len() == 3
                &&& f@[0].0@ == "name"@ && (f@[0].1 matches JsonValue::Str(s) && s@
                    == "definition"@)
                &&& f@[1].0@ == "description"@ && (f@[1].1 matches JsonValue::Str(s) && s@
                    == "Return LSP-backed jump-to-definition targets for a given URI and position"@)
                &&& f@[2].0@ == "inputSchema"@ && schema_shape(f@[2].1)
            },
    {
        let mut f: Vec<(String, JsonValue)> = Vec::new();
        f.push((String::from_str("name"), JsonValue::Str(String::from_str("definition"))));
        f.push((
            String::from_str("description"),
            JsonValue::Str(String::from_str(Self::description())),
        ));
        f.push((String::from_str("inputSchema"), Self::schema()));
        JsonValue::Object(f)
    }
}

} // verus!
