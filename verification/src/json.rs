//! The library's model of an untyped structured wire value.
//!
//! The transport boundary carries JSON bodies; inside the library every
//! payload is held in this shape so that the bridge and the normalizer can
//! be specified and verified over plain data. Numbers that are not integers
//! never influence the logic beyond being recognized as such, so they are
//! kept as a marker variant.

use vstd::prelude::*;

verus! {

#[derive(Debug)]
pub enum JsonValue {
    Null,
    Bool(bool),
    /// An integer number. Covers the full signed and unsigned 64-bit ranges.
    Int(i128),
    /// A number that is not an integer.
    NonIntNum,
    Str(String),
    Array(Vec<JsonValue>),
    Object(Vec<(String, JsonValue)>),
}

/// The first field named `name`, searching in order.
pub open spec fn obj_get(fields: Seq<(String, JsonValue)>, name: Seq<char>) -> Option<JsonValue>
    decreases fields.len(),
{
    if fields.len() == 0 {
        None
    } else if fields[0].0@ == name {
        Some(fields[0].1)
    } else {
        obj_get(fields.drop_first(), name)
    }
}

/// Borrows the first field named `name`, as `obj_get` describes.
pub fn get_field<'a>(fields: &'a Vec<(String, JsonValue)>, name: &str) -> (r: Option<
    &'a JsonValue,
>)
    ensures
        match r {
            Some(v) => obj_get(fields@, name@) == Some(*v),
            None => obj_get(fields@, name@) is None,
        },
{
    let mut i: usize = 0;
    proof {
        assert(fields@.skip(0) =~= fields@);
    }
    while i < fields.len()
        invariant
            0 <= i <= fields@.len(),
            obj_get(fields@, name@) == obj_get(fields@.skip(i as int), name@),
        decreases fields@.len() - i,
    {
        let pair = &fields[i];
        proof {
            assert(fields@.skip(i as int)[0] == fields@[i as int]);
            assert(fields@.skip(i as int).drop_first() =~= fields@.skip(i + 1));
        }
        if crate::utils::str_eq(pair.0.as_str(), name) {
            return Some(&pair.1);
        }
        i = i + 1;
    }
    proof {
        assert(fields@.skip(fields@.len() as int) =~= Seq::<(String, JsonValue)>::empty());
    }
    None
}

/// Consumes an object's fields and hands out its first `name_a` field and
/// its first `name_b` field, as `obj_get` describes.
pub fn take_fields2(fields: Vec<(String, JsonValue)>, name_a: &str, name_b: &str) -> (r: (
    Option<JsonValue>,
    Option<JsonValue>,
))
    requires
        name_a@ != name_b@,
    ensures
        r.0 == obj_get(fields@, name_a@),
        r.1 == obj_get(fields@, name_b@),
{
    let ghost orig = fields@;
    let mut rest = fields;
    let mut got_a: Option<JsonValue> = None;
    let mut got_b: Option<JsonValue> = None;
    while rest.len() != 0
        invariant
            name_a@ != name_b@,
            match got_a {
                Some(v) => obj_get(orig, name_a@) == Some(v),
                None => obj_get(orig, name_a@) == obj_get(rest@, name_a@),
            },
            match got_b {
                Some(v) => obj_get(orig, name_b@) == Some(v),
                None => obj_get(orig, name_b@) == obj_get(rest@, name_b@),
            },
        decreases rest@.len(),
    {
        let ghost before = rest@;
        let pair = rest.remove(0);
        proof {
            assert(before.remove(0) =~= before.drop_first());
            assert(before[0] == pair);
        }
        if got_a.is_none() && crate::utils::str_eq(pair.0.as_str(), name_a) {
            got_a = Some(pair.1);
        } else if got_b.is_none() && crate::utils::str_eq(pair.0.as_str(), name_b) {
            got_b = Some(pair.1);
        }
    }
    (got_a, got_b)
}

} // verus!
