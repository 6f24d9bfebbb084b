//! Decoded entity field values and their conversions to the integer columns
//! of the tables.
use vstd::prelude::*;
use std::collections::HashMap;

verus! {

broadcast use vstd::std_specs::hash::group_hash_axioms;

/// A decoded entity field value, as far as the tables read it: integer
/// values are kept; every other kind (floats, strings, vectors, handles) is
/// `Other`.
#[derive(Clone, Copy, PartialEq, Eq, Structural, Debug)]
pub enum FieldValue {
    I32(i32),
    I64(i64),
    U32(u32),
    U64(u64),
    Bool(bool),
    Other,
}

/// The value as a signed 64-bit integer, if it is an integer (a `u64`
/// above `i64::MAX` wraps, as a cast does).
pub open spec fn field_i64(v: FieldValue) -> Option<i64> {
    match v {
        FieldValue::I32(n) => Some(n as i64),
        FieldValue::I64(n) => Some(n),
        FieldValue::U32(n) => Some(n as i64),
        FieldValue::U64(n) => Some(n as i64),
        _ => None,
    }
}

/// The value as an unsigned 32-bit integer, if it is an integer (wider or
/// signed values keep their low 32 bits, as a cast does).
pub open spec fn field_u32(v: FieldValue) -> Option<u32> {
    match v {
        FieldValue::U32(n) => Some(n),
        FieldValue::I32(n) => Some(n as u32),
        FieldValue::U64(n) => Some(n as u32),
        FieldValue::I64(n) => Some(n as u32),
        _ => None,
    }
}

/// The upgrade bits packed from bit 17 up in an ability slot's upgrade
/// info, if it is an integer.
pub open spec fn field_upgrade_bits(v: FieldValue) -> Option<i32> {
    match v {
        FieldValue::I32(n) => Some(n >> 17u32),
        FieldValue::I64(n) => Some((n >> 17u32) as i32),
        FieldValue::U32(n) => Some((n >> 17u32) as i32),
        FieldValue::U64(n) => Some((n >> 17u32) as i32),
        _ => None,
    }
}

/// The field at `key` of an entity's fields, if the key was resolved and
/// the entity has the field.
pub open spec fn field_at(fields: Map<u64, FieldValue>, key: Option<u64>) -> Option<FieldValue> {
    match key {
        Some(k) => if fields.contains_key(k) {
            Some(fields[k])
        } else {
            None
        },
        None => None,
    }
}

fn lookup(fields: &HashMap<u64, FieldValue>, key: Option<u64>) -> (r: Option<FieldValue>)
    ensures
        r == field_at(fields@, key),
{
    match key {
        Some(k) => match fields.get(&k) {
            Some(v) => Some(*v),
            None => None,
        },
        None => None,
    }
}

/// An integer field as `i64`; 0 when the key is unresolved, the field is
/// absent or not an integer.
pub fn get_i64(fields: &HashMap<u64, FieldValue>, key: Option<u64>) -> (r: i64)
    ensures
        r == match field_at(fields@, key) {
            Some(v) => match field_i64(v) {
                Some(n) => n,
                None => 0,
            },
            None => 0,
        },
{
    match lookup(fields, key) {
        Some(FieldValue::I32(n)) => n as i64,
        Some(FieldValue::I64(n)) => n,
        Some(FieldValue::U32(n)) => n as i64,
        Some(FieldValue::U64(n)) => #[verifier::truncate] (n as i64),
        _ => 0,
    }
}

/// An integer field as `u32`; 0 when the key is unresolved, the field is
/// absent or not an integer.
pub fn get_u32(fields: &HashMap<u64, FieldValue>, key: Option<u64>) -> (r: u32)
    ensures
        r == match field_at(fields@, key) {
            Some(v) => match field_u32(v) {
                Some(n) => n,
                None => 0,
            },
            None => 0,
        },
{
    match lookup(fields, key) {
        Some(FieldValue::U32(n)) => n,
        Some(FieldValue::I32(n)) => #[verifier::truncate] (n as u32),
        Some(FieldValue::U64(n)) => #[verifier::truncate] (n as u32),
        Some(FieldValue::I64(n)) => #[verifier::truncate] (n as u32),
        _ => 0,
    }
}

/// The upgrade bits of an ability slot's upgrade-info field; 0 when the
/// key is unresolved, the field is absent or not an integer.
pub fn get_upgrade_bits(fields: &HashMap<u64, FieldValue>, key: Option<u64>) -> (r: i32)
    ensures
        r == match field_at(fields@, key) {
            Some(v) => match field_upgrade_bits(v) {
                Some(n) => n,
                None => 0,
            },
            None => 0,
        },
{
    match lookup(fields, key) {
        Some(FieldValue::I32(n)) => n >> 17u32,
        Some(FieldValue::I64(n)) => #[verifier::truncate] ((n >> 17u32) as i32),
        Some(FieldValue::U32(n)) => #[verifier::truncate] ((n >> 17u32) as i32),
        Some(FieldValue::U64(n)) => #[verifier::truncate] ((n >> 17u32) as i32),
        _ => 0,
    }
}

/// The match id a game rules entity carries: its match id field when that
/// is a 64-bit integer (a signed one read as unsigned, as a cast does);
/// none when the key is unresolved, the field is absent or of another kind.
pub fn match_id_of(fields: &HashMap<u64, FieldValue>, key: Option<u64>) -> (r: Option<u64>)
    ensures
        r == match field_at(fields@, key) {
            Some(FieldValue::U64(n)) => Some(n),
            Some(FieldValue::I64(n)) => Some(n as u64),
            _ => None,
        },
{
    match lookup(fields, key) {
        Some(FieldValue::U64(n)) => Some(n),
        Some(FieldValue::I64(n)) => Some(#[verifier::truncate] (n as u64)),
        _ => None,
    }
}

/// A field value as `i64`: 0 when absent or not an integer.
pub fn value_i64(v: Option<FieldValue>) -> (r: i64)
    ensures
        r == match v {
            Some(f) => match field_i64(f) {
                Some(n) => n,
                None => 0,
            },
            None => 0,
        },
{
    match v {
        Some(FieldValue::I32(n)) => n as i64,
        Some(FieldValue::I64(n)) => n,
        Some(FieldValue::U32(n)) => n as i64,
        Some(FieldValue::U64(n)) => #[verifier::truncate] (n as i64),
        _ => 0,
    }
}

/// A field value as `u32`: 0 when absent or not an integer.
pub fn value_u32(v: Option<FieldValue>) -> (r: u32)
    ensures
        r == match v {
            Some(f) => match field_u32(f) {
                Some(n) => n,
                None => 0,
            },
            None => 0,
        },
{
    match v {
        Some(FieldValue::U32(n)) => n,
        Some(FieldValue::I32(n)) => #[verifier::truncate] (n as u32),
        Some(FieldValue::U64(n)) => #[verifier::truncate] (n as u32),
        Some(FieldValue::I64(n)) => #[verifier::truncate] (n as u32),
        _ => 0,
    }
}

/// A field value's upgrade bits (see `get_upgrade_bits`): 0 when absent or
/// not an integer.
pub fn value_upgrade_bits(v: Option<FieldValue>) -> (r: i32)
    ensures
        r == match v {
            Some(f) => match field_upgrade_bits(f) {
                Some(n) => n,
                None => 0,
            },
            None => 0,
        },
{
    match v {
        Some(FieldValue::I32(n)) => n >> 17u32,
        Some(FieldValue::I64(n)) => #[verifier::truncate] ((n >> 17u32) as i32),
        Some(FieldValue::U32(n)) => #[verifier::truncate] ((n >> 17u32) as i32),
        Some(FieldValue::U64(n)) => #[verifier::truncate] ((n >> 17u32) as i32),
        _ => 0,
    }
}

} // verus!
