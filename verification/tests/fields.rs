use std::collections::HashMap;

use boon_data::fields::{
    get_i64, get_u32, get_upgrade_bits, match_id_of, value_i64, value_u32, value_upgrade_bits,
    FieldValue,
};

fn fields() -> HashMap<u64, FieldValue> {
    let mut f = HashMap::new();
    f.insert(1, FieldValue::I32(-5));
    f.insert(2, FieldValue::U64(u64::MAX));
    f.insert(3, FieldValue::U32(3 << 17 | 5));
    f.insert(4, FieldValue::Other);
    f.insert(5, FieldValue::I64(-1));
    f.insert(6, FieldValue::Bool(true));
    f.insert(7, FieldValue::U64(28_000_111));
    f
}

#[test]
fn integer_fields_convert_as_casts_do() {
    let f = fields();
    assert_eq!(get_i64(&f, Some(1)), -5);
    assert_eq!(get_i64(&f, Some(2)), -1);
    assert_eq!(get_u32(&f, Some(1)), (-5i32) as u32);
    assert_eq!(get_u32(&f, Some(5)), u32::MAX);
}

#[test]
fn missing_or_other_fields_read_zero() {
    let f = fields();
    assert_eq!(get_i64(&f, None), 0);
    assert_eq!(get_i64(&f, Some(99)), 0);
    assert_eq!(get_i64(&f, Some(4)), 0);
    assert_eq!(get_i64(&f, Some(6)), 0);
    assert_eq!(get_u32(&f, Some(4)), 0);
}

#[test]
fn upgrade_bits_start_at_bit_seventeen() {
    let f = fields();
    assert_eq!(get_upgrade_bits(&f, Some(3)), 3);
    assert_eq!(get_upgrade_bits(&f, Some(1)), -1);
    assert_eq!(get_upgrade_bits(&f, None), 0);
}

#[test]
fn match_ids_are_64_bit_fields() {
    let f = fields();
    assert_eq!(match_id_of(&f, Some(7)), Some(28_000_111));
    assert_eq!(match_id_of(&f, Some(5)), Some(u64::MAX));
    assert_eq!(match_id_of(&f, Some(1)), None);
    assert_eq!(match_id_of(&f, None), None);
}

#[test]
fn single_values_convert_like_fields() {
    assert_eq!(value_i64(Some(FieldValue::U32(7))), 7);
    assert_eq!(value_i64(Some(FieldValue::Bool(true))), 0);
    assert_eq!(value_i64(None), 0);
    assert_eq!(value_u32(Some(FieldValue::I32(-1))), u32::MAX);
    assert_eq!(value_u32(Some(FieldValue::Other)), 0);
    assert_eq!(value_upgrade_bits(Some(FieldValue::U32(1 << 18))), 2);
    assert_eq!(value_upgrade_bits(None), 0);
}
