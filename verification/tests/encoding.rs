use modsim::encoding::{decode_value, encode_value, DataType, Encoding, EncodingError, Value};

#[test]
fn u16_roundtrip() {
    let v = Value::U16(0xABCD);
    let w = encode_value(&v, DataType::U16, Encoding::BigEndian, None).unwrap();
    assert_eq!(w, vec![0xABCD]);
    let back = decode_value(&w, DataType::U16, Encoding::BigEndian, None).unwrap();
    assert_eq!(back, v);
}

#[test]
fn u32_be_word_order() {
    let v = Value::U32(0x1234_5678);
    let w = encode_value(&v, DataType::U32, Encoding::BigEndian, None).unwrap();
    assert_eq!(w, vec![0x1234, 0x5678]);
}

#[test]
fn u32_word_swap() {
    let v = Value::U32(0x1234_5678);
    let w = encode_value(&v, DataType::U32, Encoding::BigEndianWordSwap, None).unwrap();
    assert_eq!(w, vec![0x5678, 0x1234]);
    let back = decode_value(&w, DataType::U32, Encoding::BigEndianWordSwap, None).unwrap();
    assert_eq!(back, v);
}

#[test]
fn u32_little_endian() {
    let v = Value::U32(0x1234_5678);
    let w = encode_value(&v, DataType::U32, Encoding::LittleEndian, None).unwrap();
    // BE bytes: 12 34 56 78 -> LE bytes swap within each word: 34 12 , 78 56
    assert_eq!(w, vec![0x3412, 0x7856]);
    let back = decode_value(&w, DataType::U32, Encoding::LittleEndian, None).unwrap();
    assert_eq!(back, v);
}

#[test]
fn f32_roundtrip() {
    let v = Value::F32(3.14f32.to_bits());
    let w = encode_value(&v, DataType::F32, Encoding::BigEndian, None).unwrap();
    let back = decode_value(&w, DataType::F32, Encoding::BigEndian, None).unwrap();
    assert_eq!(back, v);
}

#[test]
fn string_fixed_length() {
    let v = Value::String("Hi".to_string());
    let w = encode_value(&v, DataType::String, Encoding::BigEndian, Some(6)).unwrap();
    assert_eq!(w.len(), 3);
    let back = decode_value(&w, DataType::String, Encoding::BigEndian, Some(6)).unwrap();
    assert_eq!(back, Value::String("Hi".to_string()));
}

#[test]
fn type_mismatch_errors() {
    let v = Value::U16(1);
    assert!(encode_value(&v, DataType::U32, Encoding::BigEndian, None).is_err());
}

#[test]
fn word_count() {
    assert_eq!(DataType::U16.word_count(None), 1);
    assert_eq!(DataType::U32.word_count(None), 2);
    assert_eq!(DataType::U64.word_count(None), 4);
    assert_eq!(DataType::String.word_count(Some(7)), 4);
    assert_eq!(DataType::String.word_count(Some(8)), 4);
}

#[test]
fn u32_little_endian_word_swap_layout() {
    let v = Value::U32(0x1234_5678);
    let w = encode_value(&v, DataType::U32, Encoding::LittleEndianWordSwap, None).unwrap();
    assert_eq!(w, vec![0x7856, 0x3412]);
    assert_eq!(decode_value(&w, DataType::U32, Encoding::LittleEndianWordSwap, None).unwrap(), v);
}

#[test]
fn i32_negative_big_endian() {
    let v = Value::I32(-2);
    let w = encode_value(&v, DataType::I32, Encoding::BigEndian, None).unwrap();
    assert_eq!(w, vec![0xFFFF, 0xFFFE]);
    assert_eq!(decode_value(&w, DataType::I32, Encoding::BigEndian, None).unwrap(), v);
}

#[test]
fn u64_and_i64_roundtrip() {
    let v = Value::U64(0x0102_0304_0506_0708);
    let w = encode_value(&v, DataType::U64, Encoding::BigEndian, None).unwrap();
    assert_eq!(w, vec![0x0102, 0x0304, 0x0506, 0x0708]);
    assert_eq!(decode_value(&w, DataType::U64, Encoding::BigEndian, None).unwrap(), v);
    let n = Value::I64(-1);
    let w = encode_value(&n, DataType::I64, Encoding::LittleEndian, None).unwrap();
    assert_eq!(w, vec![0xFFFF; 4]);
    assert_eq!(decode_value(&w, DataType::I64, Encoding::LittleEndian, None).unwrap(), n);
}

#[test]
fn bool_is_not_a_word_type() {
    let e = encode_value(&Value::Bool(true), DataType::U16, Encoding::BigEndian, None).unwrap_err();
    assert_eq!(e, EncodingError::TypeMismatch { value: "Bool", data_type: DataType::U16 });
}

#[test]
fn string_too_long_is_rejected() {
    let v = Value::String("Hello".to_string());
    let e = encode_value(&v, DataType::String, Encoding::BigEndian, Some(4)).unwrap_err();
    assert_eq!(e, EncodingError::StringTooLong { actual: 5, max: 4 });
}

#[test]
fn string_stops_at_first_zero_byte() {
    let w = vec![0x4142, 0x0043];
    let back = decode_value(&w, DataType::String, Encoding::BigEndian, Some(4)).unwrap();
    assert_eq!(back, Value::String("AB".to_string()));
}

#[test]
fn invalid_utf8_string_is_an_error() {
    let w = vec![0xFFFE];
    let e = decode_value(&w, DataType::String, Encoding::BigEndian, Some(2)).unwrap_err();
    assert_eq!(e, EncodingError::InvalidUtf8);
}

#[test]
fn type_mismatch_names_the_value_variant() {
    let e = encode_value(&Value::I16(3), DataType::U64, Encoding::BigEndian, None).unwrap_err();
    assert_eq!(e, EncodingError::TypeMismatch { value: "I16", data_type: DataType::U64 });
    assert_eq!(Value::F64(0).variant_name(), "F64");
}

#[test]
fn numeric_types_ignore_any_byte_length() {
    let w = encode_value(&Value::U16(1), DataType::U16, Encoding::BigEndian, Some(usize::MAX)).unwrap();
    assert_eq!(w, vec![1]);
    let e = encode_value(&Value::U16(1), DataType::U32, Encoding::BigEndian, Some(usize::MAX)).unwrap_err();
    assert_eq!(e, EncodingError::TypeMismatch { value: "U16", data_type: DataType::U32 });
    let long = Value::String("x".repeat(10));
    let e = encode_value(&long, DataType::String, Encoding::BigEndian, Some(3)).unwrap_err();
    assert_eq!(e, EncodingError::StringTooLong { actual: 10, max: 3 });
}
