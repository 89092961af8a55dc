use flatgeobuf::property::{encode_properties, Column, ColumnType, Property, PropertyValue};

fn prop(column_index: usize, value: PropertyValue) -> Property {
    Property { column_index, value }
}

#[test]
fn boolean_entry_has_index_value_and_pad_byte() {
    let b = encode_properties(&vec![prop(0, PropertyValue::Bool(true))], None).unwrap();
    assert_eq!(vec![0, 0, 1, 0], b);
    let b = encode_properties(&vec![prop(3, PropertyValue::Bool(false))], None).unwrap();
    assert_eq!(vec![3, 0, 0, 0], b);
}

#[test]
fn integer_entries_are_little_endian() {
    let props = vec![
        prop(1, PropertyValue::UShort(0x1234)),
        prop(0x0102, PropertyValue::Int(-2)),
        prop(2, PropertyValue::ULong(0x0102_0304_0506_0708)),
        prop(4, PropertyValue::Byte(-1)),
    ];
    let b = encode_properties(&props, None).unwrap();
    assert_eq!(
        vec![
            1, 0, 0x34, 0x12, //
            2, 1, 0xfe, 0xff, 0xff, 0xff, //
            2, 0, 8, 7, 6, 5, 4, 3, 2, 1, //
            4, 0, 0xff,
        ],
        b
    );
}

#[test]
fn text_entry_is_length_then_utf8() {
    let b = encode_properties(&vec![prop(5, PropertyValue::String("hé".to_string()))], None).unwrap();
    assert_eq!(vec![5, 0, 3, 0, 0, 0, b'h', 0xc3, 0xa9], b);
    let b = encode_properties(&vec![prop(0, PropertyValue::Binary(vec![7, 8]))], None).unwrap();
    assert_eq!(vec![0, 0, 2, 0, 0, 0, 7, 8], b);
}

#[test]
fn no_properties_is_an_empty_buffer() {
    assert_eq!(Some(vec![]), encode_properties(&vec![], None));
}

#[test]
fn index_past_sixteen_bits_is_refused() {
    assert_eq!(None, encode_properties(&vec![prop(65536, PropertyValue::UByte(1))], None));
    assert!(encode_properties(&vec![prop(65535, PropertyValue::UByte(1))], None).is_some());
}

#[test]
fn schema_mismatch_is_refused() {
    let cols = vec![Column { name: "a".to_string(), column_type: ColumnType::UInt }];
    assert!(encode_properties(&vec![prop(0, PropertyValue::UInt(1))], Some(&cols)).is_some());
    assert_eq!(None, encode_properties(&vec![prop(0, PropertyValue::Int(1))], Some(&cols)));
    assert_eq!(None, encode_properties(&vec![prop(1, PropertyValue::UInt(1))], Some(&cols)));
}

#[test]
fn column_type_codes() {
    assert_eq!(2, ColumnType::Bool.code());
    assert_eq!(11, ColumnType::String.code());
    assert_eq!(14, ColumnType::Binary.code());
}

#[test]
fn floating_point_entries_are_bit_patterns() {
    let props = vec![prop(0, PropertyValue::Float(1.5f32.to_bits())), prop(1, PropertyValue::Double(2.0f64.to_bits()))];
    let b = encode_properties(&props, None).unwrap();
    let mut expected = vec![0, 0];
    expected.extend_from_slice(&1.5f32.to_le_bytes());
    expected.extend_from_slice(&[1, 0]);
    expected.extend_from_slice(&2.0f64.to_le_bytes());
    assert_eq!(expected, b);
}

#[test]
fn json_and_date_time_are_text() {
    let props = vec![
        prop(0, PropertyValue::Json("{}".to_string())),
        prop(1, PropertyValue::DateTime("2020".to_string())),
    ];
    let b = encode_properties(&props, None).unwrap();
    assert_eq!(vec![0, 0, 2, 0, 0, 0, b'{', b'}', 1, 0, 4, 0, 0, 0, b'2', b'0', b'2', b'0'], b);
    let cols = vec![Column { name: "j".to_string(), column_type: ColumnType::String }];
    assert_eq!(None, encode_properties(&vec![prop(0, PropertyValue::Json("1".to_string()))], Some(&cols)));
}
