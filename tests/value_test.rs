use canopen::data_type::DataType;
use canopen::value::{evaluate_expression_with_node_id, make_error, string_to_value, ByteConvertible, Properties, Value, get_formatted_value_from_properties, decimal_string};

#[test]
fn test_to_value_with_node_id() {
    assert_eq!(evaluate_expression_with_node_id(2, "$NODEID + 100"), "102");
    assert_eq!(evaluate_expression_with_node_id(2, "100+$NODEID"), "102");
    assert_eq!(evaluate_expression_with_node_id(2, "100"), "100");
    assert_eq!(evaluate_expression_with_node_id(2, "$NODEID+100+200"), "302");
    assert_eq!(evaluate_expression_with_node_id(2, "$NODEID + 100 + 200"), "302");
    assert_eq!(evaluate_expression_with_node_id(34, "$NODEID + 100 + 200"), "334");
    assert_eq!(evaluate_expression_with_node_id(2, "No arithmetic here"), "0");
    assert_eq!(evaluate_expression_with_node_id(2, "$NODEID+0x600"), "1538");
}

#[test]
fn node_id_plus_0x600_is_its_decimal_sum() {
    for n in [0u8, 1, 2, 9, 10, 99, 127, 200, 255] {
        let expected = (n as u32 + 0x600).to_string();
        assert_eq!(evaluate_expression_with_node_id(n, "$NODEID + 0x600"), expected);
    }
}

#[test]
fn expressions_with_negative_terms() {
    assert_eq!(evaluate_expression_with_node_id(5, "-10 + $NODEID"), "-5");
    assert_eq!(decimal_string(i64::MIN), "-9223372036854775808");
}

#[test]
fn test_value_creation_and_access() {
    let data = vec![1, 2, 3, 4];
    let value = Value::new(data.clone());

    assert_eq!(value.data(), &data);
    assert_eq!(value.as_slice(), data.as_slice());
}

#[test]
fn test_byte_convertible_for_integers() {
    let int_values = [42i32, -1i32, 0i32, i32::MAX, i32::MIN];
    for &val in int_values.iter() {
        let value = Value::from(val);
        assert_eq!(value.to::<i32>(), val);
    }

    let uint_values = [42u32, 0u32, u32::MAX];
    for &val in uint_values.iter() {
        let value = Value::from(val);
        assert_eq!(value.to::<u32>(), val);
    }
}

#[test]
fn test_byte_convertible_for_string() {
    let string_values = ["hello", "world", ""];
    for &val in string_values.iter() {
        let value = Value::from(val.to_string());
        assert_eq!(value.to::<String>(), val);
    }
}

#[test]
fn test_value_partial_eq() {
    let value1 = Value::new(vec![1, 2, 3, 4]);
    let value2 = Value::new(vec![1, 2, 3, 4]);
    let value3 = Value::new(vec![4, 3, 2, 1]);

    assert_eq!(value1, value2);
    assert_ne!(value1, value3);
}

#[test]
fn test_byte_convertible_default_value() {
    let wrong_length_bytes = vec![1, 2, 3];
    assert_eq!(i32::from_bytes(wrong_length_bytes.as_slice()), 0i32);

    let invalid_utf8_bytes = vec![0xFF, 0xFF, 0xFF];
    assert_eq!(String::from_bytes(invalid_utf8_bytes.as_slice()), "".to_string());
}

#[test]
fn test_from_bytes_for_int_with_wrong_length_returns_zero() {
    assert_eq!(u8::from_bytes(&[0x01, 0x02]), 0);
    assert_eq!(i16::from_bytes(&[0x01]), 0);
    assert_eq!(u32::from_bytes(&[0x01, 0x02, 0x03]), 0);
}

#[test]
fn test_from_bytes_for_string_with_wrong_length_returns_empty_string() {
    assert_eq!(String::from_bytes(&[0xFF, 0xFF]), "");
}

#[test]
fn test_clone_for_value() {
    let original = Value::new(vec![1, 2, 3]);
    let cloned = original.clone();
    assert_eq!(original, cloned);
}

#[test]
fn test_debug_for_value() {
    let value = Value::new(vec![1, 2, 3]);
    let debug_output = format!("{:?}", value);
    assert!(debug_output.contains("Value"));
}

#[test]
fn test_string_to_value_for_boolean() {
    assert_eq!(string_to_value(&DataType::Boolean, "true"), Ok(Value::new(vec![1])));
    assert_eq!(string_to_value(&DataType::Boolean, "false"), Ok(Value::new(vec![0])));
    assert_eq!(string_to_value(&DataType::Boolean, "invalid"), Err(make_error(DataType::Boolean, "invalid")));
}

#[test]
fn test_string_to_value_for_integer8() {
    assert_eq!(string_to_value(&DataType::Integer8, "127"), Ok(Value::new(127i8.to_bytes())));
    assert_eq!(string_to_value(&DataType::Integer8, "-128"), Ok(Value::new((-128i8).to_bytes())));
    assert_eq!(string_to_value(&DataType::Integer8, "invalid"), Ok(Value::new(vec![0])));
}

#[test]
fn test_string_to_value_for_visible_string() {
    let test_string = "Hello";
    assert_eq!(string_to_value(&DataType::VisibleString, test_string), Ok(Value::new(test_string.as_bytes().to_vec())));
}

#[test]
fn test_string_to_value_for_domain() {
    assert_eq!(string_to_value(&DataType::Domain, "123"), Ok(Value::new(123i32.to_bytes())));
    assert_eq!(string_to_value(&DataType::Domain, "invalid"), Err(make_error(DataType::Domain, "invalid")));
}

#[test]
fn string_to_value_other_types() {
    assert_eq!(string_to_value(&DataType::Boolean, "TRUE"), Ok(Value::new(vec![1])));
    assert_eq!(string_to_value(&DataType::Boolean, "0"), Ok(Value::new(vec![0])));
    assert_eq!(string_to_value(&DataType::Unsigned16, "0x1234"), Ok(Value::new(vec![0x34, 0x12])));
    assert_eq!(string_to_value(&DataType::Unsigned32, "0x000F0191"), Ok(Value::new(vec![0x91, 0x01, 0x0F, 0x00])));
    assert_eq!(string_to_value(&DataType::Integer64, "-1"), Ok(Value::new(vec![0xFF; 8])));
    assert_eq!(string_to_value(&DataType::Unknown, "1"), Err(make_error(DataType::Unknown, "1")));
    assert_eq!(string_to_value(&DataType::Real32, "1.5"), Err(make_error(DataType::Real32, "1.5")));
}

#[test]
fn formatted_property_values() {
    let mut p = Properties::new();
    p.insert(String::from("DefaultValue"), String::from("$NODEID+0x200"));
    p.insert(String::from("LowLimit"), String::from(""));
    p.insert(String::from("HighLimit"), String::from("10"));
    p.insert(String::from("HighLimit"), String::from("12"));
    let v = get_formatted_value_from_properties(&p, "DefaultValue", 2, &DataType::Unsigned32).unwrap();
    assert_eq!(v.to::<u32>(), 0x202);
    assert!(get_formatted_value_from_properties(&p, "LowLimit", 2, &DataType::Unsigned8).is_none());
    assert!(get_formatted_value_from_properties(&p, "Missing", 2, &DataType::Unsigned8).is_none());
    let h = get_formatted_value_from_properties(&p, "HighLimit", 2, &DataType::Unsigned8).unwrap();
    assert_eq!(h.to::<u8>(), 12);
    assert_eq!(p.len(), 4);
    assert_eq!(p.get("HighLimit"), Some(&String::from("12")));
}
