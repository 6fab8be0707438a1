use lttp_autotimer::serde_lttp::{
    coordinate_deserialize, coordinate_range_deserialize, decimal, hex_16bit_array_deserialize,
    hex_16bit_deserialize, hex_16bit_option_deserialize, hex_byte_deserialize, hex_deserialize,
    hex_serialize, hex_serialize_option, hex_usize_deserialize, upper_hex, NumberError,
};

#[test]
fn parse_tile() {
    // The numbers of a tile entry: its address values and its coordinate conditions.
    let address_value = vec!["0x3".to_string(), "0x4".to_string(), "0x5".to_string()];
    assert_eq!(hex_16bit_array_deserialize(&address_value), vec![0x3, 0x4, 0x5]);
    assert_eq!(coordinate_deserialize("1273"), Ok(1273));
    assert_eq!(coordinate_range_deserialize("3664-3665"), (3664, 3665));
    assert_eq!(coordinate_deserialize("1272"), Ok(1272));
    assert_eq!(coordinate_deserialize("3800"), Ok(3800));
}

#[test]
fn parse_coordinates() {
    assert_eq!(coordinate_deserialize("1272"), Ok(1272));
    assert_eq!(coordinate_deserialize("3800"), Ok(3800));
}

#[test]
fn parse_conditions() {
    for (x, y) in [("1272", "568"), ("1272", "960"), ("1272", "668")] {
        assert!(coordinate_deserialize(x).is_ok());
        assert!(coordinate_deserialize(y).is_ok());
    }
    assert_eq!(coordinate_deserialize("960"), Ok(960));
}

#[test]
fn hex_values_after_the_prefix() {
    assert_eq!(hex_deserialize("0x7fc0"), Ok(0x7fc0));
    assert_eq!(hex_deserialize("0xF50000"), Ok(0xf50000));
    assert_eq!(hex_deserialize("0x+1A"), Ok(0x1a));
    assert_eq!(hex_deserialize("0x"), Err(NumberError::NotANumber));
    assert_eq!(hex_deserialize("0x1g"), Err(NumberError::NotANumber));
    assert_eq!(hex_deserialize("0x100000000"), Err(NumberError::NotANumber));
    assert_eq!(hex_16bit_deserialize("0xFFFF"), Ok(0xffff));
    assert_eq!(hex_16bit_deserialize("0x10000"), Err(NumberError::NotANumber));
    assert_eq!(hex_byte_deserialize("0x80"), Ok(0x80));
    assert_eq!(hex_byte_deserialize("0x100"), Err(NumberError::NotANumber));
    assert_eq!(hex_usize_deserialize("0x4c9"), Ok(0x4c9));
    // The prefix is any two bytes.
    assert_eq!(hex_16bit_deserialize("ab12"), Ok(0x12));
    assert_eq!(hex_16bit_deserialize("é12"), Ok(0x12));
}

#[test]
fn optional_hex_values() {
    assert_eq!(hex_16bit_option_deserialize(Some("0x2c")), Ok(Some(0x2c)));
    assert_eq!(hex_16bit_option_deserialize(None), Ok(None));
    assert_eq!(hex_16bit_option_deserialize(Some("0xzz")), Err(NumberError::NotANumber));
}

#[test]
fn decimal_coordinates() {
    assert_eq!(coordinate_deserialize("0"), Ok(0));
    assert_eq!(coordinate_deserialize("65535"), Ok(65535));
    assert_eq!(coordinate_deserialize("65536"), Err(NumberError::NotANumber));
    assert_eq!(coordinate_deserialize(""), Err(NumberError::NotANumber));
    assert_eq!(coordinate_deserialize("-1"), Err(NumberError::NotANumber));
    assert_eq!(coordinate_deserialize("+12"), Ok(12));
    assert_eq!(coordinate_deserialize("+"), Err(NumberError::NotANumber));
}

#[test]
fn coordinate_ranges() {
    assert_eq!(coordinate_range_deserialize("12"), (12, 12));
    assert_eq!(coordinate_range_deserialize("1-2-3"), (1, 2));
    assert_eq!(coordinate_range_deserialize("-5"), (5, 5));
    assert_eq!(coordinate_range_deserialize("x-7-9"), (7, 9));
}

#[test]
fn hex_writing() {
    assert_eq!(hex_serialize(&0x4c9), "4C9");
    assert_eq!(hex_serialize(&0), "0");
    assert_eq!(hex_serialize_option(&Some(0xab)), Some("AB".to_string()));
    assert_eq!(hex_serialize_option(&None), None);
    assert_eq!(upper_hex(0xf5f021), "F5F021");
    assert_eq!(decimal(1234567890123), "1234567890123");
    assert_eq!(decimal(0), "0");
}

#[test]
fn hex_roundtrip() {
    for x in [0u16, 1, 0x2c, 0x4c9, 0xffff] {
        let text = format!("0x{}", hex_serialize(&x));
        assert_eq!(hex_16bit_deserialize(&text), Ok(x));
    }
}
