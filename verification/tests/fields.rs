use batteryudpd::fields::{
    convert_type_bool, convert_type_char, convert_type_date, convert_type_decimal,
    convert_type_hex, convert_type_time, convert_type_u8, Date, Decimal, Time,
};

fn dec(negative: bool, units: u64, scale: u8) -> Decimal {
    Decimal { negative, units, scale }
}

#[test]
fn u8_field_values() {
    assert_eq!(Ok(Some(1)), convert_type_u8(b"1"));
    assert_eq!(Ok(Some(255)), convert_type_u8(b"255"));
    assert_eq!(Ok(Some(7)), convert_type_u8(b"007"));
    assert_eq!(Ok(Some(7)), convert_type_u8(b"0000000000007"));
    assert_eq!(Ok(None), convert_type_u8(b"#"));
}

#[test]
fn u8_field_failures() {
    assert_eq!(Err(()), convert_type_u8(b"256"));
    assert_eq!(Err(()), convert_type_u8(b"999999999999999999999"));
    assert_eq!(Err(()), convert_type_u8(b""));
    assert_eq!(Err(()), convert_type_u8(b"-1"));
    assert_eq!(Err(()), convert_type_u8(b"+5"));
    assert_eq!(Err(()), convert_type_u8(b"1a"));
}

#[test]
fn decimal_field_values() {
    assert_eq!(Ok(Some(dec(false, 262, 1))), convert_type_decimal(b"26.2"));
    assert_eq!(Ok(Some(dec(true, 5, 1))), convert_type_decimal(b"-0.5"));
    assert_eq!(Ok(Some(dec(false, 0, 1))), convert_type_decimal(b"0.0"));
    assert_eq!(Ok(Some(dec(false, 103105, 1))), convert_type_decimal(b"10310.5"));
    assert_eq!(Ok(Some(dec(false, 0, 0))), convert_type_decimal(b"0"));
    assert_eq!(Ok(Some(dec(true, 42, 0))), convert_type_decimal(b"-42"));
    assert_eq!(Ok(Some(dec(false, 312, 2))), convert_type_decimal(b"3.12"));
    assert_eq!(Ok(None), convert_type_decimal(b"#"));
}

#[test]
fn decimal_field_failures() {
    assert_eq!(Err(()), convert_type_decimal(b""));
    assert_eq!(Err(()), convert_type_decimal(b"-"));
    assert_eq!(Err(()), convert_type_decimal(b".5"));
    assert_eq!(Err(()), convert_type_decimal(b"5."));
    assert_eq!(Err(()), convert_type_decimal(b"1.2.3"));
    assert_eq!(Err(()), convert_type_decimal(b"abc"));
    assert_eq!(Err(()), convert_type_decimal(b"--1"));
    assert_eq!(Err(()), convert_type_decimal(b"1234567890123456789"));
}

#[test]
fn date_field_values() {
    assert_eq!(
        Ok(Some(Date { year: 2021, month: 3, day: 1 })),
        convert_type_date(b"2021/03/01")
    );
    // 2020 is a leap year, 2021 is not.
    assert_eq!(
        Ok(Some(Date { year: 2020, month: 2, day: 29 })),
        convert_type_date(b"2020/02/29")
    );
    assert_eq!(Ok(None), convert_type_date(b"#"));
}

#[test]
fn date_field_failures() {
    assert_eq!(Err(()), convert_type_date(b"2021/02/29"));
    assert_eq!(Err(()), convert_type_date(b"2021/13/01"));
    assert_eq!(Err(()), convert_type_date(b"2021/00/10"));
    assert_eq!(Err(()), convert_type_date(b"2021/04/31"));
    assert_eq!(Err(()), convert_type_date(b"21/3/1"));
    assert_eq!(Err(()), convert_type_date(b"2021-03-01"));
    assert_eq!(Err(()), convert_type_date(b""));
}

#[test]
fn time_field_values() {
    assert_eq!(Ok(Some(Time { hour: 23, minute: 26 })), convert_type_time(b"23:26"));
    assert_eq!(Ok(Some(Time { hour: 0, minute: 0 })), convert_type_time(b"00:00"));
    assert_eq!(Ok(None), convert_type_time(b"#"));
}

#[test]
fn time_field_failures() {
    assert_eq!(Err(()), convert_type_time(b"24:00"));
    assert_eq!(Err(()), convert_type_time(b"07:60"));
    assert_eq!(Err(()), convert_type_time(b"7:05"));
    assert_eq!(Err(()), convert_type_time(b"23:26:00"));
    assert_eq!(Err(()), convert_type_time(b""));
}

#[test]
fn char_field_values() {
    assert_eq!(Ok(Some('F')), convert_type_char(b"F"));
    assert_eq!(Ok(Some('0')), convert_type_char(b"0"));
    assert_eq!(Ok(None), convert_type_char(b"#"));
    assert_eq!(Err(()), convert_type_char(b"FF"));
    assert_eq!(Err(()), convert_type_char(b""));
}

#[test]
fn bool_field_values() {
    assert_eq!(Ok(Some(true)), convert_type_bool(b"1"));
    assert_eq!(Ok(Some(true)), convert_type_bool(b"T"));
    assert_eq!(Ok(Some(false)), convert_type_bool(b"0"));
    assert_eq!(Ok(Some(false)), convert_type_bool(b"F"));
    assert_eq!(Ok(None), convert_type_bool(b"#"));
}

#[test]
fn bool_field_rejects_everything_else() {
    assert_eq!(Err(()), convert_type_bool(b"2"));
    assert_eq!(Err(()), convert_type_bool(b"t"));
    assert_eq!(Err(()), convert_type_bool(b"f"));
    assert_eq!(Err(()), convert_type_bool(b"TT"));
    assert_eq!(Err(()), convert_type_bool(b"10"));
    assert_eq!(Err(()), convert_type_bool(b""));
    assert_eq!(Err(()), convert_type_bool(b"true"));
}

#[test]
fn hex_field_values() {
    assert_eq!(Ok(Some(0xF7BB)), convert_type_hex(b"F7BB"));
    assert_eq!(Ok(Some(0xF7BB)), convert_type_hex(b"f7bb"));
    assert_eq!(Ok(Some(0)), convert_type_hex(b"0000"));
    assert_eq!(Err(()), convert_type_hex(b"XYZW"));
    assert_eq!(Err(()), convert_type_hex(b"12345"));
    assert_eq!(Err(()), convert_type_hex(b"123"));
    assert_eq!(Err(()), convert_type_hex(b"#"));
}
