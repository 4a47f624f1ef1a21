use batteryudpd::crc16_tarom4545::{crc16_tarom4545, validate_line, ValidateError};

const GOOD_LINE: &str = "1;2021/03/01;23:26;26.2;1.1;#;98.0;#;-0.5;0.0;#;0.0;-0.5;0.5;0.5;3.3;0;F;1;0;0;15.0;10310.5;10.9;6662.4;0;F7BB";

#[test]
fn test_crc() {
    assert_eq!(
        0xf7bb,
        crc16_tarom4545(
            "1;2021/03/01;23:26;26.2;1.1;#;98.0;#;-0.5;0.0;#;0.0;-0.5;0.5;0.5;3.3;0;F;1;0;0;15.0;10310.5;10.9;6662.4;0;"
                .as_bytes()
        )
    );
}

#[test]
fn test_crc_empty() {
    assert_eq!(0, crc16_tarom4545(b""));
}

#[test]
fn test_line_validation_ok() {
    let line: &[u8] = GOOD_LINE.as_bytes();
    assert_eq!(Ok(line), validate_line(line));
}

#[test]
fn test_line_validation_err() {
    assert_eq!(
        true,
        validate_line(
            "1;2021/03/01;23:26;26.2;1.1b;#;98.u0;#;-0.5;0.0g;#;0.0;-0.5;0.5;0.5;3.3;0;F;1;0;0;15.0;10310.5;10.9;6662.4;0;F7BB"
                .as_bytes()
        )
        .is_err()
    );
}

#[test]
fn test_line_validation_err_empty() {
    assert_eq!(true, validate_line(b"").is_err());
}

#[test]
fn test_line_validation_err_too_short() {
    assert_eq!(true, validate_line(b"7BB").is_err());
}

#[test]
fn validation_too_short_variant() {
    assert_eq!(Err(ValidateError::TooShort), validate_line(b""));
    assert_eq!(Err(ValidateError::TooShort), validate_line(b"7BB"));
    assert_eq!(Err(ValidateError::TooShort), validate_line(b"F7BB"));
}

#[test]
fn validation_bad_format_variant() {
    // Long enough, but the last four bytes are not hex digits.
    assert_eq!(Err(ValidateError::BadChecksumFormat), validate_line(b"1;2;ZZZZ"));
    assert_eq!(Err(ValidateError::BadChecksumFormat), validate_line(b"hello"));
}

#[test]
fn validation_mismatch_variant() {
    // One trailing hex digit changed: F7BB -> F8BB.
    let corrupted = GOOD_LINE.replace("F7BB", "F8BB");
    assert_eq!(
        Err(ValidateError::ChecksumMismatch),
        validate_line(corrupted.as_bytes())
    );
}

#[test]
fn validation_accepts_lowercase_trailer() {
    let payload = "ab;cd;";
    let crc = crc16_tarom4545(payload.as_bytes());
    let line = format!("{}{:04x}", payload, crc);
    assert!(validate_line(line.as_bytes()).is_ok());
}
