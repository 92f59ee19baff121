use macbookfan::smc_text::{i32_from_smc_file, numeric_file_text, NumericError};

#[test]
fn reads_sensor_millidegrees() {
    assert_eq!(i32_from_smc_file(b"41000\n"), Ok(41000));
}

#[test]
fn reads_with_surrounding_whitespace_and_sign() {
    assert_eq!(i32_from_smc_file(b"  -12 \n"), Ok(-12));
    assert_eq!(i32_from_smc_file(b"\t+7\r\n"), Ok(7));
    assert_eq!(i32_from_smc_file(b"0"), Ok(0));
}

#[test]
fn reads_extreme_values() {
    assert_eq!(i32_from_smc_file(b"2147483647\n"), Ok(i32::MAX));
    assert_eq!(i32_from_smc_file(b"-2147483648\n"), Ok(i32::MIN));
}

#[test]
fn rejects_empty_contents() {
    assert_eq!(i32_from_smc_file(b""), Err(NumericError::Empty));
    assert_eq!(i32_from_smc_file(b" \n\t"), Err(NumericError::Empty));
}

#[test]
fn rejects_non_digits() {
    assert_eq!(i32_from_smc_file(b"abc"), Err(NumericError::InvalidDigit));
    assert_eq!(i32_from_smc_file(b"12 3"), Err(NumericError::InvalidDigit));
    assert_eq!(i32_from_smc_file(b"-"), Err(NumericError::InvalidDigit));
    assert_eq!(i32_from_smc_file(b"4.5"), Err(NumericError::InvalidDigit));
}

#[test]
fn rejects_out_of_range() {
    assert_eq!(i32_from_smc_file(b"2147483648"), Err(NumericError::PosOverflow));
    assert_eq!(i32_from_smc_file(b"99999999999999999999999"), Err(NumericError::PosOverflow));
    assert_eq!(i32_from_smc_file(b"-2147483649\n"), Err(NumericError::NegOverflow));
}

#[test]
fn writes_decimal_line() {
    assert_eq!(numeric_file_text(5700), b"5700\n".to_vec());
    assert_eq!(numeric_file_text(0), b"0\n".to_vec());
    assert_eq!(numeric_file_text(1), b"1\n".to_vec());
    assert_eq!(numeric_file_text(-305), b"-305\n".to_vec());
    assert_eq!(numeric_file_text(i32::MIN), b"-2147483648\n".to_vec());
}

#[test]
fn written_speed_reads_back() {
    for v in [0, 1, 9, 10, 2000, 5700, -1, -500, i32::MAX, i32::MIN] {
        assert_eq!(i32_from_smc_file(&numeric_file_text(v)), Ok(v));
    }
}

#[test]
fn reads_with_unicode_whitespace() {
    assert_eq!(i32_from_smc_file(b"7\xc2\xa0"), Ok(7));
    assert_eq!(i32_from_smc_file("\u{a0}42\u{a0}".as_bytes()), Ok(42));
    assert_eq!(i32_from_smc_file("\u{3000}\u{2028}-5\u{85}\u{2009}\n".as_bytes()), Ok(-5));
    assert_eq!(i32_from_smc_file("\u{1680}\u{205f}\u{202f}".as_bytes()), Err(NumericError::Empty));
    assert_eq!(i32_from_smc_file("1\u{a0}2".as_bytes()), Err(NumericError::InvalidDigit));
}

#[test]
fn matches_std_on_whitespace_and_numbers() {
    let samples = [
        "7\u{a0}", " 41000\n", "\u{2000}+3\u{200a}", "-0", "", "\u{a0}", "x1", "1e3",
        "2147483647", "2147483648", "-2147483648", "-2147483649", "99999999999a",
        "-99999999999a", "12a99999999999", "+", "-", "\u{feff}1",
    ];
    for text in samples {
        let expected = text.trim().parse::<i32>().map_err(|e| format!("{:?}", e.kind()));
        let got = i32_from_smc_file(text.as_bytes()).map_err(|e| format!("{:?}", e));
        assert_eq!(got, expected, "contents {:?}", text);
    }
}

#[test]
fn overflow_reported_before_later_bad_byte() {
    assert_eq!(i32_from_smc_file(b"99999999999a"), Err(NumericError::PosOverflow));
    assert_eq!(i32_from_smc_file(b"-99999999999a"), Err(NumericError::NegOverflow));
    assert_eq!(i32_from_smc_file(b"12a99999999999"), Err(NumericError::InvalidDigit));
}
