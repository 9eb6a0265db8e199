use csv_importer::number::{parse_number, write_decimal};

fn decimal(n: u64) -> String {
    let mut out = Vec::new();
    write_decimal(n, &mut out);
    String::from_utf8(out).unwrap()
}

/// What a numeric field is worth by the rules of the standard library, which
/// the input format follows.
fn expected(field: &str, max: u64) -> Option<u64> {
    let value = match field.strip_prefix("0x") {
        Some(digits) => u64::from_str_radix(digits, 16),
        None => field.parse::<u64>(),
    };
    value.ok().filter(|v| *v <= max)
}

#[test]
fn plain_decimal_numbers() {
    assert_eq!(parse_number(b"0", u64::MAX), Some(0));
    assert_eq!(parse_number(b"45", 255), Some(45));
    assert_eq!(parse_number(b"007", 255), Some(7));
    assert_eq!(parse_number(b"1234567890", u64::MAX), Some(1234567890));
}

#[test]
fn numbers_at_the_limit() {
    assert_eq!(parse_number(b"255", 255), Some(255));
    assert_eq!(parse_number(b"256", 255), None);
    assert_eq!(parse_number(b"18446744073709551615", u64::MAX), Some(u64::MAX));
    assert_eq!(parse_number(b"18446744073709551616", u64::MAX), None);
    assert_eq!(parse_number(b"99999999999999999999999999999999", u64::MAX), None);
    assert_eq!(parse_number(b"0", 0), Some(0));
    assert_eq!(parse_number(b"1", 0), None);
}

#[test]
fn plus_sign_is_accepted_once() {
    assert_eq!(parse_number(b"+45", 255), Some(45));
    assert_eq!(parse_number(b"++45", 255), None);
    assert_eq!(parse_number(b"+", 255), None);
    assert_eq!(parse_number(b"4+5", 255), None);
}

#[test]
fn hexadecimal_needs_the_lower_case_prefix() {
    assert_eq!(parse_number(b"0x2d", 255), Some(45));
    assert_eq!(parse_number(b"0x2D", 255), Some(45));
    assert_eq!(parse_number(b"0xff", 255), Some(255));
    assert_eq!(parse_number(b"0x100", 255), None);
    assert_eq!(parse_number(b"0x+f", 255), Some(15));
    assert_eq!(parse_number(b"0xFFFFFFFFFFFFFFFF", u64::MAX), Some(u64::MAX));
    assert_eq!(parse_number(b"0x10000000000000000", u64::MAX), None);
    assert_eq!(parse_number(b"0X2d", 255), None);
    assert_eq!(parse_number(b"0x", 255), None);
    assert_eq!(parse_number(b"0xg", 255), None);
    assert_eq!(parse_number(b"2d", 255), None);
    assert_eq!(parse_number(b"+0x2d", 255), None);
}

#[test]
fn what_is_no_number() {
    for field in ["", " ", "-", "-0", "-1", " 1", "1 ", "1.5", "1,5", "1_0", "1e2", "one", "١"] {
        assert_eq!(parse_number(field.as_bytes(), u64::MAX), None, "field {:?}", field);
    }
    assert_eq!(parse_number(b"\xff", u64::MAX), None);
    assert_eq!(parse_number(b"1\x00", u64::MAX), None);
}

#[test]
fn fields_are_worth_what_the_standard_library_reads() {
    let pieces = ["", "+", "-", "0", "1", "9", "a", "f", "F", "g", "x", "0x", " ", "25", "6"];
    for a in pieces {
        for b in pieces {
            for c in pieces {
                let field = format!("{}{}{}", a, b, c);
                for max in [0u64, 9, 255, 256, u64::MAX] {
                    assert_eq!(
                        parse_number(field.as_bytes(), max),
                        expected(&field, max),
                        "field {:?}, limit {}",
                        field,
                        max
                    );
                }
            }
        }
    }
}

#[test]
fn every_byte_value_agrees_with_the_standard_library() {
    for n in 0..=300u64 {
        let field = n.to_string();
        assert_eq!(parse_number(field.as_bytes(), 255), if n <= 255 { Some(n) } else { None });
        let hex = format!("0x{:x}", n);
        assert_eq!(parse_number(hex.as_bytes(), 255), if n <= 255 { Some(n) } else { None });
    }
}

#[test]
fn decimal_digits_of_small_numbers() {
    assert_eq!(decimal(0), "0");
    assert_eq!(decimal(7), "7");
    assert_eq!(decimal(10), "10");
    assert_eq!(decimal(45), "45");
    assert_eq!(decimal(255), "255");
    assert_eq!(decimal(1000), "1000");
}

#[test]
fn decimal_digits_of_large_numbers() {
    assert_eq!(decimal(u64::MAX), "18446744073709551615");
    assert_eq!(decimal(10_000_000_000_000_000_000), "10000000000000000000");
    let mut n: u64 = 1;
    while n < u64::MAX / 7 {
        assert_eq!(decimal(n), n.to_string());
        n = n * 7 + 3;
    }
}

#[test]
fn decimal_digits_are_appended() {
    let mut out = b"id=".to_vec();
    write_decimal(120, &mut out);
    assert_eq!(out, b"id=120".to_vec());
}

#[test]
fn written_numbers_are_read_back() {
    for n in [0u64, 1, 9, 10, 99, 255, 256, 65535, 1 << 40, u64::MAX] {
        assert_eq!(parse_number(decimal(n).as_bytes(), u64::MAX), Some(n));
    }
}
