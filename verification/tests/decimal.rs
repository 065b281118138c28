use invoice_ledger::decimal::{
    billionths_to_text, integer_to_text, parse_billionths, parse_u128, push_digits,
    unsigned_to_text,
};

#[test]
fn whole_numbers_as_text() {
    assert_eq!(unsigned_to_text(0), "0");
    assert_eq!(unsigned_to_text(7), "7");
    assert_eq!(unsigned_to_text(10), "10");
    assert_eq!(unsigned_to_text(1_700_000_000_000), "1700000000000");
    assert_eq!(unsigned_to_text(u128::MAX), u128::MAX.to_string());
}

#[test]
fn digits_are_added_to_the_end() {
    let mut text = String::from("n=");
    push_digits(&mut text, 4_096);
    assert_eq!(text, "n=4096");
}

#[test]
fn signed_whole_numbers_as_text() {
    assert_eq!(integer_to_text(0), "0");
    assert_eq!(integer_to_text(2024), "2024");
    assert_eq!(integer_to_text(-44), "-44");
    assert_eq!(integer_to_text(i64::MIN), i64::MIN.to_string());
    assert_eq!(integer_to_text(i64::MAX), i64::MAX.to_string());
}

#[test]
fn billionths_as_text() {
    assert_eq!(billionths_to_text(0), "0");
    assert_eq!(billionths_to_text(2_500_000_000_000), "2500");
    assert_eq!(billionths_to_text(384_375_000_000), "384.375");
    assert_eq!(billionths_to_text(-4_597_500_000_000), "-4597.5");
    assert_eq!(billionths_to_text(1), "0.000000001");
    assert_eq!(billionths_to_text(-1), "-0.000000001");
    assert_eq!(billionths_to_text(1_000_000_010), "1.00000001");
    assert_eq!(billionths_to_text(100_000_000), "0.1");
    assert_eq!(billionths_to_text(999_999_999), "0.999999999");
    assert_eq!(
        billionths_to_text(i128::MAX),
        "170141183460469231731687303715.884105727"
    );
    assert_eq!(
        billionths_to_text(i128::MIN),
        "-170141183460469231731687303715.884105728"
    );
}

#[test]
fn whole_numbers_from_text() {
    assert_eq!(parse_u128("0"), Some(0));
    assert_eq!(parse_u128("007"), Some(7));
    assert_eq!(parse_u128("1700000000000"), Some(1_700_000_000_000));
    assert_eq!(parse_u128(&u128::MAX.to_string()), Some(u128::MAX));
}

#[test]
fn text_that_is_no_whole_number() {
    assert_eq!(parse_u128(""), None);
    assert_eq!(parse_u128("-1"), None);
    assert_eq!(parse_u128("+1"), None);
    assert_eq!(parse_u128("1.0"), None);
    assert_eq!(parse_u128(" 1"), None);
    assert_eq!(parse_u128("12a"), None);
    assert_eq!(parse_u128("١٢"), None);
    assert_eq!(parse_u128("340282366920938463463374607431768211456"), None);
    assert_eq!(parse_u128("3402823669209384634633746074317682114550"), None);
}

#[test]
fn billionths_from_text() {
    assert_eq!(parse_billionths("0"), Some(0));
    assert_eq!(parse_billionths("-0"), Some(0));
    assert_eq!(parse_billionths("2500"), Some(2_500_000_000_000));
    assert_eq!(parse_billionths("384.375"), Some(384_375_000_000));
    assert_eq!(parse_billionths("-4597.5"), Some(-4_597_500_000_000));
    assert_eq!(parse_billionths("0.000000001"), Some(1));
    assert_eq!(parse_billionths("500.0"), Some(500_000_000_000));
    assert_eq!(parse_billionths("0500.250"), Some(500_250_000_000));
    assert_eq!(
        parse_billionths("170141183460469231731687303715.884105727"),
        Some(i128::MAX)
    );
    assert_eq!(
        parse_billionths("-170141183460469231731687303715.884105728"),
        Some(i128::MIN)
    );
}

#[test]
fn text_that_is_no_amount() {
    assert_eq!(parse_billionths(""), None);
    assert_eq!(parse_billionths("-"), None);
    assert_eq!(parse_billionths("."), None);
    assert_eq!(parse_billionths(".5"), None);
    assert_eq!(parse_billionths("5."), None);
    assert_eq!(parse_billionths("+5"), None);
    assert_eq!(parse_billionths("--5"), None);
    assert_eq!(parse_billionths("1e3"), None);
    assert_eq!(parse_billionths("1,5"), None);
    assert_eq!(parse_billionths("1.2.3"), None);
    assert_eq!(parse_billionths("1.-2"), None);
    assert_eq!(parse_billionths(" 1"), None);
    assert_eq!(parse_billionths("1 "), None);
    assert_eq!(parse_billionths("NaN"), None);
    assert_eq!(parse_billionths("inf"), None);
    assert_eq!(parse_billionths("1.0000000001"), None);
    assert_eq!(parse_billionths("１"), None);
}

#[test]
fn amount_text_that_stands_for_too_much() {
    assert_eq!(parse_billionths("170141183460469231731687303715.884105728"), None);
    assert_eq!(parse_billionths("-170141183460469231731687303715.884105729"), None);
    assert_eq!(parse_billionths("170141183460469231731687303716"), None);
    assert_eq!(parse_billionths("340282366920938463463374607431768211456"), None);
    assert_eq!(parse_billionths("99999999999999999999999999999999999999999999"), None);
}

#[test]
fn amount_text_reads_back() {
    let values = [
        0i128,
        1,
        -1,
        10,
        999_999_999,
        1_000_000_000,
        -1_000_000_001,
        384_375_000_000,
        123_456_789_012_345_678,
        i128::MAX,
        i128::MIN,
        i128::MIN + 1,
    ];
    for value in values {
        assert_eq!(parse_billionths(&billionths_to_text(value)), Some(value), "{value}");
    }
}
