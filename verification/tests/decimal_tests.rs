use railbreaker::decimal::{is_digit, parse_decimal, parse_number, DECIMAL_CAP};

fn parse(s: &str) -> Option<i64> {
    let chars: Vec<char> = s.chars().collect();
    parse_decimal(&chars)
}

fn number(s: &str) -> Option<i64> {
    let chars: Vec<char> = s.chars().collect();
    parse_number(&chars)
}

#[test]
fn digits_are_the_ten_ascii_digits() {
    for c in "0123456789".chars() {
        assert!(is_digit(c));
    }
    for c in "/:aA +-.\u{660}\u{ff11}".chars() {
        assert!(!is_digit(c));
    }
}

#[test]
fn whole_numbers() {
    assert_eq!(parse("0"), Some(0));
    assert_eq!(parse("7"), Some(7_000_000));
    assert_eq!(parse("110"), Some(110_000_000));
    assert_eq!(parse("+7"), Some(7_000_000));
    assert_eq!(parse("-7"), Some(-7_000_000));
    assert_eq!(parse("-0"), Some(0));
    assert_eq!(parse("000000000000000000000000012"), Some(12_000_000));
}

#[test]
fn numbers_with_a_point() {
    assert_eq!(parse("110.5"), Some(110_500_000));
    assert_eq!(parse("110."), Some(110_000_000));
    assert_eq!(parse(".5"), Some(500_000));
    assert_eq!(parse("-.5"), Some(-500_000));
    assert_eq!(parse("0.000001"), Some(1));
    assert_eq!(parse("3.141592"), Some(3_141_592));
    assert_eq!(parse("1.000000000000000000000000000000"), Some(1_000_000));
}

#[test]
fn digits_beyond_the_sixth_round_down() {
    assert_eq!(parse("0.0000019"), Some(1));
    assert_eq!(parse("0.0000005"), Some(0));
    assert_eq!(parse("3.1415926535"), Some(3_141_592));
    assert_eq!(parse("-0.0000005"), Some(-1));
    assert_eq!(parse("-3.1415926535"), Some(-3_141_593));
    assert_eq!(parse("-3.1415920000"), Some(-3_141_592));
    assert_eq!(parse("-0.00000000000000000000001"), Some(-1));
}

#[test]
fn texts_that_are_no_decimal_number() {
    for s in [
        "", "+", "-", ".", "+.", "-.", "N/A", "1,5", "1.2.3", "1.-2", "--1", "+-1", " 1", "1 ",
        "1_000", "0x10", "1.5f", "\u{661}", "e5", ".e5", "1e", "1e+", "1e-", "1e5x", "1e1.5",
        "1ee5", "1e--5", "1e+-5", "e", "-e1", "1 e5",
    ] {
        assert_eq!(parse(s), None, "{:?}", s);
    }
}

#[test]
fn numbers_beyond_the_cap() {
    assert_eq!(DECIMAL_CAP, 1_000_000_000_000_000);
    assert_eq!(parse("999999999"), Some(999_999_999_000_000));
    assert_eq!(parse("1000000000"), Some(DECIMAL_CAP));
    assert_eq!(parse("1000000000.000001"), Some(DECIMAL_CAP));
    assert_eq!(parse("9999999999"), Some(DECIMAL_CAP));
    assert_eq!(parse("10000000000"), Some(DECIMAL_CAP));
    assert_eq!(parse("99999999999999999999999999999999999999999999"), Some(DECIMAL_CAP));
    assert_eq!(parse("-1000000000"), Some(-DECIMAL_CAP));
    assert_eq!(parse("-1000000000.5"), Some(-DECIMAL_CAP));
    assert_eq!(parse("-99999999999999999999999999999999999999999999"), Some(-DECIMAL_CAP));
    assert_eq!(parse("-999999999.9999999"), Some(-DECIMAL_CAP));
    assert_eq!(parse("-999999999.999999"), Some(-999_999_999_999_999));
}

#[test]
fn numbers_with_a_power_of_ten() {
    assert_eq!(parse("1e2"), Some(100_000_000));
    assert_eq!(parse("1.1e2"), Some(110_000_000));
    assert_eq!(parse("1.1E2"), Some(110_000_000));
    assert_eq!(parse("1.1e+2"), Some(110_000_000));
    assert_eq!(parse("+1.1e+02"), Some(110_000_000));
    assert_eq!(parse("1100e-1"), Some(110_000_000));
    assert_eq!(parse("1.e2"), Some(100_000_000));
    assert_eq!(parse(".5e1"), Some(5_000_000));
    assert_eq!(parse("1e0"), Some(1_000_000));
    assert_eq!(parse("1e-2"), Some(10_000));
    assert_eq!(parse("1e-6"), Some(1));
    assert_eq!(parse("123456789e-3"), Some(123_456_789_000));
    assert_eq!(parse("9.99999999e8"), Some(999_999_999_000_000));
    assert_eq!(parse("0.000123e4"), Some(1_230_000));
}

#[test]
fn small_numbers_round_down() {
    assert_eq!(parse("1e-7"), Some(0));
    assert_eq!(parse("-1e-7"), Some(-1));
    assert_eq!(parse("1.5e-6"), Some(1));
    assert_eq!(parse("-1.5e-6"), Some(-2));
    assert_eq!(parse("-1.0e-6"), Some(-1));
    assert_eq!(parse("19e-7"), Some(1));
    assert_eq!(parse("1e-999999999999999999999999999999"), Some(0));
    assert_eq!(parse("-1e-999999999999999999999999999999"), Some(-1));
    assert_eq!(parse("-0e-999999999999999999999999999999"), Some(0));
    assert_eq!(parse("-0.000e-5"), Some(0));
}

#[test]
fn large_powers_of_ten_meet_the_cap() {
    assert_eq!(parse("1e9"), Some(DECIMAL_CAP));
    assert_eq!(parse("1e10"), Some(DECIMAL_CAP));
    assert_eq!(parse("-1e99"), Some(-DECIMAL_CAP));
    assert_eq!(parse("1e999999999999999999999999999999"), Some(DECIMAL_CAP));
    assert_eq!(parse("-3e999999999999999999999999999999"), Some(-DECIMAL_CAP));
    assert_eq!(parse("0e999999999999999999999999999999"), Some(0));
    assert_eq!(parse("0.0e25"), Some(0));
    assert_eq!(parse("0.00000000000000000001e25"), Some(100_000_000_000));
    assert_eq!(parse("100000000000000000000e-20"), Some(1_000_000));
    assert_eq!(parse("100000000000000000000e-19"), Some(10_000_000));
}

#[test]
fn the_numbers_are_those_that_std_reads_as_finite() {
    let samples = [
        "", "0", "1", "-1", "+1", "1.", ".1", ".", "1.5", "1e5", "1E5", "1e+5", "1e-5", "1.e5",
        ".5e5", ".e5", "e5", "1e", "1e+", "1.5.5", "1e5e5", "--1", "+-1", "1_0", "0x1", " 1",
        "1 ", "1e 5", "1,5", "1d5", "1f", "٣", "1e٣", "-", "+", "-.", "-.5", "-5.", "00012",
        "1e0005", "1e-0", "-0", "-0.0", "0.0000001", "123456.654321",
    ];
    for s in samples {
        assert_eq!(parse(s).is_some(), s.parse::<f64>().is_ok(), "{:?}", s);
    }
}

#[test]
fn the_values_are_those_that_std_reads() {
    for s in ["0", "1", "-1", "110", "98.5", "1.25e2", "-3.5e-3", "123456.654321", "7e5", ".125"] {
        let want = (s.parse::<f64>().unwrap() * 1e6).floor() as i64;
        let got = parse(s).unwrap();
        assert!((got - want).abs() <= 1, "{:?}: {} against {}", s, got, want);
    }
}

#[test]
fn words_are_no_decimal_numbers() {
    for s in ["inf", "+inf", "-inf", "infinity", "Infinity", "nan", "NaN", "-nan"] {
        assert_eq!(parse(s), None, "{:?}", s);
    }
}

#[test]
fn infinity_is_read_as_the_cap() {
    for s in ["inf", "+inf", "INF", "Inf", "infinity", "+Infinity", "INFINITY", "iNfInItY"] {
        assert_eq!(number(s), Some(DECIMAL_CAP), "{:?}", s);
    }
    for s in ["-inf", "-INF", "-infinity", "-Infinity"] {
        assert_eq!(number(s), Some(-DECIMAL_CAP), "{:?}", s);
    }
}

#[test]
fn what_is_not_a_number_is_read_as_the_cap_below_zero() {
    for s in ["nan", "NaN", "NAN", "+nan", "-nan", "-NaN"] {
        assert_eq!(number(s), Some(-DECIMAL_CAP), "{:?}", s);
    }
}

#[test]
fn numbers_in_digits_are_read_as_before() {
    for s in ["0", "110", "-0.5", ".25", "1.1e2", "1e99", "-1e-7", "", "N/A", "1e", "x"] {
        assert_eq!(number(s), parse(s), "{:?}", s);
    }
}

#[test]
fn the_numbers_are_those_that_std_reads() {
    let samples = [
        "", "0", "1", "-1", "+1", "1.", ".1", ".", "1.5", "1e5", "1E5", "1e+5", "1e-5", "1.e5",
        ".5e5", ".e5", "e5", "1e", "1e+", "1.5.5", "--1", "+-1", "1_0", "0x1", " 1", "1 ",
        "inf", "+inf", "-inf", "INF", "iNf", "infinity", "-Infinity", "INFINITY", "nan", "NaN",
        "+nan", "-nan", "in", "infi", "infinit", "infinityy", "inff", "na", "nann", "nano",
        "++inf", "+-inf", "-+nan", "inf ", " inf", "i", "n", "+", "-", "\u{131}nf", "\u{130}nf",
        "\u{212a}", "inf1", "1inf", "infe5", "nan.0", "N/A", "none", "null",
    ];
    for s in samples {
        assert_eq!(number(s).is_some(), s.parse::<f64>().is_ok(), "{:?}", s);
    }
}
