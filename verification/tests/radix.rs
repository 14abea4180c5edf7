use vical::cli::{binary_mode_output, from_binary_mode_output};
use vical::radix::{binary_to_decimal, decimal_to_binary, parse_i128_exec};

#[test]
fn decimal_to_binary_examples() {
    assert_eq!(decimal_to_binary("5"), Ok("101".to_string()));
    assert_eq!(decimal_to_binary("0"), Ok("0".to_string()));
    assert_eq!(decimal_to_binary("+10"), Ok("1010".to_string()));
    assert_eq!(decimal_to_binary("-1"), Ok("1".repeat(128)));
    assert_eq!(decimal_to_binary("-2"), Ok(format!("{}0", "1".repeat(127))));
}

#[test]
fn decimal_to_binary_matches_std_formatting() {
    for v in [0i128, 1, 2, 255, 1024, -7, i128::MAX, i128::MIN, 123456789] {
        assert_eq!(decimal_to_binary(&v.to_string()), Ok(format!("{:b}", v)));
    }
}

#[test]
fn decimal_to_binary_errors() {
    assert_eq!(decimal_to_binary("abc"), Err("Invalid decimal integer: abc".to_string()));
    assert_eq!(decimal_to_binary(""), Err("Invalid decimal integer: ".to_string()));
    assert_eq!(decimal_to_binary("-"), Err("Invalid decimal integer: -".to_string()));
    assert_eq!(decimal_to_binary(" 5"), Err("Invalid decimal integer:  5".to_string()));
    assert_eq!(
        decimal_to_binary("170141183460469231731687303715884105728"),
        Err("Invalid decimal integer: 170141183460469231731687303715884105728".to_string())
    );
}

#[test]
fn binary_to_decimal_examples() {
    assert_eq!(binary_to_decimal("101"), Ok("5".to_string()));
    assert_eq!(binary_to_decimal("  101\n"), Ok("5".to_string()));
    assert_eq!(binary_to_decimal("-101"), Ok("-5".to_string()));
    assert_eq!(binary_to_decimal("0"), Ok("0".to_string()));
}

#[test]
fn binary_to_decimal_errors_quote_the_argument() {
    assert_eq!(binary_to_decimal(" 12 "), Err("Invalid binary integer:  12 ".to_string()));
    assert_eq!(binary_to_decimal(&"1".repeat(128)), Err(format!("Invalid binary integer: {}", "1".repeat(128))));
}

#[test]
fn binary_roundtrip_on_values() {
    for v in [0i128, 1, 6, 1 << 100, i128::MAX] {
        let b = decimal_to_binary(&v.to_string()).unwrap();
        assert_eq!(binary_to_decimal(&b), Ok(v.to_string()));
    }
}

#[test]
fn parse_agrees_with_std() {
    let cases = ["0", "-0", "+7", "99", "-170141183460469231731687303715884105728", "x", "", "+", "1_0"];
    for c in cases {
        let chars: Vec<char> = c.chars().collect();
        assert_eq!(parse_i128_exec(&chars, 10), i128::from_str_radix(c, 10).ok(), "{}", c);
        assert_eq!(parse_i128_exec(&chars, 2), i128::from_str_radix(c, 2).ok(), "{}", c);
    }
}

#[test]
fn mode_outputs_check_the_argument_count() {
    let args = vec!["--binary".to_string()];
    assert_eq!(binary_mode_output(&args), Err("Usage: vical --binary <decimal_integer>".to_string()));
    let args = vec!["-fb".to_string(), "11".to_string(), "1".to_string()];
    assert_eq!(from_binary_mode_output(&args), Err("Usage: vical --from-binary <binary_integer>".to_string()));
    let args = vec!["-b".to_string(), "6".to_string()];
    assert_eq!(binary_mode_output(&args), Ok("110".to_string()));
    let args = vec!["-fb".to_string(), "110".to_string()];
    assert_eq!(from_binary_mode_output(&args), Ok("6".to_string()));
}

#[test]
fn unicode_blanks_are_trimmed_before_reading_binary() {
    assert_eq!(binary_to_decimal("\u{3000}11\u{2009}"), Ok("3".to_string()));
    assert_eq!(binary_to_decimal("\u{200b}11"), Err("Invalid binary integer: \u{200b}11".to_string()));
}
