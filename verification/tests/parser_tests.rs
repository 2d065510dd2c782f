//! Tests of the complex-literal parser and its helpers.

use complex_calc::complex::Complex;
use complex_calc::parser::Sign;
use complex_calc::parser::create_num;
use complex_calc::parser::parse_from_string;
use complex_calc::parser::str_to_sign;
use complex_calc::scalar::Scalar;

fn c(re: i64, im: i64) -> Complex {
    Complex::new(Scalar::from_int(re), Scalar::from_int(im))
}

#[test]
fn test_complex_number_parser_first_form__020() {
    let input = "1+1j".into();
    let expected = Ok(c(1, 1));

    let output = parse_from_string(input);

    assert_eq!(expected, output);
}

#[test]
fn test_complex_number_parser_second_form__021() {
    let input = "1".into();
    let expected = Ok(c(1, 0));

    let output = parse_from_string(input);

    assert_eq!(expected, output);
}

#[test]
fn test_complex_number_parser_third_form__022() {
    let input = "1j+1".into();
    let expected = Ok(c(1, 1));

    let output = parse_from_string(input);

    assert_eq!(expected, output);
}

#[test]
fn test_complex_number_parser_fourth_form__023() {
    let input = "1j".into();
    let expected = Ok(c(0, 1));

    let output = parse_from_string(input);

    assert_eq!(expected, output);
}

#[test]
fn test_complex_number_parse_bad_input__024() {
    let input = "1+1".into();
    let expected = Err("1+1".into());

    let output = parse_from_string(input);

    assert_eq!(expected, output);
}

#[test]
fn test_plus_str_to_sign__025() {
    let input = "+";
    let expected = Sign::Pos;

    let output = str_to_sign(input);

    assert_eq!(expected, output);
}

#[test]
fn test_empty_string_to_sign__026() {
    let input = "";
    let expected = Sign::Pos;

    let output = str_to_sign(input);

    assert_eq!(expected, output);
}

#[test]
fn test_minus_string_to_sign__027() {
    let input = "-";
    let expected = Sign::Neg;

    let output = str_to_sign(input);

    assert_eq!(expected, output);
}

#[test]
fn test_create_negative_num__028() {
    let input_num = "1";
    let input_sign = Sign::Neg;
    let expected = Some(Scalar::from_int(-1));

    let output = create_num(input_num, input_sign);

    assert_eq!(expected, output);
}

#[test]
fn test_parse_fractional_and_signs() {
    let expected = Ok(Complex::new(
        Scalar::from_parts(true, 2, 500),
        Scalar::from_int(-3),
    ));
    assert_eq!(expected, parse_from_string("-2.5-3j".into()));
}

#[test]
fn test_parse_imaginary_first_negative_real() {
    let expected = Ok(c(-1, 3));
    assert_eq!(expected, parse_from_string("3j-1".into()));
}

#[test]
fn test_parse_with_inner_whitespace() {
    let expected = Ok(c(1, 1));
    assert_eq!(expected, parse_from_string("  1 + 1j  ".into()));
}

#[test]
fn test_parse_leading_plus_rejected() {
    // Only a minus may mark the first numeral.
    let expected: Result<Complex, String> = Err("+1+1j".into());
    assert_eq!(expected, parse_from_string("+1+1j".into()));
}

#[test]
fn test_parse_rounds_fourth_fraction_digit() {
    let expected = Ok(Complex::new(Scalar::from_parts(false, 1, 235), Scalar::from_int(0)));
    assert_eq!(expected, parse_from_string("1.2345".into()));

    let truncated = Ok(Complex::new(Scalar::from_parts(false, 1, 234), Scalar::from_int(0)));
    assert_eq!(truncated, parse_from_string("1.2344".into()));
}

#[test]
fn test_parse_rounding_carries_into_units() {
    let expected = Ok(c(1, 0));
    assert_eq!(expected, parse_from_string("0.9996".into()));
}

#[test]
fn test_parse_trailing_point_rejected() {
    let expected: Result<Complex, String> = Err("1.".into());
    assert_eq!(expected, parse_from_string("1.".into()));
}

#[test]
fn test_parse_space_before_j_rejected() {
    let expected: Result<Complex, String> = Err("1 j".into());
    assert_eq!(expected, parse_from_string("1 j".into()));
}

#[test]
fn test_parse_format_round_trip() {
    let v = Complex::new(Scalar::from_parts(false, 1, 333), Scalar::from_int(-2));
    let text = v.to_text();
    assert_eq!(Ok(v), parse_from_string(text.clone()));
    let again = parse_from_string(text.clone()).unwrap().to_text();
    assert_eq!(text, again);
}
