//! Tests of the complex value type: construction, equality, arithmetic, and
//! the canonical text rendering.

use complex_calc::complex::Complex;
use complex_calc::scalar::Scalar;

fn c(re: i64, im: i64) -> Complex {
    Complex::new(Scalar::from_int(re), Scalar::from_int(im))
}

#[test]
fn test_complex_constructor__001() {
    let input_real = Scalar::from_int(1);
    let input_imaginary = Scalar::from_int(-1);
    let expected_real = Scalar::from_int(1);
    let expected_imaginary = Scalar::from_int(-1);

    let input = Complex::new(input_real, input_imaginary);

    let output_real = input.real_part();
    let output_imaginary = input.imaginary();

    assert_eq!(expected_real, output_real);
    assert_eq!(expected_imaginary, output_imaginary);
}

#[test]
fn test_equality__002() {
    let input1 = c(0, 0);
    let input2 = c(0, 0);

    assert_eq!(input1, input2);
}

#[test]
fn test_add__003() {
    let input1 = c(1, 0);
    let input2 = c(0, 1);

    let expected = c(1, 1);

    assert_eq!(Some(expected), input1.add(input2));
}

#[test]
fn test_sub__004() {
    let input1 = c(1, 0);
    let input2 = c(1, 1);

    let expected = c(0, -1);

    assert_eq!(Some(expected), input1.sub(input2));
}

#[test]
fn test_mul__005() {
    let input1 = c(2, 1);
    let input2 = c(1, 2);

    // (2 + 1j)(1 + 2j) = (2*1 - 1*2) + (2*2 + 1*1)j = 0 + 5j.
    let expected = c(0, 5);

    assert_eq!(Some(expected), input1.mul(input2));
}

#[test]
fn test_display_imaginary_0__006__007() {
    {
        let input = c(1, 0);
        let expected = "1".to_owned();
        assert_eq!(expected, input.to_text());
    }
    {
        let input = Complex::new(Scalar::from_parts(false, 1, 333), Scalar::from_int(0));
        let expected = "1.333".to_owned();
        assert_eq!(expected, input.to_text());
    }
}

#[test]
fn test_display_real_0__008__009() {
    {
        let input = c(0, 1);
        let expected = "1j".to_owned();
        assert_eq!(expected, input.to_text());
    }
    {
        let input = Complex::new(Scalar::from_int(0), Scalar::from_parts(false, 1, 333));
        let expected = "1.333j".to_owned();
        assert_eq!(expected, input.to_text());
    }
}

#[test]
fn test_display_imaginary_gt_0__010__011__012__013() {
    {
        let input = c(1, 1);
        let expected = "1+1j".to_owned();
        assert_eq!(expected, input.to_text());
    }
    {
        let input = Complex::new(
            Scalar::from_parts(false, 1, 333),
            Scalar::from_parts(false, 1, 333),
        );
        let expected = "1.333+1.333j".to_owned();

        assert_eq!(expected, input.to_text());
    }
    {
        let input = Complex::new(Scalar::from_parts(false, 1, 333), Scalar::from_int(1));

        let expected = "1.333+1j".to_owned();

        assert_eq!(expected, input.to_text());
    }
    {
        let input = Complex::new(Scalar::from_int(1), Scalar::from_parts(false, 1, 333));

        let expected = "1+1.333j".to_owned();

        assert_eq!(expected, input.to_text());
    }
}

#[test]
fn test_display_imaginary_le_0__014__015__016__017() {
    {
        let input = c(1, -1);
        let expected = "1-1j".to_owned();
        assert_eq!(expected, input.to_text());
    }
    {
        let input = Complex::new(
            Scalar::from_parts(false, 1, 333),
            Scalar::from_parts(true, 1, 333),
        );
        let expected = "1.333-1.333j".to_owned();

        assert_eq!(expected, input.to_text());
    }
    {
        let input = Complex::new(Scalar::from_parts(false, 1, 333), Scalar::from_int(-1));

        let expected = "1.333-1j".to_owned();

        assert_eq!(expected, input.to_text());
    }
    {
        let input = Complex::new(Scalar::from_int(1), Scalar::from_parts(true, 1, 333));

        let expected = "1-1.333j".to_owned();

        assert_eq!(expected, input.to_text());
    }
}

#[test]
fn test_display_three_fraction_digits() {
    // A fractional component always shows exactly three digits.
    let input = Complex::new(Scalar::from_parts(false, 1, 500), Scalar::from_int(0));
    assert_eq!("1.500".to_owned(), input.to_text());
}

#[test]
fn test_display_negative_zero_is_zero() {
    // A zero built with a negative sign is canonical unsigned zero.
    let z = Scalar::from_parts(true, 0, 0);
    assert_eq!(z, Scalar::from_int(0));
    assert_eq!("0".to_owned(), Complex::new(z, z).to_text());
}

#[test]
fn test_scalar_text_negative_fraction() {
    let s = Scalar::from_parts(true, 2, 5);
    assert_eq!("-2.005".to_owned(), s.to_text());
}

#[test]
fn test_mul_rounds_to_thousandths() {
    // 0.111 * 0.111 = 0.012321 exactly; rounded half up to 0.012.
    let a = Scalar::from_parts(false, 0, 111);
    let expected = Scalar::from_parts(false, 0, 12);
    assert_eq!(Some(expected), a.mul(a));
}

#[test]
fn test_add_exact() {
    let a = Scalar::from_parts(false, 1, 250);
    let b = Scalar::from_parts(true, 2, 500);
    let expected = Scalar::from_parts(true, 1, 250);
    assert_eq!(Some(expected), a.add(b));
}
