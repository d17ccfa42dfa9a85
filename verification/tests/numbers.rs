use euphie::number::Comparison;
use euphie::number::Number;

fn num(x: f64) -> Number {
    Number::from_bits(x.to_bits())
}

fn float(n: Number) -> f64 {
    f64::from_bits(n.to_bits())
}

/// Values that reach every class of number and the edges between them.
fn samples() -> Vec<f64> {
    let mut out = vec![
        0.0,
        -0.0,
        1.0,
        -1.0,
        2.0,
        0.5,
        3.0,
        1.5,
        0.1,
        0.2,
        0.3,
        1.0 / 3.0,
        10.0,
        100.0,
        1e10,
        1e-10,
        1e100,
        1e-100,
        1e300,
        1e-300,
        1e308,
        1.7976931348623157e308,
        2.2250738585072014e-308,
        2.225073858507201e-308,
        5e-324,
        1e-323,
        4.9e-322,
        1e-310,
        9007199254740992.0,
        9007199254740993.0,
        9007199254740991.0,
        4503599627370496.0,
        4503599627370497.0,
        123456789.123456789,
        3.141592653589793,
        2.718281828459045,
        1.0000000000000002,
        0.9999999999999999,
        f64::INFINITY,
        f64::NEG_INFINITY,
        f64::NAN,
        f64::MAX,
        f64::MIN_POSITIVE,
        f64::EPSILON,
        1e16,
        1e17,
        65536.0,
        1.0 / 1024.0,
        6.0,
        7.0,
        1e22,
        1e23,
        8.98846567431158e307,
        1.1125369292536007e-308,
    ];
    let negatives: Vec<f64> = out.iter().map(|x| -x).collect();
    out.extend(negatives);
    // a deterministic spread of bit patterns
    let mut state: u64 = 0x9E37_79B9_7F4A_7C15;
    for _ in 0..400 {
        state = state.wrapping_mul(6364136223846793005).wrapping_add(1442695040888963407);
        out.push(f64::from_bits(state));
        // the same pattern with an exponent near the middle of the range
        let near =
            (state & 0x800F_FFFF_FFFF_FFFF) | (((state >> 52) % 130 + 958) << 52);
        out.push(f64::from_bits(near));
        // and one near the smallest numbers
        let tiny = (state & 0x800F_FFFF_FFFF_FFFF) | (((state >> 52) % 60) << 52);
        out.push(f64::from_bits(tiny));
    }
    out
}

fn same(got: Number, expected: f64) -> bool {
    if expected.is_nan() {
        float(got).is_nan()
    } else {
        got.to_bits() == expected.to_bits()
    }
}

#[test]
fn add_agrees_with_the_machine() {
    let xs = samples();
    for &a in &xs {
        for &b in &xs {
            let got = num(a).add(num(b));
            assert!(same(got, a + b), "{:e} + {:e}: got {:e}, expected {:e}", a, b, float(got), a + b);
        }
    }
}

#[test]
fn sub_agrees_with_the_machine() {
    let xs = samples();
    for &a in &xs {
        for &b in &xs {
            let got = num(a).sub(num(b));
            assert!(same(got, a - b), "{:e} - {:e}: got {:e}, expected {:e}", a, b, float(got), a - b);
        }
    }
}

#[test]
fn mul_agrees_with_the_machine() {
    let xs = samples();
    for &a in &xs {
        for &b in &xs {
            let got = num(a).mul(num(b));
            assert!(same(got, a * b), "{:e} * {:e}: got {:e}, expected {:e}", a, b, float(got), a * b);
        }
    }
}

#[test]
fn div_agrees_with_the_machine() {
    let xs = samples();
    for &a in &xs {
        for &b in &xs {
            let got = num(a).div(num(b));
            assert!(same(got, a / b), "{:e} / {:e}: got {:e}, expected {:e}", a, b, float(got), a / b);
        }
    }
}

#[test]
fn compare_agrees_with_the_machine() {
    let xs = samples();
    for &a in &xs {
        for &b in &xs {
            assert_eq!(num(a).compare(Comparison::Equal, num(b)), a == b);
            assert_eq!(num(a).compare(Comparison::NotEqual, num(b)), a != b);
            assert_eq!(num(a).compare(Comparison::Less, num(b)), a < b);
            assert_eq!(num(a).compare(Comparison::Greater, num(b)), a > b);
            assert_eq!(num(a).compare(Comparison::LessOrEqual, num(b)), a <= b);
            assert_eq!(num(a).compare(Comparison::GreaterOrEqual, num(b)), a >= b);
        }
    }
}

#[test]
fn negate_flips_the_sign() {
    for &a in &samples() {
        assert!(same(num(a).negate(), -a));
    }
    assert_eq!(num(5.0).negate().to_bits(), (-5.0f64).to_bits());
    assert_eq!(num(0.0).negate().to_bits(), (-0.0f64).to_bits());
}

#[test]
fn from_usize_is_the_nearest_number() {
    let counts: Vec<usize> = vec![
        0,
        1,
        2,
        3,
        10,
        255,
        65536,
        1 << 52,
        (1 << 53) - 1,
        1 << 53,
        (1 << 53) + 1,
        (1 << 53) + 2,
        (1 << 53) + 3,
        (1 << 54) + 2,
        (1 << 54) + 6,
        usize::MAX,
        usize::MAX - 1024,
        usize::MAX / 3,
    ];
    for n in counts {
        assert_eq!(Number::from_usize(n).to_bits(), (n as f64).to_bits(), "{}", n);
    }
}

#[test]
fn exact_values_of_simple_arithmetic() {
    assert_eq!(float(num(8.0).div(num(2.0)).div(num(2.0))), 2.0);
    assert_eq!(float(num(0.1).add(num(0.2))), 0.30000000000000004);
    assert_eq!(float(num(1.0).div(num(3.0))), 0.3333333333333333);
    assert_eq!(float(num(1.0).div(num(0.0))), f64::INFINITY);
    assert_eq!(float(num(-1.0).div(num(0.0))), f64::NEG_INFINITY);
    assert!(float(num(0.0).div(num(0.0))).is_nan());
    assert_eq!(float(num(1e308).mul(num(10.0))), f64::INFINITY);
    assert_eq!(float(num(5e-324).div(num(2.0))), 0.0);
    assert_eq!(float(num(3.0).sub(num(5.0))), -2.0);
}

#[test]
fn counts_add_and_multiply_exactly() {
    let counts: Vec<usize> = vec![0, 1, 2, 3, 7, 10, 255, 4096, 99_999, 1 << 26, (1 << 26) + 1];
    for &x in &counts {
        for &y in &counts {
            assert_eq!(
                Number::from_usize(x).add(Number::from_usize(y)),
                Number::from_usize(x + y)
            );
            assert_eq!(
                Number::from_usize(x).mul(Number::from_usize(y)),
                Number::from_usize(x * y)
            );
        }
    }
    let top = (1usize << 53) - 1;
    assert_eq!(
        Number::from_usize(top - 5).add(Number::from_usize(5)),
        Number::from_usize(top)
    );
}

#[test]
fn the_order_of_numbers_is_the_order_of_their_values() {
    let values = [-1e300, -2.5, -1.0, -5e-324, 0.0, 5e-324, 1e-310, 1.0, 2.5, 1e300];
    for (i, &a) in values.iter().enumerate() {
        for (j, &b) in values.iter().enumerate() {
            assert_eq!(num(a).compare(Comparison::Less, num(b)), i < j);
            assert_eq!(num(a).compare(Comparison::Equal, num(b)), i == j);
        }
    }
    assert!(num(0.0).compare(Comparison::Equal, num(-0.0)));
    assert!(!num(-0.0).compare(Comparison::Less, num(0.0)));
}

#[test]
fn a_nan_compares_with_nothing() {
    let nan = num(f64::NAN);
    for &x in &[0.0, 1.0, f64::INFINITY, f64::NAN] {
        assert!(!nan.compare(Comparison::Equal, num(x)));
        assert!(nan.compare(Comparison::NotEqual, num(x)));
        assert!(!nan.compare(Comparison::Less, num(x)));
        assert!(!nan.compare(Comparison::Greater, num(x)));
        assert!(!nan.compare(Comparison::LessOrEqual, num(x)));
        assert!(!nan.compare(Comparison::GreaterOrEqual, num(x)));
    }
}

#[test]
fn counts_divide_exactly_by_what_divides_them() {
    let counts: Vec<usize> = vec![1, 2, 3, 7, 10, 255, 4096, 99_999, 1 << 26];
    for &q in &counts {
        for &y in &counts {
            assert_eq!(
                Number::from_usize(q * y).div(Number::from_usize(y)),
                Number::from_usize(q)
            );
        }
    }
}
