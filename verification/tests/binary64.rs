use dumbbrain::binary64::Binary64;

fn nearest(text: &str) -> f64 {
    f64::from_bits(Binary64::from_decimal(text).unwrap().to_bits())
}

fn agrees(text: &str) {
    let expected: f64 = text.parse().unwrap();
    assert_eq!(nearest(text).to_bits(), expected.to_bits(), "{}", text);
}

#[test]
fn decimal_small_values_are_exact() {
    assert_eq!(nearest("0"), 0.0);
    assert_eq!(nearest("1"), 1.0);
    assert_eq!(nearest("3"), 3.0);
    assert_eq!(nearest("123"), 123.0);
    assert_eq!(nearest("007"), 7.0);
    assert_eq!(nearest("9007199254740991"), 9007199254740991.0);
    assert_eq!(nearest("9007199254740992"), 9007199254740992.0);
}

#[test]
fn decimal_rounds_to_nearest_ties_to_even() {
    // 2^53 + 1 lies halfway between two values: the even one is taken.
    assert_eq!(nearest("9007199254740993"), 9007199254740992.0);
    assert_eq!(nearest("9007199254740994"), 9007199254740994.0);
    // 2^53 + 3 lies halfway too, and the even neighbour is the upper one.
    assert_eq!(nearest("9007199254740995"), 9007199254740996.0);
    assert_eq!(nearest("18014398509481985"), 18014398509481984.0);
    assert_eq!(nearest("18014398509481987"), 18014398509481988.0);
}

#[test]
fn decimal_agrees_with_the_standard_library() {
    let samples = [
        "0", "1", "2", "9", "10", "99", "4294967295", "4294967296", "18446744073709551615",
        "18446744073709551616", "9007199254740993", "9007199254740995", "123456789012345678901234567890",
        "340282366920938463463374607431768211455", "1000000000000000000000000000000000000000000000",
        "179769313486231570814527423731704356798070567525844996598917476803157260780028538760589558632766878171540458953514382464234321326889464182768467546703537516986049910576551282076245490090389328944075868508455133942304583236903222948165808559332123348274797826204144723168738177180919299881250404026184124858368",
        "179769313486231580793728971405303415079934132710037826936173778980444968292764750946649017977587207096330286416692887910946555547851940402630657488671505820681908902000708383676273854845817711531764475730270069855571366959622842914819860834936475292719074168444365510704342711559699508093042880177904174497791",
        "179769313486231580793728971405303415079934132710037826936173778980444968292764750946649017977587207096330286416692887910946555547851940402630657488671505820681908902000708383676273854845817711531764475730270069855571366959622842914819860834936475292719074168444365510704342711559699508093042880177904174497792",
    ];
    for text in samples {
        agrees(text);
    }
    let mut seed: u64 = 0x9E37_79B9_7F4A_7C15;
    for length in 1..40usize {
        for _ in 0..20 {
            let mut text = String::new();
            for _ in 0..length {
                seed = seed.wrapping_mul(6364136223846793005).wrapping_add(1442695040888963407);
                text.push(char::from(b'0' + ((seed >> 33) % 10) as u8));
            }
            agrees(&text);
        }
    }
}

#[test]
fn decimal_beyond_the_finite_range_is_infinity() {
    let mut text = String::from("1");
    for _ in 0..400 {
        text.push('0');
    }
    assert_eq!(nearest(&text), f64::INFINITY);
    agrees(&text);
}

#[test]
fn decimal_rejects_what_is_no_digit_string() {
    assert_eq!(Binary64::from_decimal(""), None);
    assert_eq!(Binary64::from_decimal("12a"), None);
    assert_eq!(Binary64::from_decimal("-1"), None);
    assert_eq!(Binary64::from_decimal("1.5"), None);
    assert_eq!(Binary64::from_decimal(" 1"), None);
}

#[test]
fn ordering_agrees_with_ieee() {
    let values = [
        0.0f64, -0.0, 1.0, -1.0, 0.5, -0.5, 1e-6, -1e-6, 1e300, -1e300, f64::INFINITY,
        f64::NEG_INFINITY, f64::NAN, f64::MIN_POSITIVE, 5e-324, -5e-324, f64::MAX, f64::MIN,
    ];
    for a in values {
        for b in values {
            let x = Binary64::from_bits(a.to_bits());
            let y = Binary64::from_bits(b.to_bits());
            assert_eq!(x.less_than(y), a < b, "{} < {}", a, b);
            assert_eq!(x.less_or_equal(y), a <= b, "{} <= {}", a, b);
            assert_eq!(x.greater_than(y), a > b, "{} > {}", a, b);
            assert_eq!(x.greater_or_equal(y), a >= b, "{} >= {}", a, b);
        }
        let x = Binary64::from_bits(a.to_bits());
        assert_eq!(x.negated().to_bits(), (-a).to_bits());
        assert_eq!(x.absolute().to_bits(), a.abs().to_bits());
        assert_eq!(x.is_nan(), a.is_nan());
    }
}
