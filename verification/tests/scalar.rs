use c64::decimal_places;
use c64::precise::dec_neg;
use c64::precise_add;
use c64::precise_multiply;
use c64::precise_subtract;
use c64::Dec;

fn d(mantissa: i64, places: u32) -> Dec {
    Dec::new(mantissa, places)
}

#[test]
fn calculates_decimal_places() {
    assert_eq!(decimal_places(d(293, 2)), 2);
    assert_eq!(decimal_places(d(2123456789, 9)), 9);
    assert_eq!(decimal_places(d(28489502, 3)), 3);
    assert_eq!(decimal_places(d(93, 2)), 2);
    assert_eq!(decimal_places(d(20, 1)), 0);
    assert_eq!(decimal_places(d(0, 1)), 0);
    assert_eq!(decimal_places(d(-5463, 1)), 1);
    assert_eq!(decimal_places(d(5546, 3)), 3);
    assert_eq!(decimal_places(d(-400257, 2)), 2);
    assert_eq!(decimal_places(d(821, 2)), 2);
}

#[test]
fn adds_f64() {
    assert_eq!(precise_add(d(1372901, 4), d(738298, 3)), d(8755881, 4));
    assert_eq!(precise_add(d(505, 2), d(605, 2)), d(111, 1));
    assert_eq!(precise_add(d(-505, 2), d(605, 2)), d(1, 0));
    assert_eq!(precise_add(d(505, 2), d(-605, 2)), d(-1, 0));
    assert_eq!(precise_add(d(-505, 2), d(-605, 2)), d(-111, 1));
    assert_eq!(precise_add(d(202, 2), d(17, 1)), d(372, 2));
    assert_eq!(precise_add(d(1372901, 4), d(0, 0)), d(1372901, 4));
    assert_eq!(precise_add(d(0, 0), d(738298, 3)), d(738298, 3));
    assert_eq!(precise_add(d(0, 0), d(0, 0)), d(0, 0));
}

#[test]
fn subtracts_f64() {
    assert_eq!(precise_subtract(d(1372901, 4), d(738298, 3)), d(-6010079, 4));
    assert_eq!(precise_subtract(d(505, 2), d(605, 2)), d(-1, 0));
    assert_eq!(precise_subtract(d(-505, 2), d(605, 2)), d(-111, 1));
    assert_eq!(precise_subtract(d(505, 2), d(-605, 2)), d(111, 1));
    assert_eq!(precise_subtract(d(-505, 2), d(-605, 2)), d(1, 0));
    assert_eq!(precise_subtract(d(202, 2), d(17, 1)), d(32, 2));
    assert_eq!(precise_subtract(d(1372901, 4), d(0, 0)), d(1372901, 4));
    assert_eq!(precise_subtract(d(0, 0), d(738298, 3)), d(-738298, 3));
    assert_eq!(precise_subtract(d(0, 0), d(0, 0)), d(0, 0));
    assert_eq!(precise_subtract(d(-30297798, 4), d(-328610997, 4)), d(298313199, 4));
}

#[test]
fn multiplies_f64() {
    assert_eq!(precise_multiply(d(2, 0), d(5, 0)), d(10, 0));
    assert_eq!(precise_multiply(d(256, 2), d(582, 2)), d(148992, 4));
    assert_eq!(precise_multiply(d(22, 1), d(12, 1)), d(264, 2));
    assert_eq!(precise_multiply(d(45, 1), d(0, 0)), d(0, 0));
    assert_eq!(precise_multiply(d(0, 0), d(82, 1)), d(0, 0));
    assert_eq!(precise_multiply(d(0, 0), d(-82, 1)), d(0, 0));
    assert_eq!(precise_multiply(d(0, 1), d(82, 1)), d(0, 0));
    assert_eq!(precise_multiply(d(-3, 0), d(52, 1)), d(-156, 1));
    assert_eq!(precise_multiply(d(3, 0), d(-52, 1)), d(-156, 1));
    assert_eq!(precise_multiply(d(-3, 0), d(-52, 1)), d(156, 1));
    assert_eq!(precise_multiply(d(3, 0), d(52, 1)), d(156, 1));
    assert_eq!(precise_multiply(d(-5463, 1), d(5546, 3)), d(-30297798, 4));
    assert_eq!(precise_multiply(d(-400257, 2), d(821, 2)), d(-328610997, 4));
}

#[test]
fn normalizes_trailing_zeros() {
    assert_eq!(d(2500, 3), d(25, 1));
    assert_eq!(d(-2500, 3), d(-25, 1));
    assert_eq!(d(0, 5), d(0, 0));
    assert_eq!(d(400, 2), d(4, 0));
    assert_eq!(decimal_places(d(400, 2)), 0);
}

#[test]
fn add_commutes_on_samples() {
    let pairs = [
        (d(505, 2), d(605, 2)),
        (d(-5463, 1), d(821, 2)),
        (d(0, 0), d(-400257, 2)),
        (d(17, 1), d(202, 2)),
    ];
    for (a, b) in pairs {
        assert_eq!(precise_add(a, b), precise_add(b, a));
    }
}

#[test]
fn subtract_antisymmetric_on_samples() {
    let pairs = [
        (d(505, 2), d(605, 2)),
        (d(-5463, 1), d(821, 2)),
        (d(0, 0), d(-400257, 2)),
        (d(17, 1), d(202, 2)),
    ];
    for (a, b) in pairs {
        assert_eq!(precise_subtract(a, b), dec_neg(precise_subtract(b, a)));
    }
}

#[test]
fn multiply_zero_on_samples() {
    let values = [d(505, 2), d(-605, 2), d(-5463, 1), d(0, 0)];
    for a in values {
        assert_eq!(precise_multiply(a, d(0, 0)), d(0, 0));
        assert_eq!(precise_multiply(d(0, 0), a), d(0, 0));
        assert_eq!(precise_multiply(a, d(0, 1)), d(0, 0));
    }
}
