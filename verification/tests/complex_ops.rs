use c64::Dec;
use c64::C64;

fn d(mantissa: i64, places: u32) -> Dec {
    Dec::new(mantissa, places)
}

fn c(rm: i64, rp: u32, im: i64, ip: u32) -> C64 {
    C64::new(d(rm, rp), d(im, ip))
}

#[test]
fn adds_c64() {
    assert_eq!(c(1, 0, 2, 0).add(c(5, 0, 8, 0)), c(6, 0, 10, 0));
    assert_eq!(c(5, 0, -22, 0).add(c(5, 0, 8, 0)), c(10, 0, -14, 0));
    assert_eq!(c(-180, 0, -42, 0).add(c(-51, 0, -82, 0)), c(-231, 0, -124, 0));
    assert_eq!(c(186, 2, 2, 0).add(c(5, 0, 8789, 3)), c(686, 2, 10789, 3));
    assert_eq!(
        c(-5463, 1, -400257, 2).add(c(55464, 4, 821, 2)),
        c(-5407536, 4, -399436, 2)
    );
}

#[test]
fn subtracts_c64() {
    assert_eq!(c(1, 0, 2, 0).sub(c(5, 0, 8, 0)), c(-4, 0, -6, 0));
    assert_eq!(c(5, 0, -22, 0).sub(c(5, 0, 8, 0)), c(0, 0, -30, 0));
    assert_eq!(c(-180, 0, -42, 0).sub(c(-51, 0, -82, 0)), c(-129, 0, 40, 0));
    assert_eq!(c(102, 2, 2, 0).sub(c(5, 0, 8789, 3)), c(-398, 2, -6789, 3));
    assert_eq!(
        c(-5463, 1, -400257, 2).sub(c(5546, 3, 821, 2)),
        c(-551846, 3, -401078, 2)
    );
}

#[test]
fn multiplies_c64() {
    assert_eq!(c(1, 0, 2, 0).mul(c(5, 0, 8, 0)), c(-11, 0, 18, 0));
    assert_eq!(c(5, 0, -22, 0).mul(c(5, 0, 8, 0)), c(201, 0, -70, 0));
    assert_eq!(c(-180, 0, -42, 0).mul(c(-51, 0, -82, 0)), c(5736, 0, 16902, 0));
    assert_eq!(c(13, 1, 2, 0).mul(c(-5, 0, 87, 1)), c(-239, 1, 131, 2));
    assert_eq!(
        c(-5463, 1, -400257, 2).mul(c(5546, 3, 821, 2)),
        c(298313199, 4, -2668337622, 5)
    );
}

#[test]
fn divides_c64() {
    assert_eq!(c(1, 0, 2, 0).div(c(5, 0, 8, 0)), c(23596, 5, 2247, 5));
    assert_eq!(c(5, 0, -22, 0).div(c(5, 0, 8, 0)), c(-169663, 5, -168539, 5));
    assert_eq!(c(-180, 0, -42, 0).div(c(-51, 0, -82, 0)), c(135378, 5, -135314, 5));
    assert_eq!(c(13, 1, 2, 0).div(c(-5, 0, 87, 1)), c(10825, 5, -21164, 5));
    assert_eq!(
        c(-5463, 1, -400257, 2).div(c(5546, 3, 821, 2)),
        c(-36562825, 5, -18044754, 5)
    );
}

#[test]
fn complex_add_identity() {
    let values = [c(1, 0, 2, 0), c(-5463, 1, -400257, 2), c(0, 0, 0, 0), c(186, 2, -8789, 3)];
    for x in values {
        assert_eq!(x.add(c(0, 0, 0, 0)), x);
        assert_eq!(c(0, 0, 0, 0).add(x), x);
    }
}

#[test]
fn complex_mul_identity() {
    let values = [c(1, 0, 2, 0), c(-5463, 1, -400257, 2), c(0, 0, 0, 0), c(186, 2, -8789, 3)];
    for x in values {
        assert_eq!(x.mul(c(1, 0, 0, 0)), x);
    }
}

#[test]
fn divide_rounds_half_away_from_zero() {
    assert_eq!(c(3, 5, 0, 0).div(c(2, 0, 0, 0)), c(2, 5, 0, 0));
    assert_eq!(c(-3, 5, 0, 0).div(c(2, 0, 0, 0)), c(-2, 5, 0, 0));
}

#[test]
fn divide_strips_trailing_zeros() {
    assert_eq!(c(1, 0, 0, 0).div(c(8, 0, 0, 0)), c(125, 3, 0, 0));
}
