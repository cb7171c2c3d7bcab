//! Complex numbers over precision-aware decimal scalars.
//!
//! Addition, subtraction and multiplication are componentwise
//! compositions of the precision-aware scalar operations, exact end to
//! end. Division rationalizes by the conjugate, divides by the squared
//! modulus of the divisor, and rounds each component to five decimal
//! places, half away from zero.

use vstd::prelude::*;

use crate::digits::dec_fits;
use crate::digits::dec_from_scaled;
use crate::digits::lemma_norm_canonical;
use crate::digits::norm_spec;
use crate::digits::Dec;
use crate::pow::lemma_pow10_18;
use crate::pow::lemma_pow10_increases;
use crate::pow::lemma_pow10_pos;
use crate::pow::pow10;
use crate::pow::pow10_i128;
use crate::precise::add_pre;
use crate::precise::add_spec;
use crate::precise::aligned_sum;
use crate::precise::dec_neg;
use crate::precise::dec_one;
use crate::precise::dec_zero;
use crate::precise::hi_places;
use crate::precise::lemma_precise_add_zero;
use crate::precise::lemma_precise_multiply_one;
use crate::precise::lemma_precise_multiply_zero;
use crate::precise::mul_pre;
use crate::precise::mul_spec;
use crate::precise::neg_spec;
use crate::precise::precise_add;
use crate::precise::precise_multiply;
use crate::precise::precise_subtract;
use crate::precise::sub_pre;
use crate::precise::sub_spec;

verus! {

/// A complex number: real and imaginary components, both exact decimals.
#[derive(Clone, Copy, Debug, PartialEq, Eq, Structural)]
pub struct C64 {
    pub re: Dec,
    pub im: Dec,
}

/// The complex zero.
pub open spec fn c64_zero() -> C64 {
    C64 { re: dec_zero(), im: dec_zero() }
}

/// The complex one.
pub open spec fn c64_one() -> C64 {
    C64 { re: dec_one(), im: dec_zero() }
}

/// Componentwise sums are representable.
pub open spec fn c64_add_pre(a: C64, b: C64) -> bool {
    add_pre(a.re, b.re) && add_pre(a.im, b.im)
}

/// The componentwise precision-aware sum.
pub open spec fn c64_add_spec(a: C64, b: C64) -> C64 {
    C64 { re: add_spec(a.re, b.re), im: add_spec(a.im, b.im) }
}

/// Componentwise differences are representable.
pub open spec fn c64_sub_pre(a: C64, b: C64) -> bool {
    sub_pre(a.re, b.re) && sub_pre(a.im, b.im)
}

/// The componentwise precision-aware difference.
pub open spec fn c64_sub_spec(a: C64, b: C64) -> C64 {
    C64 { re: sub_spec(a.re, b.re), im: sub_spec(a.im, b.im) }
}

/// The four partial products and their two combinations are representable.
pub open spec fn c64_mul_pre(a: C64, b: C64) -> bool {
    &&& mul_pre(a.re, b.re)
    &&& mul_pre(a.im, b.im)
    &&& mul_pre(a.re, b.im)
    &&& mul_pre(a.im, b.re)
    &&& sub_pre(mul_spec(a.re, b.re), mul_spec(a.im, b.im))
    &&& add_pre(mul_spec(a.re, b.im), mul_spec(a.im, b.re))
}

/// The standard complex product `(ac - bd) + (ad + bc)i`, every partial
/// product and both combining operations precision-aware.
pub open spec fn c64_mul_spec(a: C64, b: C64) -> C64 {
    C64 {
        re: sub_spec(mul_spec(a.re, b.re), mul_spec(a.im, b.im)),
        im: add_spec(mul_spec(a.re, b.im), mul_spec(a.im, b.re)),
    }
}

impl C64 {
    /// Both components are well-formed decimals.
    pub open spec fn wf(self) -> bool {
        self.re.wf() && self.im.wf()
    }

    /// The complex number with the given real and imaginary components.
    pub fn new(re: Dec, im: Dec) -> (r: C64)
        ensures
            r == (C64 { re, im }),
    {
        C64 { re, im }
    }

    /// Componentwise precision-aware addition.
    pub fn add(self, other: C64) -> (r: C64)
        requires
            self.wf(),
            other.wf(),
            c64_add_pre(self, other),
        ensures
            r == c64_add_spec(self, other),
            r.wf(),
    {
        C64 { re: precise_add(self.re, other.re), im: precise_add(self.im, other.im) }
    }

    /// Componentwise precision-aware subtraction.
    pub fn sub(self, other: C64) -> (r: C64)
        requires
            self.wf(),
            other.wf(),
            c64_sub_pre(self, other),
        ensures
            r == c64_sub_spec(self, other),
            r.wf(),
    {
        C64 { re: precise_subtract(self.re, other.re), im: precise_subtract(self.im, other.im) }
    }

    /// Precision-aware complex multiplication.
    pub fn mul(self, other: C64) -> (r: C64)
        requires
            self.wf(),
            other.wf(),
            c64_mul_pre(self, other),
        ensures
            r == c64_mul_spec(self, other),
            r.wf(),
    {
        let p1 = precise_multiply(self.re, other.re);
        let p2 = precise_multiply(self.im, other.im);
        let p3 = precise_multiply(self.re, other.im);
        let p4 = precise_multiply(self.im, other.re);
        C64 { re: precise_subtract(p1, p2), im: precise_add(p3, p4) }
    }
}

/// The conjugate: same real component, sign-negated imaginary component.
pub open spec fn conj_spec(b: C64) -> C64 {
    C64 { re: b.re, im: neg_spec(b.im) }
}

/// The squared modulus of the divisor, `re^2 + im^2`, computed exactly by
/// the precision-aware scalar operations.
pub open spec fn den_spec(b: C64) -> Dec {
    add_spec(mul_spec(b.re, b.re), mul_spec(b.im, b.im))
}

/// The squared modulus is representable.
pub open spec fn den_pre(b: C64) -> bool {
    &&& mul_pre(b.re, b.re)
    &&& mul_pre(b.im, b.im)
    &&& add_pre(mul_spec(b.re, b.re), mul_spec(b.im, b.im))
}

/// Integer division of `n` by positive `d`, rounded to the nearest
/// quotient with ties going away from zero.
pub open spec fn round_div(n: int, d: int) -> int {
    if n >= 0 {
        (2 * n + d) / (2 * d)
    } else {
        -((2 * (-n) + d) / (2 * d))
    }
}

/// The rounded quotient is the nearest integer to `n / d`: the residue
/// `n - q * d` never exceeds half the divisor in magnitude, and at an
/// exact half the quotient lies on the side away from zero.
pub proof fn lemma_round_div_nearest(n: int, d: int)
    requires
        d > 0,
    ensures
        n >= 0 ==> -d <= 2 * (n - round_div(n, d) * d) < d,
        n < 0 ==> -d < 2 * (n - round_div(n, d) * d) <= d,
{
    if n >= 0 {
        vstd::arithmetic::div_mod::lemma_fundamental_div_mod(2 * n + d, 2 * d);
        let q = (2 * n + d) / (2 * d);
        let r = (2 * n + d) % (2 * d);
        assert(2 * (n - q * d) == r - d) by (nonlinear_arith)
            requires
                2 * n + d == (2 * d) * q + r,
        ;
    } else {
        vstd::arithmetic::div_mod::lemma_fundamental_div_mod(2 * (-n) + d, 2 * d);
        let q = (2 * (-n) + d) / (2 * d);
        let r = (2 * (-n) + d) % (2 * d);
        assert(2 * (n - (-q) * d) == d - r) by (nonlinear_arith)
            requires
                2 * (-n) + d == (2 * d) * q + r,
        ;
    }
}

/// A division result component: the quotient `num / den`, scaled to five
/// decimal places, rounded half away from zero, and rescaled to canonical
/// form.
pub open spec fn div5_full(num: Dec, den: Dec) -> (int, nat) {
    norm_spec(
        round_div(
            num.mantissa * pow10((den.places + 5) as nat),
            den.mantissa * pow10(num.places as nat),
        ),
        5,
    )
}

/// The scaled numerator and the rounded quotient stay inside the machine
/// words.
pub open spec fn div5_pre(num: Dec, den: Dec) -> bool {
    &&& -0x1fff_ffff_ffff_ffff_ffff_ffff_ffff_ffff <= num.mantissa * pow10(
        (den.places + 5) as nat,
    ) <= 0x1fff_ffff_ffff_ffff_ffff_ffff_ffff_ffff
    &&& dec_fits(
        round_div(
            num.mantissa * pow10((den.places + 5) as nat),
            den.mantissa * pow10(num.places as nat),
        ),
    )
}

/// A division result component as a decimal.
pub open spec fn div5_spec(num: Dec, den: Dec) -> Dec {
    Dec { mantissa: div5_full(num, den).0 as i64, places: div5_full(num, den).1 as u32 }
}

/// One division component: divide the numerator component by the squared
/// modulus and round to five decimal places, half away from zero.
fn div_round5(num: Dec, den: Dec) -> (r: Dec)
    requires
        num.wf(),
        den.wf(),
        den.mantissa > 0,
        div5_pre(num, den),
    ensures
        r == div5_spec(num, den),
        (r.mantissa as int, r.places as nat) == div5_full(num, den),
        r.wf(),
{
    let pn: i128 = pow10_i128(den.places + 5);
    let pd: i128 = pow10_i128(num.places);
    proof {
        lemma_pow10_18();
        lemma_pow10_increases(num.places as nat, 18);
        assert(1 <= (den.mantissa as int) * (pd as int) <= 0x7fff_ffff_ffff_ffff
            * 1000000000000000000) by (nonlinear_arith)
            requires
                1 <= den.mantissa as int <= 0x7fff_ffff_ffff_ffff,
                1 <= pd as int <= 1000000000000000000,
        ;
    }
    let n: i128 = (num.mantissa as i128) * pn;
    let d: i128 = (den.mantissa as i128) * pd;
    let n_neg: bool = n < 0;
    let n_mag: u128 = if n_neg {
        (-n) as u128
    } else {
        n as u128
    };
    let d_mag: u128 = d as u128;
    let q_mag: u128 = (2 * n_mag + d_mag) / (2 * d_mag);
    proof {
        vstd::arithmetic::div_mod::lemma_div_nonincreasing(
            2 * (n_mag as int) + (d_mag as int),
            2 * (d_mag as int),
        );
    }
    let q: i128 = if n_neg {
        -(q_mag as i128)
    } else {
        q_mag as i128
    };
    proof {
        assert(q == round_div(n as int, d as int));
        lemma_norm_canonical(q as int, 5);
    }
    dec_from_scaled(q, 5)
}

/// A nonzero divisor has a positive squared modulus: the sum of the two
/// squares is positive unless both components are zero.
pub proof fn lemma_den_positive(b: C64)
    requires
        b.wf(),
        den_pre(b),
        !(b.re.mantissa == 0 && b.im.mantissa == 0),
    ensures
        den_spec(b).mantissa > 0,
{
    let mr = b.re.mantissa as int;
    let mi = b.im.mantissa as int;
    assert(mr * mr >= 0 && (mr != 0 ==> mr * mr > 0)) by (nonlinear_arith);
    assert(mi * mi >= 0 && (mi != 0 ==> mi * mi > 0)) by (nonlinear_arith);
    lemma_norm_canonical(mr * mr, (b.re.places + b.re.places) as nat);
    lemma_norm_canonical(mi * mi, (b.im.places + b.im.places) as nat);
    let sr = mul_spec(b.re, b.re);
    let si = mul_spec(b.im, b.im);
    let hi = hi_places(sr.places as nat, si.places as nat);
    let xr = pow10((hi - sr.places) as nat);
    let xi = pow10((hi - si.places) as nat);
    lemma_pow10_pos((hi - sr.places) as nat);
    lemma_pow10_pos((hi - si.places) as nat);
    assert(aligned_sum(sr, si) > 0) by (nonlinear_arith)
        requires
            aligned_sum(sr, si) == (sr.mantissa as int) * xr + (si.mantissa as int) * xi,
            sr.mantissa as int >= 0,
            si.mantissa as int >= 0,
            sr.mantissa as int > 0 || si.mantissa as int > 0,
            xr >= 1,
            xi >= 1,
    ;
    lemma_norm_canonical(aligned_sum(sr, si), hi);
}

/// The divisor is usable and every intermediate of the division is
/// representable.
pub open spec fn c64_div_pre(a: C64, b: C64) -> bool {
    &&& !(b.re.mantissa == 0 && b.im.mantissa == 0)
    &&& c64_mul_pre(a, conj_spec(b))
    &&& den_pre(b)
    &&& div5_pre(c64_mul_spec(a, conj_spec(b)).re, den_spec(b))
    &&& div5_pre(c64_mul_spec(a, conj_spec(b)).im, den_spec(b))
}

/// The quotient: the numerator `a * conj(b)` with each component divided
/// by the squared modulus of `b` and rounded to five decimal places.
pub open spec fn c64_div_spec(a: C64, b: C64) -> C64 {
    C64 {
        re: div5_spec(c64_mul_spec(a, conj_spec(b)).re, den_spec(b)),
        im: div5_spec(c64_mul_spec(a, conj_spec(b)).im, den_spec(b)),
    }
}

impl C64 {
    /// Complex division, rounded to five decimal places componentwise.
    pub fn div(self, other: C64) -> (r: C64)
        requires
            self.wf(),
            other.wf(),
            c64_div_pre(self, other),
        ensures
            r == c64_div_spec(self, other),
            r.wf(),
    {
        let conj = C64 { re: other.re, im: dec_neg(other.im) };
        let num = self.mul(conj);
        let sq_re = precise_multiply(other.re, other.re);
        let sq_im = precise_multiply(other.im, other.im);
        let den = precise_add(sq_re, sq_im);
        proof {
            lemma_den_positive(other);
        }
        C64 { re: div_round5(num.re, den), im: div_round5(num.im, den) }
    }
}

/// The complex zero is the additive identity.
pub proof fn lemma_c64_add_identity(x: C64)
    requires
        x.wf(),
    ensures
        c64_add_pre(x, c64_zero()),
        c64_add_spec(x, c64_zero()) == x,
        c64_add_pre(c64_zero(), x),
        c64_add_spec(c64_zero(), x) == x,
{
    lemma_precise_add_zero(x.re);
    lemma_precise_add_zero(x.im);
}

/// The complex one is the multiplicative identity.
pub proof fn lemma_c64_mul_identity(x: C64)
    requires
        x.wf(),
    ensures
        c64_mul_pre(x, c64_one()),
        c64_mul_spec(x, c64_one()) == x,
{
    lemma_precise_multiply_one(x.re);
    lemma_precise_multiply_one(x.im);
    lemma_precise_multiply_zero(x.re);
    lemma_precise_multiply_zero(x.im);
    lemma_precise_add_zero(x.re);
    lemma_precise_add_zero(x.im);
    assert(neg_spec(dec_zero()) == dec_zero());
}

} // verus!
